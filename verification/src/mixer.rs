//! The mixer: several oscillators summed into one stream.

use vstd::prelude::*;
use crate::oscillator::OscillatorView;
use crate::oscillator::WaveTableOscillator;
use crate::table::FULL_SCALE;

verus! {

/// The sum of `values`, first to last.
pub open spec fn sum(values: Seq<int>) -> int
    decreases values.len(),
{
    if values.len() == 0 {
        0
    } else {
        sum(values.drop_last()) + values.last()
    }
}

/// The current sample of each of `voices`, in order.
pub open spec fn current_samples(voices: Seq<OscillatorView>) -> Seq<int> {
    Seq::new(voices.len(), |i: int| voices[i].current_sample())
}

/// The mixer's output: the sum of the current samples of `voices`.
pub open spec fn mix(voices: Seq<OscillatorView>) -> int {
    sum(current_samples(voices))
}

/// Every one of `voices` moved on by one sample.
pub open spec fn advance_all(voices: Seq<OscillatorView>) -> Seq<OscillatorView> {
    Seq::new(voices.len(), |i: int| voices[i].advance())
}

/// `voices` after the mixer has given `count` samples.
pub open spec fn advance_all_by(voices: Seq<OscillatorView>, count: nat) -> Seq<OscillatorView>
    decreases count,
{
    if count == 0 {
        voices
    } else {
        advance_all(advance_all_by(voices, (count - 1) as nat))
    }
}

/// Every one of `voices` is well formed.
pub open spec fn all_wf(voices: Seq<OscillatorView>) -> bool {
    forall|i: int| 0 <= i < voices.len() ==> (#[trigger] voices[i]).wf()
}

/// The views of `oscillators`, in order.
pub open spec fn views(oscillators: Seq<WaveTableOscillator>) -> Seq<OscillatorView> {
    Seq::new(oscillators.len(), |i: int| oscillators[i]@)
}

/// A summing source over one or more oscillators.
pub struct MultiOscillator {
    oscillators: Vec<WaveTableOscillator>,
}

impl View for MultiOscillator {
    type V = Seq<OscillatorView>;

    closed spec fn view(&self) -> Seq<OscillatorView> {
        views(self.oscillators@)
    }
}

impl MultiOscillator {
    #[verifier::type_invariant]
    closed spec fn inv(&self) -> bool {
        self.oscillators@.len() > 0
    }

    /// A mixer over `oscillators`, which it keeps in their order. An empty
    /// list is refused.
    pub fn new(oscillators: Vec<WaveTableOscillator>) -> (result: Option<MultiOscillator>)
        ensures
            result is Some <==> oscillators@.len() > 0,
            result matches Some(mixer) ==> mixer@ == views(oscillators@),
    {
        if oscillators.len() == 0 {
            return None;
        }
        Some(MultiOscillator { oscillators })
    }

    /// The sum of the next sample of every oscillator, oscillator 0 first.
    /// Each oscillator moves on by one sample. Nothing is clipped.
    pub fn next(&mut self) -> (item: Option<i128>)
        ensures
            item matches Some(sample) && sample == mix(old(self)@),
            final(self)@ == advance_all(old(self)@),
            all_wf(final(self)@),
            item matches Some(sample) && -(FULL_SCALE * old(self)@.len()) <= sample <= FULL_SCALE
                * old(self)@.len(),
    {
        let count: usize = self.oscillators.len();
        let mut total: i128 = 0;
        let mut i: usize = 0;
        while i < count
            invariant
                i <= count,
                count == self.oscillators@.len(),
                count == old(self)@.len(),
                forall|k: int| 0 <= k < i ==> self@[k] == old(self)@[k].advance(),
                forall|k: int| i <= k < count ==> self@[k] == old(self)@[k],
                forall|k: int| 0 <= k < i ==> (#[trigger] self@[k]).wf(),
                total == sum(current_samples(old(self)@).take(i as int)),
                -(FULL_SCALE * i) <= total <= FULL_SCALE * i,
            decreases count - i,
        {
            let ghost before = self@;
            let ghost before_oscillators = self.oscillators@;
            let sample: i32 = self.oscillators[i].get_sample();
            proof {
                assert forall|k: int| 0 <= k < count && k != i implies self@[k] == before[k] by {
                    assert(self.oscillators@[k] == before_oscillators[k]);
                }
                assert(self@[i as int] == before[i as int].advance());
                assert forall|k: int| 0 <= k < i + 1 implies self@[k] == old(self)@[k].advance()
                    && self@[k].wf() by {
                    if k < i {
                        assert(before[k] == old(self)@[k].advance());
                        assert(before[k].wf());
                    }
                }
                assert(current_samples(old(self)@).take(i + 1).drop_last() == current_samples(
                    old(self)@,
                ).take(i as int));
            }
            total = total + sample as i128;
            i += 1;
        }
        proof {
            assert(current_samples(old(self)@).take(count as int) == current_samples(old(self)@));
            assert(self@ =~= advance_all(old(self)@));
        }
        Some(total)
    }

    /// The number of channels: one.
    pub fn channels(&self) -> (count: u16)
        ensures
            count == 1,
    {
        1
    }

    /// Samples per second: the sample rate of oscillator 0.
    pub fn sample_rate(&self) -> (rate: u32)
        ensures
            rate == self@[0].sample_rate,
    {
        proof {
            use_type_invariant(self);
        }
        self.oscillators[0].sample_rate()
    }

    /// The length of the current frame: unknown, the stream has no frames.
    pub fn current_frame_len(&self) -> (length: Option<usize>)
        ensures
            length is None,
    {
        None
    }

    /// The stream's duration: none, it never ends.
    pub fn total_duration(&self) -> (duration: Option<std::time::Duration>)
        ensures
            duration is None,
    {
        None
    }
}

} // verus!
