//! The wavetable oscillator: a phase that walks a wave table in fixed-point
//! steps, read with linear interpolation between neighbouring entries.
//!
//! Phase is counted in ticks. One table step is `sample_rate * 1000` ticks, so
//! that a frequency in millihertz gives a whole number of ticks per sample and
//! the phase never drifts.

use vstd::prelude::*;
use crate::arith::floor_div;
use crate::arith::wrap_add;
use crate::laws::lemma_integer_phase_reads_table;
use crate::table::valid_samples;
use crate::table::WaveTable;
use crate::table::FULL_SCALE;

verus! {

/// Frequencies are given in thousandths of a hertz.
pub const MILLIHERTZ_PER_HERTZ: u32 = 1000;

/// The value at `fraction / resolution` of the way from `floored` to `next`,
/// rounded down.
pub open spec fn interpolate(floored: int, next: int, fraction: int, resolution: int) -> int {
    (floored * (resolution - fraction) + next * fraction) / resolution
}

/// What an oscillator is, as numbers.
pub struct OscillatorView {
    /// Samples per second.
    pub sample_rate: nat,
    /// The wave table.
    pub table: Seq<i32>,
    /// The read position, in ticks.
    pub phase: nat,
    /// Ticks that the phase moves per sample.
    pub increment: int,
}

impl OscillatorView {
    /// Ticks in one table step.
    pub open spec fn resolution(self) -> nat {
        self.sample_rate * (MILLIHERTZ_PER_HERTZ as nat)
    }

    /// Ticks in one pass over the table.
    pub open spec fn period(self) -> nat {
        self.table.len() * self.resolution()
    }

    /// The sample rate is positive, the table is valid and the phase lies
    /// within one pass over the table.
    pub open spec fn wf(self) -> bool {
        &&& self.sample_rate > 0
        &&& valid_samples(self.table)
        &&& self.phase < self.period()
    }

    /// The table index at or below the phase.
    pub open spec fn floored_index(self) -> int {
        self.phase as int / self.resolution() as int
    }

    /// The table index after `floored_index`, cyclically.
    pub open spec fn next_index(self) -> int {
        (self.floored_index() + 1) % (self.table.len() as int)
    }

    /// How far the phase is past `floored_index`, in ticks.
    pub open spec fn fraction(self) -> int {
        self.phase as int % self.resolution() as int
    }

    /// The interpolated table value at the current phase.
    pub open spec fn current_sample(self) -> int {
        interpolate(
            self.table[self.floored_index()] as int,
            self.table[self.next_index()] as int,
            self.fraction(),
            self.resolution() as int,
        )
    }

    /// The oscillator after one sample: the phase moved by the increment and
    /// wrapped into the table.
    pub open spec fn advance(self) -> OscillatorView {
        OscillatorView {
            phase: ((self.phase + self.increment) % (self.period() as int)) as nat,
            ..self
        }
    }

    /// The oscillator after `count` samples.
    pub open spec fn advance_by(self, count: nat) -> OscillatorView
        decreases count,
    {
        if count == 0 {
            self
        } else {
            self.advance_by((count - 1) as nat).advance()
        }
    }

    /// The value of the sample that is `count` samples ahead.
    pub open spec fn sample_at(self, count: nat) -> int {
        self.advance_by(count).current_sample()
    }

    /// The oscillator tuned to `millihertz`: per sample the phase moves by
    /// `frequency * table length / sample_rate` table steps.
    pub open spec fn tuned(self, millihertz: int) -> OscillatorView {
        OscillatorView { increment: millihertz * self.table.len(), ..self }
    }
}

/// The floored index and its successor are indices of the table, and the
/// fraction is less than one table step.
pub proof fn lemma_indices_in_table(v: OscillatorView)
    requires
        v.wf(),
    ensures
        0 <= v.floored_index() < v.table.len(),
        0 <= v.next_index() < v.table.len(),
        0 <= v.fraction() < v.resolution(),
        v.phase == v.floored_index() * v.resolution() + v.fraction(),
{
    let d = v.resolution() as int;
    let n = v.table.len() as int;
    let p = v.phase as int;
    assert(d > 0) by (nonlinear_arith)
        requires
            d == v.sample_rate * 1000,
            v.sample_rate > 0,
    ;
    vstd::arithmetic::div_mod::lemma_fundamental_div_mod(p, d);
    assert(0 <= p / d < n) by (nonlinear_arith)
        requires
            0 <= p < n * d,
            d > 0,
            p == d * (p / d) + p % d,
            0 <= p % d < d,
    ;
    assert(p == (p / d) * d + p % d) by (nonlinear_arith)
        requires
            p == d * (p / d) + p % d,
    ;
}

/// An interpolated value lies between the two values it is taken from.
pub proof fn lemma_interpolate_between(floored: int, next: int, fraction: int, resolution: int)
    requires
        0 <= fraction < resolution,
    ensures
        floored <= next ==> floored <= interpolate(floored, next, fraction, resolution) <= next,
        next <= floored ==> next <= interpolate(floored, next, fraction, resolution) <= floored,
{
    let numerator = floored * (resolution - fraction) + next * fraction;
    let q = numerator / resolution;
    vstd::arithmetic::div_mod::lemma_fundamental_div_mod(numerator, resolution);
    if floored <= next {
        assert(floored <= q <= next) by (nonlinear_arith)
            requires
                numerator == floored * (resolution - fraction) + next * fraction,
                numerator == resolution * q + numerator % resolution,
                0 <= numerator % resolution < resolution,
                0 <= fraction < resolution,
                floored <= next,
        ;
    }
    if next <= floored {
        assert(next <= q <= floored) by (nonlinear_arith)
            requires
                numerator == floored * (resolution - fraction) + next * fraction,
                numerator == resolution * q + numerator % resolution,
                0 <= numerator % resolution < resolution,
                0 <= fraction < resolution,
                next <= floored,
        ;
    }
}

/// A wavetable oscillator.
pub struct WaveTableOscillator {
    sample_rate: u32,
    wave_table: WaveTable,
    index: u128,
    index_increment: i128,
}

impl View for WaveTableOscillator {
    type V = OscillatorView;

    closed spec fn view(&self) -> OscillatorView {
        OscillatorView {
            sample_rate: self.sample_rate as nat,
            table: self.wave_table@,
            phase: self.index as nat,
            increment: self.index_increment as int,
        }
    }
}

impl WaveTableOscillator {
    #[verifier::type_invariant]
    closed spec fn inv(&self) -> bool {
        self@.wf()
    }

    /// A silent oscillator at the start of `wave_table`: phase 0, increment 0.
    /// A sample rate of 0 is refused.
    pub fn new(sample_rate: u32, wave_table: WaveTable) -> (result: Option<WaveTableOscillator>)
        ensures
            result is Some <==> sample_rate > 0,
            result matches Some(oscillator) ==> oscillator@ == (OscillatorView {
                sample_rate: sample_rate as nat,
                table: wave_table@,
                phase: 0,
                increment: 0,
            }) && oscillator@.wf(),
    {
        if sample_rate == 0 {
            return None;
        }
        let length: usize = wave_table.len();
        proof {
            assert(0 < length as nat * (sample_rate as nat * 1000)) by (nonlinear_arith)
                requires
                    length >= 2,
                    sample_rate > 0,
            ;
        }
        Some(WaveTableOscillator { sample_rate, wave_table, index: 0, index_increment: 0 })
    }

    /// Tunes the oscillator to `millihertz` thousandths of a hertz. Any
    /// frequency is taken: a negative one plays the table backwards, a large
    /// one wraps around it.
    pub fn set_frequency(&mut self, millihertz: i64)
        ensures
            final(self)@ == old(self)@.tuned(millihertz as int),
            final(self)@.wf(),
    {
        proof {
            use_type_invariant(&*self);
        }
        let length: usize = self.wave_table.len();
        proof {
            assert(i128::MIN <= (millihertz as int) * (length as int) <= i128::MAX)
                by (nonlinear_arith)
                requires
                    -0x8000_0000_0000_0000 <= millihertz as int <= 0x7fff_ffff_ffff_ffff,
                    0 <= length as int <= 0xffff_ffff_ffff_ffff,
            ;
        }
        self.index_increment = millihertz as i128 * length as i128;
    }

    /// The interpolated table value at the current phase.
    pub fn lerp(&self) -> (sample: i32)
        ensures
            sample == self@.current_sample(),
            -FULL_SCALE <= sample <= FULL_SCALE,
            self@.fraction() == 0 ==> sample == self@.table[self@.floored_index()],
            self@.wf(),
    {
        proof {
            use_type_invariant(self);
            lemma_indices_in_table(self@);
        }
        let resolution: u64 = self.sample_rate as u64 * MILLIHERTZ_PER_HERTZ as u64;
        let length: usize = self.wave_table.len();
        let floored_index: usize = (self.index / resolution as u128) as usize;
        let next_weight: u64 = (self.index % resolution as u128) as u64;
        let floored_weight: u64 = resolution - next_weight;
        let floored: i32 = self.wave_table.sample(floored_index);
        let next_index: usize = (floored_index + 1) % length;
        let next: i32 = self.wave_table.sample(next_index);
        proof {
            vstd::arithmetic::div_mod::lemma_small_mod(
                floored_index as nat,
                self@.table.len(),
            );
            vstd::arithmetic::div_mod::lemma_small_mod(next_index as nat, self@.table.len());
            assert(-0x4_0000_0000_0000_0000_0000 <= floored as int * floored_weight as int
                <= 0x4_0000_0000_0000_0000_0000) by (nonlinear_arith)
                requires
                    -0x100_0000 <= floored as int <= 0x100_0000,
                    0 <= floored_weight as int <= 0x400_0000_0000_0000,
            ;
            assert(-0x4_0000_0000_0000_0000_0000 <= next as int * next_weight as int
                <= 0x4_0000_0000_0000_0000_0000) by (nonlinear_arith)
                requires
                    -0x100_0000 <= next as int <= 0x100_0000,
                    0 <= next_weight as int <= 0x400_0000_0000_0000,
            ;
            lemma_interpolate_between(
                floored as int,
                next as int,
                next_weight as int,
                resolution as int,
            );
        }
        let numerator: i128 = floored as i128 * floored_weight as i128 + next as i128
            * next_weight as i128;
        let sample: i128 = floor_div(numerator, resolution);
        proof {
            if next_weight == 0 {
                lemma_integer_phase_reads_table(self@);
            }
        }
        sample as i32
    }

    /// Returns the interpolated value at the current phase, then moves the
    /// phase by the increment and wraps it into the table.
    pub fn get_sample(&mut self) -> (sample: i32)
        ensures
            sample == old(self)@.current_sample(),
            -FULL_SCALE <= sample <= FULL_SCALE,
            final(self)@ == old(self)@.advance(),
            final(self)@.wf(),
    {
        proof {
            use_type_invariant(&*self);
        }
        let sample: i32 = self.lerp();
        let resolution: u64 = self.sample_rate as u64 * MILLIHERTZ_PER_HERTZ as u64;
        let length: usize = self.wave_table.len();
        proof {
            assert(0 < length as int * resolution as int <= 0xffff_ffff_ffff_ffff
                * 0x400_0000_0000_0000) by (nonlinear_arith)
                requires
                    2 <= length as int <= 0xffff_ffff_ffff_ffff,
                    0 < resolution as int <= 0x400_0000_0000_0000,
            ;
        }
        let period: u128 = length as u128 * resolution as u128;
        self.index = wrap_add(self.index, self.index_increment, period);
        sample
    }

    /// The next sample of the stream, which never ends.
    pub fn next(&mut self) -> (item: Option<i32>)
        ensures
            item matches Some(sample) && sample == old(self)@.current_sample(),
            final(self)@ == old(self)@.advance(),
            final(self)@.wf(),
    {
        Some(self.get_sample())
    }

    /// The number of channels: one.
    pub fn channels(&self) -> (count: u16)
        ensures
            count == 1,
    {
        1
    }

    /// Samples per second.
    pub fn sample_rate(&self) -> (rate: u32)
        ensures
            rate == self@.sample_rate,
            self@.wf(),
    {
        proof {
            use_type_invariant(self);
        }
        self.sample_rate
    }

    /// The length of the current frame: unknown, the stream has no frames.
    pub fn current_frame_len(&self) -> (length: Option<usize>)
        ensures
            length is None,
    {
        None
    }

    /// The stream's duration: none, it never ends.
    pub fn total_duration(&self) -> (duration: Option<std::time::Duration>)
        ensures
            duration is None,
    {
        None
    }
}

} // verus!
