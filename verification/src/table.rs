//! The wave table: one period of a waveform as a cyclic sequence of samples.

use vstd::prelude::*;

verus! {

/// The integer that stands for the amplitude 1.0. Table entries lie in
/// `[-FULL_SCALE, FULL_SCALE]`.
pub const FULL_SCALE: i32 = 16_777_216;

/// Whether `samples` can serve as a wave table: interpolation needs two
/// points at least, and every entry is within unit amplitude.
pub open spec fn valid_samples(samples: Seq<i32>) -> bool {
    &&& samples.len() >= 2
    &&& forall|i: int| 0 <= i < samples.len() ==> -FULL_SCALE <= #[trigger] samples[i] <= FULL_SCALE
}

/// One period of a waveform. Entry `len()` is entry 0 again.
pub struct WaveTable {
    samples: Vec<i32>,
}

impl View for WaveTable {
    type V = Seq<i32>;

    closed spec fn view(&self) -> Seq<i32> {
        self.samples@
    }
}

impl WaveTable {
    #[verifier::type_invariant]
    closed spec fn inv(&self) -> bool {
        valid_samples(self.samples@)
    }

    /// Takes `samples` as a table, or refuses them where they are no valid table.
    pub fn new(samples: Vec<i32>) -> (result: Option<WaveTable>)
        ensures
            result is Some <==> valid_samples(samples@),
            result matches Some(table) ==> table@ == samples@,
    {
        if samples.len() < 2 {
            return None;
        }
        let mut i: usize = 0;
        while i < samples.len()
            invariant
                i <= samples.len(),
                forall|k: int| 0 <= k < i ==> -FULL_SCALE <= #[trigger] samples@[k] <= FULL_SCALE,
            decreases samples.len() - i,
        {
            if samples[i] < -FULL_SCALE || samples[i] > FULL_SCALE {
                return None;
            }
            i += 1;
        }
        Some(WaveTable { samples })
    }

    /// The number of entries, at least 2.
    pub fn len(&self) -> (n: usize)
        ensures
            n == self@.len(),
            n >= 2,
            valid_samples(self@),
    {
        proof {
            use_type_invariant(self);
        }
        self.samples.len()
    }

    /// The entry at `index`, counted cyclically: index `len()` is index 0 again.
    pub fn sample(&self, index: usize) -> (value: i32)
        ensures
            value == self@[index as int % self@.len() as int],
            -FULL_SCALE <= value <= FULL_SCALE,
    {
        proof {
            use_type_invariant(self);
        }
        self.samples[index % self.samples.len()]
    }
}

impl Clone for WaveTable {
    fn clone(&self) -> (copy: Self)
        ensures
            copy@ == self@,
    {
        proof {
            use_type_invariant(self);
        }
        WaveTable { samples: self.samples.clone() }
    }
}

} // verus!
