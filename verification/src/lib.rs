//! Fixed-point wavetable synthesis: a cyclic table of samples, oscillators
//! that read it with linear interpolation, and a mixer that sums oscillators.

pub mod arith;
pub mod laws;
pub mod mixer;
pub mod oscillator;
pub mod table;
