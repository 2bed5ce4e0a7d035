//! What holds of oscillators and mixers over any number of samples.

use vstd::prelude::*;
use vstd::arithmetic::div_mod::lemma_add_mod_noop_right;
use vstd::arithmetic::div_mod::lemma_div_multiples_vanish;
use vstd::arithmetic::div_mod::lemma_fundamental_div_mod;
use vstd::arithmetic::div_mod::lemma_mod_multiples_vanish;
use vstd::arithmetic::div_mod::lemma_mod_bound;
use vstd::arithmetic::div_mod::lemma_small_mod;
use crate::arith::gcd;
use crate::arith::lemma_gcd_divides;
use crate::arith::lemma_gcd_is_combination;
use crate::mixer::advance_all;
use crate::mixer::advance_all_by;
use crate::mixer::all_wf;
use crate::mixer::current_samples;
use crate::mixer::mix;
use crate::mixer::sum;
use crate::oscillator::OscillatorView;

verus! {

/// One pass over the table is a positive number of ticks.
pub proof fn lemma_period_positive(v: OscillatorView)
    requires
        v.wf(),
    ensures
        v.resolution() > 0,
        v.period() > 0,
{
    assert(v.resolution() > 0 && v.period() > 0) by (nonlinear_arith)
        requires
            v.resolution() == v.sample_rate * 1000,
            v.period() == v.table.len() * v.resolution(),
            v.sample_rate > 0,
            v.table.len() >= 2,
    ;
}

/// A sample moves the phase and nothing else, and keeps the oscillator well
/// formed: the phase stays within one pass over the table.
pub proof fn lemma_advance_keeps_wf(v: OscillatorView)
    requires
        v.wf(),
    ensures
        v.advance().wf(),
        v.advance().sample_rate == v.sample_rate,
        v.advance().table == v.table,
        v.advance().increment == v.increment,
        v.advance().phase == (v.phase + v.increment) % (v.period() as int),
{
    lemma_period_positive(v);
    lemma_mod_bound(v.phase + v.increment, v.period() as int);
}

/// After `count` samples the phase is the starting phase plus `count`
/// increments, wrapped into the table; nothing else has changed.
pub proof fn lemma_advance_by_phase(v: OscillatorView, count: nat)
    requires
        v.wf(),
    ensures
        v.advance_by(count).wf(),
        v.advance_by(count).sample_rate == v.sample_rate,
        v.advance_by(count).table == v.table,
        v.advance_by(count).increment == v.increment,
        v.advance_by(count).phase == (v.phase + count * v.increment) % (v.period() as int),
    decreases count,
{
    lemma_period_positive(v);
    let m = v.period() as int;
    if count == 0 {
        assert(v.phase + 0 * v.increment == v.phase) by (nonlinear_arith);
        lemma_small_mod(v.phase, v.period());
    } else {
        let before = v.advance_by((count - 1) as nat);
        lemma_advance_by_phase(v, (count - 1) as nat);
        lemma_advance_keeps_wf(before);
        let travelled = v.phase + (count - 1) * v.increment;
        assert(before.period() == v.period());
        assert(before.phase == travelled % m);
        lemma_add_mod_noop_right(v.increment, travelled, m);
        assert(v.increment + travelled == v.phase + count * v.increment) by (nonlinear_arith)
            requires
                travelled == v.phase + (count - 1) * v.increment,
        ;
    }
}

/// With an increment of 0 the oscillator stands still: every sample is the
/// same value.
pub proof fn lemma_zero_increment_is_static(v: OscillatorView, count: nat)
    requires
        v.wf(),
        v.increment == 0,
    ensures
        v.advance_by(count) == v,
        v.sample_at(count) == v.current_sample(),
{
    lemma_advance_by_phase(v, count);
    assert(v.phase + count * v.increment == v.phase) by (nonlinear_arith)
        requires
            v.increment == 0,
    ;
    lemma_small_mod(v.phase, v.period());
}

/// With an increment of `steps` whole table steps, the phase is back at its
/// starting value after `table length / divisor` samples, for every common
/// divisor of the table length and `steps`.
pub proof fn lemma_phase_returns(v: OscillatorView, steps: int, divisor: nat)
    requires
        v.wf(),
        v.increment == steps * v.resolution(),
        divisor > 0,
        v.table.len() % divisor == 0,
        steps % (divisor as int) == 0,
    ensures
        v.advance_by(v.table.len() / divisor).phase == v.phase,
        v.advance_by(v.table.len() / divisor) == v,
{
    let n = v.table.len() as int;
    let g = divisor as int;
    let d = v.resolution() as int;
    let count = v.table.len() / divisor;
    lemma_period_positive(v);
    lemma_advance_by_phase(v, count);
    lemma_fundamental_div_mod(n, g);
    lemma_fundamental_div_mod(steps, g);
    let turns = steps / g;
    assert(count * v.increment == (n * d) * turns) by (nonlinear_arith)
        requires
            n == g * count,
            steps == g * turns,
            v.increment == steps * d,
    ;
    lemma_mod_multiples_vanish(turns, v.phase as int, v.period() as int);
    lemma_small_mod(v.phase, v.period());
    assert((v.period() as int) * turns + v.phase == v.phase + count * v.increment);
}

/// With an increment of `steps` whole table steps, the phase is back at its
/// starting value only after a multiple of `table length / gcd(table length,
/// steps)` samples.
pub proof fn lemma_phase_returns_only_at_multiples(v: OscillatorView, steps: nat, count: nat)
    requires
        v.wf(),
        steps > 0,
        v.increment == steps * v.resolution(),
        v.advance_by(count).phase == v.phase,
    ensures
        gcd(v.table.len(), steps) > 0,
        v.table.len() / gcd(v.table.len(), steps) > 0,
        count % (v.table.len() / gcd(v.table.len(), steps)) == 0,
{
    let n = v.table.len() as int;
    let d = v.resolution() as int;
    let m = v.period() as int;
    let p = v.phase as int;
    let g = gcd(v.table.len(), steps) as int;
    let k = steps as int;
    let c = count as int;
    lemma_period_positive(v);
    lemma_advance_by_phase(v, count);
    lemma_gcd_divides(v.table.len(), steps);
    // The distance travelled is a whole number of passes over the table.
    let travelled = c * v.increment;
    let passes = travelled / m;
    let rest = travelled % m;
    lemma_fundamental_div_mod(travelled, m);
    lemma_mod_bound(travelled, m);
    lemma_mod_multiples_vanish(passes, p + rest, m);
    assert(m * passes + (p + rest) == p + travelled);
    if p + rest < m {
        lemma_small_mod((p + rest) as nat, m as nat);
    } else {
        lemma_mod_multiples_vanish(-1, p + rest, m);
        lemma_small_mod((p + rest - m) as nat, m as nat);
    }
    assert(rest == 0);
    // So the table length divides count * steps, and count * gcd as well.
    assert(c * k == n * passes) by (nonlinear_arith)
        requires
            c * (k * d) == (n * d) * passes,
            d > 0,
    ;
    let (x, y) = lemma_gcd_is_combination(v.table.len(), steps);
    lemma_fundamental_div_mod(n, g);
    let shortest = n / g;
    assert(shortest > 0) by (nonlinear_arith)
        requires
            n == g * shortest,
            n > 0,
            g > 0,
    ;
    assert(c == shortest * (c * x + passes * y)) by (nonlinear_arith)
        requires
            n * x + k * y == g,
            c * k == n * passes,
            n == g * shortest,
            g > 0,
    ;
    lemma_mod_multiples_vanish(c * x + passes * y, 0, shortest);
    lemma_small_mod(0, shortest as nat);
}

/// With an increment of `steps` whole table steps, `0 < steps < table
/// length`, the phase is back at its starting value after exactly
/// `table length / gcd(table length, steps)` samples, and not before.
pub proof fn lemma_phase_periodic(v: OscillatorView, steps: nat)
    requires
        v.wf(),
        0 < steps < v.table.len(),
        v.increment == steps * v.resolution(),
    ensures
        gcd(v.table.len(), steps) > 0,
        v.advance_by(v.table.len() / gcd(v.table.len(), steps)).phase == v.phase,
        forall|count: nat|
            0 < count < v.table.len() / gcd(v.table.len(), steps) ==> #[trigger] v.advance_by(
                count,
            ).phase != v.phase,
{
    lemma_gcd_divides(v.table.len(), steps);
    lemma_phase_returns(v, steps as int, gcd(v.table.len(), steps));
    let shortest = v.table.len() / gcd(v.table.len(), steps);
    assert forall|count: nat| 0 < count < shortest implies #[trigger] v.advance_by(count).phase
        != v.phase by {
        if v.advance_by(count).phase == v.phase {
            lemma_phase_returns_only_at_multiples(v, steps, count);
            lemma_small_mod(count, shortest);
        }
    }
}

/// At a phase that is a whole number of table steps, the sample is the table
/// entry at that index: nothing is blended in.
pub proof fn lemma_integer_phase_reads_table(v: OscillatorView)
    requires
        v.wf(),
        v.fraction() == 0,
    ensures
        v.current_sample() == v.table[v.floored_index()],
{
    lemma_period_positive(v);
    let a = v.table[v.floored_index()] as int;
    let b = v.table[v.next_index()] as int;
    let d = v.resolution() as int;
    assert(a * (d - 0) + b * 0 == d * a) by (nonlinear_arith);
    lemma_div_multiples_vanish(a, d);
}

/// After any number of samples from the mixer, each oscillator is where it
/// would be had it given that many samples alone.
pub proof fn lemma_voices_advance_alone(voices: Seq<OscillatorView>, count: nat)
    ensures
        advance_all_by(voices, count).len() == voices.len(),
        forall|i: int|
            0 <= i < voices.len() ==> #[trigger] advance_all_by(voices, count)[i]
                == voices[i].advance_by(count),
    decreases count,
{
    if count > 0 {
        lemma_voices_advance_alone(voices, (count - 1) as nat);
    }
}

/// Every sample of the mixer is the sum of the samples that its oscillators
/// would give at that point, each taken alone.
pub proof fn lemma_mix_is_sum_of_voices(voices: Seq<OscillatorView>, count: nat)
    ensures
        mix(advance_all_by(voices, count)) == sum(
            Seq::new(voices.len(), |i: int| voices[i].sample_at(count)),
        ),
{
    lemma_voices_advance_alone(voices, count);
    assert(current_samples(advance_all_by(voices, count)) =~= Seq::new(
        voices.len(),
        |i: int| voices[i].sample_at(count),
    ));
}

/// Well-formed oscillators stay well formed under the mixer.
pub proof fn lemma_advance_all_keeps_wf(voices: Seq<OscillatorView>)
    requires
        all_wf(voices),
    ensures
        all_wf(advance_all(voices)),
{
    assert forall|i: int| 0 <= i < voices.len() implies (#[trigger] advance_all(voices)[i]).wf() by {
        lemma_advance_keeps_wf(voices[i]);
    }
}

} // verus!
