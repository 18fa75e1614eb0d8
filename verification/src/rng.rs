use vstd::prelude::*;
use crate::fx::FRAC;

verus! {

/// A source of uniform fixed-point samples in `[0, 1)`.  Rendering threads
/// use `Thread`, which draws from the process's thread-local generator, so
/// that workers sample independently; tests use `Seeded`, a deterministic
/// linear congruential sequence, so that runs are reproducible.
pub enum RandSource {
    Thread,
    Seeded(u64),
}

/// Relies on rand::random::<u16>: one uniformly distributed 16-bit draw
/// from the thread-local generator.
#[verifier::external_body]
fn thread_random_u16() -> (r: u16) {
    rand::random::<u16>()
}

impl RandSource {
    /// One uniform sample in `[0, 1)`: a fixed-point scalar below one unit.
    pub fn next_01(&mut self) -> (r: i64)
        ensures
            0 <= r < FRAC,
    {
        match self {
            RandSource::Thread => {
                let d: u16 = thread_random_u16();
                d as i64
            },
            RandSource::Seeded(state) => {
                let next: u64 = state.wrapping_mul(6364136223846793005).wrapping_add(
                    1442695040888963407,
                );
                *state = next;
                let d: u16 = (next >> 48) as u16;
                d as i64
            },
        }
    }
}

/// One uniform fixed-point sample in `[0, 1)`.
pub fn random_01(rng: &mut RandSource) -> (r: i64)
    ensures
        0 <= r < FRAC,
{
    rng.next_01()
}

/// One uniform fixed-point sample in `[min, max]`, drawn as
/// `min + (max - min) * u` for `u` in `[0, 1)`.
pub fn random_range(rng: &mut RandSource, min: i64, max: i64) -> (r: i64)
    requires
        -crate::fx::FX_LIM <= min <= max <= crate::fx::FX_LIM,
        max - min <= crate::fx::FX_LIM,
    ensures
        min <= r <= max,
{
    let u: i64 = rng.next_01();
    let d: i64 = max - min;
    proof {
        let di = d as int;
        let ui = u as int;
        let f = FRAC as int;
        assert(0 <= di * ui <= di * f) by (nonlinear_arith)
            requires
                0 <= di,
                0 <= ui < f,
        ;
        crate::fx::lemma_div_range(di * ui, f);
        vstd::arithmetic::div_mod::lemma_div_is_ordered(di * ui, di * f, f);
        vstd::arithmetic::div_mod::lemma_div_multiples_vanish(di, f);
    }
    min + crate::fx::fmul(d, u)
}

} // verus!
