use vstd::prelude::*;
use oorandom::Rand64;

verus! {

/// The PCG-64 multiplier of `oorandom::Rand64`.
pub const PCG_MUL: u128 = 47026247687942121848144207491837523525;

/// The increment that `Rand64::new` uses: `(Rand64::DEFAULT_INC << 1) | 1`.
pub const SEED_INC: u128 = 0x5fc1c2d3ff7a0dc6b7860f7a9a5f029f;

/// The fixed odd offset that sets a child's state apart from its parent's.
pub const SPLIT_OFFSET: u128 = 0x9e3779b97f4a7c15f39cc0605cedc835;

/// `a * b + c` modulo `2^128`.
pub open spec fn mul_add_u128(a: u128, b: u128, c: u128) -> u128 {
    ((a as int * b as int + c as int) % (u128::MAX as int + 1)) as u128
}

/// One step of the PCG-64 state.
pub open spec fn pcg_step(state: u128, inc: u128) -> u128 {
    mul_add_u128(state, PCG_MUL, inc)
}

/// The 64-bit output that PCG-64 derives from a state.
pub uninterp spec fn pcg_output(state: u128) -> u64;

/// A draw in `[lo, hi)` from `(state, increment)`: the value and the next state.
pub uninterp spec fn pcg_range(state: u128, inc: u128, lo: u64, hi: u64) -> (u64, u128);

/// Relies on `oorandom::Rand64::new`: `new_inc` starts from state 0 and increment
/// `SEED_INC`, steps once, adds the seed, and steps again.
#[verifier::external_body]
fn seeded(seed: u128) -> (r: (u128, u128))
    ensures
        r.0 == pcg_step(add_u128(SEED_INC, seed), SEED_INC),
        r.1 == SEED_INC,
{
    Rand64::new(seed).state()
}

/// Relies on `oorandom::Rand64::rand_u64`: the output is computed from the old state alone,
/// the state becomes `state * MULTIPLIER + inc` (wrapping) and the increment is left as it is.
#[verifier::external_body]
fn next_u64(state: u128, inc: u128) -> (r: (u64, u128))
    ensures
        r.0 == pcg_output(state),
        r.1 == pcg_step(state, inc),
{
    let mut rng = Rand64::from_state((state, inc));
    let v = rng.rand_u64();
    (v, rng.state().0)
}

/// Relies on `oorandom::Rand64::rand_range`: for `lo < hi` it returns `(m >> 64) + lo` with
/// `m = x * (hi - lo)` for a 64-bit draw `x`, so the value lies in `[lo, hi)`; the increment
/// is left as it is. Its rejection loop ends because with an odd increment the state runs
/// through every value. It asserts `lo < hi` in debug builds.
#[verifier::external_body]
fn next_in_range(state: u128, inc: u128, lo: u64, hi: u64) -> (r: (u64, u128))
    requires
        lo < hi,
        inc % 2 == 1,
    ensures
        r == pcg_range(state, inc, lo, hi),
        lo <= r.0 < hi,
{
    let mut rng = Rand64::from_state((state, inc));
    let v = rng.rand_range(lo..hi);
    (v, rng.state().0)
}

/// A splittable pseudo-random source: a PCG-64 state and its stream increment.
#[derive(Copy, Clone, Debug, PartialEq, Eq)]
pub struct Random {
    state: u128,
    inc: u128,
}

pub open spec fn add_u128(a: u128, b: u128) -> u128 {
    ((a as int + b as int) % (u128::MAX as int + 1)) as u128
}

impl Random {
    pub closed spec fn spec_state(&self) -> u128 {
        self.state
    }

    pub closed spec fn spec_inc(&self) -> u128 {
        self.inc
    }

    /// The increment selects the stream; it is always odd.
    pub open spec fn wf(&self) -> bool {
        self.spec_inc() % 2 == 1
    }

    #[verifier::type_invariant]
    closed spec fn inc_is_odd(self) -> bool {
        self.inc % 2 == 1
    }

    pub fn state(&self) -> (r: (u128, u128))
        ensures
            r == (self.spec_state(), self.spec_inc()),
    {
        (self.state, self.inc)
    }

    pub fn new_from_seed(seed: u128) -> (r: Random)
        ensures
            r.spec_state() == pcg_step(add_u128(SEED_INC, seed), SEED_INC),
            r.spec_inc() == SEED_INC,
            r.wf(),
    {
        let (state, inc) = seeded(seed);
        assert(SEED_INC % 2 == 1);
        Random { state, inc }
    }

    /// A value drawn uniformly from `[lo, hi)`; the source moves on to its next state.
    pub fn u64_range(&mut self, lo: u64, hi: u64) -> (r: u64)
        requires
            lo < hi,
        ensures
            lo <= r < hi,
            r == pcg_range(old(self).spec_state(), old(self).spec_inc(), lo, hi).0,
            final(self).spec_state() == pcg_range(
                old(self).spec_state(),
                old(self).spec_inc(),
                lo,
                hi,
            ).1,
            final(self).spec_inc() == old(self).spec_inc(),
    {
        proof {
            use_type_invariant(&*self);
        }
        let (v, next) = next_in_range(self.state, self.inc, lo, hi);
        *self = Random { state: next, inc: self.inc };
        v
    }

    /// Splits off a child source. `self` advances by one step of its stream; the child starts
    /// from that new state moved by a fixed odd offset, on the stream whose increment is two
    /// more. Its increment stays odd and always differs from the parent's.
    pub fn split(&mut self) -> (child: Random)
        ensures
            final(self).spec_state() == pcg_step(old(self).spec_state(), old(self).spec_inc()),
            final(self).spec_inc() == old(self).spec_inc(),
            child.spec_state() == add_u128(final(self).spec_state(), SPLIT_OFFSET),
            child.spec_inc() == add_u128(old(self).spec_inc(), 2),
            child.spec_inc() != old(self).spec_inc(),
            child.wf(),
            final(self).wf(),
            (*final(self), child) == split_of(*old(self)),
    {
        proof {
            use_type_invariant(&*self);
        }
        let (_draw, next) = next_u64(self.state, self.inc);
        let inc = self.inc;
        *self = Random { state: next, inc };
        let child = Random { state: next.wrapping_add(SPLIT_OFFSET), inc: inc.wrapping_add(2) };
        assert(child.inc == add_u128(inc, 2));
        child
    }
}

/// A split as a whole: the parent after it and the child.
pub closed spec fn split_of(r: Random) -> (Random, Random) {
    let next = pcg_step(r.state, r.inc);
    (Random { state: next, inc: r.inc }, Random { state: add_u128(next, SPLIT_OFFSET), inc: add_u128(r.inc, 2) })
}

/// With an odd increment, a step of the state flips its lowest bit.
pub proof fn lemma_step_flips_parity(state: u128, inc: u128)
    requires
        inc % 2 == 1,
    ensures
        pcg_step(state, inc) % 2 != state % 2,
{
    let m: int = u128::MAX as int + 1;
    let x: int = state as int * PCG_MUL as int + inc as int;
    let k: int = PCG_MUL as int / 2;
    assert(PCG_MUL as int == 2 * k + 1);
    assert(x == 2 * (state as int * k) + state as int + inc as int) by (nonlinear_arith)
        requires
            x == state as int * PCG_MUL as int + inc as int,
            PCG_MUL as int == 2 * k + 1,
    ;
    assert(m == 2 * (m / 2));
    vstd::arithmetic::div_mod::lemma_mod_mod(x, 2, m / 2);
    assert((x % m) % 2 == x % 2);
}

/// Two splits in a row never hand out the same child, and no child equals its parent before
/// or after the split.
pub proof fn lemma_successive_splits_differ(r: Random)
    requires
        r.wf(),
    ensures
        split_of(r).1 != split_of(split_of(r).0).1,
        split_of(r).1 != r,
        split_of(r).1 != split_of(r).0,
{
    let (p1, c1) = split_of(r);
    let (p2, c2) = split_of(p1);
    lemma_step_flips_parity(r.state, r.inc);
    lemma_step_flips_parity(p1.state, p1.inc);
    assert(p1.state != p2.state);
    assert(c1.state != c2.state);
}

} // verus!
