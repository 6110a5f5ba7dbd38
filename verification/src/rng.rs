use vstd::prelude::*;
use crate::natural::{nat_of, nats_of};

verus! {

// The random source threaded through an evaluation. Its state is modelled as
// an opaque byte sequence; drawing a die value and shuffling are deterministic
// functions of that state (`StdRng` is a seeded pseudorandom generator), which
// is what makes a fixed seed reproduce a whole evaluation.

#[verifier::external_type_specification]
#[verifier::external_body]
pub struct ExStdRng(rand::rngs::StdRng);

/// The abstract generator state a `StdRng` holds.
pub uninterp spec fn rng_state(r: rand::rngs::StdRng) -> Seq<u8>;

/// The die value drawn from state `st` for a die with `die` faces.
pub uninterp spec fn sample_of(st: Seq<u8>, die: nat) -> nat;

/// The generator state left behind by that same draw.
pub uninterp spec fn sample_step(st: Seq<u8>, die: nat) -> Seq<u8>;

/// The permutation of `vals` produced by shuffling at state `st`.
pub uninterp spec fn shuffle_of(st: Seq<u8>, vals: Seq<nat>) -> Seq<nat>;

/// The generator state left behind by that same shuffle.
pub uninterp spec fn shuffle_step(st: Seq<u8>, vals: Seq<nat>) -> Seq<u8>;

pub struct RngSource {
    inner: rand::rngs::StdRng,
}

impl View for RngSource {
    type V = Seq<u8>;

    closed spec fn view(&self) -> Seq<u8> {
        rng_state(self.inner)
    }
}

impl RngSource {
    /// Relies on `SeedableRng::from_seed` for `StdRng`: the generator is a
    /// deterministic function of the 32-byte seed.
    #[verifier::external_body]
    pub fn from_seed(seed: &[u8]) -> (r: RngSource)
        requires
            seed@.len() == 32,
        ensures
            r@ == seed@,
    {
        let bytes: [u8; 32] = seed.try_into().expect("length is checked by the caller");
        RngSource { inner: rand::SeedableRng::from_seed(bytes) }
    }

    /// Relies on `SeedableRng::from_entropy`: a generator seeded from the
    /// operating system. Nothing can be promised of its state, and the call
    /// panics if the operating system's entropy source fails.
    #[verifier::external_body]
    pub fn from_entropy() -> (r: RngSource) {
        RngSource { inner: rand::SeedableRng::from_entropy() }
    }

    /// A duplicate that will produce the same draws as its source.
    pub fn dup(&self) -> (r: RngSource)
        ensures
            r@ == self@,
    {
        RngSource { inner: self.inner.clone() }
    }
}

/// Relies on `impl Clone for StdRng`: the copy carries the same generator state.
pub assume_specification[ <rand::rngs::StdRng as Clone>::clone ](
    r: &rand::rngs::StdRng,
) -> (res: rand::rngs::StdRng)
    ensures
        rng_state(res) == rng_state(*r),
;

/// Draws one value uniformly from `[1, die]`. Relies on
/// `Uniform::new_inclusive` and `Distribution::sample` for `BigUint`, which
/// return `1 + gen_biguint_below(die)` deterministically from the generator
/// state, and panic only when the range is empty.
#[verifier::external_body]
pub fn sample_die(rng: &mut RngSource, die: &num::BigUint) -> (r: num::BigUint)
    requires
        nat_of(*die) >= 1,
    ensures
        nat_of(r) == sample_of(old(rng)@, nat_of(*die)),
        final(rng)@ == sample_step(old(rng)@, nat_of(*die)),
        1 <= nat_of(r) <= nat_of(*die),
{
    let one: num::BigUint = num::One::one();
    let uniform = rand::distributions::Uniform::new_inclusive(&one, die);
    rand::distributions::Distribution::sample(&uniform, &mut rng.inner)
}

/// Shuffles the values into a uniformly random order. Relies on
/// `SliceRandom::shuffle` (Fisher-Yates): the result is a permutation of the
/// input determined by the input values and the generator state.
#[verifier::external_body]
pub fn shuffled(v: Vec<num::BigUint>, rng: &mut RngSource) -> (r: Vec<num::BigUint>)
    ensures
        nats_of(r@) == shuffle_of(old(rng)@, nats_of(v@)),
        final(rng)@ == shuffle_step(old(rng)@, nats_of(v@)),
        nats_of(r@).to_multiset() == nats_of(v@).to_multiset(),
        r@.len() == v@.len(),
{
    let mut v = v;
    rand::seq::SliceRandom::shuffle(v.as_mut_slice(), &mut rng.inner);
    v
}

} // verus!
