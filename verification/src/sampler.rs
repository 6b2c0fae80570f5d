//! A source of random numbers.

use crate::scalar::{Scalar, ONE_RAW};
use rand::rngs::StdRng;
use rand::{Rng, SeedableRng};
use vstd::prelude::*;

verus! {

#[verifier::external_type_specification]
#[verifier::external_body]
pub struct ExStdRng(StdRng);

/// `SeedableRng::seed_from_u64` of rand, for its standard generator.
/// Nothing is claimed of the generator that comes back.
#[verifier::external_body]
fn rng_from_seed(seed: u64) -> StdRng {
    StdRng::seed_from_u64(seed)
}

/// `Rng::gen_range` of rand on a half-open range of integers. The call
/// panics on an empty range, which the precondition leaves out; what it
/// returns lies in the range, and no more is claimed of it.
#[verifier::external_body]
fn rng_range(rng: &mut StdRng, low: i64, high: i64) -> (r: i64)
    requires
        low < high,
    ensures
        low <= r < high,
{
    rng.gen_range(low..high)
}

/// Whether the history `after` of a generator starts with the history
/// `before`: what was handed out stays handed out.
pub open spec fn extends(after: Seq<i64>, before: Seq<i64>) -> bool {
    before.len() <= after.len() && forall|i: int|
        0 <= i < before.len() ==> #[trigger] after[i] == before[i]
}

/// A random number generator that a caller owns and hands to whatever
/// needs random numbers. Its view is the numbers that it has handed out so
/// far, as raw values, the first first.
pub struct Sampler {
    rng: StdRng,
    seed: Ghost<u64>,
    drawn: Ghost<Seq<i64>>,
}

impl View for Sampler {
    type V = Seq<i64>;

    closed spec fn view(&self) -> Seq<i64> {
        self.drawn@
    }
}

impl Sampler {
    /// The seed that the generator started from.
    pub closed spec fn seed(&self) -> u64 {
        self.seed@
    }

    /// A generator that starts from `seed` and has handed out no number yet.
    pub fn seeded(seed: u64) -> (r: Sampler)
        ensures
            r.seed() == seed,
            r@ == Seq::<i64>::empty(),
    {
        Sampler { rng: rng_from_seed(seed), seed: Ghost(seed), drawn: Ghost(Seq::empty()) }
    }

    /// The next number of the generator, which is at least zero and less
    /// than one.
    pub fn unit(&mut self) -> (r: Scalar)
        ensures
            0 <= r.raw < ONE_RAW,
            final(self)@ == old(self)@.push(r.raw),
            final(self).seed() == old(self).seed(),
    {
        let raw: i64 = rng_range(&mut self.rng, 0, ONE_RAW);
        self.drawn = Ghost(self.drawn@.push(raw));
        Scalar { raw }
    }

    /// The next number of the generator, which is at least minus one and
    /// less than one.
    pub fn signed_unit(&mut self) -> (r: Scalar)
        ensures
            -ONE_RAW <= r.raw < ONE_RAW,
            final(self)@ == old(self)@.push(r.raw),
            final(self).seed() == old(self).seed(),
    {
        let raw: i64 = rng_range(&mut self.rng, -ONE_RAW, ONE_RAW);
        self.drawn = Ghost(self.drawn@.push(raw));
        Scalar { raw }
    }
}

} // verus!
