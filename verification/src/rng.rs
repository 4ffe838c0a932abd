use vstd::prelude::*;
use rand::Rng;
use rand::SeedableRng;

verus! {

#[verifier::external_type_specification]
#[verifier::external_body]
pub struct ExStdRng(rand::rngs::StdRng);

/// Relies on rand's SeedableRng::from_entropy for StdRng: a fresh generator
/// seeded from the operating system.
#[verifier::external_body]
pub(crate) fn rng_from_entropy() -> rand::rngs::StdRng {
    rand::rngs::StdRng::from_entropy()
}

/// Relies on rand's Rng::gen_range over the range 0..n: a uniform value
/// below n.  gen_range panics on an empty range, so n must be positive.
#[verifier::external_body]
pub(crate) fn rng_below(rng: &mut rand::rngs::StdRng, n: u64) -> (r: u64)
    requires
        n >= 1,
    ensures
        r < n,
{
    rng.gen_range(0..n)
}

/// A uniform draw from the inclusive range [lo, hi].
pub(crate) fn rng_range_incl(rng: &mut rand::rngs::StdRng, lo: u64, hi: u64) -> (r: u64)
    requires
        lo <= hi,
        hi < 0xffff_ffff_ffff_ffff,
    ensures
        lo <= r <= hi,
{
    let w = rng_below(rng, hi - lo + 1);
    lo + w
}

/// A biased coin: true with probability num / den of the draws.
pub(crate) fn rng_coin(rng: &mut rand::rngs::StdRng, num: u64, den: u64) -> (r: bool)
    requires
        1 <= den,
{
    let w = rng_below(rng, den);
    w < num
}

} // verus!
