use vstd::prelude::*;
use rand::Rng;
use rand_chacha::ChaCha8Rng;
use rand_distr::{Distribution, Uniform};

verus! {

#[verifier::external_type_specification]
#[verifier::external_body]
pub struct ExChaCha8Rng(ChaCha8Rng);

/// Relies on `rand::Rng::gen_range` with an inclusive range: a value in
/// `lo..=hi`; it panics on an empty range.
#[verifier::external_body]
pub(crate) fn gen_range_inclusive(rng: &mut ChaCha8Rng, lo: i64, hi: i64) -> (r: i64)
    requires
        lo <= hi,
    ensures
        lo <= r <= hi,
{
    rng.gen_range(lo..=hi)
}

/// Relies on sampling `rand_distr::Uniform::from(lo..=hi)`: a value in
/// `lo..=hi`; building the distribution panics on an empty range.
#[verifier::external_body]
pub(crate) fn uniform_inclusive(rng: &mut ChaCha8Rng, lo: i64, hi: i64) -> (r: i64)
    requires
        lo <= hi,
    ensures
        lo <= r <= hi,
{
    Uniform::from(lo..=hi).sample(rng)
}

} // verus!
