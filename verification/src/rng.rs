//! The crate's one source of randomness, behind a trusted boundary.
use vstd::prelude::*;

verus! {

/// Relies on rand's `Rng::gen_range` on `thread_rng`: it panics only on an
/// empty range and returns a value inside the given inclusive range; nothing
/// more is assumed of a random draw.
#[verifier::external_body]
pub(crate) fn rng_range(lo: i64, hi: i64) -> (r: i64)
    requires
        lo <= hi,
    ensures
        lo <= r <= hi,
{
    rand::Rng::gen_range(&mut rand::thread_rng(), lo..=hi)
}

} // verus!
