use vstd::prelude::*;

verus! {

/// Relies on rand::Rng::gen_range over rand::thread_rng: a value drawn from
/// the inclusive range `lo..=hi`, which panics only on an empty range.
#[verifier::external_body]
pub(crate) fn random_in(lo: i64, hi: i64) -> (r: i64)
    requires
        lo <= hi,
    ensures
        lo <= r <= hi,
{
    rand::Rng::gen_range(&mut rand::thread_rng(), lo..=hi)
}

} // verus!
