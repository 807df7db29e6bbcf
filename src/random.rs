use vstd::prelude::*;

use rand::Rng;

verus! {

/// Relies on `rand::thread_rng` and `rand::Rng::gen_range` (rand 0.7): the value
/// drawn lies in `[lo, hi)`; `gen_range` panics when `lo >= hi`, hence the `requires`.
#[verifier::external_body]
pub(crate) fn random_in(lo: u64, hi: u64) -> (r: u64)
    requires
        lo < hi,
    ensures
        lo <= r < hi,
{
    rand::thread_rng().gen_range(lo, hi)
}

} // verus!
