use rand::rngs::StdRng;
use rand::Rng;
use vstd::prelude::*;

verus! {

#[verifier::external_type_specification]
#[verifier::external_body]
pub struct ExStdRng(StdRng);

/// Relies on `rand::Rng::gen_range` over `0..n`: it panics on an empty range
/// and otherwise returns a value inside the range.
#[verifier::external_body]
pub(crate) fn gen_index(random: &mut StdRng, n: usize) -> (r: usize)
    requires
        n > 0,
    ensures
        r < n,
{
    random.gen_range(0..n)
}


} // verus!
