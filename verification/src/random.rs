//! The random source that generation and wandering draw from.

use vstd::prelude::*;
use rand::rngs::StdRng;
use rand::seq::SliceRandom;
use rand::Rng;

verus! {

/// `rand::rngs::StdRng`, carried through as an opaque value.
#[verifier::external_type_specification]
#[verifier::external_body]
pub struct ExStdRng(StdRng);

/// `Rng::gen_range` over `low..high` of `i32`. The call panics on an empty
/// range, which `requires` leaves out; of what it returns only the range is
/// known.
#[verifier::external_body]
pub(crate) fn gen_range_i32(rng: &mut StdRng, low: i32, high: i32) -> (r: i32)
    requires
        low < high,
    ensures
        low <= r < high,
{
    rng.gen_range(low..high)
}

/// `SliceRandom::choose` on a slice of indexes: `None` for an empty slice,
/// else one of its elements, whichever the source draws.
#[verifier::external_body]
pub(crate) fn choose_one(rng: &mut StdRng, items: &Vec<usize>) -> (r: Option<usize>)
    ensures
        items@.len() == 0 ==> r.is_none(),
        items@.len() > 0 ==> r.is_some() && items@.contains(r.unwrap()),
{
    items.as_slice().choose(rng).copied()
}

} // verus!
