//! The calls into `rand` that place the mines and pick where a first-move mine goes.

use vstd::prelude::*;
use rand::seq::IteratorRandom;

verus! {

#[verifier::external_type_specification]
#[verifier::external_body]
pub struct ExThreadRng(rand::rngs::ThreadRng);

/// Calls `rand::thread_rng`, a handle on the thread-local generator. Nothing is
/// claimed of it: every use below holds whatever it generates.
#[verifier::external_body]
pub(crate) fn thread_rng() -> rand::rngs::ThreadRng {
    rand::thread_rng()
}

/// Calls `IteratorRandom::choose_multiple` on the range `0..total`. rand's source
/// keeps a reservoir of the first `count` values and may replace entries by later
/// ones, so whatever the generator yields the result holds `min(count, total)`
/// distinct values below `total`. Which values, and in what order, is left open.
/// The reservoir is allocated with capacity `count`, hence the bound on it.
#[verifier::external_body]
pub(crate) fn choose_positions(
    rng: &mut rand::rngs::ThreadRng,
    total: usize,
    count: usize,
) -> (v: Vec<usize>)
    requires
        total <= isize::MAX,
        count <= isize::MAX / 8,
    ensures
        v.len() == if count < total {
            count
        } else {
            total
        },
        forall|k: int| 0 <= k < v.len() ==> #[trigger] v@[k] < total,
        forall|k1: int, k2: int|
            0 <= k1 < v.len() && 0 <= k2 < v.len() && k1 != k2 ==> #[trigger] v@[k1] != #[trigger] v@[k2],
{
    (0..total).choose_multiple(rng, count)
}

/// Calls `IteratorRandom::choose` on an iterator over `candidates`. As rand
/// documents, it returns `None` exactly when there is nothing to choose from, and
/// otherwise one of the candidates; which one is left open.
#[verifier::external_body]
pub(crate) fn choose_candidate(
    rng: &mut rand::rngs::ThreadRng,
    candidates: &Vec<(usize, usize)>,
) -> (r: Option<(usize, usize)>)
    ensures
        r is None <==> candidates.len() == 0,
        r matches Some(x) ==> candidates@.contains(x),
{
    candidates.iter().choose(rng).copied()
}

} // verus!
