use vstd::prelude::*;

verus! {

/// The nearest eligible candidate among `0 .. n`: an index with the smallest
/// distance, ties resolved to the first one encountered in index order;
/// `None` when no candidate is eligible.
///
/// Distances are integers, so the comparison is total: the open question a
/// floating-point comparator would pose for not-a-number distances does not
/// arise in this model.
pub open spec fn first_min(n: int, elig: spec_fn(int) -> bool, dist: spec_fn(int) -> int) -> Option<
    int,
>
    decreases n,
{
    if n <= 0 {
        None
    } else {
        let prev = first_min(n - 1, elig, dist);
        let j = n - 1;
        if !elig(j) {
            prev
        } else {
            match prev {
                Option::None => Some(j),
                Option::Some(p) => if dist(j) < dist(p) {
                    Some(j)
                } else {
                    Some(p)
                },
            }
        }
    }
}

/// What [`first_min`] returns: an eligible index, no eligible index is
/// strictly closer, every earlier eligible index is strictly farther; and
/// `None` exactly when nothing is eligible.
pub proof fn lemma_first_min(n: int, elig: spec_fn(int) -> bool, dist: spec_fn(int) -> int)
    ensures
        match first_min(n, elig, dist) {
            Option::None => forall|k: int| 0 <= k < n ==> !(#[trigger] elig(k)),
            Option::Some(j) => {
                &&& 0 <= j < n
                &&& elig(j)
                &&& forall|k: int| 0 <= k < n && #[trigger] elig(k) ==> dist(j) <= dist(k)
                &&& forall|k: int| 0 <= k < j && #[trigger] elig(k) ==> dist(j) < dist(k)
            },
        },
    decreases n,
{
    if n > 0 {
        lemma_first_min(n - 1, elig, dist);
    }
}

} // verus!
