//! Sets of request identifiers, held in `ahash` hash sets.

use vstd::prelude::*;

verus! {

#[verifier::external_type_specification]
#[verifier::external_body]
#[verifier::reject_recursive_types(T)]
#[verifier::reject_recursive_types(S)]
pub struct ExAHashSet<T, S>(ahash::AHashSet<T, S>);

#[verifier::external_type_specification]
#[verifier::external_body]
pub struct ExAHashRandomState(ahash::RandomState);

/// The identifiers an `ahash` set of request identifiers holds.
pub uninterp spec fn id_set_contents(set: ahash::AHashSet<u128>) -> Set<u128>;

/// Creates an empty set through `ahash::AHashSet::new`.
#[verifier::external_body]
pub(crate) fn id_set_new() -> (set: ahash::AHashSet<u128>)
    ensures
        id_set_contents(set) == Set::<u128>::empty(),
{
    ahash::AHashSet::new()
}

/// Adds `id` through `HashSet::insert` (reached through `AHashSet`'s `DerefMut`), which reports
/// whether it was absent.
#[verifier::external_body]
pub(crate) fn id_set_insert(set: &mut ahash::AHashSet<u128>, id: u128) -> (added: bool)
    ensures
        added == !id_set_contents(*old(set)).contains(id),
        id_set_contents(*final(set)) == id_set_contents(*old(set)).insert(id),
{
    set.insert(id)
}

/// Moves the identifiers out through `AHashSet::into_iter`, in the set's own order.
#[verifier::external_body]
pub(crate) fn id_set_into_vec(set: ahash::AHashSet<u128>) -> (ids: Vec<u128>)
    ensures
        ids@.to_set() == id_set_contents(set),
        ids@.no_duplicates(),
{
    set.into_iter().collect()
}

} // verus!
