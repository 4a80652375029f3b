//! Sets of ids that keep the order in which the ids came.
use indexmap::IndexSet;
use vstd::prelude::*;
use vstd::string::*;

verus! {

/// `indexmap::IndexSet`: a set that keeps the order of insertion.
#[verifier::external_type_specification]
#[verifier::external_body]
#[verifier::reject_recursive_types(T)]
#[verifier::reject_recursive_types(S)]
pub struct ExIndexSet<T, S>(IndexSet<T, S>);

/// The ids in a set, in their order.
pub uninterp spec fn id_set_items(s: IndexSet<String>) -> Seq<Seq<char>>;

/// `IndexSet::new`: a set without ids.
#[verifier::external_body]
pub(crate) fn new_id_set() -> (r: IndexSet<String>)
    ensures
        id_set_items(r) == Seq::<Seq<char>>::empty(),
{
    IndexSet::new()
}

/// `IndexSet::insert`: an id that is there stays where it is; another one goes to
/// the end. The answer says whether it was new.
#[verifier::external_body]
pub(crate) fn id_set_insert(s: &mut IndexSet<String>, id: String) -> (r: bool)
    ensures
        r == !id_set_items(*old(s)).contains(id@),
        id_set_items(*final(s)) == (if id_set_items(*old(s)).contains(id@) {
            id_set_items(*old(s))
        } else {
            id_set_items(*old(s)).push(id@)
        }),
{
    s.insert(id)
}

/// `IndexSet::contains`: whether the id is in the set.
#[verifier::external_body]
pub(crate) fn id_set_contains(s: &IndexSet<String>, id: &str) -> (r: bool)
    ensures
        r == id_set_items(*s).contains(id@),
{
    s.contains(id)
}

/// `IndexSet::into_iter`: the ids in their order.
#[verifier::external_body]
pub(crate) fn id_set_into_ids(s: IndexSet<String>) -> (r: Vec<String>)
    ensures
        crate::named::texts(r@) == id_set_items(s),
{
    s.into_iter().collect()
}

} // verus!
