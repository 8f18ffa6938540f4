//! The `indexmap` sets that the library keeps: ordered sets of names and of node numbers.
use indexmap::IndexSet;
use vstd::prelude::*;

verus! {

/// `indexmap::IndexSet`, carried as an opaque value.
#[verifier::external_type_specification]
#[verifier::external_body]
#[verifier::reject_recursive_types(T)]
#[verifier::reject_recursive_types(S)]
pub struct ExIndexSet<T, S>(IndexSet<T, S>);

/// The names a set holds, in the order in which they were first inserted.
pub uninterp spec fn key_list(s: IndexSet<String>) -> Seq<Seq<char>>;

/// The numbers a set holds, without their order.
pub uninterp spec fn id_set(s: IndexSet<u32>) -> Set<u32>;

/// Calls `IndexSet::new`: the set holds nothing.
#[verifier::external_body]
pub(crate) fn no_keys() -> (r: IndexSet<String>)
    ensures
        key_list(r) == Seq::<Seq<char>>::empty(),
{
    IndexSet::new()
}

/// Calls `IndexSet::len`: how many names the set holds.
#[verifier::external_body]
pub(crate) fn key_count(s: &IndexSet<String>) -> (r: usize)
    ensures
        r == key_list(*s).len(),
{
    s.len()
}

/// Calls `IndexSet::get_index_of`: the place of a name, which no other place holds, or `None` if
/// the set does not hold it.
#[verifier::external_body]
pub(crate) fn key_position(s: &IndexSet<String>, key: &str) -> (r: Option<usize>)
    ensures
        match r {
            Some(i) => i < key_list(*s).len() && key_list(*s)[i as int] == key@ && forall|j: int|
                0 <= j < key_list(*s).len() && key_list(*s)[j] == key@ ==> j == i,
            None => !key_list(*s).contains(key@),
        },
{
    s.get_index_of(key)
}

/// Calls `IndexSet::get_index`: the name at a place, or `None` past the end.
#[verifier::external_body]
pub(crate) fn key_at(s: &IndexSet<String>, i: usize) -> (r: Option<&String>)
    ensures
        match r {
            Some(k) => i < key_list(*s).len() && k@ == key_list(*s)[i as int],
            None => i >= key_list(*s).len(),
        },
{
    s.get_index(i)
}

/// Calls `IndexSet::insert`: a name that the set holds stays where it is and the answer is
/// `false`; any other name goes to the end and the answer is `true`.
#[verifier::external_body]
pub(crate) fn add_key(s: &mut IndexSet<String>, key: String) -> (r: bool)
    ensures
        r == !key_list(*old(s)).contains(key@),
        key_list(*final(s)) == if key_list(*old(s)).contains(key@) {
            key_list(*old(s))
        } else {
            key_list(*old(s)).push(key@)
        },
{
    s.insert(key)
}

/// Calls `IndexSet::shift_remove`: takes a name out, and those behind it move up by one.
#[verifier::external_body]
pub(crate) fn drop_key(s: &mut IndexSet<String>, key: &str) -> (r: bool)
    ensures
        r == key_list(*old(s)).contains(key@),
        !r ==> key_list(*final(s)) == key_list(*old(s)),
        r ==> exists|i: int|
            0 <= i < key_list(*old(s)).len() && #[trigger] key_list(*old(s))[i] == key@
                && key_list(*final(s)) == key_list(*old(s)).remove(i),
{
    s.shift_remove(key)
}

/// Calls `IndexSet::clone`: the copy holds the same names in the same order.
#[verifier::external_body]
pub(crate) fn copy_keys(s: &IndexSet<String>) -> (r: IndexSet<String>)
    ensures
        key_list(r) == key_list(*s),
{
    s.clone()
}

/// Calls `IndexSet::new`: the set holds nothing.
#[verifier::external_body]
pub(crate) fn no_ids() -> (r: IndexSet<u32>)
    ensures
        id_set(r) == Set::<u32>::empty(),
{
    IndexSet::new()
}

/// Calls `IndexSet::contains`.
#[verifier::external_body]
pub(crate) fn has_id(s: &IndexSet<u32>, id: u32) -> (r: bool)
    ensures
        r == id_set(*s).contains(id),
{
    s.contains(&id)
}

/// Calls `IndexSet::insert`: the set holds the number afterwards; the answer is whether it is new.
#[verifier::external_body]
pub(crate) fn add_id(s: &mut IndexSet<u32>, id: u32) -> (r: bool)
    ensures
        r == !id_set(*old(s)).contains(id),
        id_set(*final(s)) == id_set(*old(s)).insert(id),
{
    s.insert(id)
}

/// Calls `IndexSet::shift_remove`: the set does not hold the number afterwards; the answer is
/// whether it did.
#[verifier::external_body]
pub(crate) fn drop_id(s: &mut IndexSet<u32>, id: u32) -> (r: bool)
    ensures
        r == id_set(*old(s)).contains(id),
        id_set(*final(s)) == id_set(*old(s)).remove(id),
{
    s.shift_remove(&id)
}

} // verus!
