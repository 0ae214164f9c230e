use indexmap::IndexSet;
use rustc_hash::FxBuildHasher;
use vstd::prelude::*;

verus! {

#[verifier::external_type_specification]
#[verifier::external_body]
#[verifier::reject_recursive_types(T)]
#[verifier::reject_recursive_types(S)]
pub struct ExIndexSet<T, S>(IndexSet<T, S>);

/// The names of the fields of a source: each name once, in the order in
/// which they were first given.
pub type FieldSet = IndexSet<String, FxBuildHasher>;

/// The texts of an ordered set of texts, in their order.
pub uninterp spec fn set_items(s: IndexSet<String, FxBuildHasher>) -> Seq<Seq<char>>;

/// `IndexSet::with_hasher`: a set without items.
#[verifier::external_body]
pub(crate) fn index_set_new() -> (s: IndexSet<String, FxBuildHasher>)
    ensures
        set_items(s).len() == 0,
{
    IndexSet::with_hasher(FxBuildHasher)
}

/// `IndexSet::len`: the number of items.
#[verifier::external_body]
pub(crate) fn index_set_len(s: &IndexSet<String, FxBuildHasher>) -> (n: usize)
    ensures
        n == set_items(*s).len(),
{
    s.len()
}

/// `IndexSet::insert`: a text that the set holds already leaves the set as it
/// is, and the answer is no; any other text is added at the end, and the
/// answer is yes.
#[verifier::external_body]
pub(crate) fn index_set_insert(s: &mut IndexSet<String, FxBuildHasher>, value: String) -> (r: bool)
    ensures
        r == !set_items(*old(s)).contains(value@),
        set_items(*final(s)) == if r {
            set_items(*old(s)).push(value@)
        } else {
            set_items(*old(s))
        },
{
    s.insert(value)
}

/// `IndexSet::get_index_of`: a position at which the set holds the text, if
/// it holds it.
#[verifier::external_body]
pub(crate) fn index_set_get_index_of(s: &IndexSet<String, FxBuildHasher>, value: &str) -> (r:
    Option<usize>)
    ensures
        match r {
            Some(i) => i < set_items(*s).len() && set_items(*s)[i as int] == value@,
            None => !set_items(*s).contains(value@),
        },
{
    s.get_index_of(value)
}

/// `IndexSet::get_index`: the text at the position `i`, if there are that
/// many.
#[verifier::external_body]
pub(crate) fn index_set_get_index(s: &IndexSet<String, FxBuildHasher>, i: usize) -> (r: Option<
    &String,
>)
    ensures
        match r {
            Some(e) => i < set_items(*s).len() && e@ == set_items(*s)[i as int],
            None => i >= set_items(*s).len(),
        },
{
    s.get_index(i)
}

/// Adding a text that is not among distinct texts leaves them distinct.
pub proof fn lemma_push_distinct(items: Seq<Seq<char>>, item: Seq<char>)
    requires
        items.no_duplicates(),
        !items.contains(item),
    ensures
        items.push(item).no_duplicates(),
{
    let after = items.push(item);
    assert forall|a: int, b: int| 0 <= a < after.len() && 0 <= b < after.len() && a
        != b implies after[a] != after[b] by {
        if a < items.len() && b < items.len() {
        } else if a < items.len() {
            assert(items.contains(items[a]));
        } else {
            assert(items.contains(items[b]));
        }
    }
}

/// The text at the position `i` of the set.
pub(crate) fn field_at(s: &FieldSet, i: usize) -> (r: &String)
    requires
        i < set_items(*s).len(),
    ensures
        r@ == set_items(*s)[i as int],
{
    match index_set_get_index(s, i) {
        Some(e) => e,
        None => {
            assert(false);
            vstd::pervasive::unreached()
        },
    }
}

} // verus!
