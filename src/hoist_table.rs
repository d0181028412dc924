use indexmap::IndexMap;
use vstd::prelude::*;

verus! {

#[verifier::external_type_specification]
#[verifier::external_body]
#[verifier::reject_recursive_types(K)]
#[verifier::reject_recursive_types(V)]
#[verifier::reject_recursive_types(S)]
pub struct ExIndexMap<K, V, S>(IndexMap<K, V, S>);

/// The entries of an ordered table from a name to a (module, member) rule,
/// in the table's order.
pub uninterp spec fn table_entries(m: IndexMap<String, (String, String)>) -> Seq<(Seq<char>, (Seq<char>, Seq<char>))>;

/// Index of the entry with key `k`, or -1.
pub open spec fn key_index(t: Seq<(Seq<char>, (Seq<char>, Seq<char>))>, k: Seq<char>) -> int
    decreases t.len(),
{
    if t.len() == 0 {
        -1
    } else if t.last().0 == k {
        t.len() - 1
    } else {
        key_index(t.drop_last(), k)
    }
}

/// What inserting `(k, v)` does to an ordered table: an existing key keeps
/// its place and takes the new value; a new key goes last.
pub open spec fn insert_entry(
    t: Seq<(Seq<char>, (Seq<char>, Seq<char>))>,
    k: Seq<char>,
    v: (Seq<char>, Seq<char>),
) -> Seq<(Seq<char>, (Seq<char>, Seq<char>))> {
    if key_index(t, k) >= 0 {
        t.update(key_index(t, k), (k, v))
    } else {
        t.push((k, v))
    }
}

/// Relies on `IndexMap::new`: the new map is empty.
#[verifier::external_body]
pub(crate) fn table_new() -> (r: IndexMap<String, (String, String)>)
    ensures
        table_entries(r) == Seq::<(Seq<char>, (Seq<char>, Seq<char>))>::empty(),
{
    IndexMap::new()
}

/// Relies on `IndexMap::insert`: an equivalent key keeps its place in the
/// order and its value is replaced; otherwise the pair goes last.
#[verifier::external_body]
pub(crate) fn table_insert(m: &mut IndexMap<String, (String, String)>, k: String, v: (String, String))
    ensures
        table_entries(*final(m)) == insert_entry(table_entries(*old(m)), k@, (v.0@, v.1@)),
{
    m.insert(k, v);
}

/// Relies on `IndexMap::len`: the number of entries.
#[verifier::external_body]
pub(crate) fn table_len(m: &IndexMap<String, (String, String)>) -> (r: usize)
    ensures
        r == table_entries(*m).len(),
{
    m.len()
}

/// Relies on `IndexMap::get_index`: the entry at position `i` in the order.
#[verifier::external_body]
pub(crate) fn table_get_index(m: &IndexMap<String, (String, String)>, i: usize) -> (r: (String, String, String))
    requires
        i < table_entries(*m).len(),
    ensures
        r.0@ == table_entries(*m)[i as int].0,
        r.1@ == (table_entries(*m)[i as int].1).0,
        r.2@ == (table_entries(*m)[i as int].1).1,
{
    let (k, v) = m.get_index(i).unwrap();
    (k.clone(), v.0.clone(), v.1.clone())
}

} // verus!
