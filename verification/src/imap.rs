//! Trusted view of the insertion-ordered map that holds a module's functions.
//!
//! The map itself comes from the `indexmap` crate; Verus sees it only through
//! the contracts below, which state what `indexmap`'s documentation promises
//! over [`fn_entries`], the map's contents as a key-value sequence in
//! insertion order.

use vstd::prelude::*;

use indexmap::IndexMap;

use crate::func::Func;

verus! {

#[verifier::external_type_specification]
#[verifier::external_body]
#[verifier::reject_recursive_types(K)]
#[verifier::reject_recursive_types(V)]
#[verifier::reject_recursive_types(S)]
pub struct ExIndexMap<K, V, S>(IndexMap<K, V, S>);

/// The key-value pairs held by a function map, in insertion order.
pub uninterp spec fn fn_entries(m: IndexMap<u32, Func>) -> Seq<(u32, Func)>;

/// True when some entry carries the key.
pub open spec fn entries_contain_key(entries: Seq<(u32, Func)>, k: u32) -> bool {
    exists|j: int| 0 <= j < entries.len() && entries[j].0 == k
}

/// Relies on `IndexMap::new`: the new map is empty.
#[verifier::external_body]
pub(crate) fn im_new() -> (m: IndexMap<u32, Func>)
    ensures
        fn_entries(m) == Seq::<(u32, Func)>::empty(),
{
    IndexMap::new()
}

/// Relies on `IndexMap::len`: the number of entries.
#[verifier::external_body]
pub(crate) fn im_len(m: &IndexMap<u32, Func>) -> (r: usize)
    ensures
        r == fn_entries(*m).len(),
{
    m.len()
}

/// Relies on `IndexMap::insert`: an existing key keeps its place in the order
/// and only its value is replaced; a new key is appended, last in order.
#[verifier::external_body]
pub(crate) fn im_insert(m: &mut IndexMap<u32, Func>, k: u32, v: Func) -> (r: Option<Func>)
    ensures
        ({
            let old_e = fn_entries(*old(m));
            let new_e = fn_entries(*final(m));
            if entries_contain_key(old_e, k) {
                &&& new_e.len() == old_e.len()
                &&& forall|j: int|
                    0 <= j < old_e.len() ==> new_e[j] == (if old_e[j].0 == k {
                        (k, v)
                    } else {
                        old_e[j]
                    })
                &&& exists|j: int| 0 <= j < old_e.len() && old_e[j].0 == k && r == Some(old_e[j].1)
            } else {
                &&& new_e == old_e.push((k, v))
                &&& r is None
            }
        }),
{
    m.insert(k, v)
}

/// Relies on `IndexMap::get`: returns the value stored under the key, if any.
#[verifier::external_body]
pub(crate) fn im_get<'a>(m: &'a IndexMap<u32, Func>, k: u32) -> (r: Option<&'a Func>)
    ensures
        ({
            let e = fn_entries(*m);
            match r {
                Some(f) => exists|j: int| 0 <= j < e.len() && e[j].0 == k && *f == e[j].1,
                None => !entries_contain_key(e, k),
            }
        }),
{
    m.get(&k)
}

/// Relies on `IndexMap::get_index`: returns the entry at the given position
/// in the order.
#[verifier::external_body]
pub(crate) fn im_get_at<'a>(m: &'a IndexMap<u32, Func>, i: usize) -> (r: Option<(u32, &'a Func)>)
    ensures
        ({
            let e = fn_entries(*m);
            if i < e.len() {
                r matches Some(p) && p.0 == e[i as int].0 && *p.1 == e[i as int].1
            } else {
                r is None
            }
        }),
{
    m.get_index(i).map(|(k, v)| (*k, v))
}

/// Relies on `IndexMap::swap_remove`: the entry is removed by swapping it
/// with the last entry of the map and popping it off, perturbing the position
/// of what used to be the last entry.
#[verifier::external_body]
pub(crate) fn im_swap_remove(m: &mut IndexMap<u32, Func>, k: u32) -> (r: Option<Func>)
    ensures
        ({
            let old_e = fn_entries(*old(m));
            let new_e = fn_entries(*final(m));
            if entries_contain_key(old_e, k) {
                exists|p: int|
                    0 <= p < old_e.len() && old_e[p].0 == k && r == Some(old_e[p].1) && new_e
                        == old_e.update(p, old_e.last()).drop_last()
            } else {
                new_e == old_e && r is None
            }
        }),
{
    m.swap_remove(&k)
}

/// Relies on `IndexMap::drain`: removes all entries and yields them in order.
#[verifier::external_body]
pub(crate) fn im_drain(m: &mut IndexMap<u32, Func>) -> (r: Vec<(u32, Func)>)
    ensures
        r@ == fn_entries(*old(m)),
        fn_entries(*final(m)) == Seq::<(u32, Func)>::empty(),
{
    m.drain(..).collect()
}

} // verus!
