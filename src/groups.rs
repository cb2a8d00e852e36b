//! The group table: one window state per distinct group key, held in a
//! halfbrown map.
use vstd::prelude::*;
use crate::window::{Window, WindowV};

verus! {

/// halfbrown's default hasher, declared so that its map type can be named.
#[verifier::external_type_specification]
#[verifier::external_body]
pub struct ExDefaultHashBuilder(halfbrown::DefaultHashBuilder);

/// halfbrown's map, declared as an opaque type: what it holds is known only
/// through `group_windows` and the wrappers below.
#[verifier::external_type_specification]
#[verifier::external_body]
#[verifier::reject_recursive_types(K)]
#[verifier::reject_recursive_types(V)]
#[verifier::reject_recursive_types(S)]
pub struct ExSizedHashMap<K, V, S, const VEC_LIMIT_UPPER: usize>(halfbrown::SizedHashMap<K, V, S, VEC_LIMIT_UPPER>);

/// The map from group key to group state.
pub type GroupMap = halfbrown::HashMap<String, Window>;

/// The windows that a group table holds, by key.
pub uninterp spec fn group_windows(m: GroupMap) -> Map<Seq<char>, WindowV>;

/// Relies on halfbrown's `HashMap::new`: the new map is empty.
#[verifier::external_body]
pub(crate) fn table_new() -> (r: GroupMap)
    ensures
        group_windows(r).dom() == Set::<Seq<char>>::empty(),
{
    halfbrown::HashMap::new()
}

/// Relies on halfbrown's `HashMap::remove`: the entry of key `k` leaves the
/// map and is returned, if there is one.
#[verifier::external_body]
pub(crate) fn table_remove(m: &mut GroupMap, k: &String) -> (r: Option<Window>)
    ensures
        group_windows(*final(m)) == group_windows(*old(m)).remove(k@),
        match r {
            Some(w) => group_windows(*old(m)).contains_key(k@) && w@ == group_windows(*old(m))[k@],
            None => !group_windows(*old(m)).contains_key(k@),
        },
{
    m.remove(k)
}

/// Relies on halfbrown's `HashMap::insert`: afterwards key `k` maps to `w`
/// and every other entry stays.
#[verifier::external_body]
pub(crate) fn table_insert(m: &mut GroupMap, k: String, w: Window)
    ensures
        group_windows(*final(m)) == group_windows(*old(m)).insert(k@, w@),
{
    m.insert(k, w);
}

} // verus!
