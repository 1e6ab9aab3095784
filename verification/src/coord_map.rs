//! Insertion-ordered maps from coordinates and from external names to arena
//! indices, kept in `indexmap`'s `IndexMap` as the reference hash map of
//! this crate.  Only the operations the network needs are wrapped, each with
//! the contract `indexmap`'s source gives it.

use vstd::prelude::*;

verus! {

#[verifier::external_type_specification]
#[verifier::external_body]
#[verifier::reject_recursive_types(K)]
#[verifier::reject_recursive_types(V)]
#[verifier::reject_recursive_types(S)]
pub struct ExIndexMap<K, V, S>(indexmap::IndexMap<K, V, S>);

/// An insertion-ordered map from coordinates to arena indices.
pub type CoordIndexMap = indexmap::IndexMap<Vec<i32>, usize>;

/// An insertion-ordered map from external names to arena indices.
pub type NameIndexMap = indexmap::IndexMap<String, usize>;

/// What a coordinate-keyed index map holds: coordinates (by value) mapped to
/// arena indices.  Two `Vec<i32>` keys are equal exactly when their views
/// are, so the view-keyed map captures the lookup behaviour.
pub uninterp spec fn coord_map_contents(m: CoordIndexMap) -> Map<Seq<i32>, usize>;

/// What a name-keyed index map holds.
pub uninterp spec fn name_map_contents(m: NameIndexMap) -> Map<Seq<char>, usize>;

/// Relies on `IndexMap::new`: an empty map.
#[verifier::external_body]
pub(crate) fn coord_map_new() -> (r: CoordIndexMap)
    ensures
        coord_map_contents(r) =~= Map::empty(),
{
    indexmap::IndexMap::new()
}

/// Relies on `IndexMap::insert`: the value stored under a key equal to `k`
/// becomes `v`; every other key keeps its value.
#[verifier::external_body]
pub(crate) fn coord_map_insert(m: &mut CoordIndexMap, k: Vec<i32>, v: usize)
    ensures
        coord_map_contents(*final(m)) == coord_map_contents(*old(m)).insert(k@, v),
{
    m.insert(k, v);
}

/// Relies on `IndexMap::get`: the value stored under a key equal to `k`, if
/// one is present.
#[verifier::external_body]
pub(crate) fn coord_map_get(m: &CoordIndexMap, k: &Vec<i32>) -> (r: Option<usize>)
    ensures
        r == if coord_map_contents(*m).dom().contains(k@) {
            Some(coord_map_contents(*m)[k@])
        } else {
            None::<usize>
        },
{
    m.get(k).copied()
}

/// Relies on `IndexMap::new`: an empty map.
#[verifier::external_body]
pub(crate) fn name_map_new() -> (r: NameIndexMap)
    ensures
        name_map_contents(r) =~= Map::empty(),
{
    indexmap::IndexMap::new()
}

/// Relies on `IndexMap::insert`: the value stored under a key equal to `k`
/// becomes `v`; every other key keeps its value.
#[verifier::external_body]
pub(crate) fn name_map_insert(m: &mut NameIndexMap, k: String, v: usize)
    ensures
        name_map_contents(*final(m)) == name_map_contents(*old(m)).insert(k@, v),
{
    m.insert(k, v);
}

/// Relies on `IndexMap::get`: the value stored under a key equal to `k`, if
/// one is present.
#[verifier::external_body]
pub(crate) fn name_map_get(m: &NameIndexMap, k: &String) -> (r: Option<usize>)
    ensures
        r == if name_map_contents(*m).dom().contains(k@) {
            Some(name_map_contents(*m)[k@])
        } else {
            None::<usize>
        },
{
    m.get(k).copied()
}

} // verus!
