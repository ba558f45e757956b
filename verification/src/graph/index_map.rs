//! The ordered maps of the knowledge graph, kept in `indexmap::IndexMap`:
//! what each holds, and the calls that the graph makes on them.
use crate::parser::ast::{Entity, EntityView, RelationshipType};
use indexmap::IndexMap;
use vstd::prelude::*;

verus! {

#[verifier::external_type_specification]
#[verifier::external_body]
#[verifier::reject_recursive_types(K)]
#[verifier::reject_recursive_types(V)]
#[verifier::reject_recursive_types(S)]
pub struct ExIndexMap<K, V, S>(indexmap::IndexMap<K, V, S>);

/// The entries of an entity map, in the map's order: each key with the
/// entity stored under it.
pub uninterp spec fn entity_entries(m: IndexMap<String, Entity>) -> Seq<(Seq<char>, EntityView)>;

/// The entries of an adjacency map, in the map's order: each key with its
/// list of (target, relationship type) pairs.
pub uninterp spec fn adjacency_entries(m: IndexMap<String, Vec<(String, RelationshipType)>>) -> Seq<
    (Seq<char>, Seq<(Seq<char>, RelationshipType)>),
>;

/// The last position of key `k` among `s`'s entries, or -1. (An
/// `IndexMap` holds each key once, so this is the position of the key.)
pub open spec fn key_pos<V>(s: Seq<(Seq<char>, V)>, k: Seq<char>) -> int
    decreases s.len(),
{
    if s.len() == 0 {
        -1
    } else if s.last().0 == k {
        s.len() - 1
    } else {
        key_pos(s.drop_last(), k)
    }
}

pub proof fn lemma_key_pos<V>(s: Seq<(Seq<char>, V)>, k: Seq<char>)
    ensures
        -1 <= key_pos(s, k) < s.len(),
        key_pos(s, k) >= 0 ==> s[key_pos(s, k)].0 == k,
        key_pos(s, k) < 0 ==> forall|i: int| 0 <= i < s.len() ==> (#[trigger] s[i]).0 != k,
        forall|i: int| key_pos(s, k) < i < s.len() ==> (#[trigger] s[i]).0 != k,
    decreases s.len(),
{
    if s.len() > 0 && s.last().0 != k {
        lemma_key_pos(s.drop_last(), k);
        assert forall|i: int| key_pos(s, k) < i < s.len() implies (#[trigger] s[i]).0 != k by {
            if i < s.len() - 1 {
                assert(s[i] == s.drop_last()[i]);
            }
        }
    }
}

/// What `insert` does to a map's entries: a present key keeps its place
/// and takes the new value; a new key goes last.
pub open spec fn map_put<V>(s: Seq<(Seq<char>, V)>, k: Seq<char>, v: V) -> Seq<(Seq<char>, V)> {
    if key_pos(s, k) >= 0 {
        s.update(key_pos(s, k), (k, v))
    } else {
        s.push((k, v))
    }
}

/// Creates an empty entity map (`IndexMap::new`).
#[verifier::external_body]
pub(crate) fn entity_map_new() -> (m: IndexMap<String, Entity>)
    ensures
        entity_entries(m) == Seq::<(Seq<char>, EntityView)>::empty(),
{
    IndexMap::new()
}

/// `IndexMap::insert`: a present key keeps its place and takes the new
/// value, and the old value is returned; a new key is added last.
#[verifier::external_body]
pub(crate) fn entity_map_insert(m: &mut IndexMap<String, Entity>, k: String, v: Entity) -> (r: Option<
    Entity,
>)
    ensures
        entity_entries(*final(m)) == map_put(entity_entries(*old(m)), k@, v@),
        key_pos(entity_entries(*old(m)), k@) >= 0 <==> r is Some,
        r matches Some(e) ==> e@ == entity_entries(*old(m))[key_pos(entity_entries(*old(m)), k@)].1,
{
    m.insert(k, v)
}

/// `IndexMap::get`: the entity stored under `k`, if any.
#[verifier::external_body]
pub(crate) fn entity_map_get<'a>(m: &'a IndexMap<String, Entity>, k: &str) -> (r: Option<&'a Entity>)
    ensures
        key_pos(entity_entries(*m), k@) >= 0 <==> r is Some,
        r matches Some(e) ==> e@ == entity_entries(*m)[key_pos(entity_entries(*m), k@)].1,
{
    m.get(k)
}

/// `IndexMap::len`: the number of entries.
#[verifier::external_body]
pub(crate) fn entity_map_len(m: &IndexMap<String, Entity>) -> (r: usize)
    ensures
        r == entity_entries(*m).len(),
{
    m.len()
}

/// `IndexMap::get_index`: the entry at position `i`, if there is one.
#[verifier::external_body]
pub(crate) fn entity_map_get_index<'a>(m: &'a IndexMap<String, Entity>, i: usize) -> (r: Option<
    (&'a String, &'a Entity),
>)
    ensures
        i < entity_entries(*m).len() <==> r is Some,
        r matches Some(kv) ==> kv.0@ == entity_entries(*m)[i as int].0 && kv.1@ == entity_entries(
            *m,
        )[i as int].1,
{
    m.get_index(i)
}

/// Creates an empty adjacency map (`IndexMap::new`).
#[verifier::external_body]
pub(crate) fn adjacency_map_new() -> (m: IndexMap<String, Vec<(String, RelationshipType)>>)
    ensures
        adjacency_entries(m) == Seq::<(Seq<char>, Seq<(Seq<char>, RelationshipType)>)>::empty(),
{
    IndexMap::new()
}

pub open spec fn targets_view(v: Seq<(String, RelationshipType)>) -> Seq<(Seq<char>, RelationshipType)> {
    v.map_values(|p: (String, RelationshipType)| (p.0@, p.1))
}

/// `IndexMap::insert` on an adjacency map.
#[verifier::external_body]
pub(crate) fn adjacency_map_insert(
    m: &mut IndexMap<String, Vec<(String, RelationshipType)>>,
    k: String,
    v: Vec<(String, RelationshipType)>,
)
    ensures
        adjacency_entries(*final(m)) == map_put(adjacency_entries(*old(m)), k@, targets_view(v@)),
{
    m.insert(k, v);
}

/// `IndexMap::get` on an adjacency map.
#[verifier::external_body]
pub(crate) fn adjacency_map_get<'a>(
    m: &'a IndexMap<String, Vec<(String, RelationshipType)>>,
    k: &str,
) -> (r: Option<&'a Vec<(String, RelationshipType)>>)
    ensures
        key_pos(adjacency_entries(*m), k@) >= 0 <==> r is Some,
        r matches Some(v) ==> targets_view(v@) == adjacency_entries(*m)[key_pos(
            adjacency_entries(*m),
            k@,
        )].1,
{
    m.get(k)
}

/// `IndexMap::len` on an adjacency map.
#[verifier::external_body]
pub(crate) fn adjacency_map_len(m: &IndexMap<String, Vec<(String, RelationshipType)>>) -> (r: usize)
    ensures
        r == adjacency_entries(*m).len(),
{
    m.len()
}

/// `IndexMap::get_index` on an adjacency map.
#[verifier::external_body]
pub(crate) fn adjacency_map_get_index<'a>(
    m: &'a IndexMap<String, Vec<(String, RelationshipType)>>,
    i: usize,
) -> (r: Option<(&'a String, &'a Vec<(String, RelationshipType)>)>)
    ensures
        i < adjacency_entries(*m).len() <==> r is Some,
        r matches Some(kv) ==> kv.0@ == adjacency_entries(*m)[i as int].0 && targets_view(kv.1@)
            == adjacency_entries(*m)[i as int].1,
{
    m.get_index(i)
}

} // verus!
