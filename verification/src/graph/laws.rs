//! What the graph's edges, adjacency lists and queries have in common, and
//! what they owe to the module that they were built from.
use crate::graph::index_map::{key_pos, lemma_key_pos};
use crate::graph::dfs::{cycle_free_from, lemma_cycle_not_free};
use crate::graph::node::{
    adj_cycle, adj_dep_edge, adj_step, adjacency_of, edges_of, entity_edges, entity_edges_fn,
    map_append, nodes_of, EdgeView,
};
use crate::graph::node::GraphView;
use crate::graph::query::{
    dep_targets, has_node, parents_in, reaches, reverse_of, search_path, successors, Direction,
};
use crate::parser::ast::{EntityView, RelationshipType};
use crate::validator::rules::{dep_at, dep_cycle, dep_edge, dependency_acyclic, is_dependency};
use vstd::prelude::*;

verus! {

broadcast use vstd::seq_lib::group_seq_properties;

/// Changing the value at a position keeps every key where it was.
pub proof fn lemma_key_pos_update<V>(s: Seq<(Seq<char>, V)>, i: int, v: V, x: Seq<char>)
    requires
        0 <= i < s.len(),
    ensures
        key_pos(s.update(i, (s[i].0, v)), x) == key_pos(s, x),
    decreases s.len(),
{
    let u = s.update(i, (s[i].0, v));
    if i < s.len() - 1 {
        assert(u.drop_last() =~= s.drop_last().update(i, (s.drop_last()[i].0, v)));
        lemma_key_pos_update(s.drop_last(), i, v, x);
    } else {
        assert(u.drop_last() =~= s.drop_last());
    }
}

/// A new last entry is found under its own key and hides no other.
pub proof fn lemma_key_pos_push<V>(s: Seq<(Seq<char>, V)>, k: Seq<char>, v: V, x: Seq<char>)
    ensures
        key_pos(s.push((k, v)), x) == if x == k {
            s.len() as int
        } else {
            key_pos(s, x)
        },
{
    assert(s.push((k, v)).drop_last() =~= s);
}

/// The adjacency lists built from a sequence of edges hold `(b, t)` under
/// `a` exactly when one of the edges goes from `a` to `b` with type `t`.
pub proof fn lemma_adjacency_of_edge(es: Seq<EdgeView>, a: Seq<char>, b: Seq<char>, t: RelationshipType)
    ensures
        (key_pos(adjacency_of(es), a) >= 0 && adjacency_of(es)[key_pos(adjacency_of(es), a)].1.contains((b, t)))
            <==> exists|k: int| 0 <= k < es.len() && #[trigger] es[k] == (EdgeView { from: a, to: b, rel_type: t }),
    decreases es.len(),
{
    let e = EdgeView { from: a, to: b, rel_type: t };
    if es.len() > 0 {
        let prev = es.drop_last();
        let s = adjacency_of(prev);
        let last = es.last();
        lemma_adjacency_of_edge(prev, a, b, t);
        lemma_key_pos(s, last.from);
        lemma_key_pos(s, a);
        let s2 = adjacency_of(es);
        assert(s2 == map_append(s, last.from, (last.to, last.rel_type)));
        let kp = key_pos(s, last.from);
        if kp >= 0 {
            lemma_key_pos_update(s, kp, s[kp].1.push((last.to, last.rel_type)), a);
            assert(s2 == s.update(kp, (s[kp].0, s[kp].1.push((last.to, last.rel_type)))));
        } else {
            lemma_key_pos_push(s, last.from, seq![(last.to, last.rel_type)], a);
        }
        // the edges before the last one, and the last one
        let has_prev = exists|k: int| 0 <= k < prev.len() && #[trigger] prev[k] == e;
        let has_all = exists|k: int| 0 <= k < es.len() && #[trigger] es[k] == e;
        assert(has_all <==> (has_prev || last == e)) by {
            if has_prev {
                let k = choose|k: int| 0 <= k < prev.len() && #[trigger] prev[k] == e;
                assert(es[k] == e);
            }
            if last == e {
                assert(es[es.len() - 1] == e);
            }
            if has_all {
                let k = choose|k: int| 0 <= k < es.len() && #[trigger] es[k] == e;
                if k < es.len() - 1 {
                    assert(prev[k] == e);
                }
            }
        }
        if a == last.from {
            if kp >= 0 {
                let old_list = s[kp].1;
                assert(s2[kp].1 == old_list.push((last.to, last.rel_type)));
                assert(old_list.push((last.to, last.rel_type)).contains((b, t)) <==> (old_list.contains((b, t)) || (last.to, last.rel_type) == (b, t))) by {
                    let nl = old_list.push((last.to, last.rel_type));
                    if nl.contains((b, t)) {
                        let k = choose|k: int| 0 <= k < nl.len() && nl[k] == (b, t);
                        if k < old_list.len() {
                            assert(old_list[k] == (b, t));
                        }
                    }
                    if old_list.contains((b, t)) {
                        let k = choose|k: int| 0 <= k < old_list.len() && old_list[k] == (b, t);
                        assert(nl[k] == (b, t));
                    }
                    if (last.to, last.rel_type) == (b, t) {
                        assert(nl[old_list.len() as int] == (b, t));
                    }
                }
            } else {
                assert(s2[s.len() as int].1 == seq![(last.to, last.rel_type)]);
                assert(seq![(last.to, last.rel_type)].contains((b, t)) <==> (last.to, last.rel_type) == (b, t)) by {
                    if seq![(last.to, last.rel_type)].contains((b, t)) {
                        let k = choose|k: int| 0 <= k < 1 && seq![(last.to, last.rel_type)][k] == (b, t);
                    }
                    if (last.to, last.rel_type) == (b, t) {
                        assert(seq![(last.to, last.rel_type)][0] == (b, t));
                    }
                }
            }
        } else {
            let ka = key_pos(s, a);
            if kp >= 0 && ka >= 0 {
                assert(ka != kp);
                assert(s2[ka] == s[ka]);
            }
        }
    }
}

/// An edge of a module's edge sequence comes from one of its entities'
/// relationships, and each relationship gives one.
pub proof fn lemma_edges_of(m: Seq<EntityView>, e: EdgeView)
    ensures
        (exists|k: int| 0 <= k < edges_of(m).len() && #[trigger] edges_of(m)[k] == e) <==> exists|ei: int, ki: int|
            #![trigger m[ei].relationships[ki]]
            0 <= ei < m.len() && 0 <= ki < m[ei].relationships.len() && m[ei].id == e.from
                && m[ei].relationships[ki].target_id == e.to && m[ei].relationships[ki].rel_type == e.rel_type,
    decreases m.len(),
{
    if m.len() > 0 {
        let prev = m.drop_last();
        lemma_edges_of(prev, e);
        let f = entity_edges_fn();
        prev.lemma_flat_map_push(f, m.last());
        assert(m =~= prev.push(m.last()));
        let pe = edges_of(prev);
        let le = entity_edges(m.last());
        assert(edges_of(m) =~= pe + le);
        let in_all = exists|k: int| 0 <= k < edges_of(m).len() && #[trigger] edges_of(m)[k] == e;
        let in_prev = exists|k: int| 0 <= k < pe.len() && #[trigger] pe[k] == e;
        let in_last = exists|k: int| 0 <= k < le.len() && #[trigger] le[k] == e;
        assert(in_all <==> (in_prev || in_last)) by {
            if in_all {
                let k = choose|k: int| 0 <= k < edges_of(m).len() && #[trigger] edges_of(m)[k] == e;
                if k < pe.len() {
                    assert(pe[k] == e);
                } else {
                    assert(le[k - pe.len()] == e);
                }
            }
            if in_prev {
                let k = choose|k: int| 0 <= k < pe.len() && #[trigger] pe[k] == e;
                assert(edges_of(m)[k] == e);
            }
            if in_last {
                let k = choose|k: int| 0 <= k < le.len() && #[trigger] le[k] == e;
                assert(edges_of(m)[pe.len() + k] == e);
            }
        }
        let rel_all = exists|ei: int, ki: int|
            #![trigger m[ei].relationships[ki]]
            0 <= ei < m.len() && 0 <= ki < m[ei].relationships.len() && m[ei].id == e.from
                && m[ei].relationships[ki].target_id == e.to && m[ei].relationships[ki].rel_type == e.rel_type;
        let rel_prev = exists|ei: int, ki: int|
            #![trigger prev[ei].relationships[ki]]
            0 <= ei < prev.len() && 0 <= ki < prev[ei].relationships.len() && prev[ei].id == e.from
                && prev[ei].relationships[ki].target_id == e.to && prev[ei].relationships[ki].rel_type == e.rel_type;
        assert(in_last <==> exists|ki: int|
            0 <= ki < m.last().relationships.len() && m.last().id == e.from
                && #[trigger] m.last().relationships[ki].target_id == e.to && m.last().relationships[ki].rel_type == e.rel_type) by {
            if in_last {
                let k = choose|k: int| 0 <= k < le.len() && #[trigger] le[k] == e;
                assert(m.last().relationships[k].target_id == e.to);
            }
            if exists|ki: int|
                0 <= ki < m.last().relationships.len() && m.last().id == e.from
                    && #[trigger] m.last().relationships[ki].target_id == e.to && m.last().relationships[ki].rel_type == e.rel_type {
                let ki = choose|ki: int|
                    0 <= ki < m.last().relationships.len() && m.last().id == e.from
                        && #[trigger] m.last().relationships[ki].target_id == e.to && m.last().relationships[ki].rel_type == e.rel_type;
                assert(le[ki] == e);
            }
        }
        assert(rel_all <==> (rel_prev || exists|ki: int|
            0 <= ki < m.last().relationships.len() && m.last().id == e.from
                && #[trigger] m.last().relationships[ki].target_id == e.to && m.last().relationships[ki].rel_type == e.rel_type)) by {
            if rel_all {
                let (ei, ki) = choose|ei: int, ki: int|
                    #![trigger m[ei].relationships[ki]]
                    0 <= ei < m.len() && 0 <= ki < m[ei].relationships.len() && m[ei].id == e.from
                        && m[ei].relationships[ki].target_id == e.to && m[ei].relationships[ki].rel_type == e.rel_type;
                if ei < m.len() - 1 {
                    assert(prev[ei] == m[ei]);
                    assert(prev[ei].relationships[ki] == m[ei].relationships[ki]);
                } else {
                    assert(m.last().relationships[ki].target_id == e.to);
                }
            }
            if rel_prev {
                let (ei, ki) = choose|ei: int, ki: int|
                    #![trigger prev[ei].relationships[ki]]
                    0 <= ei < prev.len() && 0 <= ki < prev[ei].relationships.len() && prev[ei].id == e.from
                        && prev[ei].relationships[ki].target_id == e.to && prev[ei].relationships[ki].rel_type == e.rel_type;
                assert(m[ei] == prev[ei]);
                assert(m[ei].relationships[ki] == prev[ei].relationships[ki]);
            }
            if exists|ki: int|
                0 <= ki < m.last().relationships.len() && m.last().id == e.from
                    && #[trigger] m.last().relationships[ki].target_id == e.to && m.last().relationships[ki].rel_type == e.rel_type {
                let ki = choose|ki: int|
                    0 <= ki < m.last().relationships.len() && m.last().id == e.from
                        && #[trigger] m.last().relationships[ki].target_id == e.to && m.last().relationships[ki].rel_type == e.rel_type;
                assert(m[m.len() - 1].relationships[ki] == m.last().relationships[ki]);
            }
        }
    }
}

/// A dependency edge of the adjacency lists that a module builds is a
/// dependency edge of the module.
pub proof fn lemma_adj_step_is_dep_edge(m: Seq<EntityView>, a: Seq<char>, b: Seq<char>, t: RelationshipType)
    requires
        adj_dep_edge(adjacency_of(edges_of(m)), a, b, t),
    ensures
        dep_edge(m, a, b),
{
    let e = EdgeView { from: a, to: b, rel_type: t };
    lemma_adjacency_of_edge(edges_of(m), a, b, t);
    lemma_edges_of(m, e);
    let (ei, ki) = choose|ei: int, ki: int|
        #![trigger m[ei].relationships[ki]]
        0 <= ei < m.len() && 0 <= ki < m[ei].relationships.len() && m[ei].id == e.from
            && m[ei].relationships[ki].target_id == e.to && m[ei].relationships[ki].rel_type == e.rel_type;
    assert(dep_at(m, ei, ki));
}

/// A dependency cycle of the adjacency lists that a module builds is a
/// dependency cycle of the module.
pub proof fn lemma_adj_cycle_is_dep_cycle(m: Seq<EntityView>, c: Seq<Seq<char>>, t: RelationshipType)
    requires
        adj_cycle(adjacency_of(edges_of(m)), c, t),
    ensures
        dep_cycle(m, c),
{
    let adj = adjacency_of(edges_of(m));
    assert forall|j: int| 0 <= j < c.len() - 1 implies dep_edge(m, #[trigger] c[j], c[j + 1]) by {
        assert(adj_step(adj, c[j], c[j + 1]));
        let u = choose|u: RelationshipType| #[trigger] adj_dep_edge(adj, c[j], c[j + 1], u);
        lemma_adj_step_is_dep_edge(m, c[j], c[j + 1], u);
    }
    lemma_adj_step_is_dep_edge(m, c.last(), c[0], t);
}

/// A dependency relationship of the module is a dependency entry of its
/// adjacency lists.
proof fn lemma_dep_edge_is_adj_step(m: Seq<EntityView>, a: Seq<char>, b: Seq<char>)
    requires
        dep_edge(m, a, b),
    ensures
        adj_step(adjacency_of(edges_of(m)), a, b),
{
    let (ei, ki) = choose|ei: int, ki: int|
        #![trigger m[ei].relationships[ki]]
        dep_at(m, ei, ki) && m[ei].id == a && m[ei].relationships[ki].target_id == b;
    let t = m[ei].relationships[ki].rel_type;
    let e = EdgeView { from: a, to: b, rel_type: t };
    lemma_edges_of(m, e);
    lemma_adjacency_of_edge(edges_of(m), a, b, t);
    assert(adj_dep_edge(adjacency_of(edges_of(m)), a, b, t));
}

/// A dependency cycle of the module is one of its adjacency lists.
proof fn lemma_dep_cycle_is_adj_cycle(m: Seq<EntityView>, c: Seq<Seq<char>>) -> (t: RelationshipType)
    requires
        dep_cycle(m, c),
    ensures
        adj_cycle(adjacency_of(edges_of(m)), c, t),
{
    let adj = adjacency_of(edges_of(m));
    assert forall|j: int| 0 <= j < c.len() - 1 implies adj_step(adj, #[trigger] c[j], c[j + 1]) by {
        lemma_dep_edge_is_adj_step(m, c[j], c[j + 1]);
    }
    lemma_dep_edge_is_adj_step(m, c.last(), c[0]);
    choose|u: RelationshipType| #[trigger] adj_dep_edge(adj, c.last(), c[0], u)
}

/// Every entity id of a module is a key of its node entries.
proof fn lemma_nodes_of_has_id(m: Seq<EntityView>, ei: int)
    requires
        0 <= ei < m.len(),
    ensures
        key_pos(nodes_of(m), m[ei].id) >= 0,
    decreases m.len(),
{
    let prev = m.drop_last();
    let s = nodes_of(prev);
    let k = m.last().id;
    if ei < m.len() - 1 {
        lemma_nodes_of_has_id(prev, ei);
        assert(prev[ei] == m[ei]);
    }
    lemma_key_pos(s, k);
    if key_pos(s, k) >= 0 {
        lemma_key_pos_update(s, key_pos(s, k), m.last(), m[ei].id);
    } else {
        lemma_key_pos_push(s, k, m.last(), m[ei].id);
    }
}

/// The nodes of a module's graph hold each entity id of the module once,
/// and no other id; under each id stands the last entity with that id.
pub proof fn law_nodes_keep_last_entity_per_id(m: Seq<EntityView>, k: Seq<char>)
    ensures
        forall|i: int, j: int|
            0 <= i < j < nodes_of(m).len() ==> (#[trigger] nodes_of(m)[i]).0 != (#[trigger] nodes_of(m)[j]).0,
        key_pos(nodes_of(m), k) >= 0 <==> exists|i: int| 0 <= i < m.len() && (#[trigger] m[i]).id == k,
        key_pos(nodes_of(m), k) >= 0 ==> exists|i: int|
            0 <= i < m.len() && (#[trigger] m[i]).id == k && nodes_of(m)[key_pos(nodes_of(m), k)].1 == m[i]
                && forall|j: int| i < j < m.len() ==> (#[trigger] m[j]).id != k,
    decreases m.len(),
{
    if m.len() > 0 {
        let prev = m.drop_last();
        let s = nodes_of(prev);
        let last = m.last();
        let n = nodes_of(m);
        law_nodes_keep_last_entity_per_id(prev, k);
        law_nodes_keep_last_entity_per_id(prev, last.id);
        lemma_key_pos(s, last.id);
        lemma_key_pos(s, k);
        lemma_key_pos(n, k);
        let pl = key_pos(s, last.id);
        if pl >= 0 {
            lemma_key_pos_update(s, pl, last, k);
            assert(n == s.update(pl, (last.id, last)));
            assert forall|i: int, j: int| 0 <= i < j < n.len() implies (#[trigger] n[i]).0 != (#[trigger] n[j]).0 by {
                assert(n[i].0 == s[i].0 && n[j].0 == s[j].0);
            }
        } else {
            lemma_key_pos_push(s, last.id, last, k);
            assert(n == s.push((last.id, last)));
            assert forall|i: int, j: int| 0 <= i < j < n.len() implies (#[trigger] n[i]).0 != (#[trigger] n[j]).0 by {
                if j == s.len() {
                    assert(s[i].0 != last.id);
                } else {
                    assert(n[i] == s[i] && n[j] == s[j]);
                }
            }
        }
        if k == last.id {
            assert(m[m.len() - 1].id == k);
        } else {
            assert forall|i: int| 0 <= i < prev.len() implies m[i] == prev[i] by {}
            if exists|i: int| 0 <= i < m.len() && (#[trigger] m[i]).id == k {
                let i = choose|i: int| 0 <= i < m.len() && (#[trigger] m[i]).id == k;
                assert(prev[i].id == k);
            }
            if key_pos(s, k) >= 0 {
                let i = choose|i: int|
                    0 <= i < prev.len() && (#[trigger] prev[i]).id == k && s[key_pos(s, k)].1 == prev[i]
                        && forall|j: int| i < j < prev.len() ==> (#[trigger] prev[j]).id != k;
                assert(m[i] == prev[i]);
                assert forall|j: int| i < j < m.len() implies (#[trigger] m[j]).id != k by {
                    if j < prev.len() {
                        assert(m[j] == prev[j]);
                    }
                }
                if pl >= 0 {
                    assert(pl != key_pos(s, k));
                }
                assert(n[key_pos(n, k)] == s[key_pos(s, k)]);
            }
        }
    }
}

/// A module has dependency cycles exactly when the adjacency lists of its
/// graph do: the `requires` and `derives_from` relationships and the
/// dependency entries of the adjacency lists close the same cycles.
pub proof fn law_module_acyclic_iff_graph_acyclic(m: Seq<EntityView>)
    ensures
        dependency_acyclic(m) <==> forall|c: Seq<Seq<char>>, t: RelationshipType|
            !#[trigger] adj_cycle(adjacency_of(edges_of(m)), c, t),
{
    if dependency_acyclic(m) {
        assert forall|c: Seq<Seq<char>>, t: RelationshipType| !#[trigger] adj_cycle(adjacency_of(edges_of(m)), c, t) by {
            if adj_cycle(adjacency_of(edges_of(m)), c, t) {
                lemma_adj_cycle_is_dep_cycle(m, c, t);
                assert(dep_cycle(m, c));
            }
        }
    } else {
        let c = choose|c: Seq<Seq<char>>| dep_cycle(m, c);
        let t = lemma_dep_cycle_is_adj_cycle(m, c);
        assert(adj_cycle(adjacency_of(edges_of(m)), c, t));
    }
}

/// When no dependency walk from any entity id repeats an id, the module
/// has no dependency cycle.
pub proof fn lemma_free_nodes_give_acyclic_module(m: Seq<EntityView>)
    requires
        forall|x: Seq<char>|
            key_pos(nodes_of(m), x) >= 0 ==> #[trigger] cycle_free_from(adjacency_of(edges_of(m)), x),
    ensures
        dependency_acyclic(m),
{
    assert forall|c: Seq<Seq<char>>| !dep_cycle(m, c) by {
        if dep_cycle(m, c) {
            let t = lemma_dep_cycle_is_adj_cycle(m, c);
            lemma_cycle_not_free(adjacency_of(edges_of(m)), c, t);
            if c.len() >= 2 {
                assert(dep_edge(m, c[0], c[1]));
            } else {
                assert(dep_edge(m, c.last(), c[0]));
            }
            let (ei, ki) = choose|ei: int, ki: int|
                #![trigger m[ei].relationships[ki]]
                dep_at(m, ei, ki) && m[ei].id == c[0];
            lemma_nodes_of_has_id(m, ei);
        }
    }
}

proof fn lemma_dep_targets_contains(s: Seq<(Seq<char>, RelationshipType)>, b: Seq<char>)
    ensures
        dep_targets(s).contains(b) <==> exists|t: RelationshipType| is_dependency(t) && #[trigger] s.contains((b, t)),
    decreases s.len(),
{
    if s.len() > 0 {
        let prev = s.drop_last();
        lemma_dep_targets_contains(prev, b);
        let d = dep_targets(prev);
        if dep_targets(s).contains(b) {
            if is_dependency(s.last().1) && s.last().0 == b {
                assert(s[s.len() - 1] == (b, s.last().1));
                assert(s.contains((b, s.last().1)));
            } else {
                if is_dependency(s.last().1) {
                    let k = choose|k: int| 0 <= k < d.push(s.last().0).len() && d.push(s.last().0)[k] == b;
                    assert(d[k] == b);
                }
                let t = choose|t: RelationshipType| is_dependency(t) && #[trigger] prev.contains((b, t));
                let k = choose|k: int| 0 <= k < prev.len() && prev[k] == (b, t);
                assert(s[k] == (b, t));
                assert(s.contains((b, t)));
            }
        }
        if exists|t: RelationshipType| is_dependency(t) && #[trigger] s.contains((b, t)) {
            let t = choose|t: RelationshipType| is_dependency(t) && #[trigger] s.contains((b, t));
            let k = choose|k: int| 0 <= k < s.len() && s[k] == (b, t);
            if k == s.len() - 1 {
                assert(dep_targets(s) == d.push(b));
                assert(d.push(b)[d.len() as int] == b);
            } else {
                assert(prev[k] == (b, t));
                assert(prev.contains((b, t)));
                let j = choose|j: int| 0 <= j < d.len() && d[j] == b;
                if is_dependency(s.last().1) {
                    assert(d.push(s.last().0)[j] == b);
                }
            }
        }
    }
}

proof fn lemma_parents_contains(rev: Seq<(Seq<char>, Seq<char>)>, b: Seq<char>, a: Seq<char>)
    ensures
        parents_in(rev, b).contains(a) <==> rev.contains((b, a)),
    decreases rev.len(),
{
    if rev.len() > 0 {
        let prev = rev.drop_last();
        lemma_parents_contains(prev, b, a);
        let d = parents_in(prev, b);
        if parents_in(rev, b).contains(a) {
            if rev.last() == (b, a) {
                assert(rev[rev.len() - 1] == (b, a));
            } else {
                if rev.last().0 == b {
                    let k = choose|k: int| 0 <= k < d.push(rev.last().1).len() && d.push(rev.last().1)[k] == a;
                    assert(d[k] == a);
                }
                let k = choose|k: int| 0 <= k < prev.len() && prev[k] == (b, a);
                assert(rev[k] == (b, a));
            }
        }
        if rev.contains((b, a)) {
            let k = choose|k: int| 0 <= k < rev.len() && rev[k] == (b, a);
            if k == rev.len() - 1 {
                assert(d.push(a)[d.len() as int] == a);
            } else {
                assert(prev[k] == (b, a));
                let j = choose|j: int| 0 <= j < d.len() && d[j] == a;
                if rev.last().0 == b {
                    assert(d.push(rev.last().1)[j] == a);
                }
            }
        }
    }
}

proof fn lemma_reverse_of_contains(es: Seq<EdgeView>, b: Seq<char>, a: Seq<char>)
    ensures
        reverse_of(es).contains((b, a)) <==> exists|k: int|
            0 <= k < es.len() && (#[trigger] es[k]).from == a && es[k].to == b && is_dependency(es[k].rel_type),
    decreases es.len(),
{
    if es.len() > 0 {
        let prev = es.drop_last();
        lemma_reverse_of_contains(prev, b, a);
        let r = reverse_of(prev);
        let last = es.last();
        if reverse_of(es).contains((b, a)) {
            if is_dependency(last.rel_type) && (last.to, last.from) == (b, a) {
                assert(es[es.len() - 1] == last);
            } else {
                if is_dependency(last.rel_type) {
                    let k = choose|k: int| 0 <= k < r.push((last.to, last.from)).len() && r.push((last.to, last.from))[k] == (b, a);
                    assert(r[k] == (b, a));
                }
                let k = choose|k: int|
                    0 <= k < prev.len() && (#[trigger] prev[k]).from == a && prev[k].to == b && is_dependency(prev[k].rel_type);
                assert(es[k] == prev[k]);
            }
        }
        if exists|k: int| 0 <= k < es.len() && (#[trigger] es[k]).from == a && es[k].to == b && is_dependency(es[k].rel_type) {
            let k = choose|k: int| 0 <= k < es.len() && (#[trigger] es[k]).from == a && es[k].to == b && is_dependency(es[k].rel_type);
            if k == es.len() - 1 {
                assert(r.push((b, a))[r.len() as int] == (b, a));
            } else {
                assert(prev[k] == es[k]);
                let j = choose|j: int| 0 <= j < r.len() && r[j] == (b, a);
                if is_dependency(last.rel_type) {
                    assert(r.push((last.to, last.from))[j] == (b, a));
                }
            }
        }
    }
}

/// In a graph whose adjacency lists are those of its edges, a search
/// forward steps from `a` to `b` exactly when a search backward steps
/// from `b` to `a`: both mean a `requires` or `derives_from` edge from `a`
/// to `b`.
proof fn lemma_steps_mirror(g: GraphView, a: Seq<char>, b: Seq<char>)
    requires
        g.adjacency == adjacency_of(g.edges),
    ensures
        successors(g, Direction::Forward, a).contains(b) <==> successors(g, Direction::Backward, b).contains(a),
{
    let adj = g.adjacency;
    lemma_parents_contains(reverse_of(g.edges), b, a);
    lemma_reverse_of_contains(g.edges, b, a);
    let fwd = successors(g, Direction::Forward, a).contains(b);
    let edge = exists|k: int|
        0 <= k < g.edges.len() && (#[trigger] g.edges[k]).from == a && g.edges[k].to == b && is_dependency(g.edges[k].rel_type);
    if key_pos(adj, a) >= 0 {
        let list = adj[key_pos(adj, a)].1;
        lemma_dep_targets_contains(list, b);
        if fwd {
            let t = choose|t: RelationshipType| is_dependency(t) && #[trigger] list.contains((b, t));
            lemma_adjacency_of_edge(g.edges, a, b, t);
            let k = choose|k: int| 0 <= k < g.edges.len() && #[trigger] g.edges[k] == (EdgeView { from: a, to: b, rel_type: t });
            assert(g.edges[k].from == a);
        }
        if edge {
            let k = choose|k: int|
                0 <= k < g.edges.len() && (#[trigger] g.edges[k]).from == a && g.edges[k].to == b && is_dependency(g.edges[k].rel_type);
            let t = g.edges[k].rel_type;
            lemma_adjacency_of_edge(g.edges, a, b, t);
            assert(g.edges[k] == (EdgeView { from: a, to: b, rel_type: t }));
            assert(list.contains((b, t)));
        }
    } else {
        if edge {
            let k = choose|k: int|
                0 <= k < g.edges.len() && (#[trigger] g.edges[k]).from == a && g.edges[k].to == b && is_dependency(g.edges[k].rel_type);
            let t = g.edges[k].rel_type;
            lemma_adjacency_of_edge(g.edges, a, b, t);
            assert(g.edges[k] == (EdgeView { from: a, to: b, rel_type: t }));
        }
        assert(!fwd);
    }
}

/// A forward walk read backwards is a backward walk, provided its first id
/// is a node.
proof fn lemma_reverse_walk(g: GraphView, p: Seq<Seq<char>>)
    requires
        g.adjacency == adjacency_of(g.edges),
        search_path(g, Direction::Forward, p),
        has_node(g, p[0]),
    ensures
        search_path(g, Direction::Backward, p.reverse()),
{
    let q = p.reverse();
    let n = p.len();
    assert forall|j: int| 0 <= j < q.len() - 1 implies successors(g, Direction::Backward, #[trigger] q[j]).contains(q[j + 1]) by {
        assert(q[j] == p[n - 1 - j]);
        assert(q[j + 1] == p[n - 2 - j]);
        assert(successors(g, Direction::Forward, p[n - 2 - j]).contains(p[(n - 2 - j) + 1]));
        lemma_steps_mirror(g, p[n - 2 - j], p[n - 1 - j]);
    }
    assert forall|j: int| 1 <= j < q.len() implies has_node(g, #[trigger] q[j]) by {
        assert(q[j] == p[n - 1 - j]);
        if n - 1 - j > 0 {
            assert(has_node(g, p[n - 1 - j]));
        }
    }
}

/// A backward walk read backwards is a forward walk, provided its first
/// id is a node.
proof fn lemma_reverse_walk_back(g: GraphView, p: Seq<Seq<char>>)
    requires
        g.adjacency == adjacency_of(g.edges),
        search_path(g, Direction::Backward, p),
        has_node(g, p[0]),
    ensures
        search_path(g, Direction::Forward, p.reverse()),
{
    let q = p.reverse();
    let n = p.len();
    assert forall|j: int| 0 <= j < q.len() - 1 implies successors(g, Direction::Forward, #[trigger] q[j]).contains(q[j + 1]) by {
        assert(q[j] == p[n - 1 - j]);
        assert(q[j + 1] == p[n - 2 - j]);
        assert(successors(g, Direction::Backward, p[n - 2 - j]).contains(p[(n - 2 - j) + 1]));
        lemma_steps_mirror(g, p[n - 1 - j], p[n - 2 - j]);
    }
    assert forall|j: int| 1 <= j < q.len() implies has_node(g, #[trigger] q[j]) by {
        assert(q[j] == p[n - 1 - j]);
        if n - 1 - j > 0 {
            assert(has_node(g, p[n - 1 - j]));
        }
    }
}

/// Ancestors and descendants mirror each other: in a graph whose
/// adjacency lists are those of its edges (as every graph that
/// `from_module` builds), a search forward from node `x` reaches node `y`
/// exactly when a search backward from `y` reaches `x`; so `y` is among the
/// ancestors of `x` exactly when `x` is among the descendants of `y`.
pub proof fn law_ancestors_mirror_descendants(g: GraphView, x: Seq<char>, y: Seq<char>)
    requires
        g.adjacency == adjacency_of(g.edges),
        has_node(g, x),
        has_node(g, y),
    ensures
        reaches(g, Direction::Forward, x, y) <==> reaches(g, Direction::Backward, y, x),
{
    if reaches(g, Direction::Forward, x, y) {
        let p = choose|p: Seq<Seq<char>>| #[trigger] search_path(g, Direction::Forward, p) && p[0] == x && p.last() == y;
        lemma_reverse_walk(g, p);
        let q = p.reverse();
        assert(q[0] == y && q.last() == x);
        assert(search_path(g, Direction::Backward, q));
    }
    if reaches(g, Direction::Backward, y, x) {
        let p = choose|p: Seq<Seq<char>>| #[trigger] search_path(g, Direction::Backward, p) && p[0] == y && p.last() == x;
        lemma_reverse_walk_back(g, p);
        let q = p.reverse();
        assert(q[0] == x && q.last() == y);
        assert(search_path(g, Direction::Forward, q));
    }
}

} // verus!
