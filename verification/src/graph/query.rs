//! Queries over a knowledge graph: the ancestors and descendants of an
//! entity along dependency edges, and its direct relations of one type.
use crate::graph::index_map::{
    adjacency_map_get, entity_map_get, key_pos, lemma_key_pos, targets_view,
};
use crate::graph::node::{contains_name, names_of, EdgeView, GraphError, GraphErrorView, GraphView, KnowledgeGraph};
use crate::parser::ast::{Entity, EntityView, RelationshipType};
use crate::text::owned;
use crate::validator::rules::is_dependency;
use vstd::prelude::*;

verus! {

broadcast use vstd::seq_lib::group_seq_properties;

/// Which way a dependency search follows the edges.
pub enum Direction {
    /// From an entity to what it depends on.
    Forward,
    /// From an entity to what depends on it.
    Backward,
}

/// The targets of the dependency pairs of an adjacency list, in order.
pub open spec fn dep_targets(s: Seq<(Seq<char>, RelationshipType)>) -> Seq<Seq<char>>
    decreases s.len(),
{
    if s.len() == 0 {
        seq![]
    } else if is_dependency(s.last().1) {
        dep_targets(s.drop_last()).push(s.last().0)
    } else {
        dep_targets(s.drop_last())
    }
}

/// The `(to, from)` pairs of the dependency edges, in edge order.
pub open spec fn reverse_of(es: Seq<EdgeView>) -> Seq<(Seq<char>, Seq<char>)>
    decreases es.len(),
{
    if es.len() == 0 {
        seq![]
    } else if is_dependency(es.last().rel_type) {
        reverse_of(es.drop_last()).push((es.last().to, es.last().from))
    } else {
        reverse_of(es.drop_last())
    }
}

/// The sources of the pairs of `rev` whose target is `a`, in order.
pub open spec fn parents_in(rev: Seq<(Seq<char>, Seq<char>)>, a: Seq<char>) -> Seq<Seq<char>>
    decreases rev.len(),
{
    if rev.len() == 0 {
        seq![]
    } else if rev.last().0 == a {
        parents_in(rev.drop_last(), a).push(rev.last().1)
    } else {
        parents_in(rev.drop_last(), a)
    }
}

/// The ids that a search in direction `dir` visits next from `a`, in order.
pub open spec fn successors(g: GraphView, dir: Direction, a: Seq<char>) -> Seq<Seq<char>> {
    match dir {
        Direction::Forward => if key_pos(g.adjacency, a) >= 0 {
            dep_targets(g.adjacency[key_pos(g.adjacency, a)].1)
        } else {
            seq![]
        },
        Direction::Backward => parents_in(reverse_of(g.edges), a),
    }
}

/// Whether the graph has a node under `k`.
pub open spec fn has_node(g: GraphView, k: Seq<char>) -> bool {
    key_pos(g.nodes, k) >= 0
}

/// The entity stored under `k`.
pub open spec fn node_entity(g: GraphView, k: Seq<char>) -> EntityView {
    g.nodes[key_pos(g.nodes, k)].1
}

/// Whether `p` is a walk of a search in direction `dir`: each step goes to
/// a successor, and every id after the first is a node.
pub open spec fn search_path(g: GraphView, dir: Direction, p: Seq<Seq<char>>) -> bool {
    &&& p.len() >= 1
    &&& forall|j: int| 0 <= j < p.len() - 1 ==> successors(g, dir, #[trigger] p[j]).contains(p[j + 1])
    &&& forall|j: int| 1 <= j < p.len() ==> has_node(g, #[trigger] p[j])
}

/// Whether a search in direction `dir` from `a` reaches `x`.
pub open spec fn reaches(g: GraphView, dir: Direction, a: Seq<char>, x: Seq<char>) -> bool {
    exists|p: Seq<Seq<char>>| #[trigger] search_path(g, dir, p) && p[0] == a && p.last() == x
}

/// `order` followed by the ids of `succ` that are nodes and not in it yet,
/// each once, in the order of `succ`.
pub open spec fn met_after(g: GraphView, order: Seq<Seq<char>>, succ: Seq<Seq<char>>) -> Seq<Seq<char>>
    decreases succ.len(),
{
    if succ.len() == 0 {
        order
    } else {
        let o = met_after(g, order, succ.drop_last());
        if has_node(g, succ.last()) && !o.contains(succ.last()) {
            o.push(succ.last())
        } else {
            o
        }
    }
}

/// The order in which a breadth-first search in direction `dir` meets
/// nodes: `order` holds the ids met so far, of which those before `head`
/// have been expanded; expanding an id appends its successors that are
/// nodes and not met yet.
pub open spec fn bfs_order(g: GraphView, dir: Direction, order: Seq<Seq<char>>, head: int) -> Seq<Seq<char>>
    decreases g.nodes.len() - head when order.len() <= g.nodes.len()
{
    if 0 <= head < order.len() {
        bfs_order(g, dir, met_after(g, order, successors(g, dir, order[head])), head + 1)
    } else {
        order
    }
}

/// Whether `r`, found under the ids `ks`, is the outcome of a search from
/// `a`: every id reached from `a` other than `a` itself, once each, in the
/// order in which a breadth-first search meets them, with the entity
/// stored under it.
pub open spec fn search_outcome(
    g: GraphView,
    dir: Direction,
    a: Seq<char>,
    ks: Seq<Seq<char>>,
    r: Seq<EntityView>,
) -> bool {
    &&& ks.no_duplicates()
    &&& ks.len() == r.len()
    &&& forall|i: int| 0 <= i < ks.len() ==> has_node(g, #[trigger] ks[i]) && r[i] == node_entity(g, ks[i])
    &&& forall|x: Seq<char>| #[trigger] ks.contains(x) <==> (x != a && reaches(g, dir, a, x))
    &&& ks == bfs_order(g, dir, seq![a], 0).drop_first()
}

/// The entities stored under the targets of type `t` in an adjacency list,
/// in order, skipping targets that are not nodes.
pub open spec fn related_in(g: GraphView, s: Seq<(Seq<char>, RelationshipType)>, t: RelationshipType) -> Seq<EntityView>
    decreases s.len(),
{
    if s.len() == 0 {
        seq![]
    } else if s.last().1 == t && has_node(g, s.last().0) {
        related_in(g, s.drop_last(), t).push(node_entity(g, s.last().0))
    } else {
        related_in(g, s.drop_last(), t)
    }
}

/// The entities related to `a` by edges of type `t`.
pub open spec fn related_of(g: GraphView, a: Seq<char>, t: RelationshipType) -> Seq<EntityView> {
    if key_pos(g.adjacency, a) >= 0 {
        related_in(g, g.adjacency[key_pos(g.adjacency, a)].1, t)
    } else {
        seq![]
    }
}

pub open spec fn entity_views<'a>(v: Seq<&'a Entity>) -> Seq<EntityView> {
    v.map_values(|e: &'a Entity| e@)
}

pub open spec fn pair_names(v: Seq<(String, String)>) -> Seq<(Seq<char>, Seq<char>)> {
    v.map_values(|p: (String, String)| (p.0@, p.1@))
}

/// A query interface bound to one knowledge graph.
pub struct GraphQuery<'a> {
    graph: &'a KnowledgeGraph,
    /// `(to, from)` for each dependency edge of the graph, in edge order.
    reverse_adj: Vec<(String, String)>,
}

impl<'a> GraphQuery<'a> {
    #[verifier::type_invariant]
    spec fn reverse_matches(self) -> bool {
        pair_names(self.reverse_adj@) == reverse_of(self.graph@.edges)
    }

    /// The graph this query reads.
    pub closed spec fn graph_view(self) -> GraphView {
        self.graph@
    }

    /// Creates a query bound to `graph`, with the reverse view of its
    /// dependency edges that `descendants` follows.
    pub fn new(graph: &'a KnowledgeGraph) -> (q: Self)
        ensures
            q.graph_view() == graph@,
    {
        let ghost es = graph@.edges;
        let mut rev: Vec<(String, String)> = Vec::new();
        let mut i: usize = 0;
        while i < graph.edges.len()
            invariant
                es == graph@.edges,
                i <= es.len(),
                pair_names(rev@) == reverse_of(es.take(i as int)),
            decreases es.len() - i,
        {
            let edge = &graph.edges[i];
            proof {
                assert(es.take(i + 1).drop_last() =~= es.take(i as int));
                assert(es[i as int] == edge@);
            }
            if edge.rel_type == RelationshipType::Requires || edge.rel_type
                == RelationshipType::DerivesFrom {
                let ghost before = pair_names(rev@);
                rev.push((edge.to.clone(), edge.from.clone()));
                assert(pair_names(rev@) =~= before.push((edge@.to, edge@.from)));
            }
            i = i + 1;
        }
        assert(es.take(es.len() as int) =~= es);
        GraphQuery { graph, reverse_adj: rev }
    }

    /// The ids that a search in direction `dir` visits next from `a`.
    fn successor_ids(&self, dir: &Direction, a: &String) -> (r: Vec<String>)
        ensures
            names_of(r@) == successors(self.graph_view(), *dir, a@),
    {
        proof {
            use_type_invariant(self);
        }
        let mut r: Vec<String> = Vec::new();
        match dir {
            Direction::Forward => {
                match adjacency_map_get(&self.graph.adjacency, a.as_str()) {
                    Some(list) => {
                        let ghost s = targets_view(list@);
                        let mut i: usize = 0;
                        while i < list.len()
                            invariant
                                s == targets_view(list@),
                                i <= s.len(),
                                names_of(r@) == dep_targets(s.take(i as int)),
                            decreases s.len() - i,
                        {
                            proof {
                                assert(s.take(i + 1).drop_last() =~= s.take(i as int));
                            }
                            let t = list[i].1;
                            if t == RelationshipType::Requires || t == RelationshipType::DerivesFrom {
                                let ghost before = names_of(r@);
                                r.push(list[i].0.clone());
                                assert(names_of(r@) =~= before.push(s[i as int].0));
                            }
                            i = i + 1;
                        }
                        assert(s.take(s.len() as int) =~= s);
                    },
                    None => {
                        assert(names_of(r@) =~= Seq::<Seq<char>>::empty());
                    },
                }
            },
            Direction::Backward => {
                let ghost rv = pair_names(self.reverse_adj@);
                let mut i: usize = 0;
                while i < self.reverse_adj.len()
                    invariant
                        rv == pair_names(self.reverse_adj@),
                        i <= rv.len(),
                        names_of(r@) == parents_in(rv.take(i as int), a@),
                    decreases rv.len() - i,
                {
                    proof {
                        assert(rv.take(i + 1).drop_last() =~= rv.take(i as int));
                    }
                    if self.reverse_adj[i].0 == *a {
                        let ghost before = names_of(r@);
                        r.push(self.reverse_adj[i].1.clone());
                        assert(names_of(r@) =~= before.push(rv[i as int].1));
                    }
                    i = i + 1;
                }
                assert(rv.take(rv.len() as int) =~= rv);
            },
        }
        r
    }
}

proof fn lemma_nodes_bound(g: GraphView, o: Seq<Seq<char>>)
    requires
        o.no_duplicates(),
        forall|i: int| 0 <= i < o.len() ==> has_node(g, #[trigger] o[i]),
    ensures
        o.len() <= g.nodes.len(),
{
    let keys = g.nodes.map_values(|e: (Seq<char>, EntityView)| e.0);
    assert forall|x: Seq<char>| o.to_set().contains(x) implies keys.to_set().contains(x) by {
        let i = choose|i: int| 0 <= i < o.len() && o[i] == x;
        assert(has_node(g, o[i]));
        lemma_key_pos(g.nodes, x);
        assert(keys[key_pos(g.nodes, x)] == x);
    }
    o.unique_seq_to_set();
    keys.lemma_cardinality_of_set();
    vstd::seq_lib::seq_to_set_is_finite(keys);
    vstd::set_lib::lemma_len_subset(o.to_set(), keys.to_set());
}

proof fn lemma_closed_reaches(
    g: GraphView,
    dir: Direction,
    o: Seq<Seq<char>>,
    v: Seq<Seq<char>>,
    p: Seq<Seq<char>>,
)
    requires
        search_path(g, dir, p),
        o.contains(p[0]),
        forall|j: int, y: Seq<char>|
            0 <= j < o.len() && #[trigger] successors(g, dir, o[j]).contains(y) ==> #[trigger] v.contains(y),
        forall|y: Seq<char>| v.contains(y) && has_node(g, y) ==> #[trigger] o.contains(y),
    ensures
        o.contains(p.last()),
    decreases p.len(),
{
    if p.len() > 1 {
        let q = p.drop_last();
        assert(search_path(g, dir, q)) by {
            assert forall|j: int| 0 <= j < q.len() - 1 implies successors(g, dir, #[trigger] q[j]).contains(q[j + 1]) by {
                assert(q[j] == p[j] && q[j + 1] == p[j + 1]);
            }
        }
        lemma_closed_reaches(g, dir, o, v, q);
        let k = choose|k: int| 0 <= k < o.len() && o[k] == q.last();
        let n = p.len() - 2;
        assert(successors(g, dir, p[n]).contains(p[n + 1]));
        assert(o[k] == p[n]);
        assert(v.contains(p.last()));
        assert(has_node(g, p[n + 1]));
    }
}

impl<'a> GraphQuery<'a> {
    /// Breadth-first search from `start` in direction `dir`: the entities
    /// reached, each once, in the order they are first met.
    fn search(&self, dir: Direction, start: &str) -> (r: Vec<&'a Entity>)
        requires
            has_node(self.graph_view(), start@),
        ensures
            exists|ks: Seq<Seq<char>>|
                #[trigger] search_outcome(self.graph_view(), dir, start@, ks, entity_views(r@)),
    {
        let ghost g = self.graph_view();
        let ghost s = start@;
        let mut visited: Vec<String> = Vec::new();
        visited.push(owned(start));
        let mut order: Vec<String> = Vec::new();
        order.push(owned(start));
        let mut result: Vec<&'a Entity> = Vec::new();
        let mut head: usize = 0;
        let ghost full = bfs_order(g, dir, seq![s], 0);
        proof {
            let p = seq![s];
            assert(search_path(g, dir, p));
            assert(names_of(order@) =~= seq![s]);
            assert(names_of(visited@) =~= seq![s]);
        }
        while head < order.len()
            invariant
                g == self.graph_view(),
                s == start@,
                has_node(g, s),
                head <= order@.len(),
                order@.len() == result@.len() + 1,
                order@.len() <= g.nodes.len(),
                names_of(order@)[0] == s,
                names_of(order@).no_duplicates(),
                forall|i: int| 0 <= i < order@.len() ==> #[trigger] reaches(g, dir, s, names_of(order@)[i]),
                forall|i: int| 1 <= i < order@.len() ==> has_node(g, #[trigger] names_of(order@)[i])
                    && entity_views(result@)[i - 1] == node_entity(g, names_of(order@)[i]),
                forall|y: Seq<char>| names_of(order@).contains(y) ==> #[trigger] names_of(visited@).contains(y),
                forall|y: Seq<char>| names_of(visited@).contains(y) && has_node(g, y) ==> #[trigger] names_of(order@).contains(y),
                forall|j: int, y: Seq<char>|
                    0 <= j < head && #[trigger] successors(g, dir, names_of(order@)[j]).contains(y)
                        ==> #[trigger] names_of(visited@).contains(y),
                full == bfs_order(g, dir, seq![s], 0),
                bfs_order(g, dir, names_of(order@), head as int) == full,
            decreases g.nodes.len() - head,
        {
            let ghost o0 = names_of(order@);
            let current = order[head].clone();
            let succ = self.successor_ids(&dir, &current);
            let ghost cur = current@;
            let ghost sv = names_of(succ@);
            proof {
                assert(names_of(order@)[head as int] == cur);
            }
            let mut k: usize = 0;
            while k < succ.len()
                invariant
                    g == self.graph_view(),
                    s == start@,
                    has_node(g, s),
                    head < order@.len(),
                    names_of(order@)[head as int] == cur,
                    sv == names_of(succ@),
                    sv == successors(g, dir, cur),
                    k <= sv.len(),
                    order@.len() == result@.len() + 1,
                    order@.len() <= g.nodes.len(),
                    names_of(order@)[0] == s,
                    names_of(order@).no_duplicates(),
                    forall|i: int| 0 <= i < order@.len() ==> #[trigger] reaches(g, dir, s, names_of(order@)[i]),
                    forall|i: int| 1 <= i < order@.len() ==> has_node(g, #[trigger] names_of(order@)[i])
                        && entity_views(result@)[i - 1] == node_entity(g, names_of(order@)[i]),
                    forall|y: Seq<char>| names_of(order@).contains(y) ==> #[trigger] names_of(visited@).contains(y),
                    forall|y: Seq<char>| names_of(visited@).contains(y) && has_node(g, y) ==> #[trigger] names_of(order@).contains(y),
                    forall|j: int, y: Seq<char>|
                        0 <= j < head && #[trigger] successors(g, dir, names_of(order@)[j]).contains(y)
                            ==> #[trigger] names_of(visited@).contains(y),
                    forall|i: int| 0 <= i < k ==> names_of(visited@).contains(#[trigger] sv[i]),
                    names_of(order@) == met_after(g, o0, sv.take(k as int)),
                decreases sv.len() - k,
            {
                let t = &succ[k];
                proof {
                    assert(sv.take(k + 1).drop_last() =~= sv.take(k as int));
                    assert(sv.take(k + 1).last() == t@);
                }
                if !contains_name(&visited, t) {
                    let ghost ov = names_of(visited@);
                    let ghost oo = names_of(order@);
                    visited.push(t.clone());
                    assert(names_of(visited@) =~= ov.push(t@));
                    match entity_map_get(&self.graph.nodes, t.as_str()) {
                        Some(e) => {
                            let ghost orr = entity_views(result@);
                            result.push(e);
                            order.push(t.clone());
                            proof {
                                assert(names_of(order@) =~= oo.push(t@));
                                assert(entity_views(result@) =~= orr.push(e@));
                                assert(!oo.contains(t@));
                                assert(names_of(order@).no_duplicates());
                                // a walk to the current id, one step longer
                                assert(reaches(g, dir, s, cur));
                                let p = choose|p: Seq<Seq<char>>| #[trigger] search_path(g, dir, p) && p[0] == s && p.last() == cur;
                                let p2 = p.push(t@);
                                assert(sv[k as int] == t@);
                                assert(successors(g, dir, cur).contains(t@));
                                assert forall|j: int| 0 <= j < p2.len() - 1 implies successors(g, dir, #[trigger] p2[j]).contains(p2[j + 1]) by {
                                    if j < p.len() - 1 {
                                        assert(p2[j] == p[j] && p2[j + 1] == p[j + 1]);
                                    }
                                }
                                assert forall|j: int| 1 <= j < p2.len() implies has_node(g, #[trigger] p2[j]) by {
                                    if j < p.len() {
                                        assert(p2[j] == p[j]);
                                    }
                                }
                                assert(search_path(g, dir, p2));
                                assert(reaches(g, dir, s, t@));
                                assert forall|i: int| 0 <= i < order@.len() implies #[trigger] reaches(g, dir, s, names_of(order@)[i]) by {
                                    if i < oo.len() {
                                        assert(names_of(order@)[i] == oo[i]);
                                    }
                                }
                                assert forall|i: int| 0 <= i < order@.len() implies has_node(g, #[trigger] names_of(order@)[i]) by {
                                    if i == 0 {
                                        assert(names_of(order@)[0] == s);
                                    } else if i < oo.len() {
                                        assert(names_of(order@)[i] == oo[i]);
                                    }
                                }
                                lemma_nodes_bound(g, names_of(order@));
                            }
                        },
                        None => {},
                    }
                    proof {
                        assert forall|y: Seq<char>| names_of(visited@).contains(y) && has_node(g, y) implies #[trigger] names_of(order@).contains(y) by {
                            if y != t@ {
                                let q = choose|q: int| 0 <= q < names_of(visited@).len() && names_of(visited@)[q] == y;
                                assert(ov[q] == y);
                                assert(oo.contains(y));
                                let q2 = choose|q2: int| 0 <= q2 < oo.len() && oo[q2] == y;
                                assert(names_of(order@)[q2] == y);
                            } else {
                                assert(names_of(order@).last() == y);
                            }
                        }
                        assert forall|y: Seq<char>| names_of(order@).contains(y) implies #[trigger] names_of(visited@).contains(y) by {
                            let q = choose|q: int| 0 <= q < names_of(order@).len() && names_of(order@)[q] == y;
                            if q < oo.len() {
                                assert(oo[q] == y);
                                assert(ov.contains(y));
                                let q2 = choose|q2: int| 0 <= q2 < ov.len() && ov[q2] == y;
                                assert(names_of(visited@)[q2] == y);
                            } else {
                                assert(names_of(visited@).last() == y);
                            }
                        }
                        assert forall|j: int, y: Seq<char>|
                            0 <= j < head && #[trigger] successors(g, dir, names_of(order@)[j]).contains(y)
                                implies #[trigger] names_of(visited@).contains(y) by {
                            assert(names_of(order@)[j] == oo[j]);
                            assert(ov.contains(y));
                            let q2 = choose|q2: int| 0 <= q2 < ov.len() && ov[q2] == y;
                            assert(names_of(visited@)[q2] == y);
                        }
                        assert forall|i: int| 0 <= i <= k implies names_of(visited@).contains(#[trigger] sv[i]) by {
                            if i < k {
                                let q2 = choose|q2: int| 0 <= q2 < ov.len() && ov[q2] == sv[i];
                                assert(names_of(visited@)[q2] == sv[i]);
                            } else {
                                assert(names_of(visited@).last() == sv[i]);
                            }
                        }
                    }
                }
                k = k + 1;
            }
            proof {
                assert(sv.take(sv.len() as int) =~= sv);
                assert(o0[head as int] == cur);
                assert(bfs_order(g, dir, o0, head as int) == bfs_order(g, dir, names_of(order@), head + 1));
                assert forall|j: int, y: Seq<char>|
                    0 <= j < head + 1 && #[trigger] successors(g, dir, names_of(order@)[j]).contains(y)
                        implies #[trigger] names_of(visited@).contains(y) by {
                    if j == head {
                        let q = choose|q: int| 0 <= q < sv.len() && sv[q] == y;
                        assert(names_of(visited@).contains(sv[q]));
                    }
                }
            }
            head = head + 1;
        }
        let ghost o = names_of(order@);
        let ghost ks = o.drop_first();
        proof {
            assert(full == o);
            assert forall|i: int| 0 <= i < ks.len() implies has_node(g, #[trigger] ks[i]) && entity_views(result@)[i] == node_entity(g, ks[i]) by {
                assert(ks[i] == o[i + 1]);
            }
            assert forall|x: Seq<char>| #[trigger] ks.contains(x) <==> (x != s && reaches(g, dir, s, x)) by {
                if ks.contains(x) {
                    let i = choose|i: int| 0 <= i < ks.len() && ks[i] == x;
                    assert(o[i + 1] == x);
                    assert(o[0] != o[i + 1]);
                }
                if x != s && reaches(g, dir, s, x) {
                    let p = choose|p: Seq<Seq<char>>| #[trigger] search_path(g, dir, p) && p[0] == s && p.last() == x;
                    assert(o[0] == s);
                    lemma_closed_reaches(g, dir, o, names_of(visited@), p);
                    let i = choose|i: int| 0 <= i < o.len() && o[i] == x;
                    assert(i != 0);
                    assert(ks[i - 1] == x);
                }
            }
            assert(search_outcome(g, dir, s, ks, entity_views(result@)));
        }
        result
    }

    /// The entities that `entity_id` depends on, directly or through other
    /// entities, along `requires` and `derives_from` edges; each once, in
    /// breadth-first order.
    pub fn ancestors(&self, entity_id: &str) -> (r: Result<Vec<&'a Entity>, GraphError>)
        ensures
            r is Ok <==> has_node(self.graph_view(), entity_id@),
            r matches Ok(v) ==> exists|ks: Seq<Seq<char>>|
                #[trigger] search_outcome(self.graph_view(), Direction::Forward, entity_id@, ks, entity_views(v@)),
            r matches Err(e) ==> e@ == GraphErrorView::EntityNotFound(entity_id@),
    {
        match entity_map_get(&self.graph.nodes, entity_id) {
            None => Err(GraphError::EntityNotFound(owned(entity_id))),
            Some(_) => {
                let v = self.search(Direction::Forward, entity_id);
                proof {
                    assert(has_node(self.graph_view(), entity_id@));
                    let ks = choose|ks: Seq<Seq<char>>|
                        search_outcome(self.graph_view(), Direction::Forward, entity_id@, ks, entity_views(v@));
                    assert(search_outcome(self.graph_view(), Direction::Forward, entity_id@, ks, entity_views(v@)));
                }
                let r: Result<Vec<&'a Entity>, GraphError> = Ok(v);
                assert(r matches Ok(w) && w@ == v@);
                assert(exists|ks: Seq<Seq<char>>|
                    #[trigger] search_outcome(self.graph_view(), Direction::Forward, entity_id@, ks, entity_views(v@)));
                r
            },
        }
    }

    /// The entities that depend on `entity_id`, directly or through other
    /// entities, along `requires` and `derives_from` edges; each once, in
    /// breadth-first order.
    pub fn descendants(&self, entity_id: &str) -> (r: Result<Vec<&'a Entity>, GraphError>)
        ensures
            r is Ok <==> has_node(self.graph_view(), entity_id@),
            r matches Ok(v) ==> exists|ks: Seq<Seq<char>>|
                #[trigger] search_outcome(self.graph_view(), Direction::Backward, entity_id@, ks, entity_views(v@)),
            r matches Err(e) ==> e@ == GraphErrorView::EntityNotFound(entity_id@),
    {
        match entity_map_get(&self.graph.nodes, entity_id) {
            None => Err(GraphError::EntityNotFound(owned(entity_id))),
            Some(_) => {
                let v = self.search(Direction::Backward, entity_id);
                proof {
                    assert(has_node(self.graph_view(), entity_id@));
                    let ks = choose|ks: Seq<Seq<char>>|
                        search_outcome(self.graph_view(), Direction::Backward, entity_id@, ks, entity_views(v@));
                    assert(search_outcome(self.graph_view(), Direction::Backward, entity_id@, ks, entity_views(v@)));
                }
                let r: Result<Vec<&'a Entity>, GraphError> = Ok(v);
                assert(r matches Ok(w) && w@ == v@);
                assert(exists|ks: Seq<Seq<char>>|
                    #[trigger] search_outcome(self.graph_view(), Direction::Backward, entity_id@, ks, entity_views(v@)));
                r
            },
        }
    }

    /// The entities that `entity_id` points to by edges of type `rel_type`,
    /// in edge order; targets that are not nodes are skipped.
    pub fn related(&self, entity_id: &str, rel_type: RelationshipType) -> (r: Result<Vec<&'a Entity>, GraphError>)
        ensures
            match r {
                Ok(v) => has_node(self.graph_view(), entity_id@)
                    && entity_views(v@) == related_of(self.graph_view(), entity_id@, rel_type),
                Err(e) => !has_node(self.graph_view(), entity_id@) && e@ == GraphErrorView::EntityNotFound(entity_id@),
            },
    {
        let ghost g = self.graph_view();
        if entity_map_get(&self.graph.nodes, entity_id).is_none() {
            return Err(GraphError::EntityNotFound(owned(entity_id)));
        }
        let mut result: Vec<&'a Entity> = Vec::new();
        match adjacency_map_get(&self.graph.adjacency, entity_id) {
            Some(list) => {
                let ghost s = targets_view(list@);
                let mut i: usize = 0;
                while i < list.len()
                    invariant
                        g == self.graph_view(),
                        s == targets_view(list@),
                        i <= s.len(),
                        entity_views(result@) == related_in(g, s.take(i as int), rel_type),
                    decreases s.len() - i,
                {
                    proof {
                        assert(s.take(i + 1).drop_last() =~= s.take(i as int));
                    }
                    if list[i].1 == rel_type {
                        match entity_map_get(&self.graph.nodes, list[i].0.as_str()) {
                            Some(e) => {
                                let ghost before = entity_views(result@);
                                result.push(e);
                                assert(entity_views(result@) =~= before.push(e@));
                            },
                            None => {},
                        }
                    }
                    i = i + 1;
                }
                assert(s.take(s.len() as int) =~= s);
            },
            None => {
                assert(entity_views(result@) =~= Seq::<EntityView>::empty());
            },
        }
        Ok(result)
    }
}

} // verus!
