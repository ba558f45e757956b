//! The knowledge graph: entities keyed by id, typed edges, and the forward
//! adjacency lists; built from a module, with a check for dependency
//! cycles.
use crate::graph::index_map::{
    adjacency_entries, adjacency_map_get, adjacency_map_insert, adjacency_map_new, entity_entries,
    entity_map_get_index, entity_map_insert, entity_map_len, entity_map_new, key_pos,
    lemma_key_pos, map_put, targets_view,
};
use crate::parser::ast::{rel_type_name, Entity, EntityView, Module, RelationshipType};
use crate::graph::dfs::{
    count_explored_frames, count_unexplored, cycle_free_from, explored_ok, lemma_count_frames_monotone,
    lemma_count_frames_new, lemma_count_frames_push, lemma_count_unexplored, lemma_expand_step,
    lemma_spine_tail_free, spine_ok, stack_on_spine, stack_sorted, adj_list, expand, first_pos,
    lemma_expand_err_rest, lemma_first_pos, FrameView, cycle_search, dfs, dfs_from, explore, frames_in,
    then_from,
};
use crate::graph::laws::{law_module_acyclic_iff_graph_acyclic, lemma_free_nodes_give_acyclic_module};
use crate::validator::rules::{dependency_acyclic, is_dependency};
use indexmap::IndexMap;
use vstd::prelude::*;

verus! {

broadcast use vstd::seq_lib::group_seq_properties;

/// A directed edge of the knowledge graph.
#[derive(Debug)]
pub struct Edge {
    pub from: String,
    pub to: String,
    pub rel_type: RelationshipType,
}

pub struct EdgeView {
    pub from: Seq<char>,
    pub to: Seq<char>,
    pub rel_type: RelationshipType,
}

impl View for Edge {
    type V = EdgeView;

    open spec fn view(&self) -> EdgeView {
        EdgeView { from: self.from@, to: self.to@, rel_type: self.rel_type }
    }
}

impl Clone for Edge {
    fn clone(&self) -> (r: Self)
        ensures
            r == *self,
    {
        Edge { from: self.from.clone(), to: self.to.clone(), rel_type: self.rel_type }
    }
}

/// Errors of graph construction and queries.
#[derive(Debug, PartialEq)]
pub enum GraphError {
    EntityNotFound(String),
    Cycle { rel_type: String, chain: String },
}

pub enum GraphErrorView {
    EntityNotFound(Seq<char>),
    Cycle { rel_type: Seq<char>, chain: Seq<char> },
}

impl View for GraphError {
    type V = GraphErrorView;

    open spec fn view(&self) -> GraphErrorView {
        match self {
            GraphError::EntityNotFound(id) => GraphErrorView::EntityNotFound(id@),
            GraphError::Cycle { rel_type, chain } => GraphErrorView::Cycle {
                rel_type: rel_type@,
                chain: chain@,
            },
        }
    }
}

/// The text of a graph error.
pub open spec fn graph_error_text(e: GraphErrorView) -> Seq<char> {
    match e {
        GraphErrorView::EntityNotFound(id) => "Entity not found: "@ + id,
        GraphErrorView::Cycle { rel_type, chain } => "Cycle detected in "@ + rel_type + ": "@ + chain,
    }
}

impl GraphError {
    /// The text of this error.
    pub fn message(&self) -> (s: String)
        ensures
            s@ == graph_error_text(self@),
    {
        match self {
            GraphError::EntityNotFound(id) => {
                let mut s = String::from_str("Entity not found: ");
                s.append(id.as_str());
                s
            },
            GraphError::Cycle { rel_type, chain } => {
                let mut s = String::from_str("Cycle detected in ");
                s.append(rel_type.as_str());
                s.append(": ");
                s.append(chain.as_str());
                s
            },
        }
    }
}

/// An in-memory directed knowledge graph.
#[derive(Debug)]
pub struct KnowledgeGraph {
    /// All entities in the graph, keyed by id.
    pub nodes: IndexMap<String, Entity>,
    /// All edges in the graph.
    pub edges: Vec<Edge>,
    /// Forward adjacency lists: from id -> [(to id, relationship type)].
    pub adjacency: IndexMap<String, Vec<(String, RelationshipType)>>,
}

/// What a [`KnowledgeGraph`] holds.
pub struct GraphView {
    pub nodes: Seq<(Seq<char>, EntityView)>,
    pub edges: Seq<EdgeView>,
    pub adjacency: Seq<(Seq<char>, Seq<(Seq<char>, RelationshipType)>)>,
}

impl View for KnowledgeGraph {
    type V = GraphView;

    open spec fn view(&self) -> GraphView {
        GraphView {
            nodes: entity_entries(self.nodes),
            edges: self.edges@.map_values(|e: Edge| e@),
            adjacency: adjacency_entries(self.adjacency),
        }
    }
}

/// The node entries of a module: each entity under its id, in order of
/// first occurrence; a later entity with the same id replaces the earlier.
pub open spec fn nodes_of(m: Seq<EntityView>) -> Seq<(Seq<char>, EntityView)>
    decreases m.len(),
{
    if m.len() == 0 {
        seq![]
    } else {
        map_put(nodes_of(m.drop_last()), m.last().id, m.last())
    }
}

/// The edges of one entity: one per relationship, in order.
pub open spec fn entity_edges(e: EntityView) -> Seq<EdgeView> {
    e.relationships.map_values(
        |r: crate::parser::ast::RelationshipView|
            EdgeView { from: e.id, to: r.target_id, rel_type: r.rel_type },
    )
}

pub open spec fn entity_edges_fn() -> spec_fn(EntityView) -> Seq<EdgeView> {
    |e: EntityView| entity_edges(e)
}

/// The edges of a module, entity by entity.
pub open spec fn edges_of(m: Seq<EntityView>) -> Seq<EdgeView> {
    m.flat_map(entity_edges_fn())
}

/// What appending `item` to the list under `k` does to adjacency entries:
/// a present key keeps its place; a new key goes last with a list of one.
pub open spec fn map_append(
    s: Seq<(Seq<char>, Seq<(Seq<char>, RelationshipType)>)>,
    k: Seq<char>,
    item: (Seq<char>, RelationshipType),
) -> Seq<(Seq<char>, Seq<(Seq<char>, RelationshipType)>)> {
    if key_pos(s, k) >= 0 {
        s.update(key_pos(s, k), (k, s[key_pos(s, k)].1.push(item)))
    } else {
        s.push((k, seq![item]))
    }
}

/// The adjacency entries of a sequence of edges, added one by one.
pub open spec fn adjacency_of(es: Seq<EdgeView>) -> Seq<(Seq<char>, Seq<(Seq<char>, RelationshipType)>)>
    decreases es.len(),
{
    if es.len() == 0 {
        seq![]
    } else {
        map_append(adjacency_of(es.drop_last()), es.last().from, (es.last().to, es.last().rel_type))
    }
}

/// Whether the adjacency entries hold a dependency edge from `a` to `b` of
/// type `t`.
pub open spec fn adj_dep_edge(
    adj: Seq<(Seq<char>, Seq<(Seq<char>, RelationshipType)>)>,
    a: Seq<char>,
    b: Seq<char>,
    t: RelationshipType,
) -> bool {
    key_pos(adj, a) >= 0 && is_dependency(t) && adj[key_pos(adj, a)].1.contains((b, t))
}

/// Whether the adjacency entries hold a dependency edge from `a` to `b`.
pub open spec fn adj_step(
    adj: Seq<(Seq<char>, Seq<(Seq<char>, RelationshipType)>)>,
    a: Seq<char>,
    b: Seq<char>,
) -> bool {
    exists|u: RelationshipType| #[trigger] adj_dep_edge(adj, a, b, u)
}

/// Whether `c` is a dependency cycle of the adjacency entries whose last
/// edge, back to `c[0]`, has type `t`.
pub open spec fn adj_cycle(
    adj: Seq<(Seq<char>, Seq<(Seq<char>, RelationshipType)>)>,
    c: Seq<Seq<char>>,
    t: RelationshipType,
) -> bool {
    &&& c.len() >= 1
    &&& forall|j: int|
        0 <= j < c.len() - 1 ==> adj_step(adj, #[trigger] c[j], c[j + 1])
    &&& adj_dep_edge(adj, c.last(), c[0], t)
}

/// Ids joined with `" -> "`.
pub open spec fn join_dashes(c: Seq<Seq<char>>) -> Seq<char>
    decreases c.len(),
{
    if c.len() == 0 {
        seq![]
    } else if c.len() == 1 {
        c[0]
    } else {
        join_dashes(c.drop_last()) + " -> "@ + c.last()
    }
}

/// The error reported for a cycle `c` closed by an edge of type `t`.
pub open spec fn cycle_error(c: Seq<Seq<char>>, t: RelationshipType) -> GraphErrorView {
    GraphErrorView::Cycle { rel_type: rel_type_name(t), chain: join_dashes(c) + " -> "@ + c[0] }
}

pub open spec fn names_of(v: Seq<String>) -> Seq<Seq<char>> {
    v.map_values(|s: String| s@)
}

/// Whether `s` occurs in `v`.
pub(crate) fn contains_name(v: &Vec<String>, s: &String) -> (r: bool)
    ensures
        r == names_of(v@).contains(s@),
{
    let mut i: usize = 0;
    while i < v.len()
        invariant
            i <= v@.len(),
            forall|k: int| 0 <= k < i ==> v@[k]@ != s@,
        decreases v@.len() - i,
    {
        if v[i] == *s {
            assert(names_of(v@)[i as int] == s@);
            return true;
        }
        i = i + 1;
    }
    assert(!names_of(v@).contains(s@)) by {
        if names_of(v@).contains(s@) {
            let k = choose|k: int| 0 <= k < names_of(v@).len() && names_of(v@)[k] == s@;
            assert(v@[k]@ != s@);
        }
    }
    false
}

fn copy_names(v: &Vec<String>) -> (r: Vec<String>)
    ensures
        names_of(r@) == names_of(v@),
{
    let mut r: Vec<String> = Vec::new();
    let mut i: usize = 0;
    while i < v.len()
        invariant
            i <= v@.len(),
            names_of(r@) == names_of(v@).take(i as int),
        decreases v@.len() - i,
    {
        let ghost before = names_of(r@);
        r.push(v[i].clone());
        assert(names_of(r@) =~= before.push(v@[i as int]@));
        i = i + 1;
        assert(names_of(r@) =~= names_of(v@).take(i as int));
    }
    assert(names_of(v@).take(v@.len() as int) =~= names_of(v@));
    r
}

/// Every adjacency key and target, and every node id.
pub open spec fn graph_names(
    nodes: Seq<(Seq<char>, EntityView)>,
    adj: Seq<(Seq<char>, Seq<(Seq<char>, RelationshipType)>)>,
) -> Seq<Seq<char>> {
    nodes.map_values(|e: (Seq<char>, EntityView)| e.0) + adj.map_values(
        |e: (Seq<char>, Seq<(Seq<char>, RelationshipType)>)| e.0,
    ) + adj.flat_map(targets_fn())
}

/// Whether a search path starts anywhere and follows dependency edges.
pub open spec fn dep_path(adj: Seq<(Seq<char>, Seq<(Seq<char>, RelationshipType)>)>, p: Seq<Seq<char>>) -> bool {
    &&& p.len() >= 1
    &&& forall|j: int|
        0 <= j < p.len() - 1 ==> adj_step(adj, #[trigger] p[j], p[j + 1])
}

/// The frames of a search stack: each id with its path.
pub open spec fn frames_view(stack: Seq<(String, Vec<String>)>) -> Seq<FrameView> {
    stack.map_values(|f: (String, Vec<String>)| (f.0@, names_of(f.1@)))
}

pub open spec fn frame_nodes(stack: Seq<(String, Vec<String>)>) -> Seq<Seq<char>> {
    stack.map_values(|f: (String, Vec<String>)| f.0@)
}

/// Whether every frame of a search stack holds a node of `univ` and a
/// dependency path that ends at that node.
pub open spec fn frames_ok(
    adj: Seq<(Seq<char>, Seq<(Seq<char>, RelationshipType)>)>,
    univ: Seq<Seq<char>>,
    stack: Seq<(String, Vec<String>)>,
) -> bool {
    forall|k: int|
        0 <= k < stack.len() ==> {
            let p = names_of((#[trigger] stack[k]).1@);
            &&& univ.contains(stack[k].0@)
            &&& dep_path(adj, p)
            &&& p.last() == stack[k].0@
        }
}

pub open spec fn targets_fn() -> spec_fn((Seq<char>, Seq<(Seq<char>, RelationshipType)>)) -> Seq<
    Seq<char>,
> {
    |e: (Seq<char>, Seq<(Seq<char>, RelationshipType)>)|
        e.1.map_values(|p: (Seq<char>, RelationshipType)| p.0)
}

proof fn lemma_flat_prefix(
    adj: Seq<(Seq<char>, Seq<(Seq<char>, RelationshipType)>)>,
    i: int,
    q: int,
    n: int,
)
    requires
        0 <= i < n <= adj.len(),
        0 <= q < adj[i].1.len(),
    ensures
        adj.take(n).flat_map(targets_fn()).len() > adj.take(i).flat_map(targets_fn()).len() + q,
        adj.take(n).flat_map(targets_fn())[adj.take(i).flat_map(targets_fn()).len() + q]
            == adj[i].1[q].0,
    decreases n,
{
    let f = targets_fn();
    if n == i + 1 {
        adj.lemma_flat_map_take_append(f, i);
        assert(f(adj[i])[q] == adj[i].1[q].0);
    } else {
        lemma_flat_prefix(adj, i, q, n - 1);
        adj.lemma_flat_map_take_append(f, n - 1);
    }
}

proof fn lemma_adj_target_in_names(
    nodes: Seq<(Seq<char>, EntityView)>,
    adj: Seq<(Seq<char>, Seq<(Seq<char>, RelationshipType)>)>,
    i: int,
    q: int,
)
    requires
        0 <= i < adj.len(),
        0 <= q < adj[i].1.len(),
    ensures
        graph_names(nodes, adj).contains(adj[i].1[q].0),
{
    let a = nodes.map_values(|e: (Seq<char>, EntityView)| e.0) + adj.map_values(
        |e: (Seq<char>, Seq<(Seq<char>, RelationshipType)>)| e.0,
    );
    lemma_flat_prefix(adj, i, q, adj.len() as int);
    assert(adj.take(adj.len() as int) =~= adj);
    let flat = adj.flat_map(targets_fn());
    let k = adj.take(i).flat_map(targets_fn()).len() + q;
    assert(flat[k] == adj[i].1[q].0);
    assert(graph_names(nodes, adj) == a + flat);
    assert((a + flat)[a.len() + k] == adj[i].1[q].0);
}

proof fn lemma_frames_in(
    adj: Seq<(Seq<char>, Seq<(Seq<char>, RelationshipType)>)>,
    univ: Seq<Seq<char>>,
    stack: Seq<(String, Vec<String>)>,
)
    requires
        frames_ok(adj, univ, stack),
    ensures
        frames_in(univ, frames_view(stack)),
{
    assert forall|k: int| 0 <= k < frames_view(stack).len() implies univ.contains(#[trigger] frames_view(stack)[k].0) by {
        assert(frames_view(stack)[k].0 == stack[k].0@);
    }
}

/// The position of the first `x` in `v`, which holds it.
fn first_index(v: &Vec<String>, x: &String) -> (pos: usize)
    requires
        names_of(v@).contains(x@),
    ensures
        pos < v@.len(),
        names_of(v@)[pos as int] == x@,
        pos == first_pos(names_of(v@), x@),
{
    let ghost p = names_of(v@);
    let mut pos: usize = 0;
    while pos < v.len() && v[pos] != *x
        invariant
            pos <= v@.len(),
            p == names_of(v@),
            p.contains(x@),
            forall|k: int| 0 <= k < pos ==> p[k] != x@,
        decreases v@.len() - pos,
    {
        pos = pos + 1;
    }
    proof {
        if pos >= v@.len() {
            let k = choose|k: int| 0 <= k < p.len() && p[k] == x@;
        }
        lemma_first_pos(p, x@, pos as int);
    }
    pos
}

/// The error for the cycle `path[pos..]`, closed by an edge of type `t`
/// back to `path[pos]`.
fn cycle_report(path: &Vec<String>, pos: usize, t: RelationshipType) -> (e: GraphError)
    requires
        pos < path@.len(),
    ensures
        e@ == cycle_error(names_of(path@).subrange(pos as int, path@.len() as int), t),
{
    let ghost p = names_of(path@);
    let ghost c = p.subrange(pos as int, p.len() as int);
    let mut chain = String::new();
    let mut j = pos;
    while j < path.len()
        invariant
            pos <= j <= path@.len(),
            pos < path@.len(),
            p == names_of(path@),
            c == p.subrange(pos as int, p.len() as int),
            chain@ == join_dashes(c.take(j - pos)),
        decreases path@.len() - j,
    {
        assert(c.take(j - pos + 1).drop_last() =~= c.take(j - pos));
        if j > pos {
            chain.append(" -> ");
        } else {
            assert(chain@ =~= seq![]);
        }
        chain.append(path[j].as_str());
        assert(c[j - pos] == path@[j as int]@);
        assert(chain@ =~= join_dashes(c.take(j - pos + 1)));
        j = j + 1;
    }
    assert(c.take(c.len() as int) =~= c);
    chain.append(" -> ");
    chain.append(path[pos].as_str());
    let rel = String::from_str(t.as_str());
    GraphError::Cycle { rel_type: rel, chain }
}

/// Pushes a frame for each dependency neighbour of `current` that is not
/// explored yet; stops with the cycle error at the first neighbour that is
/// already on `path`.
fn push_successors(
    adjacency: &IndexMap<String, Vec<(String, RelationshipType)>>,
    nodes: Ghost<Seq<(Seq<char>, EntityView)>>,
    current: &String,
    path: &Vec<String>,
    explored: &Vec<String>,
    stack: &mut Vec<(String, Vec<String>)>,
) -> (r: Result<(), GraphError>)
    requires
        dep_path(adjacency_entries(*adjacency), names_of(path@)),
        names_of(path@).last() == current@,
        frames_ok(adjacency_entries(*adjacency), graph_names(nodes@, adjacency_entries(*adjacency)), old(stack)@),
    ensures
        r is Ok ==> frames_ok(adjacency_entries(*adjacency), graph_names(nodes@, adjacency_entries(*adjacency)), final(stack)@),
        r is Ok ==> final(stack)@.len() >= old(stack)@.len(),
        r is Ok ==> final(stack)@.subrange(0, old(stack)@.len() as int) == old(stack)@,
        r is Ok ==> forall|k: int|
            old(stack)@.len() <= k < final(stack)@.len() ==> !names_of(explored@).contains(
                (#[trigger] final(stack)@[k]).0@,
            ),
        r matches Err(e) ==> exists|c: Seq<Seq<char>>, t: RelationshipType|
            adj_cycle(adjacency_entries(*adjacency), c, t) && e@ == cycle_error(c, t),
        r is Ok ==> forall|k: int|
            old(stack)@.len() <= k < final(stack)@.len() ==> names_of((#[trigger] final(stack)@[k]).1@)
                == names_of(path@).push(final(stack)@[k].0@),
        r is Ok ==> forall|y: Seq<char>|
            #[trigger] adj_step(adjacency_entries(*adjacency), current@, y) ==> !names_of(path@).contains(y) && (
            names_of(explored@).contains(y) || exists|k: int|
                old(stack)@.len() <= k < final(stack)@.len() && (#[trigger] final(stack)@[k]).0@ == y),
        match expand(adj_list(adjacency_entries(*adjacency), current@), names_of(path@), names_of(explored@)) {
            Err(c) => r matches Err(e) && e@ == cycle_error(c.0, c.1) && (names_of(path@).no_duplicates()
                ==> c.0.no_duplicates()),
            Ok(fr) => r is Ok && frames_view(final(stack)@) == frames_view(old(stack)@) + fr,
        },
        r is Ok ==> forall|k: int|
            old(stack)@.len() <= k < final(stack)@.len() ==> !names_of(path@).contains(
                (#[trigger] final(stack)@[k]).0@,
            ),
{
    let ghost adj = adjacency_entries(*adjacency);
    let ghost univ = graph_names(nodes@, adj);
    let ghost p = names_of(path@);
    let ghost stack0 = stack@;
    let neighbors = match adjacency_map_get(adjacency, current.as_str()) {
        Some(v) => v,
        None => {
            assert forall|y: Seq<char>| #[trigger] adj_step(adj, current@, y) implies false by {
                let u = choose|u: RelationshipType| #[trigger] adj_dep_edge(adj, current@, y, u);
            }
            assert(frames_view(stack@) =~= frames_view(stack0) + Seq::<FrameView>::empty());
            return Ok(());
        },
    };
    let ghost nv = targets_view(neighbors@);
    let ghost pos_c = key_pos(adj, current@);
    proof {
        lemma_key_pos(adj, current@);
    }
    let ghost ev = names_of(explored@);
    let mut q: usize = 0;
    proof {
        assert(frames_view(stack@) =~= frames_view(stack0) + Seq::<FrameView>::empty());
    }
    while q < neighbors.len()
        invariant
            ev == names_of(explored@),
            expand(nv.take(q as int), p, ev) is Ok,
            frames_view(stack@) == frames_view(stack0) + expand(nv.take(q as int), p, ev)->Ok_0,
            adj == adjacency_entries(*adjacency),
            univ == graph_names(nodes@, adj),
            0 <= pos_c < adj.len(),
            pos_c == key_pos(adj, current@),
            nv == adj[pos_c].1,
            nv == targets_view(neighbors@),
            q <= nv.len(),
            p == names_of(path@),
            dep_path(adj, p),
            p.last() == current@,
            frames_ok(adj, univ, stack@),
            stack@.len() >= stack0.len(),
            stack@.subrange(0, stack0.len() as int) == stack0,
            forall|k: int|
                stack0.len() <= k < stack@.len() ==> !names_of(explored@).contains(
                    (#[trigger] stack@[k]).0@,
                ),
            forall|k: int|
                stack0.len() <= k < stack@.len() ==> names_of((#[trigger] stack@[k]).1@) == p.push(stack@[k].0@),
            forall|k: int| stack0.len() <= k < stack@.len() ==> !p.contains((#[trigger] stack@[k]).0@),
            forall|qq: int|
                0 <= qq < q && is_dependency(#[trigger] nv[qq].1) ==> !p.contains(nv[qq].0) && (
                names_of(explored@).contains(nv[qq].0) || exists|k: int|
                    stack0.len() <= k < stack@.len() && (#[trigger] stack@[k]).0@ == nv[qq].0),
        decreases nv.len() - q,
    {
        let to_id = &neighbors[q].0;
        let rel_type = neighbors[q].1;
        let ghost fr0 = expand(nv.take(q as int), p, ev)->Ok_0;
        proof {
            assert(nv.take(q + 1).drop_last() =~= nv.take(q as int));
            assert(nv.take(q + 1).last() == (to_id@, rel_type));
        }
        if rel_type == RelationshipType::Requires || rel_type == RelationshipType::DerivesFrom {
            assert(nv[q as int] == (to_id@, rel_type));
            assert(adj_dep_edge(adj, current@, to_id@, rel_type));
            if contains_name(path, to_id) {
                let pos = first_index(path, to_id);
                let err = cycle_report(path, pos, rel_type);
                proof {
                    let c = p.subrange(pos as int, p.len() as int);
                    assert(c[0] == to_id@);
                    assert(c.last() == current@);
                    assert forall|jj: int| 0 <= jj < c.len() - 1 implies adj_step(adj, #[trigger] c[jj], c[jj + 1]) by {
                        assert(c[jj] == p[pos + jj]);
                        assert(c[jj + 1] == p[pos + jj + 1]);
                    }
                    assert(adj_cycle(adj, c, rel_type));
                    assert(expand(nv.take(q + 1), p, ev) == Err::<Seq<FrameView>, _>((c, rel_type)));
                    lemma_expand_err_rest(nv, q + 1, p, ev);
                    if p.no_duplicates() {
                        assert forall|a: int, b: int| 0 <= a < c.len() && 0 <= b < c.len() && a != b implies c[a] != c[b] by {
                            assert(c[a] == p[pos + a] && c[b] == p[pos + b]);
                        }
                    }
                }
                return Err(err);
            }
            if !contains_name(explored, to_id) {
                let mut new_path = copy_names(path);
                new_path.push(to_id.clone());
                let ghost np = names_of(new_path@);
                proof {
                    assert(np =~= p.push(to_id@));
                    assert(dep_path(adj, np)) by {
                        assert forall|j: int| 0 <= j < np.len() - 1 implies adj_step(adj, #[trigger] np[j], np[j + 1]) by {
                            if j < p.len() - 1 {
                                assert(np[j] == p[j] && np[j + 1] == p[j + 1]);
                            } else {
                                assert(np[j] == current@);
                                assert(adj_dep_edge(adj, np[j], np[j + 1], rel_type));
                            }
                        }
                    }
                    assert(nv[q as int].0 == adj[pos_c].1[q as int].0);
                    lemma_adj_target_in_names(nodes@, adj, pos_c, q as int);
                }
                let ghost stack1 = stack@;
                stack.push((to_id.clone(), new_path));
                proof {
                    assert(frames_view(stack@) =~= frames_view(stack1).push((to_id@, p.push(to_id@))));
                    assert(frames_view(stack@) =~= frames_view(stack0) + fr0.push((to_id@, p.push(to_id@))));
                    assert forall|k: int| 0 <= k < stack@.len() implies {
                        let pp = names_of((#[trigger] stack@[k]).1@);
                        &&& univ.contains(stack@[k].0@)
                        &&& dep_path(adj, pp)
                        &&& pp.last() == stack@[k].0@
                    } by {
                        if k < stack1.len() {
                            assert(stack@[k] == stack1[k]);
                        }
                    }
                    assert(stack@.subrange(0, stack0.len() as int) =~= stack1.subrange(0, stack0.len() as int));
                    assert forall|k: int| stack0.len() <= k < stack@.len() implies !names_of(explored@).contains(
                        (#[trigger] stack@[k]).0@) by {
                        if k < stack1.len() {
                            assert(stack@[k] == stack1[k]);
                        }
                    }
                    assert forall|k: int| stack0.len() <= k < stack@.len() implies names_of((#[trigger] stack@[k]).1@) == p.push(stack@[k].0@) by {
                        if k < stack1.len() {
                            assert(stack@[k] == stack1[k]);
                        }
                    }
                    assert forall|k: int| stack0.len() <= k < stack@.len() implies !p.contains((#[trigger] stack@[k]).0@) by {
                        if k < stack1.len() {
                            assert(stack@[k] == stack1[k]);
                        }
                    }
                    assert(stack@[stack1.len() as int].0@ == to_id@);
                    assert forall|qq: int|
                        0 <= qq < q + 1 && is_dependency(#[trigger] nv[qq].1) implies !p.contains(nv[qq].0) && (
                        names_of(explored@).contains(nv[qq].0) || exists|k: int|
                            stack0.len() <= k < stack@.len() && (#[trigger] stack@[k]).0@ == nv[qq].0) by {
                        if qq < q {
                            if !names_of(explored@).contains(nv[qq].0) {
                                let k = choose|k: int|
                                    stack0.len() <= k < stack1.len() && (#[trigger] stack1[k]).0@ == nv[qq].0;
                                assert(stack@[k] == stack1[k]);
                            }
                        } else {
                            assert(nv[qq].0 == to_id@);
                        }
                    }
                }
            } else {
                proof {
                    assert forall|qq: int|
                        0 <= qq < q + 1 && is_dependency(#[trigger] nv[qq].1) implies !p.contains(nv[qq].0) && (
                        names_of(explored@).contains(nv[qq].0) || exists|k: int|
                            stack0.len() <= k < stack@.len() && (#[trigger] stack@[k]).0@ == nv[qq].0) by {
                        if qq == q {
                            assert(nv[qq].0 == to_id@);
                        }
                    }
                }
            }
        } else {
            proof {
                assert(nv[q as int].1 == rel_type);
                assert(!is_dependency(nv[q as int].1));
            }
        }
        q = q + 1;
    }
    proof {
        assert(nv.take(nv.len() as int) =~= nv);
        assert forall|y: Seq<char>| #[trigger] adj_step(adj, current@, y) implies !p.contains(y) && (
            names_of(explored@).contains(y) || exists|k: int|
                stack0.len() <= k < stack@.len() && (#[trigger] stack@[k]).0@ == y) by {
            let u = choose|u: RelationshipType| #[trigger] adj_dep_edge(adj, current@, y, u);
            let qq = choose|qq: int| 0 <= qq < nv.len() && nv[qq] == (y, u);
            assert(is_dependency(nv[qq].1));
        }
    }
    Ok(())
}

impl KnowledgeGraph {
    /// Creates an empty knowledge graph.
    pub fn new() -> (g: Self)
        ensures
            g@.nodes.len() == 0,
            g@.edges.len() == 0,
            g@.adjacency.len() == 0,
    {
        KnowledgeGraph {
            nodes: entity_map_new(),
            edges: Vec::new(),
            adjacency: adjacency_map_new(),
        }
    }

    /// Checks the `requires` and `derives_from` edges of the adjacency
    /// lists for cycles, by a depth-first search from each node in order
    /// that keeps the path to each stacked node; stops at the first edge
    /// that leads back onto its own path.
    ///
    /// An error names the first cycle that this search meets (see
    /// [`cycle_search`]), which is a dependency cycle of the adjacency
    /// lists: the path from the repeated node on, joined with `->`, and the
    /// type of the edge that closes it. Success means that no dependency
    /// walk from a node repeats an id.
    pub fn validate_cycles(&self) -> (r: Result<(), GraphError>)
        ensures
            r matches Err(e) ==> exists|c: Seq<Seq<char>>, t: RelationshipType|
                adj_cycle(self@.adjacency, c, t) && e@ == cycle_error(c, t),
            r is Ok ==> forall|x: Seq<char>|
                key_pos(self@.nodes, x) >= 0 ==> #[trigger] cycle_free_from(self@.adjacency, x),
            match cycle_search(self@.nodes, self@.adjacency) {
                Ok(()) => r is Ok,
                Err(c) => r matches Err(e) && e@ == cycle_error(c.0, c.1) && c.0.no_duplicates(),
            },
    {
        let ghost adj = self@.adjacency;
        let ghost nodes = self@.nodes;
        let ghost univ = graph_names(nodes, adj);
        let ghost keys = nodes.map_values(|e: (Seq<char>, EntityView)| e.0);
        let ghost target = cycle_search(nodes, adj);
        let n = entity_map_len(&self.nodes);
        let mut explored: Vec<String> = Vec::new();
        let mut si: usize = 0;
        while si < n
            invariant
                adj == self@.adjacency,
                nodes == self@.nodes,
                univ == graph_names(nodes, adj),
                n == nodes.len(),
                si <= n,
                forall|y: Seq<char>| #[trigger] names_of(explored@).contains(y) ==> cycle_free_from(adj, y),
                forall|k: int| 0 <= k < si ==> cycle_free_from(adj, #[trigger] nodes[k].0),
                keys == nodes.map_values(|e: (Seq<char>, EntityView)| e.0),
                target == cycle_search(nodes, adj),
                dfs_from(adj, univ, keys, si as int, names_of(explored@)) == target,
            decreases n - si,
        {
            let (key, _) = entity_map_get_index(&self.nodes, si).unwrap();
            let start = key.clone();
            let ghost start_v = start@;
            if !contains_name(&explored, &start) {
                let mut first_path: Vec<String> = Vec::new();
                first_path.push(start.clone());
                let mut stack: Vec<(String, Vec<String>)> = Vec::new();
                let ghost mut spine: Seq<Seq<char>> = seq![];
                proof {
                    let keys = nodes.map_values(|e: (Seq<char>, EntityView)| e.0);
                    assert(keys[si as int] == start@);
                    assert(univ[si as int] == start@);
                    assert(names_of(first_path@) =~= seq![start@]);
                }
                stack.push((start, first_path));
                proof {
                    assert(names_of(stack@[0].1@).drop_last() =~= Seq::<Seq<char>>::empty());
                    assert(spine.take(0) =~= Seq::<Seq<char>>::empty());
                    assert(frames_view(stack@) =~= seq![(start_v, seq![start_v])]);
                    assert(keys[si as int] == start_v);
                    assert(frames_in(univ, frames_view(stack@)));
                }
                while stack.len() > 0
                    invariant
                        adj == self@.adjacency,
                        nodes == self@.nodes,
                        univ == graph_names(nodes, adj),
                        frames_ok(adj, univ, stack@),
                        stack_on_spine(stack@, spine),
                        stack_sorted(stack@),
                        spine_ok(adj, spine, stack@),
                        explored_ok(adj, names_of(explored@), spine),
                        names_of(explored@).contains(start_v) || (stack@.len() == 1 && stack@[0].0@ == start_v),
                        keys == nodes.map_values(|e: (Seq<char>, EntityView)| e.0),
                        target == cycle_search(nodes, adj),
                        then_from(adj, univ, keys, si as int, dfs(adj, univ, names_of(explored@), frames_view(stack@)))
                            == target,
                        forall|k: int| 0 <= k < stack@.len() ==> names_of((#[trigger] stack@[k]).1@).no_duplicates(),
                    decreases
                        count_unexplored(univ, names_of(explored@)),
                        count_explored_frames(frame_nodes(stack@), names_of(explored@)),
                {
                    let ghost stack_before = stack@;
                    let ghost explored_before = names_of(explored@);
                    proof {
                        lemma_frames_in(adj, univ, stack@);
                    }
                    let (current, path) = stack.pop().unwrap();
                    let ghost stack_rest = stack@;
                    let ghost pv = names_of(path@);
                    proof {
                        assert(stack_before =~= stack_rest.push((current, path)));
                        assert(frame_nodes(stack_before) =~= frame_nodes(stack_rest).push(current@));
                        lemma_count_frames_push(frame_nodes(stack_rest), explored_before, current@);
                        assert(stack_before[stack_before.len() - 1] == (current, path));
                        assert forall|k: int| 0 <= k < stack_rest.len() implies {
                            let pp = names_of((#[trigger] stack_rest[k]).1@);
                            &&& univ.contains(stack_rest[k].0@)
                            &&& dep_path(adj, pp)
                            &&& pp.last() == stack_rest[k].0@
                        } by {
                            assert(stack_rest[k] == stack_before[k]);
                        }
                    }
                    proof {
                        let fvb = frames_view(stack_before);
                        assert(fvb.last() == (current@, pv));
                        assert(frames_view(stack_rest) =~= fvb.drop_last());
                    }
                    proof {
                        assert(stack_before[stack_before.len() - 1] == (current, path));
                        assert(pv.no_duplicates());
                    }
                    match push_successors(&self.adjacency, Ghost(nodes), &current, &path, &explored, &mut stack) {
                        Ok(()) => {},
                        Err(e) => {
                            return Err(e);
                        },
                    }
                    proof {
                        assert forall|k: int| 0 <= k < stack@.len() implies names_of((#[trigger] stack@[k]).1@).no_duplicates() by {
                            if k < stack_rest.len() {
                                assert(stack@.subrange(0, stack_rest.len() as int)[k] == stack@[k]);
                                assert(stack@[k] == stack_rest[k]);
                                assert(stack_rest[k] == stack_before[k]);
                            } else {
                                let x = stack@[k].0@;
                                assert(names_of(stack@[k].1@) == pv.push(x));
                                assert(!pv.contains(x));
                                assert forall|a: int, b: int| 0 <= a < pv.len() + 1 && 0 <= b < pv.len() + 1 && a != b implies pv.push(x)[a] != pv.push(x)[b] by {
                                    if a == pv.len() {
                                        assert(pv.push(x)[b] == pv[b]);
                                    } else if b == pv.len() {
                                        assert(pv.push(x)[a] == pv[a]);
                                    }
                                }
                            }
                        }
                    }
                    proof {
                        let fr = frame_nodes(stack@);
                        assert forall|k: int| stack_rest.len() <= k < fr.len() implies !explored_before.contains(#[trigger] fr[k]) by {
                            assert(fr[k] == stack@[k].0@);
                        }
                        lemma_count_frames_new(fr, stack_rest.len() as int, explored_before);
                        assert(fr.subrange(0, stack_rest.len() as int) =~= frame_nodes(stack_rest));
                        assert(stack_before.last() == (current, path));
                        assert(pv.last() == current@);
                        assert(stack@.subrange(0, stack_before.len() - 1) =~= stack_before.drop_last());
                        lemma_expand_step(adj, spine, stack_before, stack@, explored_before);
                    }
                    let ghost explored_mid = names_of(explored@);
                    if !contains_name(&explored, &current) {
                        let ghost cur = current@;
                        proof {
                            lemma_count_unexplored(univ, explored_before, cur);
                            lemma_count_frames_monotone(frame_nodes(stack@), explored_before, cur);
                        }
                        explored.push(current);
                        proof {
                            assert(names_of(explored@) =~= explored_before.push(cur));
                        }
                    }
                    proof {
                        assert(names_of(explored@) == explore(explored_before, current@));
                        spine = pv;
                        assert forall|y: Seq<char>| #[trigger] names_of(explored@).contains(y) implies cycle_free_from(adj, y)
                            || spine.contains(y) by {
                            if !explored_before.contains(y) {
                                assert(y == pv.last());
                            }
                        }
                        if !explored_before.contains(start_v) {
                            assert(stack_before.len() == 1 && stack_before[0].0@ == start_v);
                            assert(current@ == start_v);
                            assert(names_of(explored@).contains(start_v));
                        }
                    }
                }
                proof {
                    assert(frames_view(stack@) =~= Seq::<FrameView>::empty());
                    lemma_spine_tail_free(adj, spine, stack@, 0, 0);
                    assert forall|y: Seq<char>| #[trigger] names_of(explored@).contains(y) implies cycle_free_from(adj, y) by {
                        if spine.contains(y) && !cycle_free_from(adj, y) {
                            let j = choose|j: int| 0 <= j < spine.len() && spine[j] == y;
                            assert(cycle_free_from(adj, spine[j]));
                        }
                    }
                }
            }
            proof {
                let keys = nodes.map_values(|e: (Seq<char>, EntityView)| e.0);
                assert(nodes[si as int].0 == start_v);
                assert(names_of(explored@).contains(start_v));
            }
            si = si + 1;
        }
        proof {
            assert forall|x: Seq<char>| key_pos(nodes, x) >= 0 implies #[trigger] cycle_free_from(adj, x) by {
                lemma_key_pos(nodes, x);
                let kp = key_pos(nodes, x);
                assert(cycle_free_from(adj, nodes[kp].0));
            }
        }
        Ok(())
    }
}

fn copy_targets(v: &Vec<(String, RelationshipType)>) -> (r: Vec<(String, RelationshipType)>)
    ensures
        targets_view(r@) == targets_view(v@),
{
    let mut r: Vec<(String, RelationshipType)> = Vec::new();
    let mut i: usize = 0;
    while i < v.len()
        invariant
            i <= v@.len(),
            targets_view(r@) == targets_view(v@).take(i as int),
        decreases v@.len() - i,
    {
        let ghost before = targets_view(r@);
        r.push((v[i].0.clone(), v[i].1));
        assert(targets_view(r@) =~= before.push(targets_view(v@)[i as int]));
        i = i + 1;
        assert(targets_view(r@) =~= targets_view(v@).take(i as int));
    }
    assert(targets_view(v@).take(v@.len() as int) =~= targets_view(v@));
    r
}

/// Appends `(to, t)` to the adjacency list of `from`.
fn adjacency_append(
    adj: &mut IndexMap<String, Vec<(String, RelationshipType)>>,
    from: &String,
    to: &String,
    t: RelationshipType,
)
    ensures
        adjacency_entries(*final(adj)) == map_append(adjacency_entries(*old(adj)), from@, (to@, t)),
{
    let ghost s = adjacency_entries(*adj);
    let mut list: Vec<(String, RelationshipType)> = match adjacency_map_get(adj, from.as_str()) {
        Some(v) => copy_targets(v),
        None => Vec::new(),
    };
    let ghost before = targets_view(list@);
    list.push((to.clone(), t));
    assert(targets_view(list@) =~= before.push((to@, t)));
    proof {
        if key_pos(s, from@) < 0 {
            assert(before =~= Seq::<(Seq<char>, RelationshipType)>::empty());
            assert(targets_view(list@) =~= seq![(to@, t)]);
        }
    }
    adjacency_map_insert(adj, from.clone(), list);
}

impl KnowledgeGraph {
    /// Builds a knowledge graph from a module: every entity under its id
    /// (a later entity with a repeated id replaces the earlier in its
    /// place), one edge per relationship in module order, and the forward
    /// adjacency lists of those edges; then checks the adjacency lists for
    /// dependency cycles.
    ///
    /// Succeeds exactly when the module has no dependency cycle; an error
    /// names the cycle that [`KnowledgeGraph::validate_cycles`] meets first.
    pub fn from_module(module: &Module) -> (r: Result<KnowledgeGraph, GraphError>)
        ensures
            r is Ok <==> dependency_acyclic(module@),
            match r {
                Ok(g) => {
                    &&& g@.nodes == nodes_of(module@)
                    &&& g@.edges == edges_of(module@)
                    &&& g@.adjacency == adjacency_of(edges_of(module@))
                },
                Err(e) => {
                    &&& cycle_search(nodes_of(module@), adjacency_of(edges_of(module@))) matches Err(c)
                        && e@ == cycle_error(c.0, c.1) && c.0.no_duplicates()
                    &&& exists|c: Seq<Seq<char>>, t: RelationshipType|
                        adj_cycle(adjacency_of(edges_of(module@)), c, t) && e@ == cycle_error(c, t)
                },
            },
    {
        let ghost m = module@;
        let mut graph = KnowledgeGraph::new();
        assert(graph@.nodes =~= nodes_of(m.take(0)));
        let mut i: usize = 0;
        while i < module.entities.len()
            invariant
                m == module@,
                i <= m.len(),
                graph@.nodes == nodes_of(m.take(i as int)),
                graph@.edges.len() == 0,
                graph@.adjacency.len() == 0,
            decreases m.len() - i,
        {
            let e = &module.entities[i];
            entity_map_insert(&mut graph.nodes, e.id.clone(), e.clone());
            assert(m.take(i + 1).drop_last() =~= m.take(i as int));
            i = i + 1;
        }
        assert(m.take(m.len() as int) =~= m);
        let ghost f = entity_edges_fn();
        assert(graph@.edges =~= m.take(0).flat_map(f));
        assert(graph@.adjacency =~= adjacency_of(graph@.edges));
        let mut i: usize = 0;
        while i < module.entities.len()
            invariant
                m == module@,
                f == entity_edges_fn(),
                i <= m.len(),
                graph@.nodes == nodes_of(m),
                graph@.edges == m.take(i as int).flat_map(f),
                graph@.adjacency == adjacency_of(graph@.edges),
            decreases m.len() - i,
        {
            let e = &module.entities[i];
            let ghost base = graph@.edges;
            let mut k: usize = 0;
            while k < e.relationships.len()
                invariant
                    m == module@,
                    f == entity_edges_fn(),
                    i < m.len(),
                    e@ == m[i as int],
                    k <= e@.relationships.len(),
                    graph@.nodes == nodes_of(m),
                    graph@.edges == base + entity_edges(e@).take(k as int),
                    graph@.adjacency == adjacency_of(graph@.edges),
                decreases e@.relationships.len() - k,
            {
                let rel = &e.relationships[k];
                let ghost old_edges = graph@.edges;
                graph.edges.push(Edge { from: e.id.clone(), to: rel.target_id.clone(), rel_type: rel.rel_type });
                adjacency_append(&mut graph.adjacency, &e.id, &rel.target_id, rel.rel_type);
                proof {
                    let ee = EdgeView { from: e@.id, to: rel@.target_id, rel_type: rel@.rel_type };
                    assert(graph@.edges =~= old_edges.push(ee));
                    assert(entity_edges(e@)[k as int] == ee);
                    assert(entity_edges(e@).take(k + 1) =~= entity_edges(e@).take(k as int).push(ee));
                    assert(graph@.edges.drop_last() =~= old_edges);
                }
                k = k + 1;
            }
            proof {
                assert(entity_edges(e@).take(k as int) =~= entity_edges(e@));
                m.lemma_flat_map_take_append(f, i as int);
            }
            i = i + 1;
        }
        assert(m.take(m.len() as int) =~= m);
        match graph.validate_cycles() {
            Ok(()) => {
                proof {
                    lemma_free_nodes_give_acyclic_module(m);
                }
                Ok(graph)
            },
            Err(e) => {
                proof {
                    if dependency_acyclic(m) {
                        law_module_acyclic_iff_graph_acyclic(m);
                        assert(graph@.edges == edges_of(m));
                        let (c, t) = choose|c: Seq<Seq<char>>, t: RelationshipType|
                            adj_cycle(graph@.adjacency, c, t) && e@ == cycle_error(c, t);
                        assert(!adj_cycle(adjacency_of(edges_of(m)), c, t));
                    }
                }
                Err(e)
            },
        }
    }

    /// All entities of the graph, keyed by id.
    pub fn nodes(&self) -> (r: &IndexMap<String, Entity>)
        ensures
            entity_entries(*r) == self@.nodes,
    {
        &self.nodes
    }

    /// All edges of the graph.
    pub fn edges(&self) -> (r: &[Edge])
        ensures
            r@.map_values(|e: Edge| e@) == self@.edges,
    {
        self.edges.as_slice()
    }

    /// The forward adjacency lists.
    pub fn adjacency(&self) -> (r: &IndexMap<String, Vec<(String, RelationshipType)>>)
        ensures
            adjacency_entries(*r) == self@.adjacency,
    {
        &self.adjacency
    }
}

impl Default for KnowledgeGraph {
    fn default() -> (g: Self)
        ensures
            g@.nodes.len() == 0,
            g@.edges.len() == 0,
            g@.adjacency.len() == 0,
    {
        KnowledgeGraph::new()
    }
}

} // verus!
