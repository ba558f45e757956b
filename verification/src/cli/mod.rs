//! The logic behind the command-line interface: compiling sources into a
//! graph, the texts of diagnostics, and the outputs of the `graph` and
//! `search` commands. Reading files and printing are left to the program.
pub mod diff;
pub mod laws;

use crate::error::{location_text, VdlError, VdlErrorView};
use crate::graph::index_map::{
    adjacency_map_get, adjacency_map_get_index, adjacency_map_len, entity_map_get,
    entity_map_get_index, entity_map_len, key_pos, targets_view,
};
use crate::graph::node::{
    adjacency_of, contains_name, edges_of, names_of, nodes_of,
    adj_cycle, GraphError, GraphErrorView, KnowledgeGraph,
};
use crate::graph::{entity_type_color, type_color};
use crate::codegen::search::{dedup, lemma_dedup_contains};
use crate::graph::query::{has_node, node_entity};
use crate::parser::ast::strings_view;
use crate::graph::node::GraphView;
use crate::lexer::token::TokenView;
use crate::lexer::{lex, lex_spec, location_at, span_of, Span};
use crate::matching::{regex_compiles, regex_is_match, regex_matches};
use crate::parser::ast::{entity_type_name, rel_type_name, Entity, EntityView, Module, RelationshipType};
use crate::parser::grammar::{error_location, error_message, parse_spec, ParseInput};
use crate::parser::{input_of, parse};
use crate::text::decimal;
use crate::validator::{valid_module, validate, violations_error};
use vstd::prelude::*;
use vstd::string::StringSliceAdditionalSpecFns;

verus! {

broadcast use vstd::seq_lib::group_seq_properties;

// ---------------------------------------------------------------------------
// Compiling sources
// ---------------------------------------------------------------------------

/// The tokens of a lexed source with their spans.
pub open spec fn lexed_tokens(ts: Seq<(TokenView, int, int)>, b: Seq<u8>) -> Seq<(TokenView, Span)> {
    ts.map_values(|t: (TokenView, int, int)| (t.0, span_of(b, t.1, t.2)))
}

/// The entities of one source file, or its first lexical or syntax error.
pub open spec fn file_entities(file: Seq<char>, b: Seq<u8>) -> Result<Seq<EntityView>, VdlErrorView> {
    match lex_spec(b) {
        Err((p, m)) => Err(VdlErrorView::Lexer { location: location_at(file, b, p), message: m }),
        Ok(ts) => {
            let c = ParseInput { ts: lexed_tokens(ts, b), src: b, file };
            match parse_spec(c) {
                Ok(es) => Ok(es),
                Err((p, e)) => Err(
                    VdlErrorView::Parser {
                        location: error_location(c, p),
                        message: error_message(c, p, e),
                    },
                ),
            }
        },
    }
}

/// The entities of several source files, file by file, or the first
/// error among them.
pub open spec fn sources_entities(srcs: Seq<(Seq<char>, Seq<u8>)>) -> Result<Seq<EntityView>, VdlErrorView>
    decreases srcs.len(),
{
    if srcs.len() == 0 {
        Ok(seq![])
    } else {
        match sources_entities(srcs.drop_last()) {
            Err(e) => Err(e),
            Ok(es) => match file_entities(srcs.last().0, srcs.last().1) {
                Ok(fs) => Ok(es + fs),
                Err(e) => Err(e),
            },
        }
    }
}

/// The files and the UTF-8 bytes of their texts.
pub open spec fn sources_view(v: Seq<(String, String)>) -> Seq<(Seq<char>, Seq<u8>)> {
    v.map_values(|p: (String, String)| (p.0@, vstd::utf8::encode_utf8(p.1@)))
}

pub open spec fn sources_fit(v: Seq<(String, String)>) -> bool {
    forall|i: int| 0 <= i < v.len() ==> vstd::utf8::encode_utf8((#[trigger] v[i]).1@).len() < usize::MAX
}

/// Lexes and parses each source, given as (file name, text), and merges
/// their entities in order; the first lexical or syntax error of the
/// sources is returned as it stands.
pub fn parse_sources(sources: &Vec<(String, String)>) -> (r: Result<Module, VdlError>)
    requires
        sources_fit(sources@),
    ensures
        match sources_entities(sources_view(sources@)) {
            Err(e) => r matches Err(x) && x@ == e,
            Ok(es) => r matches Ok(m) && m@ == es,
        },
{
    let ghost srcs = sources_view(sources@);
    let mut entities: Vec<Entity> = Vec::new();
    let mut i: usize = 0;
    assert(entities@.map_values(|e: Entity| e@) =~= Seq::<EntityView>::empty());
    while i < sources.len()
        invariant
            srcs == sources_view(sources@),
            sources_fit(sources@),
            i <= srcs.len(),
            sources_entities(srcs.take(i as int)) == Ok::<Seq<EntityView>, VdlErrorView>(
                entities@.map_values(|e: Entity| e@),
            ),
        decreases srcs.len() - i,
    {
        let file = &sources[i].0;
        let text = &sources[i].1;
        let ghost b = vstd::utf8::encode_utf8(text@);
        proof {
            assert(srcs.take(i + 1).drop_last() =~= srcs.take(i as int));
            assert(srcs.take(i + 1).last() == (file@, b));
            assert(vstd::utf8::encode_utf8(sources@[i as int].1@).len() < usize::MAX);
        }
        let tokens = match lex(text.as_str(), file.as_str()) {
            Ok(t) => t,
            Err(e) => {
                proof {
                    lemma_sources_prefix_error(srcs, i as int + 1);
                }
                return Err(e);
            },
        };
        let ghost ts = lex_spec(b)->Ok_0;
        proof {
            assert(input_of(tokens@, b, file@).ts =~= lexed_tokens(ts, b));
        }
        let module = match parse(tokens.as_slice(), text.as_str(), file.as_str()) {
            Ok(m) => m,
            Err(e) => {
                proof {
                    lemma_sources_prefix_error(srcs, i as int + 1);
                }
                return Err(e);
            },
        };
        let ghost before = entities@.map_values(|e: Entity| e@);
        let mut es = module.entities;
        entities.append(&mut es);
        assert(entities@.map_values(|e: Entity| e@) =~= before + module@);
        i = i + 1;
    }
    assert(srcs.take(srcs.len() as int) =~= srcs);
    Ok(Module { entities })
}

/// Lexes and parses each source, given as (file name, text), merges their
/// entities in order and validates the result.
///
/// The first lexical or syntax error of the sources is returned as it
/// stands; a merged module that breaks a rule gives all its violations together.
pub fn compile_sources(sources: &Vec<(String, String)>) -> (r: Result<Module, VdlError>)
    requires
        sources_fit(sources@),
    ensures
        match sources_entities(sources_view(sources@)) {
            Err(e) => r matches Err(x) && x@ == e,
            Ok(es) => {
                &&& r is Ok <==> valid_module(es)
                &&& r matches Ok(m) ==> m@ == es
                &&& r matches Err(x) ==> x@ == violations_error(es)
            },
        },
{
    let module = parse_sources(sources)?;
    match validate(&module) {
        Ok(()) => Ok(module),
        Err(e) => Err(e),
    }
}

/// An error of the first `n` sources is the error of all of them.
proof fn lemma_sources_prefix_error(srcs: Seq<(Seq<char>, Seq<u8>)>, n: int)
    requires
        0 <= n <= srcs.len(),
        sources_entities(srcs.take(n)) is Err,
    ensures
        sources_entities(srcs) == sources_entities(srcs.take(n)),
    decreases srcs.len() - n,
{
    if n < srcs.len() {
        assert(srcs.take(n + 1).drop_last() =~= srcs.take(n));
        lemma_sources_prefix_error(srcs, n + 1);
    } else {
        assert(srcs.take(n) =~= srcs);
    }
}

/// Compiles sources all the way to a knowledge graph: lex, parse and
/// validate them, then build the graph, whose cycle error becomes a
/// [`VdlError::Graph`] with the error's text.
pub fn compile_graph(sources: &Vec<(String, String)>) -> (r: Result<KnowledgeGraph, VdlError>)
    requires
        sources_fit(sources@),
    ensures
        match sources_entities(sources_view(sources@)) {
            Err(e) => r matches Err(x) && x@ == e,
            Ok(es) => {
                &&& !valid_module(es) ==> (r matches Err(x) && x@ == violations_error(es))
                &&& valid_module(es) ==> (r matches Ok(g) && {
                    &&& g@.nodes == nodes_of(es)
                    &&& g@.edges == edges_of(es)
                    &&& g@.adjacency == adjacency_of(edges_of(es))
                    &&& forall|c: Seq<Seq<char>>, t: RelationshipType| !#[trigger] adj_cycle(g@.adjacency, c, t)
                })
            },
        },
{
    let module = match compile_sources(sources) {
        Ok(m) => m,
        Err(e) => {
            return Err(e);
        },
    };
    proof {
        if valid_module(module@) {
            crate::graph::laws::law_module_acyclic_iff_graph_acyclic(module@);
        }
    }
    match KnowledgeGraph::from_module(&module) {
        Ok(g) => Ok(g),
        Err(e) => {
            let message = e.message();
            Err(VdlError::Graph { message })
        },
    }
}

// ---------------------------------------------------------------------------
// Diagnostics
// ---------------------------------------------------------------------------

/// How the command line reports a compiler error.
pub open spec fn diagnostic_text(e: VdlErrorView) -> Seq<char> {
    match e {
        VdlErrorView::Lexer { location, message } => "["@ + location_text(location)
            + "] Lexical error: "@ + message,
        VdlErrorView::Parser { location, message } => "["@ + location_text(location)
            + "] Parse error: "@ + message,
        VdlErrorView::Validation { location, message } => "["@ + location_text(location)
            + "] Validation error: "@ + message,
        VdlErrorView::ValidationErrors { count, messages } => "Validation failed with "@ + decimal(
            count as nat,
        ) + " error(s):\n"@ + messages,
        VdlErrorView::Graph { message } => "Graph error: "@ + message,
        VdlErrorView::Codegen { message } => "Codegen error: "@ + message,
        VdlErrorView::Io { message } => "IO error: "@ + message,
        VdlErrorView::Other { message } => message,
    }
}

fn bracketed(location: &crate::error::SourceLocation, kind: &str, message: &String) -> (s: String)
    ensures
        s@ == "["@ + location_text(location@) + kind@ + message@,
{
    let mut s = String::from_str("[");
    let l = location.to_text();
    s.append(l.as_str());
    s.append(kind);
    s.append(message.as_str());
    s
}

/// The text with which the command line reports a compiler error.
pub fn diagnostic(err: &VdlError) -> (s: String)
    ensures
        s@ == diagnostic_text(err@),
{
    match err {
        VdlError::Lexer { location, message } => bracketed(location, "] Lexical error: ", message),
        VdlError::Parser { location, message } => bracketed(location, "] Parse error: ", message),
        VdlError::Validation { location, message } => bracketed(
            location,
            "] Validation error: ",
            message,
        ),
        _ => err.message(),
    }
}

// ---------------------------------------------------------------------------
// Search
// ---------------------------------------------------------------------------

/// The pattern that a search query becomes: the query as a regular
/// expression, matched without regard to case.
pub open spec fn search_pattern(query: Seq<char>) -> Seq<char> {
    "(?i)"@ + query
}

/// Whether an entity's id or title matches the pattern.
pub open spec fn search_hit(pattern: Seq<char>, e: EntityView) -> bool {
    regex_matches(pattern, e.id) || regex_matches(pattern, e.title)
}

pub open spec fn search_line(e: EntityView) -> Seq<char> {
    e.id + " | "@ + entity_type_name(e.entity_type) + " | "@ + e.title
}

/// The lines of the entities that match, in node order.
pub open spec fn search_hits(nodes: Seq<(Seq<char>, EntityView)>, pattern: Seq<char>) -> Seq<Seq<char>> {
    nodes.flat_map(
        |n: (Seq<char>, EntityView)|
            if search_hit(pattern, n.1) {
                seq![search_line(n.1)]
            } else {
                seq![]
            },
    )
}

/// What the `search` command prints: a line per matching entity, or a
/// line saying that nothing matched.
pub open spec fn search_output(nodes: Seq<(Seq<char>, EntityView)>, query: Seq<char>) -> Seq<Seq<char>> {
    let hits = search_hits(nodes, search_pattern(query));
    if hits.len() == 0 {
        seq!["No entities matching '"@ + query + "'."@]
    } else {
        hits
    }
}

/// The lines of the `search` command: the entities whose id or title
/// the regular expression `query` matches, ignoring case, as
/// `id | type | title`.
///
/// The pattern is compiled before any entity is looked at: an error is
/// its compile error, which the `regex` crate reports.
pub fn search_lines(graph: &KnowledgeGraph, query: &str) -> (r: Result<Vec<String>, regex::Error>)
    ensures
        r is Ok <==> regex_compiles(search_pattern(query@)),
        r matches Ok(v) ==> strings_view(v@) == search_output(graph@.nodes, query@),
{
    let ghost nodes = graph@.nodes;
    let mut pattern = String::from_str("(?i)");
    pattern.append(query);
    let ghost pat = pattern@;
    assert(pat == search_pattern(query@));
    if let Err(e) = regex_is_match(pattern.as_str(), "") {
        return Err(e);
    }
    let ghost f = |n: (Seq<char>, EntityView)|
        if search_hit(pat, n.1) {
            seq![search_line(n.1)]
        } else {
            seq![]
        };
    let n = entity_map_len(&graph.nodes);
    let mut lines: Vec<String> = Vec::new();
    let mut i: usize = 0;
    while i < n
        invariant
            nodes == graph@.nodes,
            n == nodes.len(),
            i <= n,
            pat == pattern@,
            pat == search_pattern(query@),
            regex_compiles(pat),
            f == (|n: (Seq<char>, EntityView)|
                if search_hit(pat, n.1) {
                    seq![search_line(n.1)]
                } else {
                    seq![]
                }),
            strings_view(lines@) == nodes.take(i as int).flat_map(f),
        decreases n - i,
    {
        let (_, entity) = entity_map_get_index(&graph.nodes, i).unwrap();
        proof {
            assert(nodes[i as int].1 == entity@);
            nodes.lemma_flat_map_take_append(f, i as int);
        }
        let hit = match regex_is_match(pattern.as_str(), entity.id.as_str()) {
            Ok(true) => true,
            Ok(false) => match regex_is_match(pattern.as_str(), entity.title.as_str()) {
                Ok(m) => m,
                Err(e) => {
                    return Err(e);
                },
            },
            Err(e) => {
                return Err(e);
            },
        };
        if hit {
            let mut line = entity.id.clone();
            line.append(" | ");
            line.append(entity.entity_type.as_str());
            line.append(" | ");
            line.append(entity.title.as_str());
            let ghost before = strings_view(lines@);
            lines.push(line);
            assert(strings_view(lines@) =~= before + seq![search_line(entity@)]);
        } else {
            assert(strings_view(lines@) =~= strings_view(lines@) + Seq::<Seq<char>>::empty());
        }
        i = i + 1;
    }
    assert(nodes.take(n as int) =~= nodes);
    if lines.len() == 0 {
        let mut s = String::from_str("No entities matching '");
        s.append(query);
        s.append("'.");
        let mut out: Vec<String> = Vec::new();
        out.push(s);
        assert(strings_view(out@) =~= search_output(nodes, query@));
        Ok(out)
    } else {
        Ok(lines)
    }
}

// ---------------------------------------------------------------------------
// Subgraph
// ---------------------------------------------------------------------------

/// The targets of the adjacency list of `id`, in order.
pub open spec fn outgoing_ids(adj: Seq<(Seq<char>, Seq<(Seq<char>, RelationshipType)>)>, id: Seq<char>) -> Seq<Seq<char>> {
    if key_pos(adj, id) >= 0 {
        adj[key_pos(adj, id)].1.map_values(|p: (Seq<char>, RelationshipType)| p.0)
    } else {
        seq![]
    }
}

pub open spec fn incoming_entry_fn(id: Seq<char>, from: Seq<char>) -> spec_fn((Seq<char>, RelationshipType)) -> Seq<Seq<char>> {
    |p: (Seq<char>, RelationshipType)|
        if p.0 == id {
            seq![from]
        } else {
            seq![]
        }
}

pub open spec fn incoming_fn(id: Seq<char>) -> spec_fn((Seq<char>, Seq<(Seq<char>, RelationshipType)>)) -> Seq<Seq<char>> {
    |e: (Seq<char>, Seq<(Seq<char>, RelationshipType)>)| e.1.flat_map(incoming_entry_fn(id, e.0))
}

/// The source of every adjacency entry with a target `id`, in order.
pub open spec fn incoming_ids(adj: Seq<(Seq<char>, Seq<(Seq<char>, RelationshipType)>)>, id: Seq<char>) -> Seq<Seq<char>> {
    adj.flat_map(incoming_fn(id))
}

/// The ids of the subgraph around `id`: the entity itself and its direct
/// neighbours in both directions, each once, in the order first met.
pub open spec fn subgraph_members(g: GraphView, id: Seq<char>) -> Seq<Seq<char>> {
    dedup(seq![id] + outgoing_ids(g.adjacency, id) + incoming_ids(g.adjacency, id))
}

pub open spec fn subgraph_node_line(e: EntityView) -> Seq<char> {
    "  \""@ + e.id + "\" [label=\""@ + e.id + "\\n("@ + entity_type_name(e.entity_type)
        + ")\", fillcolor=\""@ + type_color(e.entity_type) + "\"];"@
}

pub open spec fn subgraph_edge_line(from: Seq<char>, to: Seq<char>, t: RelationshipType) -> Seq<char> {
    "  \""@ + from + "\" -> \""@ + to + "\" [label=\""@ + rel_type_name(t) + "\"];"@
}

/// The node lines of the subgraph: one per member that is a node.
pub open spec fn subgraph_nodes(g: GraphView, members: Seq<Seq<char>>) -> Seq<Seq<char>> {
    members.flat_map(
        |m: Seq<char>|
            if has_node(g, m) {
                seq![subgraph_node_line(node_entity(g, m))]
            } else {
                seq![]
            },
    )
}

/// The edge lines of the subgraph: every adjacency entry between members,
/// in adjacency order.
pub open spec fn subgraph_edges(g: GraphView, members: Seq<Seq<char>>) -> Seq<Seq<char>> {
    g.adjacency.flat_map(
        |e: (Seq<char>, Seq<(Seq<char>, RelationshipType)>)|
            if members.contains(e.0) {
                e.1.flat_map(
                    |p: (Seq<char>, RelationshipType)|
                        if members.contains(p.0) {
                            seq![subgraph_edge_line(e.0, p.0, p.1)]
                        } else {
                            seq![]
                        },
                )
            } else {
                seq![]
            },
    )
}

/// The DOT lines that the `graph` command prints for the subgraph around
/// `id`.
pub open spec fn subgraph_output(g: GraphView, id: Seq<char>) -> Seq<Seq<char>> {
    let members = subgraph_members(g, id);
    seq!["digraph subgraph {"@, "  rankdir=LR;"@, "  node [shape=box, style=\"rounded,filled\"];"@]
        + subgraph_nodes(g, members) + subgraph_edges(g, members) + seq!["}"@]
}

/// Adds `v` to the members unless it is already there.
fn add_member(members: &mut Vec<String>, v: String)
    ensures
        names_of(final(members)@) == if names_of(old(members)@).contains(v@) {
            names_of(old(members)@)
        } else {
            names_of(old(members)@).push(v@)
        },
{
    if !contains_name(members, &v) {
        let ghost before = names_of(members@);
        members.push(v);
        assert(names_of(members@) =~= before.push(v@));
    }
}

/// Adds `v` to the members, keeping them the repeat-free form of `seen`.
fn add_seen(members: &mut Vec<String>, v: String, Ghost(seen): Ghost<Seq<Seq<char>>>)
    requires
        names_of(old(members)@) == dedup(seen),
    ensures
        names_of(final(members)@) == dedup(seen.push(v@)),
{
    proof {
        lemma_dedup_contains(seen, v@);
        assert(seen.push(v@).drop_last() =~= seen);
    }
    add_member(members, v);
}

/// The members of the subgraph around `entity_id`.
fn subgraph_member_ids(graph: &KnowledgeGraph, entity_id: &str) -> (r: Vec<String>)
    ensures
        names_of(r@) == subgraph_members(graph@, entity_id@),
{
    let ghost g = graph@;
    let ghost adj = g.adjacency;
    let ghost id = entity_id@;
    let target = crate::text::owned(entity_id);
    let mut members: Vec<String> = Vec::new();
    let ghost mut seen: Seq<Seq<char>> = seq![];
    assert(names_of(members@) =~= dedup(seen));
    add_seen(&mut members, crate::text::owned(entity_id), Ghost(seen));
    proof {
        seen = seen.push(id);
    }
    match adjacency_map_get(&graph.adjacency, entity_id) {
        Some(list) => {
            let ghost lv = targets_view(list@);
            let mut k: usize = 0;
            while k < list.len()
                invariant
                    lv == targets_view(list@),
                    k <= lv.len(),
                    seen == seq![id] + lv.take(k as int).map_values(|p: (Seq<char>, RelationshipType)| p.0),
                    names_of(members@) == dedup(seen),
                decreases lv.len() - k,
            {
                add_seen(&mut members, list[k].0.clone(), Ghost(seen));
                proof {
                    seen = seen.push(lv[k as int].0);
                    assert(seen =~= seq![id] + lv.take(k + 1).map_values(|p: (Seq<char>, RelationshipType)| p.0));
                }
                k = k + 1;
            }
            assert(lv.take(lv.len() as int) =~= lv);
        },
        None => {
            assert(seen =~= seq![id] + outgoing_ids(adj, id));
        },
    }
    let ghost out_part = seen;
    assert(out_part == seq![id] + outgoing_ids(adj, id));
    let ghost fin = incoming_fn(id);
    let na = adjacency_map_len(&graph.adjacency);
    let mut a: usize = 0;
    while a < na
        invariant
            g == graph@,
            adj == g.adjacency,
            id == entity_id@,
            target@ == id,
            na == adj.len(),
            a <= na,
            fin == incoming_fn(id),
            seen == out_part + adj.take(a as int).flat_map(fin),
            names_of(members@) == dedup(seen),
        decreases na - a,
    {
        let (from, list) = adjacency_map_get_index(&graph.adjacency, a).unwrap();
        let ghost lv = targets_view(list@);
        let ghost fe = incoming_entry_fn(id, from@);
        let ghost mid = seen;
        let mut k: usize = 0;
        while k < list.len()
            invariant
                lv == targets_view(list@),
                id == entity_id@,
                target@ == id,
                k <= lv.len(),
                fe == incoming_entry_fn(id, from@),
                seen == mid + lv.take(k as int).flat_map(fe),
                names_of(members@) == dedup(seen),
            decreases lv.len() - k,
        {
            proof {
                lv.lemma_flat_map_take_append(fe, k as int);
                assert(lv[k as int].0 == list@[k as int].0@);
            }
            if list[k].0 == target {
                add_seen(&mut members, from.clone(), Ghost(seen));
                proof {
                    seen = seen.push(from@);
                    assert(seen =~= mid + lv.take(k + 1).flat_map(fe));
                }
            } else {
                assert(mid + lv.take(k + 1).flat_map(fe) =~= seen);
            }
            k = k + 1;
        }
        proof {
            assert(lv.take(lv.len() as int) =~= lv);
            assert(adj[a as int] == (from@, lv));
            assert(fin(adj[a as int]) =~= lv.flat_map(fe));
            adj.lemma_flat_map_take_append(fin, a as int);
            assert(seen =~= out_part + adj.take(a + 1).flat_map(fin));
        }
        a = a + 1;
    }
    proof {
        assert(adj.take(na as int) =~= adj);
        assert(adj.flat_map(fin) =~= incoming_ids(adj, id));
        assert(seen =~= seq![id] + outgoing_ids(adj, id) + incoming_ids(adj, id));
    }
    members
}

/// Appends the node lines of the members that are nodes.
fn push_subgraph_nodes(lines: &mut Vec<String>, graph: &KnowledgeGraph, members: &Vec<String>)
    ensures
        strings_view(final(lines)@) == strings_view(old(lines)@) + subgraph_nodes(graph@, names_of(members@)),
{
    let ghost g = graph@;
    let ghost ms = names_of(members@);
    let ghost head = strings_view(lines@);
    let ghost fn_ = |m: Seq<char>|
        if has_node(g, m) {
            seq![subgraph_node_line(node_entity(g, m))]
        } else {
            seq![]
        };
    let mut q: usize = 0;
    while q < members.len()
        invariant
            g == graph@,
            ms == names_of(members@),
            q <= ms.len(),
            fn_ == (|m: Seq<char>|
                if has_node(g, m) {
                    seq![subgraph_node_line(node_entity(g, m))]
                } else {
                    seq![]
                }),
            strings_view(lines@) == head + ms.take(q as int).flat_map(fn_),
        decreases ms.len() - q,
    {
        proof {
            ms.lemma_flat_map_take_append(fn_, q as int);
        }
        match entity_map_get(&graph.nodes, members[q].as_str()) {
            Some(node) => {
                let mut line = String::from_str("  \"");
                line.append(node.id.as_str());
                line.append("\" [label=\"");
                line.append(node.id.as_str());
                line.append("\\n(");
                line.append(node.entity_type.as_str());
                line.append(")\", fillcolor=\"");
                line.append(entity_type_color(node.entity_type));
                line.append("\"];");
                let ghost before = strings_view(lines@);
                lines.push(line);
                assert(strings_view(lines@) =~= before + seq![subgraph_node_line(node@)]);
            },
            None => {
                assert(strings_view(lines@) =~= strings_view(lines@) + Seq::<Seq<char>>::empty());
            },
        }
        q = q + 1;
    }
    assert(ms.take(ms.len() as int) =~= ms);
}

/// Appends the edge lines among the members.
fn push_subgraph_edges(lines: &mut Vec<String>, graph: &KnowledgeGraph, members: &Vec<String>)
    ensures
        strings_view(final(lines)@) == strings_view(old(lines)@) + subgraph_edges(graph@, names_of(members@)),
{
    let ghost g = graph@;
    let ghost adj = g.adjacency;
    let ghost ms = names_of(members@);
    let ghost mid_lines = strings_view(lines@);
    let ghost fe2 = |e: (Seq<char>, Seq<(Seq<char>, RelationshipType)>)|
        if ms.contains(e.0) {
            e.1.flat_map(
                |p: (Seq<char>, RelationshipType)|
                    if ms.contains(p.0) {
                        seq![subgraph_edge_line(e.0, p.0, p.1)]
                    } else {
                        seq![]
                    },
            )
        } else {
            seq![]
        };
    let na = adjacency_map_len(&graph.adjacency);
    let mut a: usize = 0;
    while a < na
        invariant
            g == graph@,
            adj == g.adjacency,
            na == adj.len(),
            a <= na,
            ms == names_of(members@),
            fe2 == (|e: (Seq<char>, Seq<(Seq<char>, RelationshipType)>)|
                if ms.contains(e.0) {
                    e.1.flat_map(
                        |p: (Seq<char>, RelationshipType)|
                            if ms.contains(p.0) {
                                seq![subgraph_edge_line(e.0, p.0, p.1)]
                            } else {
                                seq![]
                            },
                    )
                } else {
                    seq![]
                }),
            strings_view(lines@) == mid_lines + adj.take(a as int).flat_map(fe2),
        decreases na - a,
    {
        let (from, list) = adjacency_map_get_index(&graph.adjacency, a).unwrap();
        let ghost lv = targets_view(list@);
        let ghost before_entry = strings_view(lines@);
        proof {
            assert(adj[a as int] == (from@, lv));
            adj.lemma_flat_map_take_append(fe2, a as int);
        }
        if contains_name(members, from) {
            let ghost fp = |p: (Seq<char>, RelationshipType)|
                if ms.contains(p.0) {
                    seq![subgraph_edge_line(from@, p.0, p.1)]
                } else {
                    seq![]
                };
            let mut k: usize = 0;
            while k < list.len()
                invariant
                    lv == targets_view(list@),
                    ms == names_of(members@),
                    k <= lv.len(),
                    fp == (|p: (Seq<char>, RelationshipType)|
                        if ms.contains(p.0) {
                            seq![subgraph_edge_line(from@, p.0, p.1)]
                        } else {
                            seq![]
                        }),
                    strings_view(lines@) == before_entry + lv.take(k as int).flat_map(fp),
                decreases lv.len() - k,
            {
                proof {
                    lv.lemma_flat_map_take_append(fp, k as int);
                    assert(lv[k as int] == (list@[k as int].0@, list@[k as int].1));
                }
                let to = &list[k].0;
                if contains_name(members, to) {
                    let mut line = String::from_str("  \"");
                    line.append(from.as_str());
                    line.append("\" -> \"");
                    line.append(to.as_str());
                    line.append("\" [label=\"");
                    line.append(list[k].1.as_str());
                    line.append("\"];");
                    let ghost before = strings_view(lines@);
                    lines.push(line);
                    assert(strings_view(lines@) =~= before + seq![subgraph_edge_line(from@, lv[k as int].0, lv[k as int].1)]);
                } else {
                    assert(strings_view(lines@) =~= strings_view(lines@) + Seq::<Seq<char>>::empty());
                }
                k = k + 1;
            }
            proof {
                assert(lv.take(lv.len() as int) =~= lv);
                assert(fe2(adj[a as int]) =~= lv.flat_map(fp));
            }
        } else {
            assert(fe2(adj[a as int]) =~= Seq::<Seq<char>>::empty());
            assert(strings_view(lines@) =~= before_entry + Seq::<Seq<char>>::empty());
        }
        a = a + 1;
    }
    assert(adj.take(na as int) =~= adj);
}

/// The DOT lines of the subgraph around an entity: the entity and its
/// direct neighbours in both directions, coloured by type, and the edges
/// among them. The entity must be a node of the graph.
pub fn subgraph_lines(graph: &KnowledgeGraph, entity_id: &str) -> (r: Result<Vec<String>, GraphError>)
    ensures
        r is Ok <==> has_node(graph@, entity_id@),
        r matches Ok(v) ==> strings_view(v@) == subgraph_output(graph@, entity_id@),
        r matches Err(e) ==> e@ == GraphErrorView::EntityNotFound(entity_id@),
{
    if entity_map_get(&graph.nodes, entity_id).is_none() {
        return Err(GraphError::EntityNotFound(crate::text::owned(entity_id)));
    }
    let members = subgraph_member_ids(graph, entity_id);
    let mut lines: Vec<String> = Vec::new();
    lines.push(String::from_str("digraph subgraph {"));
    lines.push(String::from_str("  rankdir=LR;"));
    lines.push(String::from_str("  node [shape=box, style=\"rounded,filled\"];"));
    let ghost head = strings_view(lines@);
    assert(head =~= seq!["digraph subgraph {"@, "  rankdir=LR;"@, "  node [shape=box, style=\"rounded,filled\"];"@]);
    push_subgraph_nodes(&mut lines, graph, &members);
    push_subgraph_edges(&mut lines, graph, &members);
    let ghost before = strings_view(lines@);
    lines.push(String::from_str("}"));
    assert(strings_view(lines@) =~= before + seq!["}"@]);
    Ok(lines)
}

} // verus!
