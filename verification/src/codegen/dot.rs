//! A Graphviz DOT drawing of the knowledge graph.
use crate::graph::entity_type_color;
use crate::graph::index_map::{entity_map_get_index, entity_map_len};
use crate::graph::node::{EdgeView, KnowledgeGraph};
use crate::graph::type_color;
use crate::parser::ast::{entity_type_name, rel_type_name, EntityType, EntityView};
use vstd::prelude::*;

verus! {

broadcast use vstd::seq_lib::group_seq_properties;

/// How one character is written inside a DOT quoted string.
pub open spec fn dot_escape_char(c: char) -> Seq<char> {
    if c == '"' {
        seq!['\\', '"']
    } else {
        seq![c]
    }
}

pub open spec fn dot_escape_fn() -> spec_fn(char) -> Seq<char> {
    |c: char| dot_escape_char(c)
}

/// A label with its double quotes escaped.
pub open spec fn dot_escape(s: Seq<char>) -> Seq<char> {
    s.flat_map(dot_escape_fn())
}

/// Escapes double quotes for use inside a DOT quoted string.
pub fn escape_dot_label(label: &str) -> (r: String)
    ensures
        r@ == dot_escape(label@),
{
    let mut r = String::new();
    let ghost f = dot_escape_fn();
    for c in iter: label.chars()
        invariant
            f == dot_escape_fn(),
            iter.seq() == label@,
            r@ == iter.seq().take(iter.index() as int).flat_map(f),
    {
        let ghost k = iter.index() as int;
        proof {
            iter.seq().lemma_flat_map_take_append(f, k);
        }
        let ghost before = r@;
        if c == '"' {
            r.push('\\');
            r.push('"');
        } else {
            r.push(c);
        }
        assert(r@ =~= before + dot_escape_char(c));
    }
    r
}

/// The lines that open a drawing.
pub open spec fn dot_header() -> Seq<char> {
    "digraph VDL_Knowledge_Graph {"@ + "\n"@ + "    rankdir=TB;"@ + "\n"@
        + "    node [shape=box, style=filled, fontname=\"Helvetica\"];"@ + "\n"@
        + "    edge [fontname=\"Helvetica\", fontsize=10];"@ + "\n"@ + "\n"@
}

/// The line of one node: its id, its label (the title, or the id for an
/// untitled entity) and the colour of its type.
pub open spec fn node_line(n: (Seq<char>, EntityView)) -> Seq<char> {
    let label = if n.1.title.len() == 0 {
        n.0
    } else {
        n.1.title
    };
    "    \""@ + n.0 + "\" [label=\""@ + dot_escape(label) + "\", fillcolor=\""@ + type_color(
        n.1.entity_type,
    ) + "\"];"@ + "\n"@
}

pub open spec fn node_line_fn() -> spec_fn((Seq<char>, EntityView)) -> Seq<char> {
    |n: (Seq<char>, EntityView)| node_line(n)
}

/// The line of one edge, labelled with its relationship type.
pub open spec fn edge_line(e: EdgeView) -> Seq<char> {
    "    \""@ + e.from + "\" -> \""@ + e.to + "\" [label=\""@ + dot_escape(rel_type_name(e.rel_type))
        + "\"];"@ + "\n"@
}

pub open spec fn edge_line_fn() -> spec_fn(EdgeView) -> Seq<char> {
    |e: EdgeView| edge_line(e)
}

/// The legend entry of an entity type: a node named after the type, drawn
/// in the type's colour.
pub open spec fn legend_line(t: EntityType) -> Seq<char> {
    "        \"legend_"@ + entity_type_name(t) + "\" [label=\""@ + entity_type_name(t)
        + "\", fillcolor=\""@ + type_color(t) + "\"];"@ + "\n"@
}

pub open spec fn legend_line_fn() -> spec_fn(EntityType) -> Seq<char> {
    |t: EntityType| legend_line(t)
}

/// Every entity type, in declaration order.
pub open spec fn all_entity_types() -> Seq<EntityType> {
    seq![
        EntityType::Axiom,
        EntityType::Framework,
        EntityType::Law,
        EntityType::Principle,
        EntityType::Concept,
        EntityType::Artifact,
        EntityType::Pillar,
        EntityType::Document,
        EntityType::Project,
        EntityType::Release,
        EntityType::Persona,
        EntityType::Collection,
    ]
}

/// The legend of the colour scheme: a `cluster_legend` subgraph with an
/// entry for every entity type.
pub open spec fn dot_legend() -> Seq<char> {
    "\n"@ + "    subgraph cluster_legend {"@ + "\n"@ + "        label=\"Legend\";"@ + "\n"@
        + all_entity_types().flat_map(legend_line_fn()) + "    }"@ + "\n"@
}

/// The DOT drawing of a graph: a header, a line per node in node order, a
/// blank line when there are both nodes and edges, a line per edge, the
/// legend of the colour scheme, and the closing brace.
pub open spec fn dot_document(nodes: Seq<(Seq<char>, EntityView)>, edges: Seq<EdgeView>) -> Seq<char> {
    dot_header() + nodes.flat_map(node_line_fn()) + (if nodes.len() > 0 && edges.len() > 0 {
        "\n"@
    } else {
        seq![]
    }) + edges.flat_map(edge_line_fn()) + dot_legend() + "}"@ + "\n"@
}

fn push_legend_line(w: &mut String, t: EntityType)
    ensures
        final(w)@ == old(w)@ + legend_line(t),
{
    w.append("        \"legend_");
    w.append(t.as_str());
    w.append("\" [label=\"");
    w.append(t.as_str());
    w.append("\", fillcolor=\"");
    w.append(entity_type_color(t));
    w.append("\"];");
    w.append("\n");
}

/// Appends the legend of the colour scheme.
fn push_legend(w: &mut String)
    ensures
        final(w)@ == old(w)@ + dot_legend(),
{
    let types: [EntityType; 12] = [
        EntityType::Axiom,
        EntityType::Framework,
        EntityType::Law,
        EntityType::Principle,
        EntityType::Concept,
        EntityType::Artifact,
        EntityType::Pillar,
        EntityType::Document,
        EntityType::Project,
        EntityType::Release,
        EntityType::Persona,
        EntityType::Collection,
    ];
    assert(types@ =~= all_entity_types());
    let ghost f = legend_line_fn();
    let ghost ts = all_entity_types();
    w.append("\n");
    w.append("    subgraph cluster_legend {");
    w.append("\n");
    w.append("        label=\"Legend\";");
    w.append("\n");
    let ghost base = w@;
    assert(ts.take(0).flat_map(f) =~= Seq::<char>::empty());
    assert(w@ =~= base + ts.take(0).flat_map(f));
    let mut i: usize = 0;
    while i < 12
        invariant
            f == legend_line_fn(),
            ts == all_entity_types(),
            types@ == ts,
            i <= 12,
            w@ == base + ts.take(i as int).flat_map(f),
        decreases 12 - i,
    {
        let ghost before = w@;
        push_legend_line(w, types[i]);
        proof {
            ts.lemma_flat_map_take_append(f, i as int);
        }
        assert(w@ =~= base + ts.take(i + 1).flat_map(f));
        i = i + 1;
    }
    assert(ts.take(12) =~= ts);
    w.append("    }");
    w.append("\n");
    assert(w@ =~= old(w)@ + dot_legend());
}

/// The Graphviz DOT drawing of `graph`: nodes coloured by entity type,
/// edges labelled with their relationship type, and a legend explaining
/// the colour scheme.
pub fn dot_text(graph: &KnowledgeGraph) -> (r: String)
    ensures
        r@ == dot_document(graph@.nodes, graph@.edges),
{
    let ghost nodes = graph@.nodes;
    let ghost edges = graph@.edges;
    let ghost f = node_line_fn();
    let ghost g = edge_line_fn();
    let mut w = String::new();
    w.append("digraph VDL_Knowledge_Graph {");
    w.append("\n");
    w.append("    rankdir=TB;");
    w.append("\n");
    w.append("    node [shape=box, style=filled, fontname=\"Helvetica\"];");
    w.append("\n");
    w.append("    edge [fontname=\"Helvetica\", fontsize=10];");
    w.append("\n");
    w.append("\n");
    assert(w@ =~= dot_header());
    let n = entity_map_len(&graph.nodes);
    let mut i: usize = 0;
    while i < n
        invariant
            f == node_line_fn(),
            nodes == graph@.nodes,
            n == nodes.len(),
            i <= n,
            w@ == dot_header() + nodes.take(i as int).flat_map(f),
        decreases n - i,
    {
        let (id, entity) = entity_map_get_index(&graph.nodes, i).unwrap();
        let ghost before = w@;
        let label = if entity.title.as_str().is_empty() {
            escape_dot_label(id.as_str())
        } else {
            escape_dot_label(entity.title.as_str())
        };
        w.append("    \"");
        w.append(id.as_str());
        w.append("\" [label=\"");
        w.append(label.as_str());
        w.append("\", fillcolor=\"");
        w.append(entity_type_color(entity.entity_type));
        w.append("\"];");
        w.append("\n");
        proof {
            assert(nodes[i as int] == (id@, entity@));
            assert(w@ =~= before + node_line(nodes[i as int]));
            nodes.lemma_flat_map_take_append(f, i as int);
        }
        i = i + 1;
    }
    assert(nodes.take(n as int) =~= nodes);
    let ghost mid = w@;
    if n > 0 && graph.edges.len() > 0 {
        w.append("\n");
    }
    let ghost base = w@;
    assert(base == mid + (if nodes.len() > 0 && edges.len() > 0 {
        "\n"@
    } else {
        seq![]
    }));
    let mut k: usize = 0;
    while k < graph.edges.len()
        invariant
            g == edge_line_fn(),
            edges == graph@.edges,
            k <= edges.len(),
            w@ == base + edges.take(k as int).flat_map(g),
        decreases edges.len() - k,
    {
        let edge = &graph.edges[k];
        let ghost before = w@;
        let rel = escape_dot_label(edge.rel_type.as_str());
        w.append("    \"");
        w.append(edge.from.as_str());
        w.append("\" -> \"");
        w.append(edge.to.as_str());
        w.append("\" [label=\"");
        w.append(rel.as_str());
        w.append("\"];");
        w.append("\n");
        proof {
            assert(edges[k as int] == edge@);
            assert(w@ =~= before + edge_line(edges[k as int]));
            edges.lemma_flat_map_take_append(g, k as int);
        }
        k = k + 1;
    }
    assert(edges.take(edges.len() as int) =~= edges);
    push_legend(&mut w);
    w.append("}");
    w.append("\n");
    assert(w@ =~= dot_document(nodes, edges));
    w
}

} // verus!
