//! Laws of the outputs, stated over the entities they are made from: a
//! page lists every relationship, synthesis and analogy; the JSON form
//! carries the entity and its evidence as they are; the search document
//! holds every tag and evidence text; the drawing has every node and edge.
use crate::codegen::json::{json_entity, json_relationship};
use crate::codegen::search::{
    content_parts, join, lemma_dedup_contains, lemma_dedup_distinct, revelation_parts_fn, search_document, tag_of_fn,
};
use crate::validator::laws::lemma_flat_map_has;
use crate::graph::node::EdgeView;
use crate::codegen::dot::{dot_document, dot_escape, dot_header, dot_legend, edge_line_fn, node_line_fn};
use crate::graph::type_color;
use crate::parser::ast::rel_type_name;
use crate::codegen::markdown::{
    analogies_md, analogy_fn, annotation_fn, bullet_fn, evidence_md, frontmatter, markdown_page, related_block,
    related_fn, revelations_md, synthesis_fn, yaml_escape,
};
use crate::parser::ast::{entity_type_name, AnalogyView, EntityView, EvidenceView, RelationshipView, SynthesisView};
use vstd::prelude::*;

verus! {

spec fn page_head(e: EntityView) -> Seq<char> {
    "---\n"@ + "id: "@ + e.id + "\n"@ + "type: "@ + entity_type_name(e.entity_type) + "\n"@ + "version: \""@
        + e.version + "\"\n"@ + "title: \""@ + yaml_escape(e.title) + "\"\n"@ + "description: \""@ + yaml_escape(
        e.description,
    ) + "\"\n"@
}

spec fn page_tail(e: EntityView) -> Seq<char> {
    e.annotations.flat_map(annotation_fn()) + ("---\n\n"@ + evidence_md(e.evidence))
}

proof fn lemma_page_split(e: EntityView)
    ensures
        markdown_page(e) == (page_head(e) + related_block(e.relationships)) + page_tail(e),
{
    let x = page_head(e) + related_block(e.relationships);
    let ann = e.annotations.flat_map(annotation_fn());
    let end = "---\n\n"@;
    let ev = evidence_md(e.evidence);
    assert(markdown_page(e) == ((x + ann) + end) + ev);
    vstd::seq_lib::lemma_concat_associative(x + ann, end, ev);
    vstd::seq_lib::lemma_concat_associative(x, ann, end + ev);
}

proof fn lemma_related_push(rels: Seq<RelationshipView>, r: RelationshipView)
    ensures
        related_block(rels.push(r)) == related_block(rels) + ((if rels.len() == 0 {
            "related:\n"@
        } else {
            seq![]
        }) + ("  - "@ + r.target_id + "\n"@)),
{
    let f = related_fn();
    rels.lemma_flat_map_push(f, r);
    if rels.len() == 0 {
        assert(rels.flat_map(f) =~= Seq::<char>::empty());
        assert(related_block(rels.push(r)) =~= related_block(rels) + ("related:\n"@ + ("  - "@ + r.target_id
            + "\n"@)));
    } else {
        assert(related_block(rels.push(r)) =~= related_block(rels) + (Seq::<char>::empty() + ("  - "@
            + r.target_id + "\n"@)));
    }
}

/// One more relationship of an entity adds to its page exactly the line
/// `  - <target>` (after a `related:` header for the first one), and
/// leaves the rest of the page as it was; so the page lists every
/// relationship of the entity, one line each, in order.
pub proof fn law_page_lists_each_relationship(e: EntityView, r: RelationshipView)
    ensures
        exists|x: Seq<char>, y: Seq<char>|
            #![trigger x.add(y)]
            {
                &&& markdown_page(e) == x + y
                &&& markdown_page(EntityView { relationships: e.relationships.push(r), ..e }) == x
                    + ((if e.relationships.len() == 0 {
                    "related:\n"@
                } else {
                    seq![]
                }) + ("  - "@ + r.target_id + "\n"@)) + y
            },
{
    let e2 = EntityView { relationships: e.relationships.push(r), ..e };
    lemma_page_split(e);
    lemma_page_split(e2);
    lemma_related_push(e.relationships, r);
    assert(page_head(e2) == page_head(e));
    assert(page_tail(e2) == page_tail(e));
    let add = (if e.relationships.len() == 0 {
        "related:\n"@
    } else {
        seq![]
    }) + ("  - "@ + r.target_id + "\n"@);
    let x = page_head(e) + related_block(e.relationships);
    vstd::seq_lib::lemma_concat_associative(page_head(e), related_block(e.relationships), add);
    assert(markdown_page(e) == x.add(page_tail(e)));
    assert(markdown_page(e2) == x + add + page_tail(e));
}

/// The JSON form of an entity carries its evidence as it is: every
/// revelation with its source, text and translator, every synthesis with
/// all its sources and its argument, every analogy with its domain and
/// mapping, each in the entity's order; an entity without evidence has
/// none in JSON.
pub proof fn law_json_carries_the_evidence(e: EntityView)
    ensures
        match e.evidence {
            None => json_entity(e).evidence is None,
            Some(b) => json_entity(e).evidence matches Some(j) && {
                &&& j.revelations.len() == b.revelations.len()
                &&& forall|k: int|
                    0 <= k < b.revelations.len() ==> #[trigger] j.revelations[k] == (
                        b.revelations[k].source,
                        b.revelations[k].text,
                        b.revelations[k].translator,
                    )
                &&& j.syntheses.len() == b.syntheses.len()
                &&& forall|k: int|
                    0 <= k < b.syntheses.len() ==> (#[trigger] j.syntheses[k]).0 == b.syntheses[k].sources
                        && j.syntheses[k].1 == b.syntheses[k].argument
                &&& j.analogies.len() == b.analogies.len()
                &&& forall|k: int|
                    0 <= k < b.analogies.len() ==> #[trigger] j.analogies[k] == (b.analogies[k].domain, b.analogies[k].mapping)
            },
        },
{
}

/// The JSON form of an entity names it as the entity does: the same id,
/// version, title, description and properties, its type's name, and each
/// annotation's name and value in order.
pub proof fn law_json_carries_the_entity(e: EntityView)
    ensures
        json_entity(e).id == e.id,
        json_entity(e).entity_type == entity_type_name(e.entity_type),
        json_entity(e).version == e.version,
        json_entity(e).title == e.title,
        json_entity(e).description == e.description,
        json_entity(e).properties == e.properties,
        json_entity(e).annotations.len() == e.annotations.len(),
        forall|k: int|
            0 <= k < e.annotations.len() ==> #[trigger] json_entity(e).annotations[k] == (
                e.annotations[k].name,
                e.annotations[k].value,
            ),
{
}

/// How a synthesis is written on a page: its sources as bullets, then its
/// argument.
pub open spec fn written_synthesis(s: SynthesisView) -> Seq<char> {
    "**Sources:**\n"@ + s.sources.flat_map(|src: Seq<char>| "- "@ + src + "\n"@) + "\n"@ + "**Argument:**\n"@
        + s.argument + "\n\n"@
}

/// How an analogy is written on a page: its domain, then its mapping.
pub open spec fn written_analogy(a: AnalogyView) -> Seq<char> {
    "**Domain:** "@ + a.domain + "\n\n"@ + "**Mapping:**\n"@ + a.mapping + "\n\n"@
}

/// One more synthesis in an entity's evidence, where it has some already,
/// adds to the page exactly that synthesis, written out, and leaves the
/// rest as it was: so a page shows every synthesis, each with all its
/// sources.
pub proof fn law_page_shows_each_synthesis(e: EntityView, b: EvidenceView, s: SynthesisView)
    requires
        e.evidence == Some(b),
        b.syntheses.len() > 0,
    ensures
        exists|x: Seq<char>, y: Seq<char>|
            #![trigger x.add(y)]
            {
                &&& markdown_page(e) == x + y
                &&& markdown_page(
                    EntityView { evidence: Some(EvidenceView { syntheses: b.syntheses.push(s), ..b }), ..e },
                ) == x + written_synthesis(s) + y
            },
{
    let b2 = EvidenceView { syntheses: b.syntheses.push(s), ..b };
    let e2 = EntityView { evidence: Some(b2), ..e };
    let f = synthesis_fn();
    b.syntheses.lemma_flat_map_push(f, s);
    assert(bullet_fn() =~= (|src: Seq<char>| "- "@ + src + "\n"@));
    assert(f(s) == written_synthesis(s));
    let flat = b.syntheses.flat_map(f);
    let x = frontmatter(e) + ("## Evidence\n\n"@ + revelations_md(b) + ("### Synthesis\n\n"@ + flat));
    let y = analogies_md(b);
    assert(frontmatter(e2) == frontmatter(e));
    assert(revelations_md(b2) == revelations_md(b));
    assert(analogies_md(b2) == analogies_md(b));
    let h = "## Evidence\n\n"@ + revelations_md(b);
    let sy = "### Synthesis\n\n"@;
    vstd::seq_lib::lemma_concat_associative(frontmatter(e), h + (sy + flat), y);
    assert(markdown_page(e) == x.add(y));
    vstd::seq_lib::lemma_concat_associative(sy, flat, written_synthesis(s));
    vstd::seq_lib::lemma_concat_associative(h, sy + flat, written_synthesis(s));
    vstd::seq_lib::lemma_concat_associative(frontmatter(e), h + (sy + flat), written_synthesis(s));
    vstd::seq_lib::lemma_concat_associative(frontmatter(e), h + (sy + flat) + written_synthesis(s), y);
    assert(markdown_page(e2) == x + written_synthesis(s) + y);
}

/// One more analogy in an entity's evidence, where it has some already,
/// adds to the page exactly that analogy, written out, at the end of the
/// page, and leaves the rest as it was.
pub proof fn law_page_shows_each_analogy(e: EntityView, b: EvidenceView, a: AnalogyView)
    requires
        e.evidence == Some(b),
        b.analogies.len() > 0,
    ensures
        markdown_page(EntityView { evidence: Some(EvidenceView { analogies: b.analogies.push(a), ..b }), ..e })
            == markdown_page(e) + written_analogy(a),
{
    let b2 = EvidenceView { analogies: b.analogies.push(a), ..b };
    let e2 = EntityView { evidence: Some(b2), ..e };
    let f = analogy_fn();
    b.analogies.lemma_flat_map_push(f, a);
    assert(f(a) == written_analogy(a));
    assert(frontmatter(e2) == frontmatter(e));
    let flat = b.analogies.flat_map(f);
    let an = "### Analogy\n\n"@;
    let h = "## Evidence\n\n"@ + revelations_md(b) + crate::codegen::markdown::syntheses_md(b);
    assert(analogies_md(b2) == an + (flat + written_analogy(a)));
    vstd::seq_lib::lemma_concat_associative(an, flat, written_analogy(a));
    vstd::seq_lib::lemma_concat_associative(h, an + flat, written_analogy(a));
    vstd::seq_lib::lemma_concat_associative(frontmatter(e), h + (an + flat), written_analogy(a));
}

/// A relationship in the JSON graph runs from the edge's source to its
/// target, with the name of its type.
pub proof fn law_json_relationship_keeps_direction(e: EdgeView)
    ensures
        json_relationship(e).0 == e.from,
        json_relationship(e).1 == e.to,
        json_relationship(e).2 == rel_type_name(e.rel_type),
{
}

/// Whether an annotation gives a search tag: an author, a pillar or a
/// status.
pub open spec fn tag_annotation(name: Seq<char>) -> bool {
    name == "author"@ || name == "pillar"@ || name == "status"@
}

/// The tags of an entity's search document: each once; the entity's type
/// name and the value of every `author`, `pillar` and `status` annotation
/// among them, and nothing else.
pub proof fn law_search_tags(e: EntityView)
    ensures
        search_document(e).tags.no_duplicates(),
        search_document(e).tags.contains(entity_type_name(e.entity_type)),
        forall|k: int|
            0 <= k < e.annotations.len() && tag_annotation(e.annotations[k].name) ==> search_document(
                e,
            ).tags.contains(#[trigger] e.annotations[k].value),
        forall|t: Seq<char>|
            #[trigger] search_document(e).tags.contains(t) ==> t == entity_type_name(e.entity_type) || exists|k: int|
                0 <= k < e.annotations.len() && tag_annotation(e.annotations[k].name) && t == #[trigger] e.annotations[k].value,
{
    let g = tag_of_fn();
    let all = e.annotations.flat_map(g).push(entity_type_name(e.entity_type));
    lemma_dedup_distinct(all);
    lemma_dedup_contains(all, entity_type_name(e.entity_type));
    assert(all[all.len() - 1] == entity_type_name(e.entity_type));
    assert forall|k: int|
        0 <= k < e.annotations.len() && tag_annotation(e.annotations[k].name) implies search_document(
            e,
        ).tags.contains(#[trigger] e.annotations[k].value) by {
        let v = e.annotations[k].value;
        assert(g(e.annotations[k]) == seq![v]);
        assert(g(e.annotations[k])[0] == v);
        lemma_flat_map_has(e.annotations, g, k, v);
        let q = choose|q: int| 0 <= q < e.annotations.flat_map(g).len() && e.annotations.flat_map(g)[q] == v;
        assert(all[q] == v);
        lemma_dedup_contains(all, v);
    }
    assert forall|t: Seq<char>| #[trigger] search_document(e).tags.contains(t) implies t == entity_type_name(
        e.entity_type,
    ) || exists|k: int|
        0 <= k < e.annotations.len() && tag_annotation(e.annotations[k].name) && t == #[trigger] e.annotations[k].value by {
        lemma_dedup_contains(all, t);
        if t != entity_type_name(e.entity_type) {
            let q = choose|q: int| 0 <= q < all.len() && all[q] == t;
            assert(e.annotations.flat_map(g).contains(t)) by {
                assert(e.annotations.flat_map(g)[q] == t);
            }
            lemma_flat_map_from(e.annotations, g, t);
        }
    }
}

/// An element of a flat map comes from one of the items.
proof fn lemma_flat_map_from<A, B>(s: Seq<A>, g: spec_fn(A) -> Seq<B>, x: B)
    requires
        s.flat_map(g).contains(x),
    ensures
        exists|j: int| 0 <= j < s.len() && (#[trigger] g(s[j])).contains(x),
    decreases s.len(),
{
    let p = s.drop_last();
    assert(s =~= p.push(s.last()));
    p.lemma_flat_map_push(g, s.last());
    let q = choose|q: int| 0 <= q < s.flat_map(g).len() && s.flat_map(g)[q] == x;
    let n = p.flat_map(g).len() as int;
    if q < n {
        assert(p.flat_map(g)[q] == x);
        lemma_flat_map_from(p, g, x);
        let j = choose|j: int| 0 <= j < p.len() && (#[trigger] g(p[j])).contains(x);
        assert(p[j] == s[j]);
    } else {
        assert(g(s.last())[q - n] == x);
        assert(g(s[s.len() - 1]).contains(x));
    }
}

/// The searchable texts of an entity start with its title and description
/// and hold every synthesis, with all its sources, and every analogy.
pub proof fn law_search_content_has_all_evidence(e: EntityView)
    ensures
        content_parts(e)[0] == e.title,
        content_parts(e)[1] == e.description,
        e.evidence matches Some(b) ==> {
            &&& forall|k: int|
                0 <= k < b.syntheses.len() ==> content_parts(e).contains(
                    "Synthesis ("@ + join(#[trigger] b.syntheses[k].sources, ", "@) + "): "@ + b.syntheses[k].argument,
                )
            &&& forall|k: int|
                0 <= k < b.analogies.len() ==> content_parts(e).contains(
                    "Analogy ("@ + (#[trigger] b.analogies[k]).domain + "): "@ + b.analogies[k].mapping,
                )
        },
{
    if let Some(b) = e.evidence {
        let rv = b.revelations.flat_map(revelation_parts_fn());
        let sy = b.syntheses.map_values(|s: SynthesisView| crate::codegen::search::synthesis_part(s));
        let an = b.analogies.map_values(|a: AnalogyView| crate::codegen::search::analogy_part(a));
        let cp = content_parts(e);
        assert(cp == seq![e.title, e.description] + (rv + sy + an));
        assert forall|k: int| 0 <= k < b.syntheses.len() implies cp.contains(
            "Synthesis ("@ + join(#[trigger] b.syntheses[k].sources, ", "@) + "): "@ + b.syntheses[k].argument,
        ) by {
            assert(cp[2 + rv.len() + k] == sy[k]);
        }
        assert forall|k: int| 0 <= k < b.analogies.len() implies cp.contains(
            "Analogy ("@ + (#[trigger] b.analogies[k]).domain + "): "@ + b.analogies[k].mapping,
        ) by {
            assert(cp[2 + rv.len() + sy.len() + k] == an[k]);
        }
    }
}

/// How an edge is drawn: from its source to its target, labelled with its
/// relationship type.
pub open spec fn drawn_edge(e: EdgeView) -> Seq<char> {
    "    \""@ + e.from + "\" -> \""@ + e.to + "\" [label=\""@ + dot_escape(rel_type_name(e.rel_type)) + "\"];"@
        + "\n"@
}

/// How a node is drawn: its id, labelled with its title (or its id when
/// untitled), filled with its type's colour.
pub open spec fn drawn_node(n: (Seq<char>, EntityView)) -> Seq<char> {
    "    \""@ + n.0 + "\" [label=\""@ + dot_escape(if n.1.title.len() == 0 { n.0 } else { n.1.title })
        + "\", fillcolor=\""@ + type_color(n.1.entity_type) + "\"];"@ + "\n"@
}

/// One more edge, where there are edges already, adds exactly its line to
/// the drawing, after the others; so every edge is drawn, in order.
pub proof fn law_drawing_has_each_edge(nodes: Seq<(Seq<char>, EntityView)>, edges: Seq<EdgeView>, e: EdgeView)
    requires
        edges.len() > 0,
    ensures
        exists|x: Seq<char>, y: Seq<char>|
            #![trigger x.add(y)]
            dot_document(nodes, edges) == x + y && dot_document(nodes, edges.push(e)) == x + drawn_edge(e) + y,
{
    let f = edge_line_fn();
    edges.lemma_flat_map_push(f, e);
    assert(f(e) == drawn_edge(e));
    let sep = if nodes.len() > 0 {
        "\n"@
    } else {
        seq![]
    };
    let x0 = dot_header() + nodes.flat_map(node_line_fn()) + sep;
    let fl = edges.flat_map(f);
    let x = x0 + fl;
    let y = dot_legend() + "}"@ + "\n"@;
    assert(dot_document(nodes, edges) == ((x + dot_legend()) + "}"@) + "\n"@);
    vstd::seq_lib::lemma_concat_associative(x, dot_legend(), "}"@);
    vstd::seq_lib::lemma_concat_associative(x, dot_legend() + "}"@, "\n"@);
    assert(dot_document(nodes, edges) == x.add(y));
    let x2 = x0 + (fl + drawn_edge(e));
    assert(dot_document(nodes, edges.push(e)) == ((x2 + dot_legend()) + "}"@) + "\n"@);
    vstd::seq_lib::lemma_concat_associative(x2, dot_legend(), "}"@);
    vstd::seq_lib::lemma_concat_associative(x2, dot_legend() + "}"@, "\n"@);
    vstd::seq_lib::lemma_concat_associative(x0, fl, drawn_edge(e));
}

/// One more node, where there are nodes already, adds exactly its line to
/// the drawing, after the other nodes; so every node is drawn, in order.
pub proof fn law_drawing_has_each_node(nodes: Seq<(Seq<char>, EntityView)>, edges: Seq<EdgeView>, n: (Seq<char>, EntityView))
    requires
        nodes.len() > 0,
    ensures
        exists|x: Seq<char>, y: Seq<char>|
            #![trigger x.add(y)]
            dot_document(nodes, edges) == x + y && dot_document(nodes.push(n), edges) == x + drawn_node(n) + y,
{
    let f = node_line_fn();
    nodes.lemma_flat_map_push(f, n);
    assert(f(n) == drawn_node(n));
    let sep = if edges.len() > 0 {
        "\n"@
    } else {
        seq![]
    };
    let fl = nodes.flat_map(f);
    let x = dot_header() + fl;
    let y = sep + edges.flat_map(edge_line_fn()) + dot_legend() + "}"@ + "\n"@;
    let y1 = sep;
    let y2 = edges.flat_map(edge_line_fn());
    let y3 = dot_legend();
    let y4 = "}"@;
    let y5 = "\n"@;
    assert(dot_document(nodes, edges) == ((((x + y1) + y2) + y3) + y4) + y5);
    vstd::seq_lib::lemma_concat_associative(x, y1, y2);
    vstd::seq_lib::lemma_concat_associative(x, y1 + y2, y3);
    vstd::seq_lib::lemma_concat_associative(x, y1 + y2 + y3, y4);
    vstd::seq_lib::lemma_concat_associative(x, y1 + y2 + y3 + y4, y5);
    assert(dot_document(nodes, edges) == x.add(y));
    let x2 = dot_header() + (fl + drawn_node(n));
    vstd::seq_lib::lemma_concat_associative(dot_header(), fl, drawn_node(n));
    assert(dot_document(nodes.push(n), edges) == ((((x2 + y1) + y2) + y3) + y4) + y5);
    vstd::seq_lib::lemma_concat_associative(x2, y1, y2);
    vstd::seq_lib::lemma_concat_associative(x2, y1 + y2, y3);
    vstd::seq_lib::lemma_concat_associative(x2, y1 + y2 + y3, y4);
    vstd::seq_lib::lemma_concat_associative(x2, y1 + y2 + y3 + y4, y5);
}

} // verus!
