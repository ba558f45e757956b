//! The search index: one flat document per entity, with its searchable
//! text and its tags.
use crate::graph::index_map::{entity_map_get_index, entity_map_len};
use crate::graph::node::{contains_name, names_of, KnowledgeGraph};
use crate::parser::ast::{
    entity_type_name, strings_view, AnalogyView, AnnotationView, Entity, EntityView,
    EvidenceBlock, EvidenceView, RevelationView, SynthesisView,
};
use vstd::prelude::*;

verus! {

broadcast use vstd::seq_lib::group_seq_properties;

/// A single searchable document of the search index.
#[derive(Debug, PartialEq)]
pub struct SearchDocument {
    pub id: String,
    pub title: String,
    pub description: String,
    pub content_text: String,
    pub doc_type: String,
    pub tags: Vec<String>,
}

pub struct SearchDocumentView {
    pub id: Seq<char>,
    pub title: Seq<char>,
    pub description: Seq<char>,
    pub content_text: Seq<char>,
    pub doc_type: Seq<char>,
    pub tags: Seq<Seq<char>>,
}

impl View for SearchDocument {
    type V = SearchDocumentView;

    open spec fn view(&self) -> SearchDocumentView {
        SearchDocumentView {
            id: self.id@,
            title: self.title@,
            description: self.description@,
            content_text: self.content_text@,
            doc_type: self.doc_type@,
            tags: strings_view(self.tags@),
        }
    }
}

/// Texts joined with `sep` between them.
pub open spec fn join(xs: Seq<Seq<char>>, sep: Seq<char>) -> Seq<char>
    decreases xs.len(),
{
    if xs.len() == 0 {
        seq![]
    } else if xs.len() == 1 {
        xs[0]
    } else {
        join(xs.drop_last(), sep) + sep + xs.last()
    }
}

/// Joins texts with `sep` between them.
pub fn join_strings(xs: &Vec<String>, sep: &str) -> (r: String)
    ensures
        r@ == join(strings_view(xs@), sep@),
{
    let ghost v = strings_view(xs@);
    let mut r = String::new();
    let mut i: usize = 0;
    while i < xs.len()
        invariant
            v == strings_view(xs@),
            i <= v.len(),
            r@ == join(v.take(i as int), sep@),
        decreases v.len() - i,
    {
        assert(v.take(i + 1).drop_last() =~= v.take(i as int));
        if i > 0 {
            r.append(sep);
        }
        r.append(xs[i].as_str());
        i = i + 1;
    }
    assert(v.take(v.len() as int) =~= v);
    r
}

/// The texts of a revelation: its source, its text and its translator.
pub open spec fn revelation_parts(r: RevelationView) -> Seq<Seq<char>> {
    seq!["Revelation: "@ + r.source, r.text] + match r.translator {
        Some(t) => seq!["Translator: "@ + t],
        None => seq![],
    }
}

pub open spec fn revelation_parts_fn() -> spec_fn(RevelationView) -> Seq<Seq<char>> {
    |r: RevelationView| revelation_parts(r)
}

pub open spec fn synthesis_part(s: SynthesisView) -> Seq<char> {
    "Synthesis ("@ + join(s.sources, ", "@) + "): "@ + s.argument
}

pub open spec fn analogy_part(a: AnalogyView) -> Seq<char> {
    "Analogy ("@ + a.domain + "): "@ + a.mapping
}

/// The searchable texts of an evidence block: revelations, then
/// syntheses, then analogies.
pub open spec fn evidence_parts(b: EvidenceView) -> Seq<Seq<char>> {
    b.revelations.flat_map(revelation_parts_fn()) + b.syntheses.map_values(
        |s: SynthesisView| synthesis_part(s),
    ) + b.analogies.map_values(|a: AnalogyView| analogy_part(a))
}

/// The searchable texts of an entity: title, description and evidence.
pub open spec fn content_parts(e: EntityView) -> Seq<Seq<char>> {
    seq![e.title, e.description] + match e.evidence {
        Some(b) => evidence_parts(b),
        None => seq![],
    }
}

/// The searchable text of an entity: its texts joined with spaces.
pub open spec fn content_text(e: EntityView) -> Seq<char> {
    join(content_parts(e), " "@)
}

/// Appends the searchable texts of an evidence block to `parts`.
pub fn append_evidence_text(evidence: &EvidenceBlock, parts: &mut Vec<String>)
    ensures
        strings_view(final(parts)@) == strings_view(old(parts)@) + evidence_parts(evidence@),
{
    let ghost b = evidence@;
    let ghost base = strings_view(parts@);
    let ghost f = revelation_parts_fn();
    let mut i: usize = 0;
    while i < evidence.revelations.len()
        invariant
            b == evidence@,
            f == revelation_parts_fn(),
            i <= b.revelations.len(),
            strings_view(parts@) == base + b.revelations.take(i as int).flat_map(f),
        decreases b.revelations.len() - i,
    {
        let r = &evidence.revelations[i];
        let ghost before = strings_view(parts@);
        let mut s = String::from_str("Revelation: ");
        s.append(r.source.as_str());
        parts.push(s);
        parts.push(r.text.clone());
        match &r.translator {
            Some(t) => {
                let mut s2 = String::from_str("Translator: ");
                s2.append(t.as_str());
                parts.push(s2);
            },
            None => {},
        }
        proof {
            assert(b.revelations[i as int] == r@);
            assert(strings_view(parts@) =~= before + revelation_parts(r@));
            b.revelations.lemma_flat_map_take_append(f, i as int);
        }
        i = i + 1;
    }
    assert(b.revelations.take(b.revelations.len() as int) =~= b.revelations);
    let ghost mid = strings_view(parts@);
    let mut k: usize = 0;
    while k < evidence.syntheses.len()
        invariant
            b == evidence@,
            k <= b.syntheses.len(),
            strings_view(parts@) == mid + b.syntheses.take(k as int).map_values(
                |s: SynthesisView| synthesis_part(s),
            ),
        decreases b.syntheses.len() - k,
    {
        let syn = &evidence.syntheses[k];
        let sources = join_strings(&syn.sources, ", ");
        let mut s = String::from_str("Synthesis (");
        s.append(sources.as_str());
        s.append("): ");
        s.append(syn.argument.as_str());
        let ghost before = strings_view(parts@);
        parts.push(s);
        proof {
            assert(b.syntheses[k as int] == syn@);
            assert(strings_view(parts@) =~= before.push(synthesis_part(syn@)));
            assert(b.syntheses.take(k + 1).map_values(|s: SynthesisView| synthesis_part(s))
                =~= b.syntheses.take(k as int).map_values(|s: SynthesisView| synthesis_part(s)).push(
                synthesis_part(syn@),
            ));
        }
        k = k + 1;
    }
    assert(b.syntheses.take(b.syntheses.len() as int) =~= b.syntheses);
    let ghost mid2 = strings_view(parts@);
    let mut q: usize = 0;
    while q < evidence.analogies.len()
        invariant
            b == evidence@,
            q <= b.analogies.len(),
            strings_view(parts@) == mid2 + b.analogies.take(q as int).map_values(
                |a: AnalogyView| analogy_part(a),
            ),
        decreases b.analogies.len() - q,
    {
        let a = &evidence.analogies[q];
        let mut s = String::from_str("Analogy (");
        s.append(a.domain.as_str());
        s.append("): ");
        s.append(a.mapping.as_str());
        let ghost before = strings_view(parts@);
        parts.push(s);
        proof {
            assert(b.analogies[q as int] == a@);
            assert(strings_view(parts@) =~= before.push(analogy_part(a@)));
            assert(b.analogies.take(q + 1).map_values(|a: AnalogyView| analogy_part(a))
                =~= b.analogies.take(q as int).map_values(|a: AnalogyView| analogy_part(a)).push(
                analogy_part(a@),
            ));
        }
        q = q + 1;
    }
    assert(b.analogies.take(b.analogies.len() as int) =~= b.analogies);
    assert(strings_view(parts@) =~= base + evidence_parts(b));
}

/// Concatenates an entity's title, description and evidence texts,
/// separated by spaces.
pub fn build_content_text(entity: &Entity) -> (r: String)
    ensures
        r@ == content_text(entity@),
{
    let mut parts: Vec<String> = Vec::new();
    parts.push(entity.title.clone());
    parts.push(entity.description.clone());
    assert(strings_view(parts@) =~= seq![entity@.title, entity@.description]);
    match &entity.evidence {
        Some(evidence) => {
            append_evidence_text(evidence, &mut parts);
        },
        None => {},
    }
    assert(strings_view(parts@) =~= content_parts(entity@));
    join_strings(&parts, " ")
}

/// Whether an annotation contributes a tag: `@author`, `@pillar` and
/// `@status` do.
pub open spec fn is_tag_annotation(a: AnnotationView) -> bool {
    a.name == "author"@ || a.name == "pillar"@ || a.name == "status"@
}

pub open spec fn tag_of_fn() -> spec_fn(AnnotationView) -> Seq<Seq<char>> {
    |a: AnnotationView| if is_tag_annotation(a) {
        seq![a.value]
    } else {
        seq![]
    }
}

/// The texts of `s` without repeats, each where it first occurs.
pub open spec fn dedup(s: Seq<Seq<char>>) -> Seq<Seq<char>>
    decreases s.len(),
{
    if s.len() == 0 {
        seq![]
    } else if s.drop_last().contains(s.last()) {
        dedup(s.drop_last())
    } else {
        dedup(s.drop_last()).push(s.last())
    }
}

pub proof fn lemma_dedup_contains(s: Seq<Seq<char>>, x: Seq<char>)
    ensures
        dedup(s).contains(x) == s.contains(x),
    decreases s.len(),
{
    if s.len() > 0 {
        lemma_dedup_contains(s.drop_last(), x);
        if s.last() == x {
            assert(s[s.len() - 1] == x);
        }
        if s.contains(x) && s.last() != x {
            let k = choose|k: int| 0 <= k < s.len() && s[k] == x;
            assert(s.drop_last()[k] == x);
        }
    }
}

/// The repeat-free form of a sequence has no repeats.
pub proof fn lemma_dedup_distinct(s: Seq<Seq<char>>)
    ensures
        dedup(s).no_duplicates(),
    decreases s.len(),
{
    if s.len() > 0 {
        lemma_dedup_distinct(s.drop_last());
        lemma_dedup_contains(s.drop_last(), s.last());
        let d = dedup(s.drop_last());
        if !s.drop_last().contains(s.last()) {
            assert forall|i: int, j: int| 0 <= i < j < d.push(s.last()).len() implies d.push(s.last())[i] != d.push(s.last())[j] by {
                if j == d.len() {
                    assert(d[i] != s.last());
                }
            }
        }
    }
}

/// The tags of an entity: the values of its `@author`, `@pillar` and
/// `@status` annotations, then its type, each once, in order.
pub open spec fn entity_tags(e: EntityView) -> Seq<Seq<char>> {
    dedup(e.annotations.flat_map(tag_of_fn()).push(entity_type_name(e.entity_type)))
}

/// Adds `v` to the tags unless it is already there.
fn add_tag(tags: &mut Vec<String>, v: String)
    ensures
        names_of(final(tags)@) == if names_of(old(tags)@).contains(v@) {
            names_of(old(tags)@)
        } else {
            names_of(old(tags)@).push(v@)
        },
{
    if !contains_name(tags, &v) {
        let ghost before = names_of(tags@);
        tags.push(v);
        assert(names_of(tags@) =~= before.push(v@));
    }
}

/// The tag list of an entity: the values of its `@author`, `@pillar` and
/// `@status` annotations, then its type name, without repeats.
pub fn build_tags(entity: &Entity) -> (r: Vec<String>)
    ensures
        strings_view(r@) == entity_tags(entity@),
{
    let ghost e = entity@;
    let ghost f = tag_of_fn();
    let mut tags: Vec<String> = Vec::new();
    let mut i: usize = 0;
    while i < entity.annotations.len()
        invariant
            e == entity@,
            f == tag_of_fn(),
            i <= e.annotations.len(),
            names_of(tags@) == dedup(e.annotations.take(i as int).flat_map(f)),
        decreases e.annotations.len() - i,
    {
        let a = &entity.annotations[i];
        let ghost pre = e.annotations.take(i as int).flat_map(f);
        proof {
            assert(e.annotations[i as int] == a@);
            e.annotations.lemma_flat_map_take_append(f, i as int);
            lemma_dedup_contains(pre, a@.value);
        }
        if a.name == String::from_str("author") || a.name == String::from_str("pillar")
            || a.name == String::from_str("status") {
            add_tag(&mut tags, a.value.clone());
            assert((pre + seq![a@.value]).drop_last() =~= pre);
        } else {
            assert(pre + Seq::<Seq<char>>::empty() =~= pre);
        }
        i = i + 1;
    }
    assert(e.annotations.take(e.annotations.len() as int) =~= e.annotations);
    let ghost all = e.annotations.flat_map(f);
    let type_tag = String::from_str(entity.entity_type.as_str());
    proof {
        lemma_dedup_contains(all, type_tag@);
        assert(all.push(type_tag@).drop_last() =~= all);
    }
    add_tag(&mut tags, type_tag);
    tags
}

/// No tag of an entity occurs twice, and its type is always among them.
pub proof fn law_tags_distinct(e: EntityView)
    ensures
        entity_tags(e).no_duplicates(),
        entity_tags(e).contains(entity_type_name(e.entity_type)),
{
    let s = e.annotations.flat_map(tag_of_fn()).push(entity_type_name(e.entity_type));
    lemma_dedup_distinct(s);
    lemma_dedup_contains(s, entity_type_name(e.entity_type));
    assert(s[s.len() - 1] == entity_type_name(e.entity_type));
}

/// What [`entity_to_document`] makes of an entity.
pub open spec fn search_document(e: EntityView) -> SearchDocumentView {
    SearchDocumentView {
        id: e.id,
        title: e.title,
        description: e.description,
        content_text: content_text(e),
        doc_type: entity_type_name(e.entity_type),
        tags: entity_tags(e),
    }
}

/// Converts an entity into its searchable document.
pub fn entity_to_document(entity: &Entity) -> (r: SearchDocument)
    ensures
        r@ == search_document(entity@),
{
    let content_text = build_content_text(entity);
    let tags = build_tags(entity);
    SearchDocument {
        id: entity.id.clone(),
        title: entity.title.clone(),
        description: entity.description.clone(),
        content_text,
        doc_type: String::from_str(entity.entity_type.as_str()),
        tags,
    }
}

/// The documents of the search index of a graph: one per entity, in node
/// order.
pub fn search_documents(graph: &KnowledgeGraph) -> (r: Vec<SearchDocument>)
    ensures
        r@.map_values(|d: SearchDocument| d@) == graph@.nodes.map_values(
            |n: (Seq<char>, EntityView)| search_document(n.1),
        ),
{
    let ghost nodes = graph@.nodes;
    let n = entity_map_len(&graph.nodes);
    let mut docs: Vec<SearchDocument> = Vec::new();
    let mut i: usize = 0;
    while i < n
        invariant
            nodes == graph@.nodes,
            n == nodes.len(),
            i <= n,
            docs@.map_values(|d: SearchDocument| d@) == nodes.take(i as int).map_values(
                |n: (Seq<char>, EntityView)| search_document(n.1),
            ),
        decreases n - i,
    {
        let (_, entity) = entity_map_get_index(&graph.nodes, i).unwrap();
        let ghost before = docs@.map_values(|d: SearchDocument| d@);
        let d = entity_to_document(entity);
        assert(nodes[i as int].1 == entity@);
        docs.push(d);
        assert(docs@.map_values(|d: SearchDocument| d@) =~= before.push(search_document(entity@)));
        assert(nodes.take(i + 1).map_values(|n: (Seq<char>, EntityView)| search_document(n.1))
            =~= nodes.take(i as int).map_values(|n: (Seq<char>, EntityView)| search_document(n.1)).push(
            search_document(entity@),
        ));
        i = i + 1;
    }
    assert(nodes.take(n as int) =~= nodes);
    docs
}

} // verus!
