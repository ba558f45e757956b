//! The JSON graph: every entity, every relationship and the compilation
//! metadata, as plain records ready to be serialised.
use crate::graph::index_map::{entity_map_get_index, entity_map_len};
use crate::graph::node::{EdgeView, KnowledgeGraph};
use crate::parser::ast::{
    clone_properties, entity_type_name, opt_string_view, properties_view, rel_type_name,
    strings_view, Analogy, AnalogyView, Annotation, AnnotationView, Entity, EntityView,
    EvidenceBlock, EvidenceView, Revelation, RevelationView, Synthesis, SynthesisView,
};
use vstd::prelude::*;

verus! {

broadcast use vstd::seq_lib::group_seq_properties;

/// An annotation in the JSON graph.
#[derive(Debug, PartialEq)]
pub struct JsonAnnotation {
    pub name: String,
    pub value: String,
}

/// A revelation in the JSON graph.
#[derive(Debug, PartialEq)]
pub struct JsonRevelation {
    pub source: String,
    pub text: String,
    pub translator: Option<String>,
}

/// A synthesis in the JSON graph.
#[derive(Debug, PartialEq)]
pub struct JsonSynthesis {
    pub sources: Vec<String>,
    pub argument: String,
}

/// An analogy in the JSON graph.
#[derive(Debug, PartialEq)]
pub struct JsonAnalogy {
    pub domain: String,
    pub mapping: String,
}

/// An evidence block in the JSON graph.
#[derive(Debug, PartialEq)]
pub struct JsonEvidence {
    pub revelations: Vec<JsonRevelation>,
    pub syntheses: Vec<JsonSynthesis>,
    pub analogies: Vec<JsonAnalogy>,
}

/// An entity in the JSON graph.
#[derive(Debug, PartialEq)]
pub struct JsonEntity {
    pub id: String,
    pub entity_type: String,
    pub version: String,
    pub title: String,
    pub description: String,
    pub properties: Vec<(String, String)>,
    pub annotations: Vec<JsonAnnotation>,
    pub evidence: Option<JsonEvidence>,
}

/// A relationship in the JSON graph.
#[derive(Debug, PartialEq)]
pub struct JsonRelationship {
    pub from: String,
    pub to: String,
    pub rel_type: String,
}

/// The metadata of the JSON graph.
#[derive(Debug, PartialEq)]
pub struct JsonMetadata {
    pub compiled_at: String,
    pub version: String,
}

/// The whole JSON graph.
#[derive(Debug, PartialEq)]
pub struct JsonOutput {
    pub entities: Vec<JsonEntity>,
    pub relationships: Vec<JsonRelationship>,
    pub metadata: JsonMetadata,
}

/// What a JSON entity holds: the entity without its relationships and
/// source locations, its type by name.
pub struct JsonEntityView {
    pub id: Seq<char>,
    pub entity_type: Seq<char>,
    pub version: Seq<char>,
    pub title: Seq<char>,
    pub description: Seq<char>,
    pub properties: Seq<(Seq<char>, Seq<char>)>,
    pub annotations: Seq<(Seq<char>, Seq<char>)>,
    pub evidence: Option<JsonEvidenceView>,
}

pub struct JsonEvidenceView {
    pub revelations: Seq<(Seq<char>, Seq<char>, Option<Seq<char>>)>,
    pub syntheses: Seq<(Seq<Seq<char>>, Seq<char>)>,
    pub analogies: Seq<(Seq<char>, Seq<char>)>,
}

impl View for JsonAnnotation {
    type V = (Seq<char>, Seq<char>);

    open spec fn view(&self) -> (Seq<char>, Seq<char>) {
        (self.name@, self.value@)
    }
}

impl View for JsonRevelation {
    type V = (Seq<char>, Seq<char>, Option<Seq<char>>);

    open spec fn view(&self) -> (Seq<char>, Seq<char>, Option<Seq<char>>) {
        (self.source@, self.text@, opt_string_view(self.translator))
    }
}

impl View for JsonSynthesis {
    type V = (Seq<Seq<char>>, Seq<char>);

    open spec fn view(&self) -> (Seq<Seq<char>>, Seq<char>) {
        (strings_view(self.sources@), self.argument@)
    }
}

impl View for JsonAnalogy {
    type V = (Seq<char>, Seq<char>);

    open spec fn view(&self) -> (Seq<char>, Seq<char>) {
        (self.domain@, self.mapping@)
    }
}

impl View for JsonEvidence {
    type V = JsonEvidenceView;

    open spec fn view(&self) -> JsonEvidenceView {
        JsonEvidenceView {
            revelations: self.revelations@.map_values(|r: JsonRevelation| r@),
            syntheses: self.syntheses@.map_values(|s: JsonSynthesis| s@),
            analogies: self.analogies@.map_values(|a: JsonAnalogy| a@),
        }
    }
}

pub open spec fn opt_json_evidence_view(e: Option<JsonEvidence>) -> Option<JsonEvidenceView> {
    match e {
        Some(b) => Some(b@),
        None => None,
    }
}

impl View for JsonEntity {
    type V = JsonEntityView;

    open spec fn view(&self) -> JsonEntityView {
        JsonEntityView {
            id: self.id@,
            entity_type: self.entity_type@,
            version: self.version@,
            title: self.title@,
            description: self.description@,
            properties: properties_view(self.properties@),
            annotations: self.annotations@.map_values(|a: JsonAnnotation| a@),
            evidence: opt_json_evidence_view(self.evidence),
        }
    }
}

impl View for JsonRelationship {
    type V = (Seq<char>, Seq<char>, Seq<char>);

    open spec fn view(&self) -> (Seq<char>, Seq<char>, Seq<char>) {
        (self.from@, self.to@, self.rel_type@)
    }
}

pub open spec fn json_revelation(r: RevelationView) -> (Seq<char>, Seq<char>, Option<Seq<char>>) {
    (r.source, r.text, r.translator)
}

pub open spec fn json_synthesis(s: SynthesisView) -> (Seq<Seq<char>>, Seq<char>) {
    (s.sources, s.argument)
}

pub open spec fn json_analogy(a: AnalogyView) -> (Seq<char>, Seq<char>) {
    (a.domain, a.mapping)
}

/// What an evidence block becomes in the JSON graph.
pub open spec fn json_evidence(b: EvidenceView) -> JsonEvidenceView {
    JsonEvidenceView {
        revelations: b.revelations.map_values(|r: RevelationView| json_revelation(r)),
        syntheses: b.syntheses.map_values(|s: SynthesisView| json_synthesis(s)),
        analogies: b.analogies.map_values(|a: AnalogyView| json_analogy(a)),
    }
}

/// What an entity becomes in the JSON graph.
pub open spec fn json_entity(e: EntityView) -> JsonEntityView {
    JsonEntityView {
        id: e.id,
        entity_type: entity_type_name(e.entity_type),
        version: e.version,
        title: e.title,
        description: e.description,
        properties: e.properties,
        annotations: e.annotations.map_values(|a: AnnotationView| (a.name, a.value)),
        evidence: match e.evidence {
            Some(b) => Some(json_evidence(b)),
            None => None,
        },
    }
}

/// What an edge becomes in the JSON graph.
pub open spec fn json_relationship(e: EdgeView) -> (Seq<char>, Seq<char>, Seq<char>) {
    (e.from, e.to, rel_type_name(e.rel_type))
}

fn clone_strings(v: &Vec<String>) -> (r: Vec<String>)
    ensures
        strings_view(r@) == strings_view(v@),
{
    let mut r: Vec<String> = Vec::new();
    let mut i: usize = 0;
    while i < v.len()
        invariant
            i <= v@.len(),
            strings_view(r@) == strings_view(v@).take(i as int),
        decreases v@.len() - i,
    {
        let ghost before = strings_view(r@);
        r.push(v[i].clone());
        assert(strings_view(r@) =~= before.push(v@[i as int]@));
        assert(strings_view(r@) =~= strings_view(v@).take(i + 1));
        i = i + 1;
    }
    assert(strings_view(v@).take(v@.len() as int) =~= strings_view(v@));
    r
}

/// Converts an annotation into its JSON form.
pub fn annotation_to_json(annotation: &Annotation) -> (r: JsonAnnotation)
    ensures
        r@ == (annotation@.name, annotation@.value),
{
    JsonAnnotation { name: annotation.name.clone(), value: annotation.value.clone() }
}

/// Converts a revelation into its JSON form.
pub fn revelation_to_json(revelation: &Revelation) -> (r: JsonRevelation)
    ensures
        r@ == json_revelation(revelation@),
{
    let translator = match &revelation.translator {
        Some(t) => Some(t.clone()),
        None => None,
    };
    JsonRevelation { source: revelation.source.clone(), text: revelation.text.clone(), translator }
}

/// Converts a synthesis into its JSON form.
pub fn synthesis_to_json(synthesis: &Synthesis) -> (r: JsonSynthesis)
    ensures
        r@ == json_synthesis(synthesis@),
{
    JsonSynthesis { sources: clone_strings(&synthesis.sources), argument: synthesis.argument.clone() }
}

/// Converts an analogy into its JSON form.
pub fn analogy_to_json(analogy: &Analogy) -> (r: JsonAnalogy)
    ensures
        r@ == json_analogy(analogy@),
{
    JsonAnalogy { domain: analogy.domain.clone(), mapping: analogy.mapping.clone() }
}

/// Converts an evidence block into its JSON form.
pub fn evidence_to_json(evidence: &EvidenceBlock) -> (r: JsonEvidence)
    ensures
        r@ == json_evidence(evidence@),
{
    let ghost b = evidence@;
    let mut revelations: Vec<JsonRevelation> = Vec::new();
    let mut i: usize = 0;
    while i < evidence.revelations.len()
        invariant
            b == evidence@,
            i <= b.revelations.len(),
            revelations@.map_values(|r: JsonRevelation| r@) == b.revelations.take(i as int).map_values(
                |r: RevelationView| json_revelation(r),
            ),
        decreases b.revelations.len() - i,
    {
        let x = revelation_to_json(&evidence.revelations[i]);
        let ghost before = revelations@.map_values(|y: JsonRevelation| y@);
        proof {
            assert(b.revelations[i as int] == evidence.revelations@[i as int]@);
        }
        revelations.push(x);
        assert(revelations@.map_values(|y: JsonRevelation| y@) =~= before.push(x@));
        assert(revelations@.map_values(|r: JsonRevelation| r@) =~= b.revelations.take(i + 1).map_values(
            |r: RevelationView| json_revelation(r),
        ));
        i = i + 1;
    }
    let mut syntheses: Vec<JsonSynthesis> = Vec::new();
    let mut k: usize = 0;
    while k < evidence.syntheses.len()
        invariant
            b == evidence@,
            k <= b.syntheses.len(),
            syntheses@.map_values(|s: JsonSynthesis| s@) == b.syntheses.take(k as int).map_values(
                |s: SynthesisView| json_synthesis(s),
            ),
        decreases b.syntheses.len() - k,
    {
        let x = synthesis_to_json(&evidence.syntheses[k]);
        let ghost before = syntheses@.map_values(|y: JsonSynthesis| y@);
        proof {
            assert(b.syntheses[k as int] == evidence.syntheses@[k as int]@);
        }
        syntheses.push(x);
        assert(syntheses@.map_values(|y: JsonSynthesis| y@) =~= before.push(x@));
        assert(syntheses@.map_values(|s: JsonSynthesis| s@) =~= b.syntheses.take(k + 1).map_values(
            |s: SynthesisView| json_synthesis(s),
        ));
        k = k + 1;
    }
    let mut analogies: Vec<JsonAnalogy> = Vec::new();
    let mut q: usize = 0;
    while q < evidence.analogies.len()
        invariant
            b == evidence@,
            q <= b.analogies.len(),
            analogies@.map_values(|a: JsonAnalogy| a@) == b.analogies.take(q as int).map_values(
                |a: AnalogyView| json_analogy(a),
            ),
        decreases b.analogies.len() - q,
    {
        let x = analogy_to_json(&evidence.analogies[q]);
        let ghost before = analogies@.map_values(|y: JsonAnalogy| y@);
        proof {
            assert(b.analogies[q as int] == evidence.analogies@[q as int]@);
        }
        analogies.push(x);
        assert(analogies@.map_values(|y: JsonAnalogy| y@) =~= before.push(x@));
        assert(analogies@.map_values(|a: JsonAnalogy| a@) =~= b.analogies.take(q + 1).map_values(
            |a: AnalogyView| json_analogy(a),
        ));
        q = q + 1;
    }
    assert(b.revelations.take(b.revelations.len() as int) =~= b.revelations);
    assert(b.syntheses.take(b.syntheses.len() as int) =~= b.syntheses);
    assert(b.analogies.take(b.analogies.len() as int) =~= b.analogies);
    JsonEvidence { revelations, syntheses, analogies }
}

/// Converts an entity into its JSON form.
pub fn entity_to_json(entity: &Entity) -> (r: JsonEntity)
    ensures
        r@ == json_entity(entity@),
{
    let ghost e = entity@;
    let mut annotations: Vec<JsonAnnotation> = Vec::new();
    let mut i: usize = 0;
    while i < entity.annotations.len()
        invariant
            e == entity@,
            i <= e.annotations.len(),
            annotations@.map_values(|a: JsonAnnotation| a@) == e.annotations.take(i as int).map_values(
                |a: AnnotationView| (a.name, a.value),
            ),
        decreases e.annotations.len() - i,
    {
        let x = annotation_to_json(&entity.annotations[i]);
        let ghost before = annotations@.map_values(|y: JsonAnnotation| y@);
        proof {
            assert(e.annotations[i as int] == entity.annotations@[i as int]@);
        }
        annotations.push(x);
        assert(annotations@.map_values(|y: JsonAnnotation| y@) =~= before.push(x@));
        assert(annotations@.map_values(|a: JsonAnnotation| a@) =~= e.annotations.take(i + 1).map_values(
            |a: AnnotationView| (a.name, a.value),
        ));
        i = i + 1;
    }
    assert(e.annotations.take(e.annotations.len() as int) =~= e.annotations);
    let evidence = match &entity.evidence {
        Some(b) => Some(evidence_to_json(b)),
        None => None,
    };
    JsonEntity {
        id: entity.id.clone(),
        entity_type: String::from_str(entity.entity_type.as_str()),
        version: entity.version.clone(),
        title: entity.title.clone(),
        description: entity.description.clone(),
        properties: clone_properties(&entity.properties),
        annotations,
        evidence,
    }
}

/// The JSON graph of `graph`: its entities in node order, its edges as
/// relationships, and the given compilation time and compiler version.
pub fn json_output(graph: &KnowledgeGraph, compiled_at: String, version: String) -> (r: JsonOutput)
    ensures
        r.entities@.map_values(|e: JsonEntity| e@) == graph@.nodes.map_values(
            |n: (Seq<char>, EntityView)| json_entity(n.1),
        ),
        r.relationships@.map_values(|x: JsonRelationship| x@) == graph@.edges.map_values(
            |e: EdgeView| json_relationship(e),
        ),
        r.metadata.compiled_at@ == compiled_at@,
        r.metadata.version@ == version@,
{
    let ghost nodes = graph@.nodes;
    let ghost edges = graph@.edges;
    let n = entity_map_len(&graph.nodes);
    let mut entities: Vec<JsonEntity> = Vec::new();
    let mut i: usize = 0;
    while i < n
        invariant
            nodes == graph@.nodes,
            n == nodes.len(),
            i <= n,
            entities@.map_values(|e: JsonEntity| e@) == nodes.take(i as int).map_values(
                |n: (Seq<char>, EntityView)| json_entity(n.1),
            ),
        decreases n - i,
    {
        let (_, entity) = entity_map_get_index(&graph.nodes, i).unwrap();
        let x = entity_to_json(entity);
        assert(nodes[i as int].1 == entity@);
        let ghost before = entities@.map_values(|y: JsonEntity| y@);
        proof {
            assert(nodes[i as int].1 == entity@);
        }
        entities.push(x);
        assert(entities@.map_values(|y: JsonEntity| y@) =~= before.push(x@));
        assert(entities@.map_values(|e: JsonEntity| e@) =~= nodes.take(i + 1).map_values(
            |n: (Seq<char>, EntityView)| json_entity(n.1),
        ));
        i = i + 1;
    }
    assert(nodes.take(n as int) =~= nodes);
    let mut relationships: Vec<JsonRelationship> = Vec::new();
    let mut k: usize = 0;
    while k < graph.edges.len()
        invariant
            edges == graph@.edges,
            k <= edges.len(),
            relationships@.map_values(|x: JsonRelationship| x@) == edges.take(k as int).map_values(
                |e: EdgeView| json_relationship(e),
            ),
        decreases edges.len() - k,
    {
        let edge = &graph.edges[k];
        assert(edges[k as int] == edge@);
        let x = JsonRelationship {
            from: edge.from.clone(),
            to: edge.to.clone(),
            rel_type: String::from_str(edge.rel_type.as_str()),
        };
        let ghost before = relationships@.map_values(|y: JsonRelationship| y@);
        relationships.push(x);
        assert(relationships@.map_values(|y: JsonRelationship| y@) =~= before.push(x@));
        assert(relationships@.map_values(|x: JsonRelationship| x@) =~= edges.take(k + 1).map_values(
            |e: EdgeView| json_relationship(e),
        ));
        k = k + 1;
    }
    assert(edges.take(edges.len() as int) =~= edges);
    JsonOutput { entities, relationships, metadata: JsonMetadata { compiled_at, version } }
}

} // verus!
