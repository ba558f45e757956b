//! The abstract syntax tree of VDL, and what each node denotes.
use crate::error::{SourceLocation, SourceLocationView};
use vstd::prelude::*;

verus! {

/// A VDL module: all entities parsed from one or more source files.
#[derive(Debug, PartialEq, Default)]
pub struct Module {
    pub entities: Vec<Entity>,
}

/// A single VDL entity declaration.
#[derive(Debug, PartialEq)]
pub struct Entity {
    pub id: String,
    pub entity_type: EntityType,
    pub version: String,
    pub title: String,
    pub description: String,
    /// Custom properties beyond the standard fields, as (key, value) pairs
    /// in the order in which they were first set; each key occurs once.
    pub properties: Vec<(String, String)>,
    pub relationships: Vec<Relationship>,
    pub evidence: Option<EvidenceBlock>,
    pub annotations: Vec<Annotation>,
    pub source_location: SourceLocation,
}

/// Classification of a VDL entity.
#[derive(Debug, Clone, Copy, PartialEq, Eq, Hash, Structural)]
pub enum EntityType {
    Axiom,
    Framework,
    Law,
    Principle,
    Concept,
    Artifact,
    Pillar,
    Document,
    Project,
    Release,
    Persona,
    Collection,
}

/// A typed, directional relationship between two entities.
#[derive(Debug, PartialEq)]
pub struct Relationship {
    pub rel_type: RelationshipType,
    pub target_id: String,
    pub source_location: SourceLocation,
}

/// Types of semantic relationships in VDL.
#[derive(Debug, Clone, Copy, PartialEq, Eq, Hash, Structural)]
pub enum RelationshipType {
    Requires,
    Enables,
    References,
    BasedOn,
    DerivesFrom,
    Implements,
    InspiredBy,
    EvolvedFrom,
    Contradicts,
}

/// A block of evidence supporting an entity's claims.
#[derive(Debug, PartialEq, Default)]
pub struct EvidenceBlock {
    pub revelations: Vec<Revelation>,
    pub syntheses: Vec<Synthesis>,
    pub analogies: Vec<Analogy>,
}

/// Direct textual evidence from scripture or primary sources.
#[derive(Debug, PartialEq)]
pub struct Revelation {
    pub source: String,
    pub text: String,
    pub translator: Option<String>,
    pub source_location: SourceLocation,
}

/// Scholarly interpretation combining multiple sources.
#[derive(Debug, PartialEq)]
pub struct Synthesis {
    pub sources: Vec<String>,
    pub argument: String,
    pub source_location: SourceLocation,
}

/// Cross-domain metaphor to bridge unfamiliar concepts.
#[derive(Debug, PartialEq)]
pub struct Analogy {
    pub domain: String,
    pub mapping: String,
    pub source_location: SourceLocation,
}

/// A metadata annotation attached to an entity.
#[derive(Debug, PartialEq)]
pub struct Annotation {
    pub name: String,
    pub value: String,
    pub source_location: SourceLocation,
}

// ---------------------------------------------------------------------------
// What the nodes denote
// ---------------------------------------------------------------------------

pub struct RelationshipView {
    pub rel_type: RelationshipType,
    pub target_id: Seq<char>,
    pub location: SourceLocationView,
}

pub struct RevelationView {
    pub source: Seq<char>,
    pub text: Seq<char>,
    pub translator: Option<Seq<char>>,
    pub location: SourceLocationView,
}

pub struct SynthesisView {
    pub sources: Seq<Seq<char>>,
    pub argument: Seq<char>,
    pub location: SourceLocationView,
}

pub struct AnalogyView {
    pub domain: Seq<char>,
    pub mapping: Seq<char>,
    pub location: SourceLocationView,
}

pub struct AnnotationView {
    pub name: Seq<char>,
    pub value: Seq<char>,
    pub location: SourceLocationView,
}

pub struct EvidenceView {
    pub revelations: Seq<RevelationView>,
    pub syntheses: Seq<SynthesisView>,
    pub analogies: Seq<AnalogyView>,
}

pub struct EntityView {
    pub id: Seq<char>,
    pub entity_type: EntityType,
    pub version: Seq<char>,
    pub title: Seq<char>,
    pub description: Seq<char>,
    pub properties: Seq<(Seq<char>, Seq<char>)>,
    pub relationships: Seq<RelationshipView>,
    pub evidence: Option<EvidenceView>,
    pub annotations: Seq<AnnotationView>,
    pub location: SourceLocationView,
}

impl View for Relationship {
    type V = RelationshipView;

    open spec fn view(&self) -> RelationshipView {
        RelationshipView {
            rel_type: self.rel_type,
            target_id: self.target_id@,
            location: self.source_location@,
        }
    }
}

pub open spec fn opt_string_view(o: Option<String>) -> Option<Seq<char>> {
    match o {
        Some(s) => Some(s@),
        None => None,
    }
}

pub open spec fn strings_view(v: Seq<String>) -> Seq<Seq<char>> {
    v.map_values(|s: String| s@)
}

impl View for Revelation {
    type V = RevelationView;

    open spec fn view(&self) -> RevelationView {
        RevelationView {
            source: self.source@,
            text: self.text@,
            translator: opt_string_view(self.translator),
            location: self.source_location@,
        }
    }
}

impl View for Synthesis {
    type V = SynthesisView;

    open spec fn view(&self) -> SynthesisView {
        SynthesisView {
            sources: strings_view(self.sources@),
            argument: self.argument@,
            location: self.source_location@,
        }
    }
}

impl View for Analogy {
    type V = AnalogyView;

    open spec fn view(&self) -> AnalogyView {
        AnalogyView {
            domain: self.domain@,
            mapping: self.mapping@,
            location: self.source_location@,
        }
    }
}

impl View for Annotation {
    type V = AnnotationView;

    open spec fn view(&self) -> AnnotationView {
        AnnotationView { name: self.name@, value: self.value@, location: self.source_location@ }
    }
}

impl View for EvidenceBlock {
    type V = EvidenceView;

    open spec fn view(&self) -> EvidenceView {
        EvidenceView {
            revelations: self.revelations@.map_values(|r: Revelation| r@),
            syntheses: self.syntheses@.map_values(|s: Synthesis| s@),
            analogies: self.analogies@.map_values(|a: Analogy| a@),
        }
    }
}

pub open spec fn properties_view(p: Seq<(String, String)>) -> Seq<(Seq<char>, Seq<char>)> {
    p.map_values(|kv: (String, String)| (kv.0@, kv.1@))
}

pub open spec fn opt_evidence_view(e: Option<EvidenceBlock>) -> Option<EvidenceView> {
    match e {
        Some(b) => Some(b@),
        None => None,
    }
}

impl View for Entity {
    type V = EntityView;

    open spec fn view(&self) -> EntityView {
        EntityView {
            id: self.id@,
            entity_type: self.entity_type,
            version: self.version@,
            title: self.title@,
            description: self.description@,
            properties: properties_view(self.properties@),
            relationships: self.relationships@.map_values(|r: Relationship| r@),
            evidence: opt_evidence_view(self.evidence),
            annotations: self.annotations@.map_values(|a: Annotation| a@),
            location: self.source_location@,
        }
    }
}

impl View for Module {
    type V = Seq<EntityView>;

    open spec fn view(&self) -> Seq<EntityView> {
        self.entities@.map_values(|e: Entity| e@)
    }
}

// ---------------------------------------------------------------------------
// Copies
// ---------------------------------------------------------------------------

impl Clone for Relationship {
    fn clone(&self) -> (r: Self)
        ensures
            r == *self,
    {
        Relationship {
            rel_type: self.rel_type,
            target_id: self.target_id.clone(),
            source_location: self.source_location.clone(),
        }
    }
}

impl Clone for Revelation {
    fn clone(&self) -> (r: Self)
        ensures
            r == *self,
    {
        let translator = match &self.translator {
            Some(t) => Some(t.clone()),
            None => None,
        };
        Revelation {
            source: self.source.clone(),
            text: self.text.clone(),
            translator,
            source_location: self.source_location.clone(),
        }
    }
}

impl Clone for Synthesis {
    fn clone(&self) -> (r: Self)
        ensures
            r@ == self@,
    {
        let sources = self.sources.clone();
        assert(sources@ =~= self.sources@);
        Synthesis {
            sources,
            argument: self.argument.clone(),
            source_location: self.source_location.clone(),
        }
    }
}

impl Clone for Analogy {
    fn clone(&self) -> (r: Self)
        ensures
            r == *self,
    {
        Analogy {
            domain: self.domain.clone(),
            mapping: self.mapping.clone(),
            source_location: self.source_location.clone(),
        }
    }
}

impl Clone for Annotation {
    fn clone(&self) -> (r: Self)
        ensures
            r == *self,
    {
        Annotation {
            name: self.name.clone(),
            value: self.value.clone(),
            source_location: self.source_location.clone(),
        }
    }
}

impl Clone for EvidenceBlock {
    fn clone(&self) -> (r: Self)
        ensures
            r@ == self@,
    {
        let revelations = self.revelations.clone();
        assert(revelations@ =~= self.revelations@);
        let syntheses = self.syntheses.clone();
        assert(syntheses@.map_values(|s: Synthesis| s@) =~= self.syntheses@.map_values(
            |s: Synthesis| s@,
        ));
        let analogies = self.analogies.clone();
        assert(analogies@ =~= self.analogies@);
        EvidenceBlock { revelations, syntheses, analogies }
    }
}

/// Copies a property list pair by pair.
pub fn clone_properties(p: &Vec<(String, String)>) -> (r: Vec<(String, String)>)
    ensures
        r@ == p@,
{
    let mut r: Vec<(String, String)> = Vec::new();
    let mut i: usize = 0;
    while i < p.len()
        invariant
            i <= p@.len(),
            r@ == p@.subrange(0, i as int),
        decreases p@.len() - i,
    {
        let kv = (p[i].0.clone(), p[i].1.clone());
        r.push(kv);
        i += 1;
        assert(r@ =~= p@.subrange(0, i as int));
    }
    assert(p@.subrange(0, p@.len() as int) =~= p@);
    r
}

impl Clone for Entity {
    fn clone(&self) -> (r: Self)
        ensures
            r@ == self@,
    {
        let properties = clone_properties(&self.properties);
        let relationships = self.relationships.clone();
        assert(relationships@ =~= self.relationships@);
        let annotations = self.annotations.clone();
        assert(annotations@ =~= self.annotations@);
        let evidence = match &self.evidence {
            Some(e) => Some(e.clone()),
            None => None,
        };
        Entity {
            id: self.id.clone(),
            entity_type: self.entity_type,
            version: self.version.clone(),
            title: self.title.clone(),
            description: self.description.clone(),
            properties,
            relationships,
            evidence,
            annotations,
            source_location: self.source_location.clone(),
        }
    }
}

impl Clone for Module {
    fn clone(&self) -> (r: Self)
        ensures
            r@ == self@,
    {
        let entities = self.entities.clone();
        assert(entities@.map_values(|e: Entity| e@) =~= self.entities@.map_values(|e: Entity| e@));
        Module { entities }
    }
}

/// The name of an entity type as written in VDL source.
pub open spec fn entity_type_name(t: EntityType) -> Seq<char> {
    match t {
        EntityType::Axiom => "axiom"@,
        EntityType::Framework => "framework"@,
        EntityType::Law => "law"@,
        EntityType::Principle => "principle"@,
        EntityType::Concept => "concept"@,
        EntityType::Artifact => "artifact"@,
        EntityType::Pillar => "pillar"@,
        EntityType::Document => "document"@,
        EntityType::Project => "project"@,
        EntityType::Release => "release"@,
        EntityType::Persona => "persona"@,
        EntityType::Collection => "collection"@,
    }
}

impl EntityType {
    /// The name of this entity type as written in VDL source.
    pub fn as_str(&self) -> (s: &'static str)
        ensures
            s@ == entity_type_name(*self),
    {
        match self {
            EntityType::Axiom => "axiom",
            EntityType::Framework => "framework",
            EntityType::Law => "law",
            EntityType::Principle => "principle",
            EntityType::Concept => "concept",
            EntityType::Artifact => "artifact",
            EntityType::Pillar => "pillar",
            EntityType::Document => "document",
            EntityType::Project => "project",
            EntityType::Release => "release",
            EntityType::Persona => "persona",
            EntityType::Collection => "collection",
        }
    }
}

/// The name of a relationship type as written in VDL source.
pub open spec fn rel_type_name(t: RelationshipType) -> Seq<char> {
    match t {
        RelationshipType::Requires => "requires"@,
        RelationshipType::Enables => "enables"@,
        RelationshipType::References => "references"@,
        RelationshipType::BasedOn => "based_on"@,
        RelationshipType::DerivesFrom => "derives_from"@,
        RelationshipType::Implements => "implements"@,
        RelationshipType::InspiredBy => "inspired_by"@,
        RelationshipType::EvolvedFrom => "evolved_from"@,
        RelationshipType::Contradicts => "contradicts"@,
    }
}

impl RelationshipType {
    /// The name of this relationship type as written in VDL source.
    pub fn as_str(&self) -> (s: &'static str)
        ensures
            s@ == rel_type_name(*self),
    {
        match self {
            RelationshipType::Requires => "requires",
            RelationshipType::Enables => "enables",
            RelationshipType::References => "references",
            RelationshipType::BasedOn => "based_on",
            RelationshipType::DerivesFrom => "derives_from",
            RelationshipType::Implements => "implements",
            RelationshipType::InspiredBy => "inspired_by",
            RelationshipType::EvolvedFrom => "evolved_from",
            RelationshipType::Contradicts => "contradicts",
        }
    }
}

} // verus!
