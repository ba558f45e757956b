//! Small builders of syntax-tree values, shared by tests.
use crate::error::{SourceLocation, SourceLocationView};
use crate::parser::ast::{
    Entity, EntityType, EntityView, EvidenceBlock, Relationship, RelationshipType,
    RelationshipView, Revelation,
};
use vstd::prelude::*;

verus! {

/// The location `test.vdl:1:1`.
pub open spec fn test_location_spec() -> SourceLocationView {
    SourceLocationView { file: "test.vdl"@, line: 1, column: 1 }
}

/// A default source location: line 1, column 1 of `test.vdl`.
pub fn test_location() -> (r: SourceLocation)
    ensures
        r@ == test_location_spec(),
{
    SourceLocation::new("test.vdl", 1, 1)
}

/// A minimal entity with the given id, type and version: titled by its id,
/// described as `Description of <id>`, with nothing else.
pub fn test_entity(id: &str, entity_type: EntityType, version: &str) -> (r: Entity)
    ensures
        r@ == (EntityView {
            id: id@,
            entity_type,
            version: version@,
            title: id@,
            description: "Description of "@ + id@,
            properties: seq![],
            relationships: seq![],
            evidence: None,
            annotations: seq![],
            location: test_location_spec(),
        }),
{
    let mut description = String::from_str("Description of ");
    description.append(id);
    let r = Entity {
        id: id.to_owned(),
        entity_type,
        version: version.to_owned(),
        title: id.to_owned(),
        description,
        properties: Vec::new(),
        relationships: Vec::new(),
        evidence: None,
        annotations: Vec::new(),
        source_location: test_location(),
    };
    assert(r@.properties =~= Seq::<(Seq<char>, Seq<char>)>::empty());
    assert(r@.relationships =~= Seq::<RelationshipView>::empty());
    assert(r@.annotations =~= Seq::<crate::parser::ast::AnnotationView>::empty());
    r
}

/// A relationship of type `rel_type` to `target_id`.
pub fn test_relationship(rel_type: RelationshipType, target_id: &str) -> (r: Relationship)
    ensures
        r@ == (RelationshipView { rel_type, target_id: target_id@, location: test_location_spec() }),
{
    Relationship { rel_type, target_id: target_id.to_owned(), source_location: test_location() }
}

/// An evidence block with a single revelation, `Text` from `Source`, and
/// no translator.
pub fn test_evidence_block() -> (r: EvidenceBlock)
    ensures
        r@.revelations.len() == 1,
        r@.revelations[0].source == "Source"@,
        r@.revelations[0].text == "Text"@,
        r@.revelations[0].translator is None,
        r@.revelations[0].location == test_location_spec(),
        r@.syntheses.len() == 0,
        r@.analogies.len() == 0,
{
    let mut revelations: Vec<Revelation> = Vec::new();
    revelations.push(
        Revelation {
            source: String::from_str("Source"),
            text: String::from_str("Text"),
            translator: None,
            source_location: test_location(),
        },
    );
    EvidenceBlock { revelations, syntheses: Vec::new(), analogies: Vec::new() }
}

} // verus!
