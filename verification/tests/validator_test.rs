use vdl::error::{SourceLocation, VdlError};
use vdl::parser::ast::{
    Entity, EntityType, EvidenceBlock, Module, Relationship, RelationshipType, Revelation, Synthesis,
};
use vdl::test_helpers::{test_entity, test_evidence_block, test_location, test_relationship};
use vdl::validator::error::ValidationError;
use vdl::validator::rules::{
    check_dag, check_evidence_completeness, check_evidence_presence, check_reference_integrity,
    check_type_constraints, check_version_format,
};
use vdl::validator::validate;

fn loc() -> SourceLocation {
    SourceLocation::new("test.vdl", 1, 1)
}

fn entity(
    id: &str,
    entity_type: EntityType,
    version: &str,
    relationships: Vec<Relationship>,
    evidence: Option<EvidenceBlock>,
) -> Entity {
    Entity {
        id: id.to_string(),
        entity_type,
        version: version.to_string(),
        title: id.to_string(),
        description: format!("Description of {}", id),
        properties: Vec::new(),
        relationships,
        evidence,
        annotations: Vec::new(),
        source_location: loc(),
    }
}

fn rel(rel_type: RelationshipType, target_id: &str) -> Relationship {
    Relationship { rel_type, target_id: target_id.to_string(), source_location: loc() }
}

fn valid_evidence() -> EvidenceBlock {
    EvidenceBlock {
        revelations: vec![Revelation {
            source: "Source".to_string(),
            text: "Text".to_string(),
            translator: None,
            source_location: loc(),
        }],
        syntheses: Vec::new(),
        analogies: Vec::new(),
    }
}

fn entity_with(
    id: &str,
    entity_type: EntityType,
    version: &str,
    relationships: Vec<Relationship>,
    evidence: Option<EvidenceBlock>,
) -> Entity {
    let mut e = test_entity(id, entity_type, version);
    e.relationships = relationships;
    e.evidence = evidence;
    e
}

fn hrel(rel_type: RelationshipType, target_id: &str) -> Relationship {
    test_relationship(rel_type, target_id)
}

fn valid_module() -> Module {
    Module {
        entities: vec![
            entity("axiom1", EntityType::Axiom, "1.0", vec![], Some(valid_evidence())),
            entity(
                "framework1",
                EntityType::Framework,
                "1.0",
                vec![rel(RelationshipType::BasedOn, "axiom1")],
                Some(valid_evidence()),
            ),
            entity(
                "law1",
                EntityType::Law,
                "1.0",
                vec![rel(RelationshipType::DerivesFrom, "axiom1")],
                Some(valid_evidence()),
            ),
            entity(
                "principle1",
                EntityType::Principle,
                "1.0",
                vec![rel(RelationshipType::DerivesFrom, "law1")],
                Some(valid_evidence()),
            ),
            entity(
                "artifact1",
                EntityType::Artifact,
                "1.0",
                vec![rel(RelationshipType::References, "law1")],
                None,
            ),
        ],
    }
}

// validator::validate

#[test]
fn valid_module_passes_validation() {
    assert!(validate(&valid_module()).is_ok());
}

#[test]
fn mod_axiom_with_requires_fails() {
    let module = Module {
        entities: vec![entity(
            "axiom1",
            EntityType::Axiom,
            "1.0",
            vec![rel(RelationshipType::Requires, "other")],
            Some(valid_evidence()),
        )],
    };
    assert!(validate(&module).is_err());
}

#[test]
fn mod_framework_without_based_on_fails() {
    let module = Module {
        entities: vec![entity("fw1", EntityType::Framework, "1.0", vec![], Some(valid_evidence()))],
    };
    assert!(validate(&module).is_err());
}

#[test]
fn mod_law_without_derives_from_fails() {
    let module = Module {
        entities: vec![entity("law1", EntityType::Law, "1.0", vec![], Some(valid_evidence()))],
    };
    assert!(validate(&module).is_err());
}

#[test]
fn mod_missing_reference_fails() {
    let module = Module {
        entities: vec![entity(
            "e1",
            EntityType::Concept,
            "1.0",
            vec![rel(RelationshipType::References, "missing")],
            Some(valid_evidence()),
        )],
    };
    assert!(validate(&module).is_err());
}

#[test]
fn mod_non_artifact_without_evidence_fails() {
    let module = Module { entities: vec![entity("concept1", EntityType::Concept, "1.0", vec![], None)] };
    assert!(validate(&module).is_err());
}

#[test]
fn mod_synthesis_with_one_source_fails() {
    let module = Module {
        entities: vec![entity(
            "e1",
            EntityType::Concept,
            "1.0",
            vec![],
            Some(EvidenceBlock {
                revelations: Vec::new(),
                syntheses: vec![Synthesis {
                    sources: vec!["one".to_string()],
                    argument: "arg".to_string(),
                    source_location: loc(),
                }],
                analogies: Vec::new(),
            }),
        )],
    };
    assert!(validate(&module).is_err());
}

#[test]
fn circular_requires_chain_fails() {
    let module = Module {
        entities: vec![
            entity("a", EntityType::Concept, "1.0", vec![rel(RelationshipType::Requires, "b")], Some(valid_evidence())),
            entity("b", EntityType::Concept, "1.0", vec![rel(RelationshipType::Requires, "c")], Some(valid_evidence())),
            entity("c", EntityType::Concept, "1.0", vec![rel(RelationshipType::Requires, "a")], Some(valid_evidence())),
        ],
    };
    assert!(validate(&module).is_err());
}

#[test]
fn mod_invalid_version_fails() {
    let module = Module {
        entities: vec![entity("e1", EntityType::Concept, "abc", vec![], Some(valid_evidence()))],
    };
    assert!(validate(&module).is_err());
}

// validator::rules

#[test]
fn valid_module_passes() {
    let module = Module {
        entities: vec![
            entity_with("axiom1", EntityType::Axiom, "1.0", vec![], Some(test_evidence_block())),
            entity_with(
                "framework1",
                EntityType::Framework,
                "1.0",
                vec![hrel(RelationshipType::BasedOn, "axiom1")],
                Some(test_evidence_block()),
            ),
            entity_with(
                "law1",
                EntityType::Law,
                "1.0",
                vec![hrel(RelationshipType::DerivesFrom, "axiom1")],
                Some(test_evidence_block()),
            ),
            entity_with(
                "principle1",
                EntityType::Principle,
                "1.0",
                vec![hrel(RelationshipType::DerivesFrom, "law1")],
                Some(test_evidence_block()),
            ),
            entity_with(
                "artifact1",
                EntityType::Artifact,
                "1.0",
                vec![hrel(RelationshipType::References, "law1")],
                None,
            ),
        ],
    };
    assert!(check_type_constraints(&module).is_empty());
    assert!(check_reference_integrity(&module).is_empty());
    assert!(check_evidence_presence(&module).is_empty());
    assert!(check_evidence_completeness(&module).is_empty());
    assert!(check_dag(&module).is_empty());
    assert!(check_version_format(&module).is_empty());
}

#[test]
fn rules_axiom_with_requires_fails() {
    let module = Module {
        entities: vec![entity_with(
            "axiom1",
            EntityType::Axiom,
            "1.0",
            vec![hrel(RelationshipType::Requires, "something")],
            Some(test_evidence_block()),
        )],
    };
    let errors = check_type_constraints(&module);
    assert_eq!(errors.len(), 1);
    assert!(matches!(errors[0], ValidationError::TypeConstraint { .. }));
}

#[test]
fn rules_framework_without_based_on_fails() {
    let module = Module {
        entities: vec![entity_with("fw1", EntityType::Framework, "1.0", vec![], Some(test_evidence_block()))],
    };
    let errors = check_type_constraints(&module);
    assert_eq!(errors.len(), 1);
    assert!(matches!(errors[0], ValidationError::TypeConstraint { .. }));
}

#[test]
fn rules_law_without_derives_from_fails() {
    let module = Module {
        entities: vec![entity_with("law1", EntityType::Law, "1.0", vec![], Some(test_evidence_block()))],
    };
    let errors = check_type_constraints(&module);
    assert_eq!(errors.len(), 1);
    assert!(matches!(errors[0], ValidationError::TypeConstraint { .. }));
}

#[test]
fn rules_missing_reference_fails() {
    let module = Module {
        entities: vec![entity_with(
            "e1",
            EntityType::Concept,
            "1.0",
            vec![hrel(RelationshipType::References, "missing")],
            Some(test_evidence_block()),
        )],
    };
    let errors = check_reference_integrity(&module);
    assert_eq!(errors.len(), 1);
    assert!(matches!(errors[0], ValidationError::ReferenceIntegrity { .. }));
}

#[test]
fn rules_non_artifact_without_evidence_fails() {
    let module = Module { entities: vec![entity_with("concept1", EntityType::Concept, "1.0", vec![], None)] };
    let errors = check_evidence_presence(&module);
    assert_eq!(errors.len(), 1);
    assert!(matches!(errors[0], ValidationError::MissingEvidence { .. }));
}

#[test]
fn artifact_without_evidence_passes() {
    let module = Module {
        entities: vec![entity_with(
            "art1",
            EntityType::Artifact,
            "1.0",
            vec![hrel(RelationshipType::References, "law1")],
            None,
        )],
    };
    assert!(check_evidence_presence(&module).is_empty());
}

#[test]
fn rules_synthesis_with_one_source_fails() {
    let module = Module {
        entities: vec![entity_with(
            "e1",
            EntityType::Concept,
            "1.0",
            vec![],
            Some(EvidenceBlock {
                revelations: Vec::new(),
                syntheses: vec![Synthesis {
                    sources: vec!["one".to_string()],
                    argument: "arg".to_string(),
                    source_location: test_location(),
                }],
                analogies: Vec::new(),
            }),
        )],
    };
    let errors = check_evidence_completeness(&module);
    assert_eq!(errors.len(), 1);
    assert!(matches!(errors[0], ValidationError::IncompleteEvidence { .. }));
}

#[test]
fn circular_requires_fails() {
    let module = Module {
        entities: vec![
            entity_with("a", EntityType::Concept, "1.0", vec![hrel(RelationshipType::Requires, "b")], Some(test_evidence_block())),
            entity_with("b", EntityType::Concept, "1.0", vec![hrel(RelationshipType::Requires, "c")], Some(test_evidence_block())),
            entity_with("c", EntityType::Concept, "1.0", vec![hrel(RelationshipType::Requires, "a")], Some(test_evidence_block())),
        ],
    };
    let errors = check_dag(&module);
    assert_eq!(errors.len(), 1);
    assert!(matches!(errors[0], ValidationError::Cycle { .. }));
    if let ValidationError::Cycle { message } = &errors[0] {
        assert!(message.contains("a → b → c → a"));
    }
}

#[test]
fn rules_invalid_version_fails() {
    let module = Module {
        entities: vec![entity_with("e1", EntityType::Concept, "abc", vec![], Some(test_evidence_block()))],
    };
    let errors = check_version_format(&module);
    assert_eq!(errors.len(), 1);
    assert!(matches!(errors[0], ValidationError::InvalidVersion { .. }));
}

#[test]
fn version_with_extra_dots_fails() {
    let module = Module {
        entities: vec![entity_with("e1", EntityType::Concept, "1.2.3", vec![], Some(test_evidence_block()))],
    };
    let errors = check_version_format(&module);
    assert_eq!(errors.len(), 1);
}

// Own tests.

fn line_of(e: &ValidationError) -> String {
    match e {
        ValidationError::TypeConstraint { location, message }
        | ValidationError::ReferenceIntegrity { location, message }
        | ValidationError::MissingEvidence { location, message }
        | ValidationError::IncompleteEvidence { location, message }
        | ValidationError::InvalidVersion { location, message } => {
            format!("[{}:{}:{}] Validation error: {}", location.file, location.line, location.column, message)
        }
        ValidationError::Cycle { message } => panic!("cycle {}", message),
    }
}

#[test]
fn all_violations_are_reported_together() {
    // A type-constraint error and an unresolved reference, in rule order.
    let module = Module {
        entities: vec![entity("axiom1", EntityType::Axiom, "1.0", vec![rel(RelationshipType::Requires, "other")], Some(valid_evidence()))],
    };
    let mut expected: Vec<String> = check_type_constraints(&module).iter().map(line_of).collect();
    expected.extend(check_reference_integrity(&module).iter().map(line_of));
    assert_eq!(expected.len(), 2);
    assert!(expected[0].contains("axiom1") && expected[1].contains("other"));
    match validate(&module).unwrap_err() {
        VdlError::ValidationErrors { count, messages } => {
            assert_eq!(count, 2);
            assert_eq!(messages, expected.join("\n"));
        }
        other => panic!("unexpected error {:?}", other),
    }
    // Two entities with one violation each, of different rules.
    let module = Module {
        entities: vec![
            entity("concept1", EntityType::Concept, "1.0", vec![], None),
            entity("law1", EntityType::Law, "1.0", vec![], Some(valid_evidence())),
        ],
    };
    match validate(&module).unwrap_err() {
        VdlError::ValidationErrors { count, messages } => {
            assert_eq!(count, 2);
            let lines: Vec<&str> = messages.lines().collect();
            assert!(lines[0].starts_with("[test.vdl:1:1] Validation error: ") && lines[0].contains("law1"));
            assert!(lines[1].contains("concept1"));
        }
        other => panic!("unexpected error {:?}", other),
    }
}

#[test]
fn cycle_message_starts_at_smallest_id() {
    let module = Module {
        entities: vec![
            entity("c", EntityType::Concept, "1.0", vec![rel(RelationshipType::DerivesFrom, "b")], Some(valid_evidence())),
            entity("b", EntityType::Concept, "1.0", vec![rel(RelationshipType::DerivesFrom, "c")], Some(valid_evidence())),
        ],
    };
    let errors = check_dag(&module);
    assert_eq!(errors.len(), 1);
    if let ValidationError::Cycle { message } = &errors[0] {
        assert_eq!(message, "b → c → b");
    } else {
        panic!("expected a cycle");
    }
}

#[test]
fn references_do_not_form_cycles() {
    let module = Module {
        entities: vec![
            entity("a", EntityType::Concept, "1.0", vec![rel(RelationshipType::References, "b")], Some(valid_evidence())),
            entity("b", EntityType::Concept, "1.0", vec![rel(RelationshipType::References, "a")], Some(valid_evidence())),
        ],
    };
    assert!(check_dag(&module).is_empty());
    assert!(validate(&module).is_ok());
}

#[test]
fn version_formats() {
    for (v, ok) in [("0.1", true), ("10.25", true), ("1", false), (".1", false), ("1.", false), ("1.a", false), ("", false)] {
        let module = Module {
            entities: vec![entity("e1", EntityType::Concept, v, vec![], Some(valid_evidence()))],
        };
        assert_eq!(check_version_format(&module).is_empty(), ok, "version {:?}", v);
    }
}

#[test]
fn validation_error_becomes_compiler_error() {
    let module = Module {
        entities: vec![entity("e1", EntityType::Concept, "abc", vec![], Some(valid_evidence()))],
    };
    let e = validate(&module).unwrap_err();
    assert!(matches!(e, VdlError::ValidationErrors { count: 1, .. }));
    assert!(e.message().starts_with("Validation failed with 1 error(s):\n[test.vdl:1:1] Validation error: "));
}

#[test]
fn cycle_error_is_reported_at_the_first_entity_on_the_cycle() {
    let mut x = entity_with("x", EntityType::Concept, "1.0", vec![], Some(test_evidence_block()));
    x.source_location = SourceLocation::new("test.vdl", 1, 1);
    let mut b = entity_with("b", EntityType::Concept, "1.0", vec![hrel(RelationshipType::Requires, "c")], Some(test_evidence_block()));
    b.source_location = SourceLocation::new("test.vdl", 5, 1);
    let mut c = entity_with("c", EntityType::Concept, "1.0", vec![hrel(RelationshipType::Requires, "a")], Some(test_evidence_block()));
    c.source_location = SourceLocation::new("test.vdl", 9, 1);
    let mut a = entity_with("a", EntityType::Concept, "1.0", vec![hrel(RelationshipType::Requires, "b")], Some(test_evidence_block()));
    a.source_location = SourceLocation::new("test.vdl", 13, 1);
    let err = validate(&Module { entities: vec![x, b, c, a] }).unwrap_err();
    assert_eq!(
        err,
        VdlError::ValidationErrors {
            count: 1,
            messages: "[test.vdl:5:1] Validation error: Cycle detected: a → b → c → a".to_string(),
        }
    );
}

#[test]
fn check_dag_reports_each_of_two_disjoint_cycles() {
    let module = Module {
        entities: vec![
            entity_with("a", EntityType::Concept, "1.0", vec![hrel(RelationshipType::Requires, "b")], Some(test_evidence_block())),
            entity_with("b", EntityType::Concept, "1.0", vec![hrel(RelationshipType::Requires, "a")], Some(test_evidence_block())),
            entity_with("d", EntityType::Concept, "1.0", vec![hrel(RelationshipType::DerivesFrom, "c")], Some(test_evidence_block())),
            entity_with("c", EntityType::Concept, "1.0", vec![hrel(RelationshipType::DerivesFrom, "d")], Some(test_evidence_block())),
        ],
    };
    assert_eq!(
        check_dag(&module),
        vec![
            ValidationError::Cycle { message: "a → b → a".to_string() },
            ValidationError::Cycle { message: "c → d → c".to_string() },
        ]
    );
}

#[test]
fn cycle_message_starts_at_the_smallest_id() {
    let module = Module {
        entities: vec![
            entity_with("zeta", EntityType::Concept, "1.0", vec![hrel(RelationshipType::Requires, "mu")], Some(test_evidence_block())),
            entity_with("mu", EntityType::Concept, "1.0", vec![hrel(RelationshipType::Requires, "beta")], Some(test_evidence_block())),
            entity_with("beta", EntityType::Concept, "1.0", vec![hrel(RelationshipType::Requires, "zeta")], Some(test_evidence_block())),
        ],
    };
    assert_eq!(
        check_dag(&module),
        vec![ValidationError::Cycle { message: "beta → zeta → mu → beta".to_string() }]
    );
}

#[test]
fn violations_of_every_rule_are_counted_in_rule_order() {
    // Two disjoint cycles, each at its first entity, then a bad version.
    let mut a = entity_with("a", EntityType::Concept, "1.0", vec![hrel(RelationshipType::Requires, "b")], Some(test_evidence_block()));
    a.source_location = SourceLocation::new("f.vdl", 2, 3);
    let mut b = entity_with("b", EntityType::Concept, "1.0", vec![hrel(RelationshipType::Requires, "a")], Some(test_evidence_block()));
    b.source_location = SourceLocation::new("f.vdl", 4, 3);
    let mut d = entity_with("d", EntityType::Concept, "x", vec![hrel(RelationshipType::DerivesFrom, "c")], Some(test_evidence_block()));
    d.source_location = SourceLocation::new("f.vdl", 6, 1);
    let mut c = entity_with("c", EntityType::Concept, "1.0", vec![hrel(RelationshipType::DerivesFrom, "d")], Some(test_evidence_block()));
    c.source_location = SourceLocation::new("f.vdl", 8, 1);
    let module = Module { entities: vec![a, b, d, c] };
    let version_lines: Vec<String> = check_version_format(&module).iter().map(line_of).collect();
    assert_eq!(version_lines.len(), 1);
    let expected = format!(
        "[f.vdl:2:3] Validation error: Cycle detected: a → b → a\n[f.vdl:6:1] Validation error: Cycle detected: c → d → c\n{}",
        version_lines[0]
    );
    match validate(&module).unwrap_err() {
        VdlError::ValidationErrors { count, messages } => {
            assert_eq!(count, 3);
            assert_eq!(messages, expected);
        }
        other => panic!("unexpected error {:?}", other),
    }
}
