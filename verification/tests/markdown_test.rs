use vdl::codegen::markdown::{
    entity_id_to_filename, escape_yaml_string, generate_entity, markdown_files, render_analogies,
    render_revelations, render_syntheses,
};
use vdl::error::SourceLocation;
use vdl::graph::node::KnowledgeGraph;
use vdl::parser::ast::{
    Analogy, Annotation, Entity, EntityType, EvidenceBlock, Relationship, RelationshipType, Revelation,
    Synthesis,
};

fn dummy_loc() -> SourceLocation {
    SourceLocation::new("test.vdl", 1, 1)
}

fn make_entity(id: &str, entity_type: EntityType, title: &str) -> Entity {
    Entity {
        id: id.to_string(),
        entity_type,
        version: "1.0".to_string(),
        title: title.to_string(),
        description: "A test description.".to_string(),
        properties: Vec::new(),
        relationships: Vec::new(),
        evidence: None,
        annotations: Vec::new(),
        source_location: dummy_loc(),
    }
}

#[test]
fn test_entity_id_to_filename() {
    assert_eq!(entity_id_to_filename("soul.law.i"), "soul-law-i.md");
    assert_eq!(entity_id_to_filename("voidlight_constitution"), "voidlight-constitution.md");
    assert_eq!(entity_id_to_filename("a.b.c.d"), "a-b-c-d.md");
    assert_eq!(entity_id_to_filename("simple"), "simple.md");
}

#[test]
fn test_generate_entity_frontmatter() {
    let mut entity = make_entity("soul.law.i", EntityType::Law, "Autonomy Is Mandatory");
    entity.version = "5.0".to_string();
    entity.description = "Every node must retain sovereign control...".to_string();
    entity.annotations = vec![
        Annotation { name: "author".to_string(), value: "Khayren".to_string(), source_location: dummy_loc() },
        Annotation { name: "created".to_string(), value: "2024-03-15".to_string(), source_location: dummy_loc() },
        Annotation { name: "status".to_string(), value: "canonical".to_string(), source_location: dummy_loc() },
        Annotation { name: "pillar".to_string(), value: "soul".to_string(), source_location: dummy_loc() },
    ];
    entity.relationships = vec![Relationship {
        rel_type: RelationshipType::DerivesFrom,
        target_id: "voidlight_constitution".to_string(),
        source_location: dummy_loc(),
    }];

    let md = generate_entity(&entity).unwrap();

    assert!(md.contains("id: soul.law.i"));
    assert!(md.contains("type: law"));
    assert!(md.contains("version: \"5.0\""));
    assert!(md.contains("title: \"Autonomy Is Mandatory\""));
    assert!(md.contains("description: \"Every node must retain sovereign control...\""));
    assert!(md.contains("related:"));
    assert!(md.contains("  - voidlight_constitution"));
    assert!(md.contains("author: Khayren"));
    assert!(md.contains("created: \"2024-03-15\""));
    assert!(md.contains("status: canonical"));
    assert!(md.contains("pillar: soul"));
}

#[test]
fn test_generate_entity_without_relationships_or_annotations() {
    let entity = make_entity("core.axiom.1", EntityType::Axiom, "Test Axiom");
    let md = generate_entity(&entity).unwrap();
    assert!(md.contains("id: core.axiom.1"));
    assert!(md.contains("type: axiom"));
    assert!(!md.contains("related:"));
    assert!(!md.contains("author:"));
    assert!(!md.contains("created:"));
}

#[test]
fn test_evidence_revelation_rendering() {
    let mut entity = make_entity("test.1", EntityType::Law, "Test");
    entity.evidence = Some(EvidenceBlock {
        revelations: vec![Revelation {
            source: "Quran 2:30".to_string(),
            text: "And when your Lord said to the angels...".to_string(),
            translator: None,
            source_location: dummy_loc(),
        }],
        syntheses: vec![],
        analogies: vec![],
    });
    let md = generate_entity(&entity).unwrap();
    assert!(md.contains("## Evidence\n"));
    assert!(md.contains("### Revelation\n"));
    assert!(md.contains("**Source:** Quran 2:30"));
    assert!(md.contains("**Text:**"));
    assert!(md.contains("> And when your Lord said to the angels..."));
}

#[test]
fn test_evidence_synthesis_rendering() {
    let mut entity = make_entity("test.2", EntityType::Law, "Test");
    entity.evidence = Some(EvidenceBlock {
        revelations: vec![],
        syntheses: vec![Synthesis {
            sources: vec!["Quran 51:56".to_string(), "Quran 13:28".to_string()],
            argument: "The Quranic command that humans were created...".to_string(),
            source_location: dummy_loc(),
        }],
        analogies: vec![],
    });
    let md = generate_entity(&entity).unwrap();
    assert!(md.contains("## Evidence\n"));
    assert!(md.contains("### Synthesis\n"));
    assert!(md.contains("**Sources:**"));
    assert!(md.contains("- Quran 51:56"));
    assert!(md.contains("- Quran 13:28"));
    assert!(md.contains("**Argument:**"));
    assert!(md.contains("The Quranic command that humans were created..."));
}

#[test]
fn test_evidence_analogy_rendering() {
    let mut entity = make_entity("test.3", EntityType::Concept, "Test");
    entity.evidence = Some(EvidenceBlock {
        revelations: vec![],
        syntheses: vec![],
        analogies: vec![Analogy {
            domain: "Architecture".to_string(),
            mapping: "A building's foundation must be poured...".to_string(),
            source_location: dummy_loc(),
        }],
    });
    let md = generate_entity(&entity).unwrap();
    assert!(md.contains("## Evidence\n"));
    assert!(md.contains("### Analogy\n"));
    assert!(md.contains("**Domain:** Architecture"));
    assert!(md.contains("**Mapping:**"));
    assert!(md.contains("A building's foundation must be poured..."));
}

#[test]
fn test_evidence_all_sections_together() {
    let mut entity = make_entity("test.4", EntityType::Principle, "Test");
    entity.evidence = Some(EvidenceBlock {
        revelations: vec![Revelation {
            source: "Source A".to_string(),
            text: "Text A".to_string(),
            translator: None,
            source_location: dummy_loc(),
        }],
        syntheses: vec![Synthesis {
            sources: vec!["Source B".to_string()],
            argument: "Argument B".to_string(),
            source_location: dummy_loc(),
        }],
        analogies: vec![Analogy {
            domain: "Domain C".to_string(),
            mapping: "Mapping C".to_string(),
            source_location: dummy_loc(),
        }],
    });
    let md = generate_entity(&entity).unwrap();
    assert!(md.contains("## Evidence\n"));
    assert!(md.contains("### Revelation\n"));
    assert!(md.contains("### Synthesis\n"));
    assert!(md.contains("### Analogy\n"));
}

#[test]
fn test_no_evidence_section_when_empty() {
    let entity = make_entity("test.5", EntityType::Law, "Test");
    let md = generate_entity(&entity).unwrap();
    assert!(!md.contains("## Evidence"));
}

#[test]
fn test_no_evidence_section_when_none() {
    let mut entity = make_entity("test.6", EntityType::Law, "Test");
    entity.evidence = Some(EvidenceBlock { revelations: vec![], syntheses: vec![], analogies: vec![] });
    let md = generate_entity(&entity).unwrap();
    assert!(!md.contains("## Evidence"));
}

#[test]
fn test_yaml_escaping() {
    let mut entity = make_entity("test.7", EntityType::Law, "Title with \"quotes\"");
    entity.description = "Desc with \\ backslash".to_string();
    let md = generate_entity(&entity).unwrap();
    assert!(md.contains(r#"title: "Title with \"quotes\"""#));
    assert!(md.contains(r#"description: "Desc with \\ backslash""#));
}

#[test]
fn test_generate_writes_files() {
    let mut graph = KnowledgeGraph::new();
    let entity1 = make_entity("soul.law.i", EntityType::Law, "Law One");
    let entity2 = make_entity("voidlight_constitution", EntityType::Framework, "Constitution");
    graph.nodes.insert(entity1.id.clone(), entity1);
    graph.nodes.insert(entity2.id.clone(), entity2);

    let files = markdown_files(&graph);
    assert_eq!(files.len(), 2);
    assert_eq!(files[0].0, "soul-law-i.md");
    assert_eq!(files[1].0, "voidlight-constitution.md");
    assert!(files[0].1.contains("id: soul.law.i"));
    assert!(files[0].1.contains("type: law"));
    assert!(files[1].1.contains("id: voidlight_constitution"));
    assert!(files[1].1.contains("type: framework"));
}

#[test]
fn test_generate_empty_graph() {
    let graph = KnowledgeGraph::new();
    assert!(markdown_files(&graph).is_empty());
}

// Own tests.

#[test]
fn whole_page_of_a_small_entity() {
    let mut entity = make_entity("a.b", EntityType::Concept, "T");
    entity.annotations = vec![
        Annotation { name: "reviewed".to_string(), value: "2024-01-01".to_string(), source_location: dummy_loc() },
        Annotation { name: "tag".to_string(), value: "x".to_string(), source_location: dummy_loc() },
    ];
    entity.evidence = Some(EvidenceBlock {
        revelations: vec![Revelation {
            source: "S".to_string(),
            text: "one\r\ntwo\n".to_string(),
            translator: None,
            source_location: dummy_loc(),
        }],
        syntheses: vec![],
        analogies: vec![],
    });
    let md = generate_entity(&entity).unwrap();
    assert_eq!(
        md,
        "---\nid: a.b\ntype: concept\nversion: \"1.0\"\ntitle: \"T\"\ndescription: \"A test description.\"\n\
         reviewed: \"2024-01-01\"\ntag: x\n---\n\n## Evidence\n\n### Revelation\n\n**Source:** S\n\n**Text:**\n\
         > one\n> two\n\n"
    );
}

#[test]
fn yaml_escape_of_each_special_character() {
    assert_eq!(escape_yaml_string("a\\b\"c\nd"), "a\\\\b\\\"c\\nd");
    assert_eq!(escape_yaml_string("plain"), "plain");
}

#[test]
fn render_sections_append_to_output() {
    let ev = EvidenceBlock {
        revelations: vec![],
        syntheses: vec![Synthesis {
            sources: vec!["A".to_string(), "B".to_string()],
            argument: "Arg".to_string(),
            source_location: dummy_loc(),
        }],
        analogies: vec![Analogy { domain: "D".to_string(), mapping: "M".to_string(), source_location: dummy_loc() }],
    };
    let mut out = String::from("X");
    render_revelations(&mut out, &ev);
    assert_eq!(out, "X");
    render_syntheses(&mut out, &ev);
    assert_eq!(out, "X### Synthesis\n\n**Sources:**\n- A\n- B\n\n**Argument:**\nArg\n\n");
    let mut out2 = String::new();
    render_analogies(&mut out2, &ev);
    assert_eq!(out2, "### Analogy\n\n**Domain:** D\n\n**Mapping:**\nM\n\n");
}
