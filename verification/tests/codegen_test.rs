use vdl::codegen::dot::{dot_text, escape_dot_label};
use vdl::codegen::json::{entity_to_json, json_output};
use vdl::codegen::search::{
    append_evidence_text, build_content_text, build_tags, entity_to_document, join_strings,
    search_documents,
};
use vdl::graph::node::{Edge, KnowledgeGraph};
use vdl::parser::ast::{
    Analogy, Annotation, Entity, EntityType, EvidenceBlock, RelationshipType, Revelation, Synthesis,
};
use vdl::test_helpers::{test_entity, test_location};

fn make_entity(id: &str, entity_type: EntityType, title: &str) -> Entity {
    let mut e = test_entity(id, entity_type, "1.0");
    e.title = title.to_string();
    e.description = String::new();
    e
}

fn make_graph() -> KnowledgeGraph {
    let mut graph = KnowledgeGraph::new();
    let law = make_entity("soul.law.i", EntityType::Law, "Autonomy Is Mandatory");
    let framework = make_entity("voidlight_constitution", EntityType::Framework, "The Voidlight Constitution");
    let root = make_entity("core.axiom.1", EntityType::Axiom, "");
    let principle = make_entity("core.principle.1", EntityType::Principle, "Discipline First");
    let concept = make_entity("core.concept.1", EntityType::Concept, "Concept A");
    let artifact = make_entity("core.artifact.1", EntityType::Artifact, "Artifact A");
    let pillar = make_entity("core.pillar.1", EntityType::Pillar, "Pillar A");
    for e in [law, framework, root, principle, concept, artifact, pillar] {
        graph.nodes.insert(e.id.clone(), e);
    }
    graph.edges.push(Edge {
        from: "soul.law.i".to_string(),
        to: "voidlight_constitution".to_string(),
        rel_type: RelationshipType::DerivesFrom,
    });
    graph.edges.push(Edge {
        from: "core.axiom.1".to_string(),
        to: "core.principle.1".to_string(),
        rel_type: RelationshipType::Requires,
    });
    graph
}

// DOT

#[test]
fn test_generate_dot_valid_syntax() {
    let content = dot_text(&make_graph());
    assert!(content.contains("digraph VDL_Knowledge_Graph {"));
    assert!(content.contains("}"));
    assert!(content.contains("\"soul.law.i\""));
    assert!(content.contains("\"voidlight_constitution\""));
    assert!(content.contains("\"soul.law.i\" -> \"voidlight_constitution\""));
    assert!(content.contains("\"core.axiom.1\" -> \"core.principle.1\""));
}

#[test]
fn test_node_colors_match_entity_types() {
    let content = dot_text(&make_graph());
    assert!(content.contains("fillcolor=\"#E8D5B7\""));
    assert!(content.contains("fillcolor=\"#D4A373\""));
    assert!(content.contains("fillcolor=\"#C75B39\""));
    assert!(content.contains("fillcolor=\"#6B8E23\""));
    assert!(content.contains("fillcolor=\"#5F9EA0\""));
    assert!(content.contains("fillcolor=\"#9370DB\""));
    assert!(content.contains("fillcolor=\"#2F4F4F\""));
}

#[test]
fn test_node_labels_use_title_or_id() {
    let mut graph = KnowledgeGraph::new();
    let with_title = make_entity("id1", EntityType::Concept, "My Title");
    let no_title = make_entity("id2", EntityType::Axiom, "");
    graph.nodes.insert(with_title.id.clone(), with_title);
    graph.nodes.insert(no_title.id.clone(), no_title);
    let content = dot_text(&graph);
    assert!(content.contains("label=\"My Title\""));
    assert!(content.contains("label=\"id2\""));
}

#[test]
fn test_edge_labels() {
    let content = dot_text(&make_graph());
    assert!(content.contains("label=\"derives_from\""));
    assert!(content.contains("label=\"requires\""));
}

#[test]
fn test_quote_escaping_in_labels() {
    let mut graph = KnowledgeGraph::new();
    let entity = make_entity("id1", EntityType::Law, r#"Say "hello" now"#);
    graph.nodes.insert(entity.id.clone(), entity);
    let content = dot_text(&graph);
    assert!(content.contains(r#"label="Say \"hello\" now""#));
}

#[test]
fn test_empty_graph_produces_valid_dot() {
    let content = dot_text(&KnowledgeGraph::new());
    assert!(content.contains("digraph VDL_Knowledge_Graph {"));
    assert!(content.contains("}"));
}

#[test]
fn test_default_color_for_unmapped_types() {
    let mut graph = KnowledgeGraph::new();
    let entity = make_entity("doc1", EntityType::Document, "Doc A");
    graph.nodes.insert(entity.id.clone(), entity);
    assert!(dot_text(&graph).contains("fillcolor=\"#999999\""));
}

#[test]
fn dot_document_exactly() {
    let mut graph = KnowledgeGraph::new();
    let a = make_entity("a", EntityType::Law, "A");
    graph.nodes.insert(a.id.clone(), a);
    graph.edges.push(Edge { from: "a".into(), to: "b".into(), rel_type: RelationshipType::Enables });
    assert_eq!(
        dot_text(&graph),
        "digraph VDL_Knowledge_Graph {\n    rankdir=TB;\n    node [shape=box, style=filled, fontname=\"Helvetica\"];\n    \
         edge [fontname=\"Helvetica\", fontsize=10];\n\n    \"a\" [label=\"A\", fillcolor=\"#C75B39\"];\n\n    \
         \"a\" -> \"b\" [label=\"enables\"];\n\n    subgraph cluster_legend {\n        label=\"Legend\";\n        \
         \"legend_axiom\" [label=\"axiom\", fillcolor=\"#E8D5B7\"];\n        \
         \"legend_framework\" [label=\"framework\", fillcolor=\"#D4A373\"];\n        \
         \"legend_law\" [label=\"law\", fillcolor=\"#C75B39\"];\n        \
         \"legend_principle\" [label=\"principle\", fillcolor=\"#6B8E23\"];\n        \
         \"legend_concept\" [label=\"concept\", fillcolor=\"#5F9EA0\"];\n        \
         \"legend_artifact\" [label=\"artifact\", fillcolor=\"#9370DB\"];\n        \
         \"legend_pillar\" [label=\"pillar\", fillcolor=\"#2F4F4F\"];\n        \
         \"legend_document\" [label=\"document\", fillcolor=\"#999999\"];\n        \
         \"legend_project\" [label=\"project\", fillcolor=\"#999999\"];\n        \
         \"legend_release\" [label=\"release\", fillcolor=\"#999999\"];\n        \
         \"legend_persona\" [label=\"persona\", fillcolor=\"#999999\"];\n        \
         \"legend_collection\" [label=\"collection\", fillcolor=\"#999999\"];\n    }\n}\n"
    );
    assert_eq!(escape_dot_label("x\"y"), "x\\\"y");
}

// Search index

fn create_test_entity() -> Entity {
    Entity {
        id: "soul.law.i".to_string(),
        entity_type: EntityType::Law,
        version: "1.0".to_string(),
        title: "Autonomy Is Mandatory".to_string(),
        description: "Every node must retain sovereign control.".to_string(),
        properties: Vec::new(),
        relationships: vec![],
        evidence: Some(EvidenceBlock {
            revelations: vec![Revelation {
                source: "Quran 2:30".to_string(),
                text: "And when your Lord said to the angels...".to_string(),
                translator: Some("Sahih International".to_string()),
                source_location: test_location(),
            }],
            syntheses: vec![Synthesis {
                sources: vec!["Ibn Kathir".to_string(), "Al-Tabari".to_string()],
                argument: "The verse establishes divine delegation.".to_string(),
                source_location: test_location(),
            }],
            analogies: vec![Analogy {
                domain: "Governance".to_string(),
                mapping: "A steward is not the owner.".to_string(),
                source_location: test_location(),
            }],
        }),
        annotations: vec![
            Annotation { name: "author".to_string(), value: "Khayren".to_string(), source_location: test_location() },
            Annotation { name: "pillar".to_string(), value: "soul".to_string(), source_location: test_location() },
            Annotation { name: "status".to_string(), value: "canonical".to_string(), source_location: test_location() },
        ],
        source_location: test_location(),
    }
}

#[test]
fn test_generate_search_index_structure() {
    let mut graph = KnowledgeGraph::new();
    let entity = create_test_entity();
    graph.nodes.insert(entity.id.clone(), entity);
    let docs = search_documents(&graph);
    assert_eq!(docs.len(), 1);
    assert_eq!(docs[0].id, "soul.law.i");
    assert_eq!(docs[0].title, "Autonomy Is Mandatory");
    assert_eq!(docs[0].description, "Every node must retain sovereign control.");
    assert_eq!(docs[0].doc_type, "law");
}

#[test]
fn test_content_text_includes_evidence() {
    let content = build_content_text(&create_test_entity());
    assert!(content.contains("Autonomy Is Mandatory"));
    assert!(content.contains("Every node must retain sovereign control."));
    assert!(content.contains("Quran 2:30"));
    assert!(content.contains("And when your Lord said to the angels..."));
    assert!(content.contains("Sahih International"));
    assert!(content.contains("Ibn Kathir"));
    assert!(content.contains("Al-Tabari"));
    assert!(content.contains("The verse establishes divine delegation."));
    assert!(content.contains("Governance"));
    assert!(content.contains("A steward is not the owner."));
}

#[test]
fn test_tags_include_annotations_and_entity_type() {
    let tags = build_tags(&create_test_entity());
    assert!(tags.contains(&"Khayren".to_string()));
    assert!(tags.contains(&"soul".to_string()));
    assert!(tags.contains(&"canonical".to_string()));
    assert!(tags.contains(&"law".to_string()));
}

#[test]
fn test_tags_deduplicated() {
    let mut entity = create_test_entity();
    entity.annotations.push(Annotation {
        name: "author".to_string(),
        value: "Khayren".to_string(),
        source_location: test_location(),
    });
    let tags = build_tags(&entity);
    let khayren_count = tags.iter().filter(|t| t == &&"Khayren".to_string()).count();
    assert_eq!(khayren_count, 1, "Duplicate tag 'Khayren' should be deduplicated");
}

#[test]
fn test_empty_evidence_handled() {
    let mut entity = create_test_entity();
    entity.evidence = None;
    let doc = entity_to_document(&entity);
    assert_eq!(doc.content_text, "Autonomy Is Mandatory Every node must retain sovereign control.");
}

#[test]
fn test_multiple_entities() {
    let mut graph = KnowledgeGraph::new();
    let entity1 = create_test_entity();
    let mut entity2 = create_test_entity();
    entity2.id = "soul.law.ii".to_string();
    entity2.title = "Mutual Respect Is Required".to_string();
    entity2.entity_type = EntityType::Principle;
    graph.nodes.insert(entity1.id.clone(), entity1);
    graph.nodes.insert(entity2.id.clone(), entity2);
    let docs = search_documents(&graph);
    assert_eq!(docs.len(), 2);
    assert!(docs.iter().any(|d| d.id == "soul.law.i"));
    assert!(docs.iter().any(|d| d.id == "soul.law.ii"));
}

#[test]
fn content_text_exactly() {
    assert_eq!(
        build_content_text(&create_test_entity()),
        "Autonomy Is Mandatory Every node must retain sovereign control. Revelation: Quran 2:30 \
         And when your Lord said to the angels... Translator: Sahih International \
         Synthesis (Ibn Kathir, Al-Tabari): The verse establishes divine delegation. \
         Analogy (Governance): A steward is not the owner."
    );
}

#[test]
fn tags_in_order_with_type_last() {
    let mut entity = create_test_entity();
    entity.annotations.push(Annotation { name: "created".to_string(), value: "x".to_string(), source_location: test_location() });
    entity.annotations.push(Annotation { name: "status".to_string(), value: "law".to_string(), source_location: test_location() });
    assert_eq!(build_tags(&entity), vec!["Khayren", "soul", "canonical", "law"]);
}

#[test]
fn evidence_parts_appended_in_order() {
    let mut parts = vec!["x".to_string()];
    let ev = EvidenceBlock {
        revelations: vec![Revelation { source: "S".into(), text: "T".into(), translator: None, source_location: test_location() }],
        syntheses: vec![],
        analogies: vec![Analogy { domain: "D".into(), mapping: "M".into(), source_location: test_location() }],
    };
    append_evidence_text(&ev, &mut parts);
    assert_eq!(parts, vec!["x", "Revelation: S", "T", "Analogy (D): M"]);
    assert_eq!(join_strings(&parts, "|"), "x|Revelation: S|T|Analogy (D): M");
    assert_eq!(join_strings(&Vec::new(), ", "), "");
}

// JSON graph

fn make_test_graph() -> KnowledgeGraph {
    let mut graph = KnowledgeGraph::new();
    let entity = Entity {
        id: "soul.law.i".to_string(),
        entity_type: EntityType::Law,
        version: "5.0".to_string(),
        title: "Autonomy Is Mandatory".to_string(),
        description: "Every conscious being must be treated as an end in itself.".to_string(),
        properties: vec![("previous".to_string(), "4.9".to_string())],
        relationships: vec![],
        evidence: Some(EvidenceBlock {
            revelations: vec![Revelation {
                source: "Primary Source".to_string(),
                text: "The being is the purpose.".to_string(),
                translator: None,
                source_location: test_location(),
            }],
            syntheses: vec![],
            analogies: vec![],
        }),
        annotations: vec![Annotation { name: "author".to_string(), value: "Khayren".to_string(), source_location: test_location() }],
        source_location: test_location(),
    };
    graph.nodes.insert(entity.id.clone(), entity);
    graph.edges.push(Edge {
        from: "soul.law.i".to_string(),
        to: "voidlight_constitution".to_string(),
        rel_type: RelationshipType::DerivesFrom,
    });
    graph
}

#[test]
fn test_json_structure_from_simple_graph() {
    let out = json_output(&make_test_graph(), "2024-01-01T00:00:00Z".to_string(), "0.1.0".to_string());
    assert_eq!(out.entities.len(), 1);
    let ent = &out.entities[0];
    assert_eq!(ent.id, "soul.law.i");
    assert_eq!(ent.entity_type, "law");
    assert_eq!(ent.version, "5.0");
    assert_eq!(ent.title, "Autonomy Is Mandatory");
    assert_eq!(ent.properties, vec![("previous".to_string(), "4.9".to_string())]);
    assert_eq!(ent.annotations.len(), 1);
    assert_eq!(ent.annotations[0].name, "author");
    assert_eq!(ent.annotations[0].value, "Khayren");
    let evidence = ent.evidence.as_ref().unwrap();
    assert_eq!(evidence.revelations.len(), 1);
    assert_eq!(evidence.revelations[0].source, "Primary Source");
    assert_eq!(evidence.revelations[0].text, "The being is the purpose.");
    assert!(evidence.revelations[0].translator.is_none());
    assert!(evidence.syntheses.is_empty());
    assert!(evidence.analogies.is_empty());
    assert_eq!(out.relationships.len(), 1);
    assert_eq!(out.relationships[0].from, "soul.law.i");
    assert_eq!(out.relationships[0].to, "voidlight_constitution");
    assert_eq!(out.relationships[0].rel_type, "derives_from");
    assert_eq!(out.metadata.compiled_at, "2024-01-01T00:00:00Z");
    assert_eq!(out.metadata.version, "0.1.0");
}

#[test]
fn test_entity_without_evidence_omits_evidence_field() {
    let mut e = test_entity("soul.concept.x", EntityType::Concept, "1.0");
    e.evidence = None;
    assert!(entity_to_json(&e).evidence.is_none());
}

#[test]
fn test_translator_present_when_some() {
    let mut e = test_entity("soul.law.ii", EntityType::Law, "1.0");
    e.evidence = Some(EvidenceBlock {
        revelations: vec![Revelation {
            source: "Quran".to_string(),
            text: "Inna allaha ma'a al-sabireen".to_string(),
            translator: Some("Saheeh International".to_string()),
            source_location: test_location(),
        }],
        syntheses: vec![],
        analogies: vec![],
    });
    let j = entity_to_json(&e);
    assert_eq!(j.evidence.unwrap().revelations[0].translator.as_deref(), Some("Saheeh International"));
}

#[test]
fn test_empty_graph_produces_valid_json() {
    let out = json_output(&KnowledgeGraph::new(), "t".to_string(), "0.1.0".to_string());
    assert!(out.entities.is_empty());
    assert!(out.relationships.is_empty());
    assert_eq!(out.metadata.version, "0.1.0");
}
