use vdl::error::SourceLocation;
use vdl::graph::node::{Edge, GraphError, KnowledgeGraph};
use vdl::graph::query::GraphQuery;
use vdl::graph::entity_type_color;
use vdl::parser::ast::{Entity, EntityType, Module, Relationship, RelationshipType};

fn dummy_loc() -> SourceLocation {
    SourceLocation::new("test.vdl", 1, 1)
}

fn make_entity(id: &str, entity_type: EntityType, rels: Vec<(&str, RelationshipType)>) -> Entity {
    Entity {
        id: id.to_string(),
        entity_type,
        version: "1.0.0".to_string(),
        title: format!("Test {}", id),
        description: format!("Description of {}", id),
        properties: Vec::new(),
        relationships: rels
            .into_iter()
            .map(|(target, rel_type)| Relationship {
                rel_type,
                target_id: target.to_string(),
                source_location: dummy_loc(),
            })
            .collect(),
        evidence: None,
        annotations: vec![],
        source_location: dummy_loc(),
    }
}

#[test]
fn test_build_graph_from_module() {
    let a = make_entity("A", EntityType::Concept, vec![("B", RelationshipType::Requires)]);
    let b = make_entity("B", EntityType::Concept, vec![]);
    let module = Module { entities: vec![a, b] };
    let graph = KnowledgeGraph::from_module(&module).unwrap();

    assert_eq!(graph.nodes.len(), 2);
    assert!(graph.nodes.contains_key("A"));
    assert!(graph.nodes.contains_key("B"));
    assert_eq!(graph.edges.len(), 1);
    assert_eq!(graph.edges[0].from, "A");
    assert_eq!(graph.edges[0].to, "B");
    assert_eq!(graph.edges[0].rel_type, RelationshipType::Requires);
    assert!(graph.adjacency.contains_key("A"));
    assert_eq!(graph.adjacency["A"].len(), 1);
    assert_eq!(graph.adjacency["A"][0], ("B".to_string(), RelationshipType::Requires));
}

#[test]
fn test_ancestors() {
    let a = make_entity("A", EntityType::Concept, vec![("B", RelationshipType::Requires)]);
    let b = make_entity("B", EntityType::Concept, vec![("C", RelationshipType::DerivesFrom)]);
    let c = make_entity("C", EntityType::Axiom, vec![]);
    let module = Module { entities: vec![a, b, c] };
    let graph = KnowledgeGraph::from_module(&module).unwrap();
    let query = GraphQuery::new(&graph);

    let ancestors = query.ancestors("A").unwrap();
    let ancestor_ids: Vec<_> = ancestors.iter().map(|e| e.id.as_str()).collect();
    assert_eq!(ancestor_ids.len(), 2);
    assert!(ancestor_ids.contains(&"B"));
    assert!(ancestor_ids.contains(&"C"));
}

#[test]
fn test_descendants() {
    let a = make_entity("A", EntityType::Concept, vec![("B", RelationshipType::Requires)]);
    let b = make_entity("B", EntityType::Concept, vec![("C", RelationshipType::DerivesFrom)]);
    let c = make_entity("C", EntityType::Axiom, vec![]);
    let module = Module { entities: vec![a, b, c] };
    let graph = KnowledgeGraph::from_module(&module).unwrap();
    let query = GraphQuery::new(&graph);

    let descendants = query.descendants("C").unwrap();
    let descendant_ids: Vec<_> = descendants.iter().map(|e| e.id.as_str()).collect();
    assert_eq!(descendant_ids.len(), 2);
    assert!(descendant_ids.contains(&"B"));
    assert!(descendant_ids.contains(&"A"));
}

#[test]
fn test_related_with_specific_rel_type() {
    let a = make_entity(
        "A",
        EntityType::Concept,
        vec![
            ("B", RelationshipType::Requires),
            ("C", RelationshipType::References),
            ("D", RelationshipType::Requires),
        ],
    );
    let b = make_entity("B", EntityType::Concept, vec![]);
    let c = make_entity("C", EntityType::Concept, vec![]);
    let d = make_entity("D", EntityType::Concept, vec![]);
    let module = Module { entities: vec![a, b, c, d] };
    let graph = KnowledgeGraph::from_module(&module).unwrap();
    let query = GraphQuery::new(&graph);

    let required = query.related("A", RelationshipType::Requires).unwrap();
    let required_ids: Vec<_> = required.iter().map(|e| e.id.as_str()).collect();
    assert_eq!(required_ids.len(), 2);
    assert!(required_ids.contains(&"B"));
    assert!(required_ids.contains(&"D"));

    let referenced = query.related("A", RelationshipType::References).unwrap();
    assert_eq!(referenced.len(), 1);
    assert_eq!(referenced[0].id, "C");

    let none = query.related("A", RelationshipType::Contradicts).unwrap();
    assert!(none.is_empty());
}

#[test]
fn test_entity_not_found_error() {
    let module = Module { entities: vec![] };
    let graph = KnowledgeGraph::from_module(&module).unwrap();
    let query = GraphQuery::new(&graph);

    assert!(matches!(query.ancestors("X"), Err(GraphError::EntityNotFound(ref id)) if id == "X"));
    assert!(matches!(query.descendants("X"), Err(GraphError::EntityNotFound(ref id)) if id == "X"));
    assert!(
        matches!(query.related("X", RelationshipType::Requires), Err(GraphError::EntityNotFound(ref id)) if id == "X")
    );
}

#[test]
fn test_cycle_detection_requires() {
    let a = make_entity("A", EntityType::Concept, vec![("B", RelationshipType::Requires)]);
    let b = make_entity("B", EntityType::Concept, vec![("A", RelationshipType::Requires)]);
    let module = Module { entities: vec![a, b] };

    let err = KnowledgeGraph::from_module(&module).unwrap_err();
    assert!(matches!(err, GraphError::Cycle { .. }));
    if let GraphError::Cycle { rel_type, chain } = err {
        assert_eq!(rel_type, "requires");
        assert!(chain.contains("A"));
        assert!(chain.contains("B"));
    }
}

#[test]
fn test_cycle_detection_derives_from() {
    let a = make_entity("A", EntityType::Concept, vec![("B", RelationshipType::DerivesFrom)]);
    let b = make_entity("B", EntityType::Concept, vec![("C", RelationshipType::DerivesFrom)]);
    let c = make_entity("C", EntityType::Concept, vec![("A", RelationshipType::DerivesFrom)]);
    let module = Module { entities: vec![a, b, c] };

    let err = KnowledgeGraph::from_module(&module).unwrap_err();
    assert!(matches!(err, GraphError::Cycle { .. }));
    if let GraphError::Cycle { rel_type, chain } = err {
        assert_eq!(rel_type, "derives_from");
        assert!(chain.contains("A"));
        assert!(chain.contains("B"));
        assert!(chain.contains("C"));
    }
}

#[test]
fn test_no_cycle_for_other_rel_types() {
    let a = make_entity("A", EntityType::Concept, vec![("B", RelationshipType::References)]);
    let b = make_entity("B", EntityType::Concept, vec![("A", RelationshipType::References)]);
    let module = Module { entities: vec![a, b] };

    let graph = KnowledgeGraph::from_module(&module).unwrap();
    assert_eq!(graph.nodes.len(), 2);
    assert_eq!(graph.edges.len(), 2);
}

// Own tests.

#[test]
fn cycle_chain_and_message() {
    let a = make_entity("A", EntityType::Concept, vec![("B", RelationshipType::Requires)]);
    let b = make_entity("B", EntityType::Concept, vec![("A", RelationshipType::Requires)]);
    let err = KnowledgeGraph::from_module(&Module { entities: vec![a, b] }).unwrap_err();
    assert_eq!(err, GraphError::Cycle { rel_type: "requires".to_string(), chain: "A -> B -> A".to_string() });
    assert_eq!(err.message(), "Cycle detected in requires: A -> B -> A");
    assert_eq!(GraphError::EntityNotFound("X".to_string()).message(), "Entity not found: X");
}

#[test]
fn ancestors_and_descendants_mirror_each_other() {
    // A -> B -> C and A -> C; D references A (not a dependency).
    let a = make_entity("A", EntityType::Concept, vec![("B", RelationshipType::Requires), ("C", RelationshipType::DerivesFrom)]);
    let b = make_entity("B", EntityType::Concept, vec![("C", RelationshipType::Requires)]);
    let c = make_entity("C", EntityType::Axiom, vec![]);
    let d = make_entity("D", EntityType::Concept, vec![("A", RelationshipType::References)]);
    let module = Module { entities: vec![a, b, c, d] };
    let graph = KnowledgeGraph::from_module(&module).unwrap();
    let q = GraphQuery::new(&graph);
    for x in ["A", "B", "C", "D"] {
        for y in ["A", "B", "C", "D"] {
            let up = q.ancestors(x).unwrap().iter().any(|e| e.id == y);
            let down = q.descendants(y).unwrap().iter().any(|e| e.id == x);
            assert_eq!(up, down, "{} / {}", x, y);
        }
    }
    let ids: Vec<_> = q.ancestors("A").unwrap().iter().map(|e| e.id.clone()).collect();
    assert_eq!(ids, vec!["B", "C"]);
}

#[test]
fn ancestors_skip_missing_targets_and_self() {
    let a = make_entity("A", EntityType::Concept, vec![("missing", RelationshipType::Requires), ("B", RelationshipType::Requires)]);
    let b = make_entity("B", EntityType::Concept, vec![]);
    let graph = KnowledgeGraph::from_module(&Module { entities: vec![a, b] }).unwrap();
    let q = GraphQuery::new(&graph);
    let ids: Vec<_> = q.ancestors("A").unwrap().iter().map(|e| e.id.clone()).collect();
    assert_eq!(ids, vec!["B"]);
    assert!(q.ancestors("B").unwrap().is_empty());
}

#[test]
fn later_entity_replaces_earlier_in_place() {
    let a1 = make_entity("A", EntityType::Concept, vec![]);
    let b = make_entity("B", EntityType::Concept, vec![]);
    let a2 = make_entity("A", EntityType::Law, vec![]);
    let graph = KnowledgeGraph::from_module(&Module { entities: vec![a1, b, a2] }).unwrap();
    let keys: Vec<_> = graph.nodes().keys().cloned().collect();
    assert_eq!(keys, vec!["A", "B"]);
    assert_eq!(graph.nodes()["A"].entity_type, EntityType::Law);
}

#[test]
fn accessors_and_default() {
    let g = KnowledgeGraph::default();
    assert!(g.nodes().is_empty());
    assert!(g.edges().is_empty());
    assert!(g.adjacency().is_empty());
    let e = Edge { from: "a".into(), to: "b".into(), rel_type: RelationshipType::Enables };
    let e2 = e.clone();
    assert_eq!((e2.from.as_str(), e2.to.as_str(), e2.rel_type), ("a", "b", RelationshipType::Enables));
}

#[test]
fn colors_of_entity_types() {
    assert_eq!(entity_type_color(EntityType::Axiom), "#E8D5B7");
    assert_eq!(entity_type_color(EntityType::Framework), "#D4A373");
    assert_eq!(entity_type_color(EntityType::Law), "#C75B39");
    assert_eq!(entity_type_color(EntityType::Principle), "#6B8E23");
    assert_eq!(entity_type_color(EntityType::Concept), "#5F9EA0");
    assert_eq!(entity_type_color(EntityType::Artifact), "#9370DB");
    assert_eq!(entity_type_color(EntityType::Pillar), "#2F4F4F");
    assert_eq!(entity_type_color(EntityType::Document), "#999999");
}

#[test]
fn searches_meet_entities_breadth_first() {
    // A requires B and C; B requires D; D and C both lead to E.
    let a = make_entity(
        "A",
        EntityType::Concept,
        vec![("B", RelationshipType::Requires), ("C", RelationshipType::DerivesFrom)],
    );
    let b = make_entity("B", EntityType::Concept, vec![("D", RelationshipType::Requires)]);
    let c = make_entity("C", EntityType::Concept, vec![("E", RelationshipType::Requires)]);
    let d = make_entity("D", EntityType::Concept, vec![("E", RelationshipType::Requires)]);
    let e = make_entity("E", EntityType::Axiom, vec![]);
    let graph = KnowledgeGraph::from_module(&Module { entities: vec![a, b, c, d, e] }).unwrap();
    let query = GraphQuery::new(&graph);

    let up: Vec<_> = query.ancestors("A").unwrap().iter().map(|e| e.id.as_str()).collect();
    assert_eq!(up, vec!["B", "C", "D", "E"]);
    let down: Vec<_> = query.descendants("E").unwrap().iter().map(|e| e.id.as_str()).collect();
    assert_eq!(down, vec!["C", "D", "A", "B"]);
}

#[test]
fn cycle_error_names_the_first_cycle_met() {
    // Two cycles: B <-> D and A <-> C. The search from A stacks B, then C,
    // and expands C first.
    let a = make_entity(
        "A",
        EntityType::Concept,
        vec![("B", RelationshipType::Requires), ("C", RelationshipType::Requires)],
    );
    let b = make_entity("B", EntityType::Concept, vec![("D", RelationshipType::Requires)]);
    let c = make_entity("C", EntityType::Concept, vec![("A", RelationshipType::DerivesFrom)]);
    let d = make_entity("D", EntityType::Concept, vec![("B", RelationshipType::Requires)]);
    let err = KnowledgeGraph::from_module(&Module { entities: vec![a, b, c, d] }).unwrap_err();
    assert_eq!(
        err,
        GraphError::Cycle { rel_type: "derives_from".to_string(), chain: "A -> C -> A".to_string() }
    );
}
