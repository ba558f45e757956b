use vdl::cli::diff::diff_lines;
use vdl::cli::{compile_graph, compile_sources, diagnostic, search_lines, subgraph_lines};
use vdl::error::{SourceLocation, VdlError};
use vdl::graph::node::GraphError;

const SEVEN: &str = r#"
axiom "core.axiom" {
    version "1.0"
    title "Core Axiom"
    description "The root."
    evidence { revelation { source "S" text "T" } }
}
@author("Khayren")
law "soul.law.i" {
    version "5.0"
    title "Autonomy Is Mandatory"
    description "Every node keeps control."
    derives_from [ "core.axiom" ]
    evidence { revelation { source "S" text "T" } }
}
law "soul.law.ii" {
    version "5.1"
    title "Mutual Respect"
    description "Every node keeps control."
    previous "soul.law.i"
    derives_from [ "core.axiom" ]
    references [ "soul.law.i" ]
    evidence { revelation { source "S" text "T" } }
}
"#;

fn sources(text: &str) -> Vec<(String, String)> {
    vec![("laws.vdl".to_string(), text.to_string())]
}

#[test]
fn compile_valid_sources() {
    let module = compile_sources(&sources(SEVEN)).unwrap();
    assert_eq!(module.entities.len(), 3);
    let graph = compile_graph(&sources(SEVEN)).unwrap();
    assert_eq!(graph.nodes.len(), 3);
    assert_eq!(graph.edges.len(), 3);
}

#[test]
fn compile_merges_files_in_order() {
    let a = ("a.vdl".to_string(), "axiom \"x\" { version \"1.0\" evidence { analogy { domain \"d\" mapping \"m\" } } }".to_string());
    let b = ("b.vdl".to_string(), "concept \"y\" { version \"1.0\" requires [ \"x\" ] evidence { analogy { domain \"d\" mapping \"m\" } } }".to_string());
    let module = compile_sources(&vec![a, b]).unwrap();
    assert_eq!(module.entities[0].id, "x");
    assert_eq!(module.entities[1].id, "y");
    assert_eq!(module.entities[1].source_location.file, "b.vdl");
}

#[test]
fn compile_reports_lexical_error_with_file() {
    let err = compile_sources(&sources("axiom #")).unwrap_err();
    match &err {
        VdlError::Lexer { location, message } => {
            assert_eq!(location.file, "laws.vdl");
            assert_eq!(message, "unknown character: '#'");
        }
        other => panic!("unexpected {:?}", other),
    }
    assert_eq!(diagnostic(&err), "[laws.vdl:1:7] Lexical error: unknown character: '#'");
}

#[test]
fn compile_reports_parse_error() {
    let err = compile_sources(&sources("axiom \"a\" {")).unwrap_err();
    assert!(matches!(err, VdlError::Parser { .. }));
    assert!(diagnostic(&err).starts_with("[laws.vdl:1:11] Parse error: unexpected end of input"));
}

#[test]
fn compile_reports_validation_error() {
    let err = compile_sources(&sources("concept \"c\" { version \"1\" evidence { analogy { domain \"d\" mapping \"m\" } } }")).unwrap_err();
    assert!(matches!(err, VdlError::ValidationErrors { count: 1, .. }));
    assert!(diagnostic(&err).starts_with("Validation failed with 1 error(s):\n[laws.vdl:1:1] Validation error: entity 'c' has invalid version '1'"));
}

#[test]
fn diagnostics_of_other_errors() {
    assert_eq!(diagnostic(&VdlError::Graph { message: "m".into() }), "Graph error: m");
    assert_eq!(diagnostic(&VdlError::Io { message: "m".into() }), "IO error: m");
    assert_eq!(diagnostic(&VdlError::Other { message: "m".into() }), "m");
    assert_eq!(
        diagnostic(&VdlError::ValidationErrors { count: 2, messages: "a\nb".into() }),
        "Validation failed with 2 error(s):\na\nb"
    );
    let e = VdlError::Parser { location: SourceLocation::new("f", 3, 4), message: "m".into() };
    assert_eq!(e.message(), "Parse error at f:3:4: m");
}

#[test]
fn search_finds_ids_and_titles_ignoring_case() {
    let graph = compile_graph(&sources(SEVEN)).unwrap();
    let lines = search_lines(&graph, "AUTONOMY").unwrap();
    assert_eq!(lines, vec!["soul.law.i | law | Autonomy Is Mandatory"]);
    let lines = search_lines(&graph, "soul.law").unwrap();
    assert_eq!(lines.len(), 2);
    let lines = search_lines(&graph, "nothing here").unwrap();
    assert_eq!(lines, vec!["No entities matching 'nothing here'."]);
    // the query is a regular expression
    let lines = search_lines(&graph, "^SOUL\\.law\\.i$").unwrap();
    assert_eq!(lines.len(), 1);
    assert!(lines[0].starts_with("soul.law.i | law | "));
    assert!(search_lines(&graph, "(").is_err());
}

#[test]
fn subgraph_around_an_entity() {
    let graph = compile_graph(&sources(SEVEN)).unwrap();
    let lines = subgraph_lines(&graph, "soul.law.i").unwrap();
    assert_eq!(
        lines,
        vec![
            "digraph subgraph {",
            "  rankdir=LR;",
            "  node [shape=box, style=\"rounded,filled\"];",
            "  \"soul.law.i\" [label=\"soul.law.i\\n(law)\", fillcolor=\"#C75B39\"];",
            "  \"core.axiom\" [label=\"core.axiom\\n(axiom)\", fillcolor=\"#E8D5B7\"];",
            "  \"soul.law.ii\" [label=\"soul.law.ii\\n(law)\", fillcolor=\"#C75B39\"];",
            "  \"soul.law.i\" -> \"core.axiom\" [label=\"derives_from\"];",
            "  \"soul.law.ii\" -> \"core.axiom\" [label=\"derives_from\"];",
            "  \"soul.law.ii\" -> \"soul.law.i\" [label=\"references\"];",
            "}",
        ]
    );
    assert_eq!(subgraph_lines(&graph, "nope").unwrap_err(), GraphError::EntityNotFound("nope".into()));
}

#[test]
fn diff_of_two_versions() {
    let graph = compile_graph(&sources(SEVEN)).unwrap();
    let lines = diff_lines(&graph, "soul.law.i");
    assert_eq!(
        lines,
        vec![
            "Diff: soul.law.i vs soul.law.ii".to_string(),
            "-".repeat(50),
            "  PROPERTY previous: <missing> | 'soul.law.i'".to_string(),
            "  REL only in soul.law.ii: references → soul.law.i".to_string(),
            "  TITLE: 'Autonomy Is Mandatory' | 'Mutual Respect'".to_string(),
            "  VERSION: '5.0' | '5.1'".to_string(),
        ]
    );
}

#[test]
fn diff_needs_two_matches() {
    let graph = compile_graph(&sources(SEVEN)).unwrap();
    assert_eq!(diff_lines(&graph, "law")[0], "Diff: soul.law.i vs soul.law.ii");
    // with more than two matches, the first two are compared
    assert_eq!(diff_lines(&graph, "o")[0], "Diff: core.axiom vs soul.law.i");
    assert_eq!(diff_lines(&graph, "core"), vec!["Need exactly 2 entities matching 'core' for diff. Found 1."]);
    assert_eq!(diff_lines(&graph, "zzz"), vec!["Need exactly 2 entities matching 'zzz' for diff. Found 0."]);
}

#[test]
fn diff_without_differences() {
    let src = "axiom \"a1\" { version \"1.0\" evidence { analogy { domain \"d\" mapping \"m\" } } }\n\
               axiom \"a2\" { version \"1.0\" evidence { analogy { domain \"d\" mapping \"m\" } } }";
    let graph = compile_graph(&sources(src)).unwrap();
    let lines = diff_lines(&graph, "a");
    assert_eq!(lines[0], "Diff: a1 vs a2");
    assert_eq!(lines.last().unwrap(), "  (no differences found)");
}
