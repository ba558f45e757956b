use vdl::error::{SourceLocation, VdlError};
use vdl::parser::error::ParseError;
use vdl::lexer::lex;
use vdl::lexer::token::Token;
use vdl::lexer::Span;
use vdl::parser::ast::{EntityType, RelationshipType};
use vdl::parser::parse;

fn sp(line: usize, col: usize) -> Span {
    Span::new(0, 0, line, col)
}

fn property<'a>(props: &'a [(String, String)], key: &str) -> Option<&'a String> {
    props.iter().find(|(k, _)| k == key).map(|(_, v)| v)
}

#[test]
fn test_parse_simple_axiom() {
    let tokens = vec![
        (Token::Axiom, sp(1, 1)),
        (Token::String("test-axiom".to_string()), sp(1, 6)),
        (Token::LBrace, sp(1, 19)),
        (Token::RBrace, sp(1, 20)),
    ];
    let module = parse(&tokens, "", "test.vdl").unwrap();
    assert_eq!(module.entities.len(), 1);
    let entity = &module.entities[0];
    assert_eq!(entity.id, "test-axiom");
    assert_eq!(entity.entity_type, EntityType::Axiom);
    assert_eq!(entity.version, "");
    assert_eq!(entity.title, "");
    assert_eq!(entity.description, "");
    assert!(entity.properties.is_empty());
    assert!(entity.relationships.is_empty());
    assert!(entity.evidence.is_none());
    assert!(entity.annotations.is_empty());
}

#[test]
fn test_parse_all_relationships() {
    let tokens = vec![
        (Token::Axiom, sp(1, 1)),
        (Token::String("rel-axiom".to_string()), sp(1, 6)),
        (Token::LBrace, sp(1, 18)),
        (Token::Requires, sp(2, 1)),
        (Token::LBracket, sp(2, 9)),
        (Token::String("a".to_string()), sp(2, 11)),
        (Token::RBracket, sp(2, 15)),
        (Token::Enables, sp(3, 1)),
        (Token::LBracket, sp(3, 8)),
        (Token::String("b".to_string()), sp(3, 10)),
        (Token::Comma, sp(3, 13)),
        (Token::String("c".to_string()), sp(3, 15)),
        (Token::RBracket, sp(3, 19)),
        (Token::References, sp(4, 1)),
        (Token::LBracket, sp(4, 11)),
        (Token::String("d".to_string()), sp(4, 13)),
        (Token::RBracket, sp(4, 17)),
        (Token::BasedOn, sp(5, 1)),
        (Token::LBracket, sp(5, 10)),
        (Token::String("e".to_string()), sp(5, 12)),
        (Token::RBracket, sp(5, 16)),
        (Token::DerivesFrom, sp(6, 1)),
        (Token::LBracket, sp(6, 13)),
        (Token::String("f".to_string()), sp(6, 15)),
        (Token::RBracket, sp(6, 19)),
        (Token::Implements, sp(7, 1)),
        (Token::LBracket, sp(7, 11)),
        (Token::String("g".to_string()), sp(7, 13)),
        (Token::RBracket, sp(7, 17)),
        (Token::InspiredBy, sp(8, 1)),
        (Token::LBracket, sp(8, 12)),
        (Token::String("h".to_string()), sp(8, 14)),
        (Token::RBracket, sp(8, 18)),
        (Token::EvolvedFrom, sp(9, 1)),
        (Token::LBracket, sp(9, 13)),
        (Token::String("i".to_string()), sp(9, 15)),
        (Token::RBracket, sp(9, 19)),
        (Token::Contradicts, sp(10, 1)),
        (Token::LBracket, sp(10, 12)),
        (Token::String("j".to_string()), sp(10, 14)),
        (Token::RBracket, sp(10, 18)),
        (Token::RBrace, sp(11, 1)),
    ];
    let module = parse(&tokens, "", "test.vdl").unwrap();
    assert_eq!(module.entities.len(), 1);
    let entity = &module.entities[0];
    assert_eq!(entity.relationships.len(), 10);

    let expected = vec![
        (RelationshipType::Requires, "a"),
        (RelationshipType::Enables, "b"),
        (RelationshipType::Enables, "c"),
        (RelationshipType::References, "d"),
        (RelationshipType::BasedOn, "e"),
        (RelationshipType::DerivesFrom, "f"),
        (RelationshipType::Implements, "g"),
        (RelationshipType::InspiredBy, "h"),
        (RelationshipType::EvolvedFrom, "i"),
        (RelationshipType::Contradicts, "j"),
    ];
    for (i, (rel, target)) in expected.iter().enumerate() {
        assert_eq!(entity.relationships[i].rel_type, *rel);
        assert_eq!(entity.relationships[i].target_id, *target);
    }
}

#[test]
fn test_parse_full_evidence_block() {
    let tokens = vec![
        (Token::Axiom, sp(1, 1)),
        (Token::String("ev-axiom".to_string()), sp(1, 6)),
        (Token::LBrace, sp(1, 17)),
        (Token::Evidence, sp(2, 1)),
        (Token::LBrace, sp(2, 10)),
        (Token::Revelation, sp(3, 1)),
        (Token::LBrace, sp(3, 12)),
        (Token::Source, sp(3, 14)),
        (Token::String("src1".to_string()), sp(3, 21)),
        (Token::Text, sp(3, 28)),
        (Token::String("txt1".to_string()), sp(3, 33)),
        (Token::RBrace, sp(3, 40)),
        (Token::Synthesis, sp(4, 1)),
        (Token::LBrace, sp(4, 12)),
        (Token::Sources, sp(4, 14)),
        (Token::LBracket, sp(4, 22)),
        (Token::String("src2".to_string()), sp(4, 24)),
        (Token::RBracket, sp(4, 31)),
        (Token::Argument, sp(4, 33)),
        (Token::String("arg1".to_string()), sp(4, 40)),
        (Token::RBrace, sp(4, 47)),
        (Token::Analogy, sp(5, 1)),
        (Token::LBrace, sp(5, 10)),
        (Token::Domain, sp(5, 12)),
        (Token::String("dom1".to_string()), sp(5, 19)),
        (Token::Mapping, sp(5, 26)),
        (Token::String("map1".to_string()), sp(5, 33)),
        (Token::RBrace, sp(5, 40)),
        (Token::RBrace, sp(6, 1)),
        (Token::RBrace, sp(7, 1)),
    ];
    let module = parse(&tokens, "", "test.vdl").unwrap();
    assert_eq!(module.entities.len(), 1);
    let entity = &module.entities[0];
    let evidence = entity.evidence.as_ref().unwrap();
    assert_eq!(evidence.revelations.len(), 1);
    assert_eq!(evidence.revelations[0].source, "src1");
    assert_eq!(evidence.revelations[0].text, "txt1");
    assert_eq!(evidence.revelations[0].translator, None);
    assert_eq!(evidence.syntheses.len(), 1);
    assert_eq!(evidence.syntheses[0].sources, vec!["src2"]);
    assert_eq!(evidence.syntheses[0].argument, "arg1");
    assert_eq!(evidence.analogies.len(), 1);
    assert_eq!(evidence.analogies[0].domain, "dom1");
    assert_eq!(evidence.analogies[0].mapping, "map1");
}

#[test]
fn test_parse_multiple_entities_with_annotations() {
    let tokens = vec![
        (Token::Annotation("author".to_string(), "test".to_string()), sp(1, 1)),
        (Token::Axiom, sp(2, 1)),
        (Token::String("ax1".to_string()), sp(2, 6)),
        (Token::LBrace, sp(2, 12)),
        (Token::Version, sp(3, 1)),
        (Token::String("1.0".to_string()), sp(3, 9)),
        (Token::Title, sp(4, 1)),
        (Token::String("First".to_string()), sp(4, 6)),
        (Token::RBrace, sp(5, 1)),
        (Token::Annotation("status".to_string(), "draft".to_string()), sp(6, 1)),
        (Token::Law, sp(7, 1)),
        (Token::String("law1".to_string()), sp(7, 5)),
        (Token::LBrace, sp(7, 12)),
        (Token::Description, sp(8, 1)),
        (Token::String("A law".to_string()), sp(8, 12)),
        (Token::RBrace, sp(9, 1)),
    ];
    let module = parse(&tokens, "", "test.vdl").unwrap();
    assert_eq!(module.entities.len(), 2);

    let e1 = &module.entities[0];
    assert_eq!(e1.id, "ax1");
    assert_eq!(e1.entity_type, EntityType::Axiom);
    assert_eq!(e1.version, "1.0");
    assert_eq!(e1.title, "First");
    assert_eq!(e1.annotations.len(), 1);
    assert_eq!(e1.annotations[0].name, "author");
    assert_eq!(e1.annotations[0].value, "test");

    let e2 = &module.entities[1];
    assert_eq!(e2.id, "law1");
    assert_eq!(e2.entity_type, EntityType::Law);
    assert_eq!(e2.description, "A law");
    assert_eq!(e2.annotations.len(), 1);
    assert_eq!(e2.annotations[0].name, "status");
    assert_eq!(e2.annotations[0].value, "draft");
}

#[test]
fn test_parse_previous_property() {
    let tokens = vec![
        (Token::Concept, sp(1, 1)),
        (Token::String("c1".to_string()), sp(1, 8)),
        (Token::LBrace, sp(1, 13)),
        (Token::Previous, sp(2, 1)),
        (Token::String("c0".to_string()), sp(2, 10)),
        (Token::RBrace, sp(2, 15)),
    ];
    let module = parse(&tokens, "", "test.vdl").unwrap();
    assert_eq!(property(&module.entities[0].properties, "previous"), Some(&"c0".to_string()));
}

#[test]
fn test_parse_revelation_with_translator() {
    let tokens = vec![
        (Token::Axiom, sp(1, 1)),
        (Token::String("tr-axiom".to_string()), sp(1, 6)),
        (Token::LBrace, sp(1, 17)),
        (Token::Evidence, sp(2, 1)),
        (Token::LBrace, sp(2, 10)),
        (Token::Revelation, sp(3, 1)),
        (Token::LBrace, sp(3, 12)),
        (Token::Source, sp(3, 14)),
        (Token::String("src".to_string()), sp(3, 21)),
        (Token::Text, sp(3, 28)),
        (Token::String("txt".to_string()), sp(3, 33)),
        (Token::Translator, sp(3, 40)),
        (Token::String("tr".to_string()), sp(3, 51)),
        (Token::RBrace, sp(3, 56)),
        (Token::RBrace, sp(4, 1)),
        (Token::RBrace, sp(5, 1)),
    ];
    let module = parse(&tokens, "", "test.vdl").unwrap();
    let entity = &module.entities[0];
    let evidence = entity.evidence.as_ref().unwrap();
    assert_eq!(evidence.revelations[0].translator, Some("tr".to_string()));
}

#[test]
fn test_error_missing_brace() {
    let tokens = vec![
        (Token::Axiom, sp(1, 1)),
        (Token::String("bad".to_string()), sp(1, 6)),
        (Token::LBrace, sp(1, 12)),
    ];
    assert!(parse(&tokens, "", "test.vdl").is_err());
}

#[test]
fn test_error_unknown_property() {
    let tokens = vec![
        (Token::Axiom, sp(1, 1)),
        (Token::String("bad".to_string()), sp(1, 6)),
        (Token::LBrace, sp(1, 12)),
        (Token::Source, sp(2, 1)),
        (Token::String("x".to_string()), sp(2, 8)),
        (Token::RBrace, sp(2, 12)),
    ];
    assert!(parse(&tokens, "", "test.vdl").is_err());
}

// Own tests.

fn parse_source(src: &str) -> Result<vdl::parser::ast::Module, VdlError> {
    let tokens = lex(src, "doc.vdl").unwrap();
    parse(&tokens, src, "doc.vdl")
}

#[test]
fn parse_error_reports_token_location_and_expectation() {
    let tokens = vec![
        (Token::Axiom, sp(1, 1)),
        (Token::String("bad".to_string()), sp(1, 6)),
        (Token::LBrace, sp(1, 12)),
        (Token::Source, sp(2, 1)),
    ];
    match parse(&tokens, "", "test.vdl").unwrap_err() {
        VdlError::Parser { location, message } => {
            assert_eq!((location.line, location.column), (2, 1));
            assert_eq!(
                message,
                "unexpected 'source', expected a property, a relationship, an evidence block or '}'"
            );
        }
        _ => panic!("expected parser error"),
    }
}

#[test]
fn parse_error_at_end_of_input_is_after_last_token() {
    let tokens = vec![
        (Token::Axiom, sp(1, 1)),
        (Token::String("bad".to_string()), sp(1, 6)),
        (Token::LBrace, sp(1, 12)),
    ];
    match parse(&tokens, "", "test.vdl").unwrap_err() {
        VdlError::Parser { location, message } => {
            assert_eq!((location.line, location.column), (1, 12));
            assert_eq!(
                message,
                "unexpected end of input, expected a property, a relationship, an evidence block or '}'"
            );
        }
        _ => panic!("expected parser error"),
    }
}

#[test]
fn parse_locations_come_from_source_offsets() {
    let src = "@author(\"me\")\naxiom \"a\" {\n  requires [ \"b\", ]\n}\n";
    let module = parse_source(src).unwrap();
    let e = &module.entities[0];
    assert_eq!((e.source_location.line, e.source_location.column), (1, 1));
    assert_eq!((e.annotations[0].source_location.line, e.annotations[0].source_location.column), (1, 1));
    assert_eq!(e.relationships.len(), 1);
    assert_eq!((e.relationships[0].source_location.line, e.relationships[0].source_location.column), (3, 3));
    assert_eq!(e.source_location.file, "doc.vdl");
}

#[test]
fn later_property_replaces_earlier() {
    let src = "concept \"c\" { title \"one\" title \"two\" previous \"p1\" previous \"p2\" }";
    let module = parse_source(src).unwrap();
    let e = &module.entities[0];
    assert_eq!(e.title, "two");
    assert_eq!(e.properties, vec![("previous".to_string(), "p2".to_string())]);
}

#[test]
fn empty_list_and_trailing_comma_parse() {
    let src = "concept \"c\" { requires [ ] enables [ \"x\", \"y\", ] }";
    let module = parse_source(src).unwrap();
    let rels = &module.entities[0].relationships;
    assert_eq!(rels.len(), 2);
    assert_eq!(rels[0].target_id, "x");
    assert_eq!(rels[1].target_id, "y");
}

#[test]
fn lone_comma_in_list_is_an_error() {
    let src = "concept \"c\" { requires [ , ] }";
    match parse_source(src).unwrap_err() {
        VdlError::Parser { message, .. } => {
            assert_eq!(message, "unexpected ',', expected a string or ']'");
        }
        _ => panic!("expected parser error"),
    }
}

#[test]
fn trailing_tokens_after_entities_are_an_error() {
    let src = "concept \"c\" { } \"stray\"";
    match parse_source(src).unwrap_err() {
        VdlError::Parser { location, message } => {
            assert_eq!(message, "unexpected '\"stray\"', expected an annotation or an entity type");
            assert_eq!((location.line, location.column), (1, 17));
        }
        _ => panic!("expected parser error"),
    }
}

#[test]
fn revelation_fields_in_order() {
    let src = "concept \"c\" { evidence { revelation { text \"t\" source \"s\" } } }";
    match parse_source(src).unwrap_err() {
        VdlError::Parser { message, .. } => {
            assert_eq!(message, "unexpected 'text', expected 'source'");
        }
        _ => panic!("expected parser error"),
    }
}

#[test]
fn empty_token_stream_is_an_empty_module() {
    let tokens: Vec<(Token, Span)> = vec![];
    let module = parse(&tokens, "", "test.vdl").unwrap();
    assert!(module.entities.is_empty());
}

#[test]
fn parse_error_text() {
    let e = ParseError::MissingField { field: "title".to_string(), location: SourceLocation::new("a.vdl", 2, 4) };
    assert_eq!(e.message(), "Missing required field 'title' at a.vdl:2:4");
    let e = ParseError::UnexpectedToken { location: SourceLocation::new("a.vdl", 1, 1), message: "x".to_string() };
    assert_eq!(e.message(), "Unexpected token at a.vdl:1:1: x");
}
