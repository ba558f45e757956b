use vdl::error::VdlError;
use vdl::lexer::lex;
use vdl::lexer::token::{token_text, Token};
use vdl::lexer::Span;

fn tokens(result: Result<Vec<(Token, Span)>, VdlError>) -> Vec<Token> {
    result.unwrap().into_iter().map(|(t, _)| t).collect()
}

fn test_file() -> &'static str {
    "test.vdl"
}

#[test]
fn entity_keywords() {
    let src = "axiom framework law principle concept artifact pillar document project release persona collection";
    assert_eq!(
        tokens(lex(src, test_file())),
        vec![
            Token::Axiom,
            Token::Framework,
            Token::Law,
            Token::Principle,
            Token::Concept,
            Token::Artifact,
            Token::Pillar,
            Token::Document,
            Token::Project,
            Token::Release,
            Token::Persona,
            Token::Collection,
        ]
    );
}

#[test]
fn property_keywords() {
    let src = "version title description previous";
    assert_eq!(
        tokens(lex(src, test_file())),
        vec![Token::Version, Token::Title, Token::Description, Token::Previous,]
    );
}

#[test]
fn relationship_keywords() {
    let src = "requires enables references based_on derives_from implements inspired_by evolved_from contradicts";
    assert_eq!(
        tokens(lex(src, test_file())),
        vec![
            Token::Requires,
            Token::Enables,
            Token::References,
            Token::BasedOn,
            Token::DerivesFrom,
            Token::Implements,
            Token::InspiredBy,
            Token::EvolvedFrom,
            Token::Contradicts,
        ]
    );
}

#[test]
fn evidence_keywords() {
    let src = "evidence revelation synthesis analogy source text translator sources argument domain mapping";
    assert_eq!(
        tokens(lex(src, test_file())),
        vec![
            Token::Evidence,
            Token::Revelation,
            Token::Synthesis,
            Token::Analogy,
            Token::Source,
            Token::Text,
            Token::Translator,
            Token::Sources,
            Token::Argument,
            Token::Domain,
            Token::Mapping,
        ]
    );
}

#[test]
fn longest_keyword_wins() {
    let src = "sources source";
    assert_eq!(tokens(lex(src, test_file())), vec![Token::Sources, Token::Source]);
}

#[test]
fn string_literal_simple() {
    let src = r#""hello world""#;
    assert_eq!(tokens(lex(src, test_file())), vec![Token::String("hello world".into())]);
}

#[test]
fn string_literal_escapes() {
    let src = r#""quote: \" and backslash: \\ " "#;
    assert_eq!(
        tokens(lex(src, test_file())),
        vec![Token::String("quote: \" and backslash: \\ ".into())]
    );
}

#[test]
fn string_literal_multiline() {
    let src = "\"line one\nline two\nline three\"";
    let toks = tokens(lex(src, test_file()));
    assert_eq!(toks.len(), 1);
    if let Token::String(s) = &toks[0] {
        assert_eq!(s, "line one\nline two\nline three");
    } else {
        panic!("expected string token");
    }
}

#[test]
fn string_literal_with_newline_escape() {
    let src = r#""hello\nworld""#;
    assert_eq!(tokens(lex(src, test_file())), vec![Token::String("hello\nworld".into())]);
}

#[test]
fn string_literal_with_tab_escape() {
    let src = r#""hello\tworld""#;
    assert_eq!(tokens(lex(src, test_file())), vec![Token::String("hello\tworld".into())]);
}

#[test]
fn annotation_simple() {
    let src = r#"@stable("v1.0")"#;
    assert_eq!(
        tokens(lex(src, test_file())),
        vec![Token::Annotation("stable".into(), "v1.0".into())]
    );
}

#[test]
fn annotation_with_escapes() {
    let src = r#"@note("say \"hello\"")"#;
    assert_eq!(
        tokens(lex(src, test_file())),
        vec![Token::Annotation("note".into(), "say \"hello\"".into())]
    );
}

#[test]
fn line_comment_skipped() {
    let src = "axiom // this is a comment\nframework";
    assert_eq!(tokens(lex(src, test_file())), vec![Token::Axiom, Token::Framework]);
}

#[test]
fn block_comment_skipped() {
    let src = "axiom /* block\ncomment */ framework";
    assert_eq!(tokens(lex(src, test_file())), vec![Token::Axiom, Token::Framework]);
}

#[test]
fn comment_at_end_of_file() {
    let src = "axiom // trailing comment";
    assert_eq!(tokens(lex(src, test_file())), vec![Token::Axiom]);
}

#[test]
fn block_comment_at_end_of_file() {
    let src = "axiom /* trailing block */";
    assert_eq!(tokens(lex(src, test_file())), vec![Token::Axiom]);
}

#[test]
fn delimiters() {
    let src = "{ } [ ] ,";
    assert_eq!(
        tokens(lex(src, test_file())),
        vec![Token::LBrace, Token::RBrace, Token::LBracket, Token::RBracket, Token::Comma,]
    );
}

#[test]
fn span_tracking() {
    let src = "axiom\n  framework";
    let result = lex(src, test_file()).unwrap();
    assert_eq!(result.len(), 2);
    assert_eq!(result[0].1, Span::new(0, 5, 1, 1));
    assert_eq!(result[1].1, Span::new(8, 17, 2, 3));
}

#[test]
fn error_unterminated_string() {
    let src = r#""hello"#;
    let err = lex(src, test_file()).unwrap_err();
    match err {
        VdlError::Lexer { location: _location, message } => {
            assert!(message.contains("unterminated string literal"));
        }
        _ => panic!("expected lexer error"),
    }
}

#[test]
fn error_unknown_word() {
    let src = "foobar";
    let err = lex(src, test_file()).unwrap_err();
    match err {
        VdlError::Lexer { location: _location, message } => {
            assert!(message.contains("unknown word: 'foobar'"));
        }
        _ => panic!("expected lexer error"),
    }
}

#[test]
fn error_unknown_character() {
    let src = "axiom #";
    let err = lex(src, test_file()).unwrap_err();
    match err {
        VdlError::Lexer { location: _location, message } => {
            assert!(message.contains("unknown character: '#'"));
        }
        _ => panic!("expected lexer error"),
    }
}

#[test]
fn error_unterminated_block_comment() {
    let src = "axiom /* unterminated";
    let err = lex(src, test_file()).unwrap_err();
    match err {
        VdlError::Lexer { location: _location, message } => {
            assert!(message.contains("unterminated block comment"));
        }
        _ => panic!("expected lexer error"),
    }
}

#[test]
fn error_unknown_escape_in_string() {
    let src = r#""hello\xworld""#;
    let err = lex(src, test_file()).unwrap_err();
    match err {
        VdlError::Lexer { location: _location, message } => {
            assert!(message.contains("unknown escape sequence"));
        }
        _ => panic!("expected lexer error"),
    }
}

#[test]
fn mixed_tokens() {
    let src = r#"
            axiom "My Axiom" {
                version "1.0"
                requires [ "Other" ]
            }
        "#;
    let toks = tokens(lex(src, test_file()));
    assert_eq!(
        toks,
        vec![
            Token::Axiom,
            Token::String("My Axiom".into()),
            Token::LBrace,
            Token::Version,
            Token::String("1.0".into()),
            Token::Requires,
            Token::LBracket,
            Token::String("Other".into()),
            Token::RBracket,
            Token::RBrace,
        ]
    );
}

#[test]
fn empty_source() {
    assert_eq!(tokens(lex("", test_file())), Vec::<Token>::new());
}

// Own tests.

#[test]
fn lexer_error_location_is_line_and_column() {
    let err = lex("axiom\n  #", "src.vdl").unwrap_err();
    match err {
        VdlError::Lexer { location, .. } => {
            assert_eq!(location.file, "src.vdl");
            assert_eq!(location.line, 2);
            assert_eq!(location.column, 3);
        }
        _ => panic!("expected lexer error"),
    }
}

#[test]
fn token_text_of_keywords_and_literals() {
    assert_eq!(token_text(&Token::DerivesFrom), "derives_from");
    assert_eq!(token_text(&Token::LBracket), "[");
    assert_eq!(token_text(&Token::String("x y".into())), "\"x y\"");
    assert_eq!(token_text(&Token::Annotation("a".into(), "b".into())), "@a(\"b\")");
    let tricky = "q\"b\\n\nt\tr\r\u{1}\u{7f}é";
    assert_eq!(token_text(&Token::String(tricky.into())), format!("{:?}", tricky));
}

#[test]
fn span_to_location_uses_line_and_column() {
    let loc = Span::new(4, 9, 3, 7).to_location("f.vdl");
    assert_eq!((loc.file.as_str(), loc.line, loc.column), ("f.vdl", 3, 7));
}

#[test]
fn string_literals_keep_non_ascii_characters() {
    let src = "\"é\\tΩ → 𝄞\" @by(\"Ibn Sīnā\")";
    let toks = lex(src, test_file()).unwrap();
    assert_eq!(toks[0].0, Token::String("é\tΩ → 𝄞".into()));
    assert_eq!(toks[1].0, Token::Annotation("by".into(), "Ibn Sīnā".into()));
    assert_eq!(toks[0].1, Span::new(0, "\"é\\tΩ → 𝄞\"".len(), 1, 1));
}

#[test]
fn comments_between_pieces_add_no_token() {
    let a = "axiom law {";
    let b = "version \"1.0\" }";
    let ta = lex(a, test_file()).unwrap();
    let tb = lex(b, test_file()).unwrap();
    for mid in [" /* a * b / c */ ", " // note\n"] {
        let src = format!("{}{}{}", a, mid, b);
        let shift = a.len() + mid.len();
        let mut expected: Vec<Token> = ta.iter().map(|(t, _)| t.clone()).collect();
        expected.extend(tb.iter().map(|(t, _)| t.clone()));
        let got = lex(&src, test_file()).unwrap();
        assert_eq!(got.iter().map(|(t, _)| t.clone()).collect::<Vec<_>>(), expected);
        let starts: Vec<usize> = got.iter().map(|(_, s)| s.start).collect();
        let mut want: Vec<usize> = ta.iter().map(|(_, s)| s.start).collect();
        want.extend(tb.iter().map(|(_, s)| s.start + shift));
        assert_eq!(starts, want);
    }
}

#[test]
fn each_escape_stands_for_its_character() {
    for (c, e) in [('n', '\n'), ('t', '\t'), ('\\', '\\'), ('"', '"')] {
        let src = format!("\"hello\\{}world\"", c);
        assert_eq!(tokens(lex(&src, test_file())), vec![Token::String(format!("hello{}world", e))]);
    }
    match lex("\"ab\\qc\"", test_file()).unwrap_err() {
        VdlError::Lexer { location, message } => {
            assert_eq!(message, "unknown escape sequence: \\ q");
            assert_eq!((location.line, location.column), (1, 5));
        }
        _ => panic!("expected lexer error"),
    }
}

#[test]
fn one_word_lexes_to_its_keyword_or_is_refused() {
    let toks = lex("derives_from", test_file()).unwrap();
    assert_eq!(toks, vec![(Token::DerivesFrom, Span::new(0, 12, 1, 1))]);
    assert_eq!(token_text(&toks[0].0), "derives_from");
    match lex("lawful", test_file()).unwrap_err() {
        VdlError::Lexer { location, message } => {
            assert_eq!(message, "unknown word: 'lawful'");
            assert_eq!((location.line, location.column), (1, 1));
        }
        _ => panic!("expected lexer error"),
    }
}

#[test]
fn spans_count_lines_and_byte_columns() {
    let src = "axiom\n  law { \n\t}";
    let toks = lex(src, test_file()).unwrap();
    let spans: Vec<(usize, usize, usize)> = toks.iter().map(|(_, s)| (s.start, s.line, s.column)).collect();
    assert_eq!(spans, vec![(0, 1, 1), (8, 2, 3), (12, 2, 7), (16, 3, 2)]);
    for (t, s) in &toks {
        assert_eq!(&src[s.start..s.end], token_text(t));
    }
}

#[test]
fn written_literals_lex_back_to_their_tokens() {
    let cases = vec![
        Token::String("a\"b\\c\nd\te é → 𝄞".into()),
        Token::String(String::new()),
        Token::Annotation("source_2".into(), "Ibn \"Sīnā\"\n\tp. 3".into()),
        Token::DerivesFrom,
        Token::LBracket,
    ];
    for t in cases {
        let text = token_text(&t);
        assert_eq!(lex(&text, test_file()).unwrap(), vec![(t.clone(), Span::new(0, text.len(), 1, 1))]);
    }
}

#[test]
fn token_text_escapes_characters_outside_ascii_as_debug_does() {
    let text = "e\u{301} \u{200b} é \u{85} 𝄞 \u{e000}";
    assert_eq!(token_text(&Token::String(text.into())), format!("{:?}", text));
    assert_eq!(
        token_text(&Token::Annotation("n".into(), text.into())),
        format!("@n({:?})", text)
    );
}
