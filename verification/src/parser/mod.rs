//! The parser: turns the lexer's tokens into the syntax tree of a module,
//! following the grammar of [`grammar`].
pub mod ast;
pub mod error;
pub mod grammar;
pub mod laws;

use crate::error::{SourceLocation, VdlError, VdlErrorView};
use crate::graph::index_map::{key_pos, map_put};
use crate::lexer::token::{token_text, Token, TokenView};
use crate::lexer::Span;
use crate::parser::ast::{
    properties_view, strings_view, Analogy, Annotation, Entity, EntityType, EntityView,
    EvidenceBlock, Module, Relationship, RelationshipType, Revelation, Synthesis,
};
use crate::parser::grammar::{
    empty_evidence, entity_type_of, error_location, error_message, expected_text, field_token,
    lemma_entity_advance,
    lemma_evidence_advance, lemma_evidence_items_advance, lemma_items_advance,
    lemma_text_pos_bounds, loc, p_analogy, p_annotations, p_body, p_entities,
    p_entity, p_evidence, p_evidence_items, p_field, p_items, p_list, p_revelation, p_str,
    p_synthesis, parse_spec, rel_type_of, relationships_of, span_location, text_pos, tok,
    Expected, Field, ParseInput, Parsed,
};
use vstd::prelude::*;
use vstd::string::StringSliceAdditionalSpecFns;

verus! {

broadcast use vstd::seq_lib::group_seq_properties;

/// What the parser reads from `tokens`, `source` and `file`.
pub open spec fn input_of(tokens: Seq<(Token, Span)>, src: Seq<u8>, file: Seq<char>) -> ParseInput {
    ParseInput { ts: tokens.map_values(|p: (Token, Span)| (p.0@, p.1)), src, file }
}

/// Whether an executable parse outcome is `p`, its value seen through `f`.
pub open spec fn same_outcome<A, B>(
    r: Result<(A, usize), (usize, Expected)>,
    p: Parsed<B>,
    f: spec_fn(A) -> B,
) -> bool {
    match r {
        Ok((a, j)) => p == Parsed::Done(f(a), j as int),
        Err((q, e)) => p == Parsed::<B>::Failed(q as int, e),
    }
}

/// Converts a byte offset in the source to a 1-based line and column.
fn byte_offset_to_line_col(source: &str, offset: usize) -> (r: (usize, usize))
    requires
        source.spec_bytes().len() < usize::MAX,
    ensures
        (r.0 as int, r.1 as int) == text_pos(source.spec_bytes(), offset as int),
{
    let bytes = source.as_bytes();
    let ghost b = bytes@;
    let n = if offset < bytes.len() {
        offset
    } else {
        bytes.len()
    };
    let mut i: usize = 0;
    let mut line: usize = 1;
    let mut col: usize = 1;
    while i < n
        invariant
            b == bytes@,
            b.len() < usize::MAX,
            i <= n <= b.len(),
            (line as int, col as int) == text_pos(b, i as int),
        decreases n - i,
    {
        proof {
            lemma_text_pos_bounds(b, i as int);
        }
        let c = bytes[i];
        if c == 10 {
            line = line + 1;
            col = 1;
        } else if 128 <= c && c < 192 {
        } else {
            col = col + 1;
        }
        i = i + 1;
    }
    (line, col)
}

/// The text of an expectation.
fn expected_str(e: Expected) -> (s: &'static str)
    ensures
        s@ == expected_text(e),
{
    match e {
        Expected::Str => "a string",
        Expected::ItemOrBracket => "a string or ']'",
        Expected::CommaOrBracket => "',' or ']'",
        Expected::LBracket => "'['",
        Expected::LBrace => "'{'",
        Expected::RBrace => "'}'",
        Expected::Keyword(Field::Source) => "'source'",
        Expected::Keyword(Field::Text) => "'text'",
        Expected::Keyword(Field::Argument) => "'argument'",
        Expected::Keyword(Field::Domain) => "'domain'",
        Expected::Keyword(Field::Mapping) => "'mapping'",
        Expected::Sources => "'sources'",
        Expected::TranslatorOrRBrace => "'translator' or '}'",
        Expected::EvidenceItem => "'revelation', 'synthesis', 'analogy' or '}'",
        Expected::BodyItem => "a property, a relationship, an evidence block or '}'",
        Expected::EntityStart => "an annotation or an entity type",
    }
}

/// Whether token `t` is the keyword of field `f`.
fn is_field(t: &Token, f: Field) -> (r: bool)
    ensures
        r == (t@ == field_token(f)),
{
    match (t, f) {
        (Token::Source, Field::Source) => true,
        (Token::Text, Field::Text) => true,
        (Token::Argument, Field::Argument) => true,
        (Token::Domain, Field::Domain) => true,
        (Token::Mapping, Field::Mapping) => true,
        _ => false,
    }
}

/// The entity type that a token names.
fn entity_type_token(t: &Token) -> (r: Option<EntityType>)
    ensures
        r == entity_type_of(t@),
{
    match t {
        Token::Axiom => Some(EntityType::Axiom),
        Token::Framework => Some(EntityType::Framework),
        Token::Law => Some(EntityType::Law),
        Token::Principle => Some(EntityType::Principle),
        Token::Concept => Some(EntityType::Concept),
        Token::Artifact => Some(EntityType::Artifact),
        Token::Pillar => Some(EntityType::Pillar),
        Token::Document => Some(EntityType::Document),
        Token::Project => Some(EntityType::Project),
        Token::Release => Some(EntityType::Release),
        Token::Persona => Some(EntityType::Persona),
        Token::Collection => Some(EntityType::Collection),
        _ => None,
    }
}

/// The relationship type that a token names.
fn rel_type_token(t: &Token) -> (r: Option<RelationshipType>)
    ensures
        r == rel_type_of(t@),
{
    match t {
        Token::Requires => Some(RelationshipType::Requires),
        Token::Enables => Some(RelationshipType::Enables),
        Token::References => Some(RelationshipType::References),
        Token::BasedOn => Some(RelationshipType::BasedOn),
        Token::DerivesFrom => Some(RelationshipType::DerivesFrom),
        Token::Implements => Some(RelationshipType::Implements),
        Token::InspiredBy => Some(RelationshipType::InspiredBy),
        Token::EvolvedFrom => Some(RelationshipType::EvolvedFrom),
        Token::Contradicts => Some(RelationshipType::Contradicts),
        _ => None,
    }
}

/// Sets `key` to `value`: a present key keeps its place, a new one goes last.
fn set_property(props: &mut Vec<(String, String)>, key: String, value: String)
    ensures
        properties_view(final(props)@) == map_put(properties_view(old(props)@), key@, value@),
{
    let ghost s = properties_view(props@);
    let mut found: Option<usize> = None;
    let mut i: usize = 0;
    while i < props.len()
        invariant
            s == properties_view(props@),
            i <= s.len(),
            match found {
                Some(k) => key_pos(s.take(i as int), key@) == k as int,
                None => key_pos(s.take(i as int), key@) == -1,
            },
        decreases s.len() - i,
    {
        proof {
            assert(s.take(i + 1).drop_last() =~= s.take(i as int));
        }
        if props[i].0 == key {
            found = Some(i);
        }
        i = i + 1;
    }
    assert(s.take(s.len() as int) =~= s);
    proof {
        crate::graph::index_map::lemma_key_pos(s, key@);
    }
    match found {
        Some(k) => {
            props.set(k, (key, value));
            assert(properties_view(props@) =~= map_put(s, key@, value@));
        },
        None => {
            props.push((key, value));
            assert(properties_view(props@) =~= map_put(s, key@, value@));
        },
    }
}

/// A recursive-descent parser over one token sequence.
struct TokenParser<'a> {
    tokens: &'a [(Token, Span)],
    source: &'a str,
    file: &'a str,
}

impl<'a> TokenParser<'a> {
    spec fn input(&self) -> ParseInput {
        input_of(self.tokens@, self.source.spec_bytes(), self.file@)
    }

    spec fn len(&self) -> int {
        self.tokens@.len() as int
    }

    spec fn wf(&self) -> bool {
        &&& self.source.spec_bytes().len() < usize::MAX
        &&& self.len() <= usize::MAX
    }

    /// The token at `i`, if there is one.
    fn at(&self, i: usize) -> (r: Option<&'a Token>)
        ensures
            r is Some <==> (i as int) < self.len(),
            self.input().ts.len() == self.len(),
            self.len() <= usize::MAX,
            match r {
                Some(t) => tok(self.input(), i as int) == Some(t@),
                None => tok(self.input(), i as int) is None,
            },
    {
        if i < self.tokens.len() {
            Some(&self.tokens[i].0)
        } else {
            None
        }
    }

    /// The location of the node whose first token is at `i`.
    fn location(&self, i: usize) -> (r: SourceLocation)
        requires
            self.wf(),
            i < self.len(),
        ensures
            r@ == loc(self.input(), i as int),
    {
        let (line, column) = byte_offset_to_line_col(self.source, self.tokens[i].1.start);
        SourceLocation::new(self.file, line, column)
    }

    /// The location of a span: its own line and column, or those of its
    /// start offset where it has none.
    fn span_location(&self, s: Span) -> (r: SourceLocation)
        requires
            self.wf(),
        ensures
            r@ == span_location(self.input(), s),
    {
        if s.line > 0 {
            SourceLocation::new(self.file, s.line, s.column)
        } else {
            let (line, column) = byte_offset_to_line_col(self.source, s.start);
            SourceLocation::new(self.file, line, column)
        }
    }

    /// The error for a failure at `p` with expectation `e`.
    fn error(&self, p: usize, e: Expected) -> (r: VdlError)
        requires
            self.wf(),
        ensures
            r@ == (VdlErrorView::Parser {
                location: error_location(self.input(), p as int),
                message: error_message(self.input(), p as int, e),
            }),
    {
        let n = self.tokens.len();
        if p < n {
            let location = self.span_location(self.tokens[p].1);
            let mut message = String::from_str("unexpected '");
            let text = token_text(&self.tokens[p].0);
            message.append(text.as_str());
            message.append("', expected ");
            message.append(expected_str(e));
            VdlError::Parser { location, message }
        } else {
            let location = if n > 0 {
                let s = self.tokens[n - 1].1;
                self.span_location(Span::new(s.end, s.end, s.line, s.column))
            } else {
                SourceLocation::new(self.file, 1, 1)
            };
            let mut message = String::from_str("unexpected end of input, expected ");
            message.append(expected_str(e));
            VdlError::Parser { location, message }
        }
    }

    /// A string token at `i`.
    fn string(&self, i: usize) -> (r: Result<(String, usize), (usize, Expected)>)
        ensures
            same_outcome(r, p_str(self.input(), i as int), |s: String| s@),
    {
        match self.at(i) {
            Some(Token::String(s)) => Ok((s.clone(), i + 1)),
            _ => Err((i, Expected::Str)),
        }
    }

    /// Field keyword `f` at `i` followed by a string.
    fn field(&self, i: usize, f: Field) -> (r: Result<(String, usize), (usize, Expected)>)
        ensures
            same_outcome(r, p_field(self.input(), i as int, f), |s: String| s@),
    {
        match self.at(i) {
            Some(t) => if is_field(t, f) {
                self.string(i + 1)
            } else {
                Err((i, Expected::Keyword(f)))
            },
            None => Err((i, Expected::Keyword(f))),
        }
    }

    /// A bracketed list of strings at `i`.
    fn list(&self, i: usize) -> (r: Result<(Vec<String>, usize), (usize, Expected)>)
        ensures
            same_outcome(r, p_list(self.input(), i as int), |v: Vec<String>| strings_view(v@)),
    {
        let ghost c = self.input();
        match self.at(i) {
            Some(Token::LBracket) => {},
            _ => {
                return Err((i, Expected::LBracket));
            },
        }
        let mut items: Vec<String> = Vec::new();
        let mut k: usize = i + 1;
        assert(strings_view(items@) =~= Seq::<Seq<char>>::empty());
        loop
            invariant
                c == self.input(),
                i < c.ts.len(),
                i < k <= c.ts.len(),
                p_items(c, k as int, strings_view(items@)) == p_list(c, i as int),
            decreases c.ts.len() - k,
        {
            match self.at(k) {
                Some(Token::RBracket) => {
                    return Ok((items, k + 1));
                },
                Some(Token::String(s)) => {
                    let ghost before = strings_view(items@);
                    items.push(s.clone());
                    assert(strings_view(items@) =~= before.push(s@));
                    match self.at(k + 1) {
                        Some(Token::Comma) => {
                            k = k + 2;
                        },
                        Some(Token::RBracket) => {
                            return Ok((items, k + 2));
                        },
                        _ => {
                            return Err((k + 1, Expected::CommaOrBracket));
                        },
                    }
                },
                _ => {
                    return Err((k, Expected::ItemOrBracket));
                },
            }
        }
    }

    /// A revelation whose keyword is at `i`.
    fn revelation(&self, i: usize) -> (r: Result<(Revelation, usize), (usize, Expected)>)
        requires
            self.wf(),
            tok(self.input(), i as int) == Some(TokenView::Revelation),
        ensures
            same_outcome(r, p_revelation(self.input(), i as int), |v: Revelation| v@),
    {
        match self.at(i + 1) {
            Some(Token::LBrace) => {},
            _ => {
                return Err((i + 1, Expected::LBrace));
            },
        }
        let (source, j) = match self.field(i + 2, Field::Source) {
            Ok(x) => x,
            Err(e) => {
                return Err(e);
            },
        };
        let (text, k) = match self.field(j, Field::Text) {
            Ok(x) => x,
            Err(e) => {
                return Err(e);
            },
        };
        match self.at(k) {
            Some(Token::RBrace) => {
                let location = self.location(i);
                Ok((Revelation { source, text, translator: None, source_location: location }, k + 1))
            },
            Some(Token::Translator) => {
                let (tr, m) = match self.string(k + 1) {
                    Ok(x) => x,
                    Err(e) => {
                        return Err(e);
                    },
                };
                match self.at(m) {
                    Some(Token::RBrace) => {
                        let location = self.location(i);
                        Ok(
                            (
                                Revelation {
                                    source,
                                    text,
                                    translator: Some(tr),
                                    source_location: location,
                                },
                                m + 1,
                            ),
                        )
                    },
                    _ => Err((m, Expected::RBrace)),
                }
            },
            _ => Err((k, Expected::TranslatorOrRBrace)),
        }
    }

    /// A synthesis whose keyword is at `i`.
    fn synthesis(&self, i: usize) -> (r: Result<(Synthesis, usize), (usize, Expected)>)
        requires
            self.wf(),
            tok(self.input(), i as int) == Some(TokenView::Synthesis),
        ensures
            same_outcome(r, p_synthesis(self.input(), i as int), |v: Synthesis| v@),
    {
        match self.at(i + 1) {
            Some(Token::LBrace) => {},
            _ => {
                return Err((i + 1, Expected::LBrace));
            },
        }
        match self.at(i + 2) {
            Some(Token::Sources) => {},
            _ => {
                return Err((i + 2, Expected::Sources));
            },
        }
        let (sources, j) = match self.list(i + 3) {
            Ok(x) => x,
            Err(e) => {
                return Err(e);
            },
        };
        let (argument, k) = match self.field(j, Field::Argument) {
            Ok(x) => x,
            Err(e) => {
                return Err(e);
            },
        };
        match self.at(k) {
            Some(Token::RBrace) => {
                let location = self.location(i);
                Ok((Synthesis { sources, argument, source_location: location }, k + 1))
            },
            _ => Err((k, Expected::RBrace)),
        }
    }

    /// An analogy whose keyword is at `i`.
    fn analogy(&self, i: usize) -> (r: Result<(Analogy, usize), (usize, Expected)>)
        requires
            self.wf(),
            tok(self.input(), i as int) == Some(TokenView::Analogy),
        ensures
            same_outcome(r, p_analogy(self.input(), i as int), |v: Analogy| v@),
    {
        match self.at(i + 1) {
            Some(Token::LBrace) => {},
            _ => {
                return Err((i + 1, Expected::LBrace));
            },
        }
        let (domain, j) = match self.field(i + 2, Field::Domain) {
            Ok(x) => x,
            Err(e) => {
                return Err(e);
            },
        };
        let (mapping, k) = match self.field(j, Field::Mapping) {
            Ok(x) => x,
            Err(e) => {
                return Err(e);
            },
        };
        match self.at(k) {
            Some(Token::RBrace) => {
                let location = self.location(i);
                Ok((Analogy { domain, mapping, source_location: location }, k + 1))
            },
            _ => Err((k, Expected::RBrace)),
        }
    }

    /// An evidence block whose keyword is at `i`.
    fn evidence(&self, i: usize) -> (r: Result<(EvidenceBlock, usize), (usize, Expected)>)
        requires
            self.wf(),
            tok(self.input(), i as int) == Some(TokenView::Evidence),
        ensures
            same_outcome(r, p_evidence(self.input(), i as int), |v: EvidenceBlock| v@),
    {
        let ghost c = self.input();
        match self.at(i + 1) {
            Some(Token::LBrace) => {},
            _ => {
                return Err((i + 1, Expected::LBrace));
            },
        }
        let mut block = EvidenceBlock {
            revelations: Vec::new(),
            syntheses: Vec::new(),
            analogies: Vec::new(),
        };
        assert(block@.revelations =~= empty_evidence().revelations);
        assert(block@.syntheses =~= empty_evidence().syntheses);
        assert(block@.analogies =~= empty_evidence().analogies);
        let mut k: usize = i + 2;
        loop
            invariant
                c == self.input(),
                self.wf(),
                i + 2 <= k <= c.ts.len(),
                p_evidence_items(c, k as int, block@) == p_evidence(c, i as int),
            decreases c.ts.len() - k,
        {
            proof {
                lemma_evidence_items_advance(c, k as int);
            }
            let ghost before = block@;
            match self.at(k) {
                Some(Token::RBrace) => {
                    return Ok((block, k + 1));
                },
                Some(Token::Revelation) => {
                    match self.revelation(k) {
                        Ok((r, j)) => {
                            block.revelations.push(r);
                            assert(block@.revelations =~= before.revelations.push(r@));
                            k = j;
                        },
                        Err(e) => {
                            return Err(e);
                        },
                    }
                },
                Some(Token::Synthesis) => {
                    match self.synthesis(k) {
                        Ok((s, j)) => {
                            block.syntheses.push(s);
                            assert(block@.syntheses =~= before.syntheses.push(s@));
                            k = j;
                        },
                        Err(e) => {
                            return Err(e);
                        },
                    }
                },
                Some(Token::Analogy) => {
                    match self.analogy(k) {
                        Ok((a, j)) => {
                            block.analogies.push(a);
                            assert(block@.analogies =~= before.analogies.push(a@));
                            k = j;
                        },
                        Err(e) => {
                            return Err(e);
                        },
                    }
                },
                _ => {
                    return Err((k, Expected::EvidenceItem));
                },
            }
        }
    }

    /// The rest of an entity body from `i` on, filling in `e`.
    fn body(&self, i: usize, start: Entity) -> (r: Result<(Entity, usize), (usize, Expected)>)
        requires
            self.wf(),
            i <= self.len(),
        ensures
            same_outcome(r, p_body(self.input(), i as int, start@), |v: Entity| v@),
    {
        let ghost c = self.input();
        let ghost e0 = start@;
        let mut e = start;
        let mut k: usize = i;
        loop
            invariant
                c == self.input(),
                e0 == start@,
                self.wf(),
                i <= k <= c.ts.len(),
                p_body(c, k as int, e@) == p_body(c, i as int, e0),
            decreases c.ts.len() - k,
        {
            proof {
                lemma_items_advance(c, k + 2, seq![]);
                lemma_evidence_advance(c, k + 2, empty_evidence());
            }
            let ghost before = e@;
            match self.at(k) {
                Some(Token::RBrace) => {
                    return Ok((e, k + 1));
                },
                Some(Token::Version) => {
                    match self.string(k + 1) {
                        Ok((s, j)) => {
                            e.version = s;
                            k = j;
                        },
                        Err(x) => {
                            return Err(x);
                        },
                    }
                },
                Some(Token::Title) => {
                    match self.string(k + 1) {
                        Ok((s, j)) => {
                            e.title = s;
                            k = j;
                        },
                        Err(x) => {
                            return Err(x);
                        },
                    }
                },
                Some(Token::Description) => {
                    match self.string(k + 1) {
                        Ok((s, j)) => {
                            e.description = s;
                            k = j;
                        },
                        Err(x) => {
                            return Err(x);
                        },
                    }
                },
                Some(Token::Previous) => {
                    match self.string(k + 1) {
                        Ok((s, j)) => {
                            set_property(&mut e.properties, String::from_str("previous"), s);
                            k = j;
                        },
                        Err(x) => {
                            return Err(x);
                        },
                    }
                },
                Some(Token::Evidence) => {
                    match self.evidence(k) {
                        Ok((b, j)) => {
                            e.evidence = Some(b);
                            k = j;
                        },
                        Err(x) => {
                            return Err(x);
                        },
                    }
                },
                Some(t) => {
                    match rel_type_token(t) {
                        Some(rt) => {
                            match self.list(k + 1) {
                                Ok((targets, j)) => {
                                    let location = self.location(k);
                                    let ghost tv = strings_view(targets@);
                                    let ghost l = location@;
                                    let mut q: usize = 0;
                                    while q < targets.len()
                                        invariant
                                            tv == strings_view(targets@),
                                            l == location@,
                                            q <= tv.len(),
                                            e@ == (EntityView {
                                                relationships: before.relationships
                                                    + relationships_of(tv.take(q as int), rt, l),
                                                ..before
                                            }),
                                        decreases tv.len() - q,
                                    {
                                        let ghost rels = e@.relationships;
                                        let rel = Relationship {
                                            rel_type: rt,
                                            target_id: targets[q].clone(),
                                            source_location: location.clone(),
                                        };
                                        assert(rel@ == (crate::parser::ast::RelationshipView {
                                            rel_type: rt,
                                            target_id: tv[q as int],
                                            location: l,
                                        }));
                                        e.relationships.push(rel);
                                        assert(e@.relationships =~= rels.push(rel@));
                                        assert(relationships_of(tv.take(q + 1), rt, l)
                                            =~= relationships_of(tv.take(q as int), rt, l).push(
                                            crate::parser::ast::RelationshipView {
                                                rel_type: rt,
                                                target_id: tv[q as int],
                                                location: l,
                                            },
                                        ));
                                        assert(e@.relationships =~= before.relationships
                                            + relationships_of(tv.take(q + 1), rt, l));
                                        q = q + 1;
                                    }
                                    assert(tv.take(tv.len() as int) =~= tv);
                                    k = j;
                                },
                                Err(x) => {
                                    return Err(x);
                                },
                            }
                        },
                        None => {
                            return Err((k, Expected::BodyItem));
                        },
                    }
                },
                None => {
                    return Err((k, Expected::BodyItem));
                },
            }
        }
    }

    /// Whether the token at `i` is an annotation.
    fn annotation_at(&self, i: usize) -> (r: bool)
        ensures
            r == (tok(self.input(), i as int) matches Some(TokenView::Annotation(_, _))),
    {
        match self.at(i) {
            Some(Token::Annotation(_, _)) => true,
            _ => false,
        }
    }

    /// An entity whose first token is at `i`.
    fn entity(&self, i: usize) -> (r: Result<(Entity, usize), (usize, Expected)>)
        requires
            self.wf(),
            i < self.len(),
        ensures
            same_outcome(r, p_entity(self.input(), i as int), |v: Entity| v@),
    {
        let ghost c = self.input();
        let mut annotations: Vec<Annotation> = Vec::new();
        let mut j: usize = i;
        assert(annotations@.map_values(|a: Annotation| a@) =~= Seq::<crate::parser::ast::AnnotationView>::empty());
        while self.annotation_at(j)
            invariant
                c == self.input(),
                self.wf(),
                i <= j <= c.ts.len(),
                i < c.ts.len(),
                p_annotations(c, j as int, annotations@.map_values(|a: Annotation| a@))
                    == p_annotations(c, i as int, seq![]),
            decreases c.ts.len() - j,
        {
            match self.at(j) {
                Some(Token::Annotation(name, value)) => {
                    let ghost before = annotations@.map_values(|a: Annotation| a@);
                    let location = self.location(j);
                    annotations.push(
                        Annotation { name: name.clone(), value: value.clone(), source_location: location },
                    );
                    assert(annotations@.map_values(|a: Annotation| a@) =~= before.push(
                        crate::parser::ast::AnnotationView { name: name@, value: value@, location: loc(c, j as int) },
                    ));
                },
                _ => {},
            }
            j = j + 1;
        }
        let entity_type = match self.at(j) {
            Some(t) => match entity_type_token(t) {
                Some(et) => et,
                None => {
                    return Err((j, Expected::EntityStart));
                },
            },
            None => {
                return Err((j, Expected::EntityStart));
            },
        };
        let (id, k) = match self.string(j + 1) {
            Ok(x) => x,
            Err(x) => {
                return Err(x);
            },
        };
        match self.at(k) {
            Some(Token::LBrace) => {},
            _ => {
                return Err((k, Expected::LBrace));
            },
        }
        let location = self.location(i);
        let e = Entity {
            id,
            entity_type,
            version: String::new(),
            title: String::new(),
            description: String::new(),
            properties: Vec::new(),
            relationships: Vec::new(),
            evidence: None,
            annotations,
            source_location: location,
        };
        proof {
            assert(e@.properties =~= Seq::<(Seq<char>, Seq<char>)>::empty());
            assert(e@.relationships =~= Seq::<crate::parser::ast::RelationshipView>::empty());
        }
        self.body(k + 1, e)
    }
}

/// Parses a token stream into a module, following the grammar of
/// [`grammar`]: every entity up to the end of input, or the first syntax
/// error, reported as [`VdlError::Parser`] at the offending token (or just
/// past the last token) with what was expected there.
pub fn parse(tokens: &[(Token, Span)], source: &str, file: &str) -> (r: Result<Module, VdlError>)
    requires
        source.spec_bytes().len() < usize::MAX,
    ensures
        ({
            let c = input_of(tokens@, source.spec_bytes(), file@);
            match parse_spec(c) {
                Ok(es) => r matches Ok(m) && m@ == es,
                Err((p, e)) => r matches Err(err) && err@ == (VdlErrorView::Parser {
                    location: error_location(c, p),
                    message: error_message(c, p, e),
                }),
            }
        }),
{
    let ghost c = input_of(tokens@, source.spec_bytes(), file@);
    let n = tokens.len();
    let parser = TokenParser { tokens, source, file };
    let mut entities: Vec<Entity> = Vec::new();
    let mut k: usize = 0;
    assert(entities@.map_values(|e: Entity| e@) =~= Seq::<EntityView>::empty());
    while k < n
        invariant
            c == parser.input(),
            c == input_of(tokens@, source.spec_bytes(), file@),
            parser.wf(),
            n == c.ts.len(),
            k <= n,
            p_entities(c, k as int, entities@.map_values(|e: Entity| e@)) == parse_spec(c),
        decreases n - k,
    {
        proof {
            lemma_entity_advance(c, k as int);
        }
        match parser.entity(k) {
            Ok((e, j)) => {
                let ghost before = entities@.map_values(|e: Entity| e@);
                entities.push(e);
                assert(entities@.map_values(|e: Entity| e@) =~= before.push(e@));
                k = j;
            },
            Err((p, x)) => {
                return Err(parser.error(p, x));
            },
        }
    }
    let m = Module { entities };
    assert(m@ == entities@.map_values(|e: Entity| e@));
    Ok(m)
}

} // verus!
