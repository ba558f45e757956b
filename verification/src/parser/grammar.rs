//! The grammar of VDL over tokens, stated as recursive-descent spec
//! functions: what a token sequence parses to, or where and why it fails.
//!
//! ```text
//! module      := entity* <end of input>
//! entity      := annotation* entity-type string '{' body-item* '}'
//! body-item   := ('version' | 'title' | 'description' | 'previous') string
//!              | relationship-keyword list
//!              | 'evidence' '{' (revelation | synthesis | analogy)* '}'
//! list        := '[' (string (',' string)* ','?)? ']'
//! revelation  := 'revelation' '{' 'source' string 'text' string ('translator' string)? '}'
//! synthesis   := 'synthesis' '{' 'sources' list 'argument' string '}'
//! analogy     := 'analogy' '{' 'domain' string 'mapping' string '}'
//! ```
//!
//! Every node's location is the line and column of the first byte of its
//! first token, counted in the source text; a later `version`, `title`,
//! `description`, `previous` or evidence block replaces an earlier one,
//! and relationships accumulate in order.
use crate::error::SourceLocationView;
use crate::graph::index_map::map_put;
use crate::lexer::token::{token_text_spec, TokenView};
use crate::lexer::Span;
use crate::parser::ast::{
    AnalogyView, AnnotationView, EntityType, EntityView, EvidenceView, RelationshipType,
    RelationshipView, RevelationView, SynthesisView,
};
use vstd::prelude::*;

verus! {

/// The keywords that introduce a single string inside an evidence item.
#[derive(Debug, Clone, Copy, PartialEq, Eq, Structural)]
pub enum Field {
    Source,
    Text,
    Argument,
    Domain,
    Mapping,
}

/// What the parser expected where it failed.
#[derive(Debug, Clone, Copy, PartialEq, Eq, Structural)]
pub enum Expected {
    Str,
    ItemOrBracket,
    CommaOrBracket,
    LBracket,
    LBrace,
    RBrace,
    Keyword(Field),
    Sources,
    TranslatorOrRBrace,
    EvidenceItem,
    BodyItem,
    EntityStart,
}

/// The outcome of parsing from a token position: a value and the position
/// after it, or the position of the failure and what was expected there.
pub enum Parsed<T> {
    Done(T, int),
    Failed(int, Expected),
}

/// What the parser reads: the tokens with their spans, the source bytes
/// that locations are counted in, and the file name.
pub struct ParseInput {
    pub ts: Seq<(TokenView, Span)>,
    pub src: Seq<u8>,
    pub file: Seq<char>,
}

/// The token at `i`, if there is one.
pub open spec fn tok(c: ParseInput, i: int) -> Option<TokenView> {
    if 0 <= i < c.ts.len() {
        Some(c.ts[i].0)
    } else {
        None
    }
}

/// Line and column of byte offset `n` of `b`: lines are counted by `'\n'`
/// bytes, columns by the characters (the bytes that start a UTF-8
/// sequence) since the last line break; offsets past the end count the
/// whole text.
pub open spec fn text_pos(b: Seq<u8>, n: int) -> (int, int)
    decreases n,
{
    if n <= 0 {
        (1, 1)
    } else if n > b.len() {
        text_pos(b, b.len() as int)
    } else {
        let p = text_pos(b, n - 1);
        let c = b[n - 1];
        if c == 10 {
            (p.0 + 1, 1)
        } else if 128 <= c < 192 {
            p
        } else {
            (p.0, p.1 + 1)
        }
    }
}

pub proof fn lemma_text_pos_bounds(b: Seq<u8>, n: int)
    ensures
        1 <= text_pos(b, n).0 <= b.len() + 1,
        1 <= text_pos(b, n).1 <= b.len() + 1,
        n >= 0 && n <= b.len() ==> text_pos(b, n).0 <= n + 1 && text_pos(b, n).1 <= n + 1,
    decreases n,
{
    if n > b.len() {
        lemma_text_pos_bounds(b, b.len() as int);
    } else if n > 0 {
        lemma_text_pos_bounds(b, n - 1);
    }
}

/// The location in the file of byte offset `n` of the source.
pub open spec fn offset_location(c: ParseInput, n: int) -> SourceLocationView {
    SourceLocationView {
        file: c.file,
        line: text_pos(c.src, n).0 as usize,
        column: text_pos(c.src, n).1 as usize,
    }
}

/// The location of a node whose first token is at `i`.
pub open spec fn loc(c: ParseInput, i: int) -> SourceLocationView {
    offset_location(c, c.ts[i].1.start as int)
}

/// The location of a span: its own line and column where it has them,
/// else those of its start offset.
pub open spec fn span_location(c: ParseInput, s: Span) -> SourceLocationView {
    if s.line > 0 {
        SourceLocationView { file: c.file, line: s.line, column: s.column }
    } else {
        offset_location(c, s.start as int)
    }
}

/// Where a failure at token position `p` is reported: at that token, or,
/// past the last token, just after it.
pub open spec fn error_location(c: ParseInput, p: int) -> SourceLocationView {
    if 0 <= p < c.ts.len() {
        span_location(c, c.ts[p].1)
    } else if c.ts.len() > 0 {
        let s = c.ts.last().1;
        span_location(c, Span { start: s.end, end: s.end, line: s.line, column: s.column })
    } else {
        SourceLocationView { file: c.file, line: 1, column: 1 }
    }
}

pub open spec fn field_token(f: Field) -> TokenView {
    match f {
        Field::Source => TokenView::Source,
        Field::Text => TokenView::Text,
        Field::Argument => TokenView::Argument,
        Field::Domain => TokenView::Domain,
        Field::Mapping => TokenView::Mapping,
    }
}

/// How an expectation is described in an error message.
pub open spec fn expected_text(e: Expected) -> Seq<char> {
    match e {
        Expected::Str => "a string"@,
        Expected::ItemOrBracket => "a string or ']'"@,
        Expected::CommaOrBracket => "',' or ']'"@,
        Expected::LBracket => "'['"@,
        Expected::LBrace => "'{'"@,
        Expected::RBrace => "'}'"@,
        Expected::Keyword(Field::Source) => "'source'"@,
        Expected::Keyword(Field::Text) => "'text'"@,
        Expected::Keyword(Field::Argument) => "'argument'"@,
        Expected::Keyword(Field::Domain) => "'domain'"@,
        Expected::Keyword(Field::Mapping) => "'mapping'"@,
        Expected::Sources => "'sources'"@,
        Expected::TranslatorOrRBrace => "'translator' or '}'"@,
        Expected::EvidenceItem => "'revelation', 'synthesis', 'analogy' or '}'"@,
        Expected::BodyItem => "a property, a relationship, an evidence block or '}'"@,
        Expected::EntityStart => "an annotation or an entity type"@,
    }
}

/// The message of a failure at token position `p`.
pub open spec fn error_message(c: ParseInput, p: int, e: Expected) -> Seq<char> {
    if 0 <= p < c.ts.len() {
        "unexpected '"@ + token_text_spec(c.ts[p].0) + "', expected "@ + expected_text(e)
    } else {
        "unexpected end of input, expected "@ + expected_text(e)
    }
}

/// The entity type that a keyword token names.
pub open spec fn entity_type_of(t: TokenView) -> Option<EntityType> {
    match t {
        TokenView::Axiom => Some(EntityType::Axiom),
        TokenView::Framework => Some(EntityType::Framework),
        TokenView::Law => Some(EntityType::Law),
        TokenView::Principle => Some(EntityType::Principle),
        TokenView::Concept => Some(EntityType::Concept),
        TokenView::Artifact => Some(EntityType::Artifact),
        TokenView::Pillar => Some(EntityType::Pillar),
        TokenView::Document => Some(EntityType::Document),
        TokenView::Project => Some(EntityType::Project),
        TokenView::Release => Some(EntityType::Release),
        TokenView::Persona => Some(EntityType::Persona),
        TokenView::Collection => Some(EntityType::Collection),
        _ => None,
    }
}

/// The relationship type that a keyword token names.
pub open spec fn rel_type_of(t: TokenView) -> Option<RelationshipType> {
    match t {
        TokenView::Requires => Some(RelationshipType::Requires),
        TokenView::Enables => Some(RelationshipType::Enables),
        TokenView::References => Some(RelationshipType::References),
        TokenView::BasedOn => Some(RelationshipType::BasedOn),
        TokenView::DerivesFrom => Some(RelationshipType::DerivesFrom),
        TokenView::Implements => Some(RelationshipType::Implements),
        TokenView::InspiredBy => Some(RelationshipType::InspiredBy),
        TokenView::EvolvedFrom => Some(RelationshipType::EvolvedFrom),
        TokenView::Contradicts => Some(RelationshipType::Contradicts),
        _ => None,
    }
}

/// A string token.
pub open spec fn p_str(c: ParseInput, i: int) -> Parsed<Seq<char>> {
    match tok(c, i) {
        Some(TokenView::Str(s)) => Parsed::Done(s, i + 1),
        _ => Parsed::Failed(i, Expected::Str),
    }
}

/// A field keyword followed by a string.
pub open spec fn p_field(c: ParseInput, i: int, f: Field) -> Parsed<Seq<char>> {
    if tok(c, i) == Some(field_token(f)) {
        p_str(c, i + 1)
    } else {
        Parsed::Failed(i, Expected::Keyword(f))
    }
}

/// The rest of a list after `[` and the items `acc`, at `i`.
pub open spec fn p_items(c: ParseInput, i: int, acc: Seq<Seq<char>>) -> Parsed<Seq<Seq<char>>>
    decreases c.ts.len() - i,
{
    match tok(c, i) {
        Some(TokenView::RBracket) => Parsed::Done(acc, i + 1),
        Some(TokenView::Str(s)) => match tok(c, i + 1) {
            Some(TokenView::Comma) => p_items(c, i + 2, acc.push(s)),
            Some(TokenView::RBracket) => Parsed::Done(acc.push(s), i + 2),
            _ => Parsed::Failed(i + 1, Expected::CommaOrBracket),
        },
        _ => Parsed::Failed(i, Expected::ItemOrBracket),
    }
}

/// A bracketed list of strings.
pub open spec fn p_list(c: ParseInput, i: int) -> Parsed<Seq<Seq<char>>> {
    if tok(c, i) == Some(TokenView::LBracket) {
        p_items(c, i + 1, seq![])
    } else {
        Parsed::Failed(i, Expected::LBracket)
    }
}

/// A revelation whose keyword is at `i`.
pub open spec fn p_revelation(c: ParseInput, i: int) -> Parsed<RevelationView> {
    if tok(c, i + 1) != Some(TokenView::LBrace) {
        Parsed::Failed(i + 1, Expected::LBrace)
    } else {
        match p_field(c, i + 2, Field::Source) {
            Parsed::Failed(p, e) => Parsed::Failed(p, e),
            Parsed::Done(source, j) => match p_field(c, j, Field::Text) {
                Parsed::Failed(p, e) => Parsed::Failed(p, e),
                Parsed::Done(text, k) => match tok(c, k) {
                    Some(TokenView::RBrace) => Parsed::Done(
                        RevelationView { source, text, translator: None, location: loc(c, i) },
                        k + 1,
                    ),
                    Some(TokenView::Translator) => match p_str(c, k + 1) {
                        Parsed::Failed(p, e) => Parsed::Failed(p, e),
                        Parsed::Done(tr, m) => if tok(c, m) == Some(TokenView::RBrace) {
                            Parsed::Done(
                                RevelationView { source, text, translator: Some(tr), location: loc(c, i) },
                                m + 1,
                            )
                        } else {
                            Parsed::Failed(m, Expected::RBrace)
                        },
                    },
                    _ => Parsed::Failed(k, Expected::TranslatorOrRBrace),
                },
            },
        }
    }
}

/// A synthesis whose keyword is at `i`.
pub open spec fn p_synthesis(c: ParseInput, i: int) -> Parsed<SynthesisView> {
    if tok(c, i + 1) != Some(TokenView::LBrace) {
        Parsed::Failed(i + 1, Expected::LBrace)
    } else if tok(c, i + 2) != Some(TokenView::Sources) {
        Parsed::Failed(i + 2, Expected::Sources)
    } else {
        match p_list(c, i + 3) {
            Parsed::Failed(p, e) => Parsed::Failed(p, e),
            Parsed::Done(sources, j) => match p_field(c, j, Field::Argument) {
                Parsed::Failed(p, e) => Parsed::Failed(p, e),
                Parsed::Done(argument, k) => if tok(c, k) == Some(TokenView::RBrace) {
                    Parsed::Done(SynthesisView { sources, argument, location: loc(c, i) }, k + 1)
                } else {
                    Parsed::Failed(k, Expected::RBrace)
                },
            },
        }
    }
}

/// An analogy whose keyword is at `i`.
pub open spec fn p_analogy(c: ParseInput, i: int) -> Parsed<AnalogyView> {
    if tok(c, i + 1) != Some(TokenView::LBrace) {
        Parsed::Failed(i + 1, Expected::LBrace)
    } else {
        match p_field(c, i + 2, Field::Domain) {
            Parsed::Failed(p, e) => Parsed::Failed(p, e),
            Parsed::Done(domain, j) => match p_field(c, j, Field::Mapping) {
                Parsed::Failed(p, e) => Parsed::Failed(p, e),
                Parsed::Done(mapping, k) => if tok(c, k) == Some(TokenView::RBrace) {
                    Parsed::Done(AnalogyView { domain, mapping, location: loc(c, i) }, k + 1)
                } else {
                    Parsed::Failed(k, Expected::RBrace)
                },
            },
        }
    }
}

/// Whether a successful parse from `i` ends after `i` and within the tokens.
pub open spec fn advances<T>(c: ParseInput, i: int, p: Parsed<T>) -> bool {
    p matches Parsed::Done(_, j) ==> i < j <= c.ts.len()
}

pub proof fn lemma_items_advance(c: ParseInput, i: int, acc: Seq<Seq<char>>)
    ensures
        advances(c, i, p_items(c, i, acc)),
    decreases c.ts.len() - i,
{
    if let Some(TokenView::Str(s)) = tok(c, i) {
        if tok(c, i + 1) == Some(TokenView::Comma) {
            lemma_items_advance(c, i + 2, acc.push(s));
        }
    }
}

pub proof fn lemma_evidence_items_advance(c: ParseInput, i: int)
    ensures
        advances(c, i, p_list(c, i)),
        advances(c, i, p_revelation(c, i)),
        advances(c, i, p_synthesis(c, i)),
        advances(c, i, p_analogy(c, i)),
{
    lemma_items_advance(c, i + 1, seq![]);
    lemma_items_advance(c, i + 4, seq![]);
}

/// The rest of an evidence block after `{` and the items of `b`, at `i`.
pub open spec fn p_evidence_items(c: ParseInput, i: int, b: EvidenceView) -> Parsed<EvidenceView>
    decreases c.ts.len() - i,
{
    match tok(c, i) {
        Some(TokenView::RBrace) => Parsed::Done(b, i + 1),
        Some(TokenView::Revelation) => {
            proof {
                lemma_evidence_items_advance(c, i);
            }
            match p_revelation(c, i) {
                Parsed::Failed(p, e) => Parsed::Failed(p, e),
                Parsed::Done(r, j) => p_evidence_items(
                    c,
                    j,
                    EvidenceView { revelations: b.revelations.push(r), ..b },
                ),
            }
        },
        Some(TokenView::Synthesis) => {
            proof {
                lemma_evidence_items_advance(c, i);
            }
            match p_synthesis(c, i) {
                Parsed::Failed(p, e) => Parsed::Failed(p, e),
                Parsed::Done(s, j) => p_evidence_items(
                    c,
                    j,
                    EvidenceView { syntheses: b.syntheses.push(s), ..b },
                ),
            }
        },
        Some(TokenView::Analogy) => {
            proof {
                lemma_evidence_items_advance(c, i);
            }
            match p_analogy(c, i) {
                Parsed::Failed(p, e) => Parsed::Failed(p, e),
                Parsed::Done(a, j) => p_evidence_items(
                    c,
                    j,
                    EvidenceView { analogies: b.analogies.push(a), ..b },
                ),
            }
        },
        _ => Parsed::Failed(i, Expected::EvidenceItem),
    }
}

pub open spec fn empty_evidence() -> EvidenceView {
    EvidenceView { revelations: seq![], syntheses: seq![], analogies: seq![] }
}

/// An evidence block whose keyword is at `i`.
pub open spec fn p_evidence(c: ParseInput, i: int) -> Parsed<EvidenceView> {
    if tok(c, i + 1) == Some(TokenView::LBrace) {
        p_evidence_items(c, i + 2, empty_evidence())
    } else {
        Parsed::Failed(i + 1, Expected::LBrace)
    }
}

pub proof fn lemma_evidence_advance(c: ParseInput, i: int, b: EvidenceView)
    ensures
        advances(c, i, p_evidence_items(c, i, b)),
    decreases c.ts.len() - i,
{
    lemma_evidence_items_advance(c, i);
    match tok(c, i) {
        Some(TokenView::Revelation) => match p_revelation(c, i) {
            Parsed::Done(r, j) => lemma_evidence_advance(
                c,
                j,
                EvidenceView { revelations: b.revelations.push(r), ..b },
            ),
            _ => {},
        },
        Some(TokenView::Synthesis) => match p_synthesis(c, i) {
            Parsed::Done(s, j) => lemma_evidence_advance(
                c,
                j,
                EvidenceView { syntheses: b.syntheses.push(s), ..b },
            ),
            _ => {},
        },
        Some(TokenView::Analogy) => match p_analogy(c, i) {
            Parsed::Done(a, j) => lemma_evidence_advance(
                c,
                j,
                EvidenceView { analogies: b.analogies.push(a), ..b },
            ),
            _ => {},
        },
        _ => {},
    }
}

/// The relationships of one relationship item: one per target, in order.
pub open spec fn relationships_of(
    targets: Seq<Seq<char>>,
    t: RelationshipType,
    l: SourceLocationView,
) -> Seq<RelationshipView> {
    targets.map_values(|s: Seq<char>| RelationshipView { rel_type: t, target_id: s, location: l })
}

/// The rest of an entity body after `{`, with the fields of `e` so far,
/// at `i`.
pub open spec fn p_body(c: ParseInput, i: int, e: EntityView) -> Parsed<EntityView>
    decreases c.ts.len() - i,
{
    match tok(c, i) {
        Some(TokenView::RBrace) => Parsed::Done(e, i + 1),
        Some(TokenView::Version) => match p_str(c, i + 1) {
            Parsed::Failed(p, x) => Parsed::Failed(p, x),
            Parsed::Done(s, j) => p_body(c, j, EntityView { version: s, ..e }),
        },
        Some(TokenView::Title) => match p_str(c, i + 1) {
            Parsed::Failed(p, x) => Parsed::Failed(p, x),
            Parsed::Done(s, j) => p_body(c, j, EntityView { title: s, ..e }),
        },
        Some(TokenView::Description) => match p_str(c, i + 1) {
            Parsed::Failed(p, x) => Parsed::Failed(p, x),
            Parsed::Done(s, j) => p_body(c, j, EntityView { description: s, ..e }),
        },
        Some(TokenView::Previous) => match p_str(c, i + 1) {
            Parsed::Failed(p, x) => Parsed::Failed(p, x),
            Parsed::Done(s, j) => p_body(
                c,
                j,
                EntityView { properties: map_put(e.properties, "previous"@, s), ..e },
            ),
        },
        Some(TokenView::Evidence) => {
            proof {
                lemma_evidence_advance(c, i + 2, empty_evidence());
            }
            match p_evidence(c, i) {
                Parsed::Failed(p, x) => Parsed::Failed(p, x),
                Parsed::Done(b, j) => p_body(c, j, EntityView { evidence: Some(b), ..e }),
            }
        },
        Some(t) => match rel_type_of(t) {
            Some(rt) => {
                proof {
                    lemma_items_advance(c, i + 2, seq![]);
                }
                match p_list(c, i + 1) {
                    Parsed::Failed(p, x) => Parsed::Failed(p, x),
                    Parsed::Done(targets, j) => p_body(
                        c,
                        j,
                        EntityView {
                            relationships: e.relationships + relationships_of(targets, rt, loc(c, i)),
                            ..e
                        },
                    ),
                }
            },
            None => Parsed::Failed(i, Expected::BodyItem),
        },
        None => Parsed::Failed(i, Expected::BodyItem),
    }
}

pub proof fn lemma_body_advance(c: ParseInput, i: int, e: EntityView)
    ensures
        advances(c, i, p_body(c, i, e)),
    decreases c.ts.len() - i,
{
    lemma_items_advance(c, i + 2, seq![]);
    lemma_evidence_advance(c, i + 2, empty_evidence());
    match tok(c, i) {
        Some(TokenView::RBrace) => {},
        Some(TokenView::Version) => match p_str(c, i + 1) {
            Parsed::Done(s, j) => lemma_body_advance(c, j, EntityView { version: s, ..e }),
            _ => {},
        },
        Some(TokenView::Title) => match p_str(c, i + 1) {
            Parsed::Done(s, j) => lemma_body_advance(c, j, EntityView { title: s, ..e }),
            _ => {},
        },
        Some(TokenView::Description) => match p_str(c, i + 1) {
            Parsed::Done(s, j) => lemma_body_advance(c, j, EntityView { description: s, ..e }),
            _ => {},
        },
        Some(TokenView::Previous) => match p_str(c, i + 1) {
            Parsed::Done(s, j) => lemma_body_advance(
                c,
                j,
                EntityView { properties: map_put(e.properties, "previous"@, s), ..e },
            ),
            _ => {},
        },
        Some(TokenView::Evidence) => match p_evidence(c, i) {
            Parsed::Done(b, j) => lemma_body_advance(c, j, EntityView { evidence: Some(b), ..e }),
            _ => {},
        },
        Some(t) => match rel_type_of(t) {
            Some(rt) => match p_list(c, i + 1) {
                Parsed::Done(targets, j) => lemma_body_advance(
                    c,
                    j,
                    EntityView {
                        relationships: e.relationships + relationships_of(targets, rt, loc(c, i)),
                        ..e
                    },
                ),
                _ => {},
            },
            None => {},
        },
        None => {},
    }
}

/// The annotations from `i` on, after those of `acc`, and the position
/// after them.
pub open spec fn p_annotations(c: ParseInput, i: int, acc: Seq<AnnotationView>) -> (Seq<AnnotationView>, int)
    decreases c.ts.len() - i,
{
    match tok(c, i) {
        Some(TokenView::Annotation(name, value)) => p_annotations(
            c,
            i + 1,
            acc.push(AnnotationView { name, value, location: loc(c, i) }),
        ),
        _ => (acc, i),
    }
}

pub proof fn lemma_annotations_advance(c: ParseInput, i: int, acc: Seq<AnnotationView>)
    requires
        0 <= i,
    ensures
        i <= p_annotations(c, i, acc).1,
        i < c.ts.len() ==> p_annotations(c, i, acc).1 <= c.ts.len(),
        p_annotations(c, i, acc).1 > i ==> i < c.ts.len(),
    decreases c.ts.len() - i,
{
    if let Some(TokenView::Annotation(name, value)) = tok(c, i) {
        lemma_annotations_advance(c, i + 1, acc.push(AnnotationView { name, value, location: loc(c, i) }));
    }
}

/// An entity whose first token (an annotation or its type) is at `i`.
pub open spec fn p_entity(c: ParseInput, i: int) -> Parsed<EntityView> {
    let (annotations, j) = p_annotations(c, i, seq![]);
    match tok(c, j) {
        Some(t) => match entity_type_of(t) {
            Some(entity_type) => match p_str(c, j + 1) {
                Parsed::Failed(p, x) => Parsed::Failed(p, x),
                Parsed::Done(id, k) => if tok(c, k) == Some(TokenView::LBrace) {
                    p_body(
                        c,
                        k + 1,
                        EntityView {
                            id,
                            entity_type,
                            version: seq![],
                            title: seq![],
                            description: seq![],
                            properties: seq![],
                            relationships: seq![],
                            evidence: None,
                            annotations,
                            location: loc(c, i),
                        },
                    )
                } else {
                    Parsed::Failed(k, Expected::LBrace)
                },
            },
            None => Parsed::Failed(j, Expected::EntityStart),
        },
        None => Parsed::Failed(j, Expected::EntityStart),
    }
}

pub proof fn lemma_entity_advance(c: ParseInput, i: int)
    requires
        0 <= i,
    ensures
        advances(c, i, p_entity(c, i)),
{
    lemma_annotations_advance(c, i, seq![]);
    let (annotations, j) = p_annotations(c, i, seq![]);
    if let Some(t) = tok(c, j) {
        if let Some(entity_type) = entity_type_of(t) {
            if let Parsed::Done(id, k) = p_str(c, j + 1) {
                lemma_body_advance(
                    c,
                    k + 1,
                    EntityView {
                        id,
                        entity_type,
                        version: seq![],
                        title: seq![],
                        description: seq![],
                        properties: seq![],
                        relationships: seq![],
                        evidence: None,
                        annotations,
                        location: loc(c, i),
                    },
                );
            }
        }
    }
}

/// The entities from `i` to the end of input, after those of `acc`; or
/// the position of the first failure and what was expected there.
pub open spec fn p_entities(c: ParseInput, i: int, acc: Seq<EntityView>) -> Result<Seq<EntityView>, (int, Expected)>
    decreases c.ts.len() - i,
{
    if i < 0 || i >= c.ts.len() {
        Ok(acc)
    } else {
        proof {
            lemma_entity_advance(c, i);
        }
        match p_entity(c, i) {
            Parsed::Failed(p, x) => Err((p, x)),
            Parsed::Done(e, j) => p_entities(c, j, acc.push(e)),
        }
    }
}

/// What a whole token sequence parses to.
pub open spec fn parse_spec(c: ParseInput) -> Result<Seq<EntityView>, (int, Expected)> {
    p_entities(c, 0, seq![])
}

} // verus!
