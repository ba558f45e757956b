//! Laws of the lexical grammar: the keyword table agrees with the token
//! texts, and a source of one word lexes to its keyword or is refused; the
//! tokens of a source come in order, each within it, keywords and
//! delimiters spelling their own text; lines and byte columns are counted
//! from the newlines before a position; a quoted literal lexes to its own
//! characters, an escape stands for its character or is refused, and the
//! written text of a literal or annotation lexes back to it.
use crate::lexer::scan::{
    delimiter, escape_char, escape_message, is_word_char, is_word_start, lemma_block_end, lemma_line_end,
    lemma_scan_token, line_col, run_end, scan_str, scan_token, word_end, StrScan,
};
use crate::lexer::token::{
    debug_escape_char, debug_escape_fn, debug_quote, escaped_non_ascii, keyword_token, token_text_spec, TokenView,
};
use crate::lexer::{lex_from, lex_spec};
use crate::text::byte_chars;
use vstd::utf8::{encode_scalar, encode_utf8, is_scalar};
use vstd::prelude::*;

verus! {

/// Whether `t` is a keyword token (neither a literal, an annotation nor a
/// delimiter).
pub open spec fn is_keyword(t: TokenView) -> bool {
    !(t is Str || t is Annotation || t is LBrace || t is RBrace || t is LBracket || t is RBracket
        || t is Comma)
}

/// The lengths of the keyword texts, and for keywords of equal length a
/// character where they differ: enough to tell every two apart.
proof fn lemma_keyword_texts_differ()
    ensures
        "axiom"@.len() == 5,
        "framework"@.len() == 9,
        "law"@.len() == 3,
        "principle"@.len() == 9,
        "concept"@.len() == 7,
        "artifact"@.len() == 8,
        "pillar"@.len() == 6,
        "document"@.len() == 8,
        "project"@.len() == 7,
        "release"@.len() == 7,
        "persona"@.len() == 7,
        "collection"@.len() == 10,
        "version"@.len() == 7,
        "title"@.len() == 5,
        "description"@.len() == 11,
        "previous"@.len() == 8,
        "requires"@.len() == 8,
        "enables"@.len() == 7,
        "references"@.len() == 10,
        "based_on"@.len() == 8,
        "derives_from"@.len() == 12,
        "implements"@.len() == 10,
        "inspired_by"@.len() == 11,
        "evolved_from"@.len() == 12,
        "contradicts"@.len() == 11,
        "evidence"@.len() == 8,
        "revelation"@.len() == 10,
        "synthesis"@.len() == 9,
        "analogy"@.len() == 7,
        "source"@.len() == 6,
        "text"@.len() == 4,
        "translator"@.len() == 10,
        "sources"@.len() == 7,
        "argument"@.len() == 8,
        "domain"@.len() == 6,
        "mapping"@.len() == 7,
        "principle"@[0] != "framework"@[0],
        "document"@[0] != "artifact"@[0],
        "project"@[0] != "concept"@[0],
        "release"@[0] != "concept"@[0],
        "release"@[0] != "project"@[0],
        "persona"@[0] != "concept"@[0],
        "persona"@[1] != "project"@[1],
        "persona"@[0] != "release"@[0],
        "version"@[0] != "concept"@[0],
        "version"@[0] != "project"@[0],
        "version"@[0] != "release"@[0],
        "version"@[0] != "persona"@[0],
        "title"@[0] != "axiom"@[0],
        "previous"@[0] != "artifact"@[0],
        "previous"@[0] != "document"@[0],
        "requires"@[0] != "artifact"@[0],
        "requires"@[0] != "document"@[0],
        "requires"@[0] != "previous"@[0],
        "enables"@[0] != "concept"@[0],
        "enables"@[0] != "project"@[0],
        "enables"@[0] != "release"@[0],
        "enables"@[0] != "persona"@[0],
        "enables"@[0] != "version"@[0],
        "references"@[0] != "collection"@[0],
        "based_on"@[0] != "artifact"@[0],
        "based_on"@[0] != "document"@[0],
        "based_on"@[0] != "previous"@[0],
        "based_on"@[0] != "requires"@[0],
        "implements"@[0] != "collection"@[0],
        "implements"@[0] != "references"@[0],
        "inspired_by"@[0] != "description"@[0],
        "evolved_from"@[0] != "derives_from"@[0],
        "contradicts"@[0] != "description"@[0],
        "contradicts"@[0] != "inspired_by"@[0],
        "evidence"@[0] != "artifact"@[0],
        "evidence"@[0] != "document"@[0],
        "evidence"@[0] != "previous"@[0],
        "evidence"@[0] != "requires"@[0],
        "evidence"@[0] != "based_on"@[0],
        "revelation"@[0] != "collection"@[0],
        "revelation"@[2] != "references"@[2],
        "revelation"@[0] != "implements"@[0],
        "synthesis"@[0] != "framework"@[0],
        "synthesis"@[0] != "principle"@[0],
        "analogy"@[0] != "concept"@[0],
        "analogy"@[0] != "project"@[0],
        "analogy"@[0] != "release"@[0],
        "analogy"@[0] != "persona"@[0],
        "analogy"@[0] != "version"@[0],
        "analogy"@[0] != "enables"@[0],
        "source"@[0] != "pillar"@[0],
        "translator"@[0] != "collection"@[0],
        "translator"@[0] != "references"@[0],
        "translator"@[0] != "implements"@[0],
        "translator"@[0] != "revelation"@[0],
        "sources"@[0] != "concept"@[0],
        "sources"@[0] != "project"@[0],
        "sources"@[0] != "release"@[0],
        "sources"@[0] != "persona"@[0],
        "sources"@[0] != "version"@[0],
        "sources"@[0] != "enables"@[0],
        "sources"@[0] != "analogy"@[0],
        "argument"@[2] != "artifact"@[2],
        "argument"@[0] != "document"@[0],
        "argument"@[0] != "previous"@[0],
        "argument"@[0] != "requires"@[0],
        "argument"@[0] != "based_on"@[0],
        "argument"@[0] != "evidence"@[0],
        "domain"@[0] != "pillar"@[0],
        "domain"@[0] != "source"@[0],
        "mapping"@[0] != "concept"@[0],
        "mapping"@[0] != "project"@[0],
        "mapping"@[0] != "release"@[0],
        "mapping"@[0] != "persona"@[0],
        "mapping"@[0] != "version"@[0],
        "mapping"@[0] != "enables"@[0],
        "mapping"@[0] != "analogy"@[0],
        "mapping"@[0] != "sources"@[0],
{
    reveal_strlit("axiom");
    reveal_strlit("framework");
    reveal_strlit("law");
    reveal_strlit("principle");
    reveal_strlit("concept");
    reveal_strlit("artifact");
    reveal_strlit("pillar");
    reveal_strlit("document");
    reveal_strlit("project");
    reveal_strlit("release");
    reveal_strlit("persona");
    reveal_strlit("collection");
    reveal_strlit("version");
    reveal_strlit("title");
    reveal_strlit("description");
    reveal_strlit("previous");
    reveal_strlit("requires");
    reveal_strlit("enables");
    reveal_strlit("references");
    reveal_strlit("based_on");
    reveal_strlit("derives_from");
    reveal_strlit("implements");
    reveal_strlit("inspired_by");
    reveal_strlit("evolved_from");
    reveal_strlit("contradicts");
    reveal_strlit("evidence");
    reveal_strlit("revelation");
    reveal_strlit("synthesis");
    reveal_strlit("analogy");
    reveal_strlit("source");
    reveal_strlit("text");
    reveal_strlit("translator");
    reveal_strlit("sources");
    reveal_strlit("argument");
    reveal_strlit("domain");
    reveal_strlit("mapping");
}

/// The keyword token that the text of a keyword token denotes is that
/// token.
proof fn lemma_keyword_of_text(t: TokenView)
    requires
        is_keyword(t),
    ensures
        keyword_token(token_text_spec(t)) == Some(t),
{
    lemma_keyword_texts_differ();
    match t {
        TokenView::Axiom => {},
        TokenView::Framework => {},
        TokenView::Law => {},
        TokenView::Principle => {},
        TokenView::Concept => {},
        TokenView::Artifact => {},
        TokenView::Pillar => {},
        TokenView::Document => {},
        TokenView::Project => {},
        TokenView::Release => {},
        TokenView::Persona => {},
        TokenView::Collection => {},
        TokenView::Version => {},
        TokenView::Title => {},
        TokenView::Description => {},
        TokenView::Previous => {},
        TokenView::Requires => {},
        TokenView::Enables => {},
        TokenView::References => {},
        TokenView::BasedOn => {},
        TokenView::DerivesFrom => {},
        TokenView::Implements => {},
        TokenView::InspiredBy => {},
        TokenView::EvolvedFrom => {},
        TokenView::Contradicts => {},
        TokenView::Evidence => {},
        TokenView::Revelation => {},
        TokenView::Synthesis => {},
        TokenView::Analogy => {},
        TokenView::Source => {},
        TokenView::Text => {},
        TokenView::Translator => {},
        TokenView::Sources => {},
        TokenView::Argument => {},
        TokenView::Domain => {},
        TokenView::Mapping => {},
        _ => {},
    }
}

/// A word is a keyword exactly when it is the text of a keyword token,
/// and then it denotes that token.
pub proof fn law_keyword_table_matches_token_text(w: Seq<char>, t: TokenView)
    ensures
        keyword_token(w) == Some(t) <==> (is_keyword(t) && token_text_spec(t) == w),
{
    if is_keyword(t) {
        lemma_keyword_of_text(t);
    }
}

proof fn lemma_word_to_end(b: Seq<u8>, i: int)
    requires
        0 <= i <= b.len(),
        forall|k: int| i <= k < b.len() ==> is_word_char(#[trigger] b[k]),
    ensures
        word_end(b, i) == b.len(),
    decreases b.len() - i,
{
    if i < b.len() {
        lemma_word_to_end(b, i + 1);
    }
}

/// A source that is one word lexes to the keyword that the word spells,
/// covering the whole source; a word that spells no keyword is refused at
/// its first byte, with a message that quotes it.
pub proof fn law_word_lexes_to_its_keyword(w: Seq<u8>)
    requires
        w.len() > 0,
        is_word_start(w[0]),
        forall|k: int| 0 <= k < w.len() ==> is_word_char(#[trigger] w[k]),
    ensures
        lex_spec(w) == match keyword_token(byte_chars(w)) {
            Some(t) => Ok::<Seq<(TokenView, int, int)>, (int, Seq<char>)>(seq![(t, 0, w.len() as int)]),
            None => Err((0, "unknown word: '"@ + byte_chars(w) + "'"@)),
        },
{
    lemma_word_to_end(w, 0);
    assert(w.subrange(0, w.len() as int) =~= w);
    assert(lex_from(w, w.len() as int) == Ok::<Seq<(TokenView, int, int)>, (int, Seq<char>)>(seq![]));
    if let Some(t) = keyword_token(byte_chars(w)) {
        assert(seq![(t, 0, w.len() as int)] + Seq::<(TokenView, int, int)>::empty() =~= seq![
            (t, 0, w.len() as int),
        ]);
    }
}

/// A token that is neither a literal nor an annotation, scanned from `i`,
/// spells its own text.
proof fn lemma_scanned_text(b: Seq<u8>, i: int)
    requires
        0 <= i < b.len(),
    ensures
        scan_token(b, i) matches Ok((t, e)) ==> (!(t is Str) && !(t is Annotation) ==> byte_chars(
            b.subrange(i, e),
        ) == token_text_spec(t)),
{
    if let Ok((t, e)) = scan_token(b, i) {
        if !(t is Str) && !(t is Annotation) {
            let c = b[i];
            if let Some(d) = delimiter(c) {
                if !crate::lexer::scan::is_word_start(c) && c != 34 && c != 64 {
                    assert(e == i + 1);
                    assert(b.subrange(i, e) =~= seq![c]);
                    reveal_strlit("{");
                    reveal_strlit("}");
                    reveal_strlit("[");
                    reveal_strlit("]");
                    reveal_strlit(",");
                    assert(byte_chars(seq![c]) =~= seq![c as char]);
                }
            }
            if crate::lexer::scan::is_word_start(c) {
                law_keyword_table_matches_token_text(byte_chars(b.subrange(i, e)), t);
            }
        }
    }
}

/// Each keyword or delimiter lexed from position `i` on covers exactly the
/// bytes of its own text.
pub proof fn law_lexed_keywords_spell_their_text(b: Seq<u8>, i: int)
    requires
        0 <= i,
    ensures
        lex_from(b, i) matches Ok(ts) ==> forall|k: int|
            0 <= k < ts.len() && !((#[trigger] ts[k]).0 is Str) && !(ts[k].0 is Annotation) ==> byte_chars(
                b.subrange(ts[k].1, ts[k].2),
            ) == token_text_spec(ts[k].0),
    decreases b.len() - i,
{
    if 0 <= i < b.len() {
        if crate::lexer::scan::is_ws(b[i]) {
            law_lexed_keywords_spell_their_text(b, i + 1);
        } else if b[i] == 47 && i + 1 < b.len() && b[i + 1] == 47 {
            lemma_line_end(b, i + 2);
            law_lexed_keywords_spell_their_text(b, crate::lexer::scan::line_end(b, i + 2));
        } else if b[i] == 47 && i + 1 < b.len() && b[i + 1] == 42 {
            lemma_block_end(b, i + 2);
            if let Some(j) = crate::lexer::scan::block_end(b, i + 2) {
                law_lexed_keywords_spell_their_text(b, j);
            }
        } else {
            lemma_scan_token(b, i);
            lemma_scanned_text(b, i);
            if let Ok((t, j)) = scan_token(b, i) {
                law_lexed_keywords_spell_their_text(b, j);
                if let Ok(rest) = lex_from(b, j) {
                    let ts = seq![(t, i, j)] + rest;
                    assert forall|k: int|
                        0 <= k < ts.len() && !((#[trigger] ts[k]).0 is Str) && !(ts[k].0 is Annotation) implies byte_chars(
                        b.subrange(ts[k].1, ts[k].2),
                    ) == token_text_spec(ts[k].0) by {
                        if k > 0 {
                            assert(ts[k] == rest[k - 1]);
                        }
                    }
                }
            }
        }
    }
}

/// How many newline bytes come before position `i`.
pub open spec fn newlines_before(b: Seq<u8>, i: int) -> nat {
    b.subrange(0, i).filter(|x: u8| x == 10).len()
}

/// The line of position `i` is one more than the newlines before it, and
/// its column counts the bytes from the start of that line: the position
/// `column - 1` bytes back is the start of the source or follows a newline,
/// and no newline lies between it and `i`.
pub proof fn law_line_and_column(b: Seq<u8>, i: int)
    requires
        0 <= i <= b.len(),
    ensures
        line_col(b, i).0 == 1 + newlines_before(b, i),
        ({
            let k = i - line_col(b, i).1 + 1;
            &&& 0 <= k <= i
            &&& (k == 0 || b[k - 1] == 10)
            &&& forall|m: int| k <= m < i ==> b[m] != 10
        }),
    decreases i,
{
    reveal(Seq::filter);
    if i > 0 {
        law_line_and_column(b, i - 1);
        let s = b.subrange(0, i);
        assert(s.drop_last() =~= b.subrange(0, i - 1));
        assert(s.last() == b[i - 1]);
    } else {
        assert(b.subrange(0, 0) =~= Seq::<u8>::empty());
    }
}

/// The tokens lexed from position `i` on lie within the source, each after
/// the one before: every token covers a non-empty range of bytes from `i`
/// on, and ends where or before the next begins.
pub proof fn law_lexed_spans_in_order(b: Seq<u8>, i: int)
    requires
        0 <= i,
    ensures
        lex_from(b, i) matches Ok(ts) ==> forall|k: int|
            0 <= k < ts.len() ==> i <= (#[trigger] ts[k]).1 < ts[k].2 <= b.len() && (k + 1 < ts.len()
                ==> ts[k].2 <= ts[k + 1].1),
    decreases b.len() - i,
{
    if 0 <= i < b.len() {
        if crate::lexer::scan::is_ws(b[i]) {
            law_lexed_spans_in_order(b, i + 1);
        } else if b[i] == 47 && i + 1 < b.len() && b[i + 1] == 47 {
            lemma_line_end(b, i + 2);
            law_lexed_spans_in_order(b, crate::lexer::scan::line_end(b, i + 2));
        } else if b[i] == 47 && i + 1 < b.len() && b[i + 1] == 42 {
            lemma_block_end(b, i + 2);
            if let Some(j) = crate::lexer::scan::block_end(b, i + 2) {
                law_lexed_spans_in_order(b, j);
            }
        } else {
            lemma_scan_token(b, i);
            if let Ok((t, j)) = crate::lexer::scan::scan_token(b, i) {
                law_lexed_spans_in_order(b, j);
                if let Ok(rest) = lex_from(b, j) {
                    let ts = seq![(t, i, j)] + rest;
                    assert forall|k: int| 0 <= k < ts.len() implies i <= (#[trigger] ts[k]).1 < ts[k].2 <= b.len()
                        && (k + 1 < ts.len() ==> ts[k].2 <= ts[k + 1].1) by {
                        if k > 0 {
                            assert(ts[k] == rest[k - 1]);
                        }
                        if k + 1 < ts.len() {
                            assert(ts[k + 1] == rest[k]);
                        }
                    }
                }
            }
        }
    }
}

/// Each byte of the UTF-8 encoding of a scalar is the scalar itself (for
/// ASCII) or at least `0x80`.
proof fn lemma_scalar_bytes(v: u32)
    requires
        is_scalar(v),
    ensures
        forall|k: int|
            0 <= k < encode_scalar(v).len() ==> (v < 128 && #[trigger] encode_scalar(v)[k] == v)
                || encode_scalar(v)[k] >= 128,
{
    assert(v < 128 ==> (v & 0x7F) as u8 == v) by (bit_vector);
    assert(0xC0 | ((v >> 6) & 0x1F) as u8 >= 128) by (bit_vector);
    assert(0xE0 | ((v >> 12) & 0x0F) as u8 >= 128) by (bit_vector);
    assert(0xF0 | ((v >> 18) & 0x7) as u8 >= 128) by (bit_vector);
    assert(0x80 | (v & 0x3F) as u8 >= 128) by (bit_vector);
    assert(0x80 | ((v >> 6) & 0x3F) as u8 >= 128) by (bit_vector);
    assert(0x80 | ((v >> 12) & 0x3F) as u8 >= 128) by (bit_vector);
}

/// UTF-8 encoding of a concatenation is the concatenation of the
/// encodings.
proof fn lemma_encode_append(a: Seq<char>, b: Seq<char>)
    ensures
        encode_utf8(a + b) == encode_utf8(a) + encode_utf8(b),
    decreases a.len(),
{
    if a.len() > 0 {
        assert((a + b).drop_first() =~= a.drop_first() + b);
        assert((a + b)[0] == a[0]);
        lemma_encode_append(a.drop_first(), b);
    } else {
        assert(a + b =~= b);
    }
}

/// The encoding of characters other than `"` and `\` holds neither byte.
proof fn lemma_encode_plain(s: Seq<char>)
    requires
        forall|k: int| 0 <= k < s.len() ==> s[k] != '"' && s[k] != '\\',
    ensures
        forall|k: int| 0 <= k < encode_utf8(s).len() ==> #[trigger] encode_utf8(s)[k] != 34 && encode_utf8(s)[k] != 92,
    decreases s.len(),
{
    if s.len() > 0 {
        let v = s[0] as u32;
        vstd::utf8::char_is_scalar(s[0]);
        vstd::utf8::char_u32_cast(s[0], v);
        assert(v != 34u32) by {
            if v == 34u32 {
                assert((34u32 as char) == '"');
            }
        }
        assert(v != 92u32) by {
            if v == 92u32 {
                assert((92u32 as char) == '\\');
            }
        }
        lemma_scalar_bytes(v);
        lemma_encode_plain(s.drop_first());
        let e0 = encode_scalar(v);
        let rest = encode_utf8(s.drop_first());
        assert forall|k: int| 0 <= k < encode_utf8(s).len() implies #[trigger] encode_utf8(s)[k] != 34 && encode_utf8(s)[k]
            != 92 by {
            if k < e0.len() {
                assert(encode_utf8(s)[k] == e0[k]);
            } else {
                assert(encode_utf8(s)[k] == rest[k - e0.len()]);
            }
        }
    }
}

proof fn lemma_run_to(b: Seq<u8>, i: int, e: int)
    requires
        0 <= i <= e < b.len(),
        b[e] == 34 || b[e] == 92,
        forall|k: int| i <= k < e ==> b[k] != 34 && b[k] != 92,
    ensures
        run_end(b, i) == e,
    decreases e - i,
{
    if i < e {
        lemma_run_to(b, i + 1, e);
    }
}

/// A double-quoted literal whose characters include neither `"` nor `\`
/// lexes to one string token that holds exactly those characters and
/// covers the whole source.
pub proof fn law_plain_literal_lexes_to_its_characters(s: Seq<char>)
    requires
        forall|k: int| 0 <= k < s.len() ==> s[k] != '"' && s[k] != '\\',
    ensures
        ({
            let b = encode_utf8(seq!['"'] + s + seq!['"']);
            lex_spec(b) == Ok::<Seq<(TokenView, int, int)>, (int, Seq<char>)>(
                seq![(TokenView::Str(s), 0, b.len() as int)],
            )
        }),
{
    let q = seq!['"'];
    let es = encode_utf8(s);
    lemma_encode_append(q + s, q);
    lemma_encode_append(q, s);
    assert(encode_scalar(34u32) == seq![34u8]) by {
        assert((34u32 & 0x7F) as u8 == 34u8) by (bit_vector);
    }
    assert(encode_utf8(q) =~= seq![34u8]) by {
        assert(q[0] as u32 == 34u32);
        assert(q.drop_first() =~= Seq::<char>::empty());
        assert(encode_utf8(q.drop_first()) =~= Seq::<u8>::empty());
        assert(encode_utf8(q) == encode_scalar(q[0] as u32) + encode_utf8(q.drop_first()));
    }
    let b = encode_utf8(q + s + q);
    assert(b =~= seq![34u8] + es + seq![34u8]);
    let n = es.len() as int;
    lemma_encode_plain(s);
    assert(b[0] == 34);
    assert(b[n + 1] == 34);
    assert forall|k: int| 1 <= k < n + 1 implies b[k] != 34 && b[k] != 92 by {
        assert(b[k] == es[k - 1]);
    }
    vstd::utf8::encode_utf8_decode_utf8(s);
    if n > 0 {
        lemma_run_to(b, 1, n + 1);
        assert(b.subrange(1, n + 1) =~= es);
        assert(scan_str(b, n + 1) == StrScan::Done(seq![], n + 2));
        assert(seq![] + vstd::utf8::decode_utf8(es) + Seq::<char>::empty() =~= s);
        assert(scan_str(b, 1) == StrScan::Done(s, n + 2));
    } else {
        assert(s =~= Seq::<char>::empty());
        assert(scan_str(b, 1) == StrScan::Done(s, n + 2));
    }
    assert(lex_from(b, n + 2) == Ok::<Seq<(TokenView, int, int)>, (int, Seq<char>)>(seq![]));
    assert(seq![(TokenView::Str(s), 0, n + 2)] + Seq::<(TokenView, int, int)>::empty() =~= seq![
        (TokenView::Str(s), 0, n + 2),
    ]);
}

/// A character that a quoted literal writes in a form that lexes back to
/// it: a line feed, a tab, a printable ASCII character, or a character
/// outside ASCII that `Debug` writes as it is.
pub open spec fn round_trips(c: char) -> bool {
    ||| c == '\n'
    ||| c == '\t'
    ||| 32 <= (c as u32) < 127
    ||| ((c as u32) >= 128 && escaped_non_ascii(c) == seq![c])
}

proof fn lemma_flat_map_first(s: Seq<char>)
    requires
        s.len() > 0,
    ensures
        s.flat_map(debug_escape_fn()) == debug_escape_char(s[0]) + s.drop_first().flat_map(debug_escape_fn()),
{
    let f = debug_escape_fn();
    assert(s.map_values(f).drop_first() =~= s.drop_first().map_values(f));
}

/// Scanning the encoding of `pre` (plain characters) followed by the
/// written form of `s` and a closing quote gives back `pre` and `s`.
proof fn lemma_scan_written(pre: Seq<char>, s: Seq<char>, b: Seq<u8>, i: int)
    requires
        forall|k: int| 0 <= k < pre.len() ==> pre[k] != '"' && pre[k] != '\\',
        forall|k: int| 0 <= k < s.len() ==> round_trips(#[trigger] s[k]),
        0 <= i,
        ({
            let t = encode_utf8(pre + s.flat_map(debug_escape_fn()));
            &&& i + t.len() < b.len()
            &&& forall|k: int| 0 <= k < t.len() ==> b[i + k] == #[trigger] t[k]
            &&& b[i + t.len()] == 34
        }),
    ensures
        scan_str(b, i) == StrScan::Done(
            pre + s,
            i + encode_utf8(pre + s.flat_map(debug_escape_fn())).len() + 1,
        ),
    decreases s.len(),
{
    let f = debug_escape_fn();
    let ep = encode_utf8(pre);
    let n = ep.len() as int;
    lemma_encode_plain(pre);
    vstd::utf8::encode_utf8_decode_utf8(pre);
    if s.len() == 0 {
        assert(s.flat_map(f) =~= Seq::<char>::empty());
        assert(pre + s.flat_map(f) =~= pre);
        assert(pre + s =~= pre);
        assert forall|k: int| i <= k < i + n implies b[k] != 34 && b[k] != 92 by {
            assert(b[i + (k - i)] == ep[k - i]);
        }
        if n > 0 {
            lemma_run_to(b, i, i + n);
            assert(b.subrange(i, i + n) =~= ep) by {
                assert forall|k: int| 0 <= k < n implies b.subrange(i, i + n)[k] == ep[k] by {
                    assert(b[i + k] == ep[k]);
                }
            }
            assert(pre + Seq::<char>::empty() =~= pre);
        } else {
            assert(pre =~= Seq::<char>::empty());
        }
    } else {
        let c = s[0];
        let rest = s.drop_first();
        lemma_flat_map_first(s);
        assert(round_trips(c));
        if c != '"' && c != '\\' && c != '\n' && c != '\t' {
            assert(c != '\r' && c != '\0');
            assert(debug_escape_char(c) == seq![c]);
            let pre2 = pre.push(c);
            assert(pre2 + rest.flat_map(f) =~= pre + s.flat_map(f));
            assert(pre2 + rest =~= pre + s);
            assert forall|k: int| 0 <= k < rest.len() implies round_trips(#[trigger] rest[k]) by {
                assert(rest[k] == s[k + 1]);
            }
            lemma_scan_written(pre2, rest, b, i);
        } else {
            let x: u8 = if c == '"' {
                34u8
            } else if c == '\\' {
                92u8
            } else if c == '\n' {
                110u8
            } else {
                116u8
            };
            assert(debug_escape_char(c) =~= seq!['\\', x as char]);
            assert(escape_char(x) == Some(c));
            let tr = rest.flat_map(f);
            let er = encode_utf8(tr);
            lemma_encode_ascii(92u8);
            lemma_encode_ascii(x);
            lemma_encode_append(seq![92u8 as char], seq![x as char]);
            assert(seq!['\\', x as char] =~= seq![92u8 as char] + seq![x as char]);
            lemma_encode_append(pre, seq!['\\', x as char] + tr);
            lemma_encode_append(seq!['\\', x as char], tr);
            assert(pre + s.flat_map(f) =~= pre + (seq!['\\', x as char] + tr));
            let t = encode_utf8(pre + s.flat_map(f));
            assert(t =~= ep + seq![92u8, x] + er);
            assert(b[i + n] == 92) by {
                assert(t[n] == 92);
            }
            assert(b[i + n + 1] == x) by {
                assert(t[n + 1] == x);
            }
            assert forall|k: int| 0 <= k < er.len() implies b[(i + n + 2) + k] == #[trigger] er[k] by {
                assert(t[n + 2 + k] == er[k]);
            }
            assert(Seq::<char>::empty() + tr =~= tr);
            assert forall|k: int| 0 <= k < rest.len() implies round_trips(#[trigger] rest[k]) by {
                assert(rest[k] == s[k + 1]);
            }
            assert(b[(i + n + 2) + er.len()] == 34) by {
                assert(t.len() == n + 2 + er.len());
            }
            lemma_scan_written(Seq::<char>::empty(), rest, b, i + n + 2);
            assert(Seq::<char>::empty() + rest =~= rest);
            assert(scan_str(b, i + n) == StrScan::Done(seq![c] + rest, i + t.len() + 1));
            assert(seq![c] + rest =~= s);
            assert forall|k: int| i <= k < i + n implies b[k] != 34 && b[k] != 92 by {
                assert(b[i + (k - i)] == t[k - i]);
                assert(t[k - i] == ep[k - i]);
            }
            if n > 0 {
                lemma_run_to(b, i, i + n);
                assert(b.subrange(i, i + n) =~= ep) by {
                    assert forall|k: int| 0 <= k < n implies b.subrange(i, i + n)[k] == ep[k] by {
                        assert(b[i + k] == t[k]);
                    }
                }
            } else {
                assert(pre =~= Seq::<char>::empty());
                assert(pre + s =~= s);
            }
        }
    }
}

/// The text of a string token whose characters all [`round_trips`] lexes
/// back to that token alone: quotes, backslashes, line feeds and tabs are
/// written as the escapes that the lexer reads.
pub proof fn law_string_token_text_lexes_back(s: Seq<char>)
    requires
        forall|k: int| 0 <= k < s.len() ==> round_trips(#[trigger] s[k]),
    ensures
        ({
            let b = encode_utf8(token_text_spec(TokenView::Str(s)));
            lex_spec(b) == Ok::<Seq<(TokenView, int, int)>, (int, Seq<char>)>(
                seq![(TokenView::Str(s), 0, b.len() as int)],
            )
        }),
{
    let f = debug_escape_fn();
    let q = seq!['"'];
    let t = s.flat_map(f);
    let et = encode_utf8(t);
    lemma_encode_ascii(34u8);
    assert(q =~= seq![34u8 as char]);
    lemma_encode_append(q + t, q);
    lemma_encode_append(q, t);
    assert(debug_quote(s) == q + t + q);
    let b = encode_utf8(q + t + q);
    assert(b =~= seq![34u8] + et + seq![34u8]);
    assert(Seq::<char>::empty() + t =~= t);
    assert forall|k: int| 0 <= k < et.len() implies b[1 + k] == #[trigger] et[k] by {}
    lemma_scan_written(Seq::<char>::empty(), s, b, 1);
    assert(Seq::<char>::empty() + s =~= s);
    let end = et.len() + 2int;
    assert(lex_from(b, end) == Ok::<Seq<(TokenView, int, int)>, (int, Seq<char>)>(seq![]));
    assert(seq![(TokenView::Str(s), 0, end)] + Seq::<(TokenView, int, int)>::empty() =~= seq![
        (TokenView::Str(s), 0, end),
    ]);
}

/// The UTF-8 encoding of ASCII characters is their bytes, one each.
proof fn lemma_encode_ascii_chars(n: Seq<char>)
    requires
        forall|k: int| 0 <= k < n.len() ==> (#[trigger] n[k] as u32) < 128,
    ensures
        encode_utf8(n).len() == n.len(),
        forall|k: int| 0 <= k < n.len() ==> #[trigger] encode_utf8(n)[k] == (n[k] as u32) as u8,
        byte_chars(encode_utf8(n)) == n,
    decreases n.len(),
{
    if n.len() > 0 {
        let u = n[0] as u32;
        let c = u as u8;
        assert(u < 128);
        assert((u as u8) as u32 == u) by (bit_vector)
            requires
                u < 128,
        ;
        vstd::utf8::char_u32_cast(n[0], u);
        assert((c as char) == (u as char));
        lemma_encode_ascii(c);
        assert(seq![c as char] =~= seq![n[0]]);
        let rest = n.drop_first();
        assert forall|k: int| 0 <= k < rest.len() implies (#[trigger] rest[k] as u32) < 128 by {
            assert(rest[k] == n[k + 1]);
        }
        lemma_encode_ascii_chars(rest);
        assert(n =~= seq![n[0]] + rest);
        lemma_encode_append(seq![n[0]], rest);
        assert forall|k: int| 0 <= k < n.len() implies #[trigger] encode_utf8(n)[k] == (n[k] as u32) as u8 by {
            if k > 0 {
                assert(encode_utf8(n)[k] == encode_utf8(rest)[k - 1]);
                assert(rest[k - 1] == n[k]);
            }
        }
        assert(byte_chars(encode_utf8(n)) =~= n);
    } else {
        assert(encode_utf8(n) =~= Seq::<u8>::empty());
        assert(byte_chars(encode_utf8(n)) =~= n);
    }
}

proof fn lemma_word_run(b: Seq<u8>, i: int, e: int)
    requires
        0 <= i <= e < b.len(),
        forall|k: int| i <= k < e ==> is_word_char(#[trigger] b[k]),
        !is_word_char(b[e]),
    ensures
        word_end(b, i) == e,
    decreases e - i,
{
    if i < e {
        lemma_word_run(b, i + 1, e);
    }
}

/// The text of an annotation whose name is an ASCII word and whose value's
/// characters all [`round_trips`] lexes back to that annotation alone.
pub proof fn law_annotation_text_lexes_back(n: Seq<char>, v: Seq<char>)
    requires
        n.len() > 0,
        forall|k: int| 0 <= k < n.len() ==> (#[trigger] n[k] as u32) < 128 && is_word_char((n[k] as u32) as u8),
        is_word_start((n[0] as u32) as u8),
        forall|k: int| 0 <= k < v.len() ==> round_trips(#[trigger] v[k]),
    ensures
        ({
            let b = encode_utf8(token_text_spec(TokenView::Annotation(n, v)));
            lex_spec(b) == Ok::<Seq<(TokenView, int, int)>, (int, Seq<char>)>(
                seq![(TokenView::Annotation(n, v), 0, b.len() as int)],
            )
        }),
{
    let f = debug_escape_fn();
    let t = v.flat_map(f);
    let et = encode_utf8(t);
    let en = encode_utf8(n);
    lemma_encode_ascii_chars(n);
    reveal_strlit("@");
    reveal_strlit("(");
    reveal_strlit(")");
    lemma_encode_ascii(64u8);
    lemma_encode_ascii(40u8);
    lemma_encode_ascii(34u8);
    lemma_encode_ascii(41u8);
    let at = seq![64u8 as char];
    let lp = seq![40u8 as char];
    let q = seq![34u8 as char];
    let rp = seq![41u8 as char];
    assert(token_text_spec(TokenView::Annotation(n, v)) =~= at + n + lp + q + t + q + rp);
    lemma_encode_append(at + n + lp + q + t + q, rp);
    lemma_encode_append(at + n + lp + q + t, q);
    lemma_encode_append(at + n + lp + q, t);
    lemma_encode_append(at + n + lp, q);
    lemma_encode_append(at + n, lp);
    lemma_encode_append(at, n);
    let b = encode_utf8(at + n + lp + q + t + q + rp);
    let ln = n.len() as int;
    assert(b =~= seq![64u8] + en + seq![40u8, 34u8] + et + seq![34u8, 41u8]);
    assert forall|k: int| 1 <= k < 1 + ln implies is_word_char(#[trigger] b[k]) by {
        assert(b[k] == en[k - 1]);
    }
    assert(b[1] == en[0]);
    assert(b[1 + ln] == 40);
    lemma_word_run(b, 1, 1 + ln);
    assert(b.subrange(1, 1 + ln) =~= en);
    let s0 = 3 + ln;
    assert forall|k: int| 0 <= k < et.len() implies b[s0 + k] == #[trigger] et[k] by {}
    assert(Seq::<char>::empty() + t =~= t);
    assert(b[s0 + et.len()] == 34);
    lemma_scan_written(Seq::<char>::empty(), v, b, s0);
    assert(Seq::<char>::empty() + v =~= v);
    let e = s0 + et.len() + 1;
    assert(b[e] == 41);
    assert(b.len() == e + 1);
    assert(lex_from(b, e + 1) == Ok::<Seq<(TokenView, int, int)>, (int, Seq<char>)>(seq![]));
    assert(seq![(TokenView::Annotation(n, v), 0, e + 1)] + Seq::<(TokenView, int, int)>::empty() =~= seq![
        (TokenView::Annotation(n, v), 0, e + 1),
    ]);
}

/// The UTF-8 encoding of an ASCII character is its one byte.
proof fn lemma_encode_ascii(c: u8)
    requires
        c < 128,
    ensures
        encode_utf8(seq![c as char]) == seq![c],
{
    let q = seq![c as char];
    let v = q[0] as u32;
    assert(v == c as u32);
    assert((v & 0x7F) as u8 == c) by (bit_vector)
        requires
            v == c as u32,
            c < 128,
    ;
    assert(q.drop_first() =~= Seq::<char>::empty());
    assert(encode_utf8(q.drop_first()) =~= Seq::<u8>::empty());
    assert(encode_utf8(q) =~= seq![c]);
}

/// A backslash and an ASCII character inside a quoted literal stand for the
/// escaped character when the pair is one of `\\`, `\"`, `\n`, `\t`; any
/// other pair is refused, at the character after the backslash, with the
/// message that names it.
pub proof fn law_escape_in_literal(s1: Seq<char>, c: u8, s2: Seq<char>)
    requires
        c < 128,
        forall|k: int| 0 <= k < s1.len() ==> s1[k] != '"' && s1[k] != '\\',
        forall|k: int| 0 <= k < s2.len() ==> s2[k] != '"' && s2[k] != '\\',
    ensures
        ({
            let b = encode_utf8(seq!['"'] + s1 + seq!['\\', c as char] + s2 + seq!['"']);
            &&& escape_char(c) matches Some(e) ==> lex_spec(b) == Ok::<Seq<(TokenView, int, int)>, (int, Seq<char>)>(
                seq![(TokenView::Str(s1 + seq![e] + s2), 0, b.len() as int)],
            )
            &&& escape_char(c) is None ==> lex_spec(b) == Err::<Seq<(TokenView, int, int)>, (int, Seq<char>)>(
                (encode_utf8(s1).len() + 2int, escape_message(c)),
            )
        }),
{
    let q = seq!['"'];
    let bs = seq!['\\', c as char];
    let e1 = encode_utf8(s1);
    let e2 = encode_utf8(s2);
    lemma_encode_ascii(34u8);
    lemma_encode_ascii(92u8);
    lemma_encode_ascii(c);
    assert(q =~= seq![34u8 as char]);
    assert(bs =~= seq![92u8 as char] + seq![c as char]);
    lemma_encode_append(seq![92u8 as char], seq![c as char]);
    lemma_encode_append(q + s1 + bs + s2, q);
    lemma_encode_append(q + s1 + bs, s2);
    lemma_encode_append(q + s1, bs);
    lemma_encode_append(q, s1);
    let b = encode_utf8(q + s1 + bs + s2 + q);
    assert(b =~= seq![34u8] + e1 + seq![92u8, c] + e2 + seq![34u8]);
    let n1 = e1.len() as int;
    let n2 = e2.len() as int;
    lemma_encode_plain(s1);
    lemma_encode_plain(s2);
    assert(b[0] == 34);
    assert(b[n1 + 1] == 92);
    assert(b[n1 + 2] == c);
    assert(b[n1 + n2 + 3] == 34);
    assert forall|k: int| 1 <= k < n1 + 1 implies b[k] != 34 && b[k] != 92 by {
        assert(b[k] == e1[k - 1]);
    }
    assert forall|k: int| n1 + 3 <= k < n1 + n2 + 3 implies b[k] != 34 && b[k] != 92 by {
        assert(b[k] == e2[k - n1 - 3]);
    }
    vstd::utf8::encode_utf8_decode_utf8(s1);
    vstd::utf8::encode_utf8_decode_utf8(s2);
    let end = n1 + n2 + 4;
    // The tail after the escape.
    if n2 > 0 {
        lemma_run_to(b, n1 + 3, n1 + n2 + 3);
        assert(b.subrange(n1 + 3, n1 + n2 + 3) =~= e2);
        assert(scan_str(b, n1 + n2 + 3) == StrScan::Done(seq![], end));
        assert(seq![] + vstd::utf8::decode_utf8(e2) + Seq::<char>::empty() =~= s2);
        assert(scan_str(b, n1 + 3) == StrScan::Done(s2, end));
    } else {
        assert(s2 =~= Seq::<char>::empty());
        assert(scan_str(b, n1 + 3) == StrScan::Done(s2, end));
    }
    // The escape and the head before it.
    match escape_char(c) {
        Some(e) => {
            assert(scan_str(b, n1 + 1) == StrScan::Done(seq![e] + s2, end));
            if n1 > 0 {
                lemma_run_to(b, 1, n1 + 1);
                assert(b.subrange(1, n1 + 1) =~= e1);
                assert(s1 + (seq![e] + s2) =~= s1 + seq![e] + s2);
                assert(scan_str(b, 1) == StrScan::Done(s1 + seq![e] + s2, end));
            } else {
                assert(s1 =~= Seq::<char>::empty());
                assert(seq![e] + s2 =~= s1 + seq![e] + s2);
                assert(scan_str(b, 1) == StrScan::Done(s1 + seq![e] + s2, end));
            }
            assert(lex_from(b, end) == Ok::<Seq<(TokenView, int, int)>, (int, Seq<char>)>(seq![]));
            assert(seq![(TokenView::Str(s1 + seq![e] + s2), 0, end)] + Seq::<(TokenView, int, int)>::empty()
                =~= seq![(TokenView::Str(s1 + seq![e] + s2), 0, end)]);
        },
        None => {
            assert(scan_str(b, n1 + 1) == StrScan::BadEscape(n1 + 2, c));
            if n1 > 0 {
                lemma_run_to(b, 1, n1 + 1);
                assert(scan_str(b, 1) == StrScan::BadEscape(n1 + 2, c));
            } else {
                assert(scan_str(b, 1) == StrScan::BadEscape(n1 + 2, c));
            }
        },
    }
}

} // verus!
