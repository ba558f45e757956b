//! The lexical grammar of VDL, stated over the source's bytes, and the
//! scanners that recognise each of its pieces.
use crate::lexer::token::{keyword, keyword_token, Token, TokenView};
use crate::text::byte_chars;
use vstd::string::StringSliceAdditionalSpecFns;
use vstd::prelude::*;

verus! {

// ---------------------------------------------------------------------------
// Byte classes
// ---------------------------------------------------------------------------

/// ASCII whitespace: space, tab, line feed, form feed, carriage return.
pub open spec fn is_ws(c: u8) -> bool {
    c == 32 || c == 9 || c == 10 || c == 12 || c == 13
}

pub open spec fn is_alpha(c: u8) -> bool {
    (65 <= c && c <= 90) || (97 <= c && c <= 122)
}

pub open spec fn is_digit(c: u8) -> bool {
    48 <= c && c <= 57
}

/// A byte that may begin a word: a letter or an underscore.
pub open spec fn is_word_start(c: u8) -> bool {
    is_alpha(c) || c == 95
}

/// A byte that may continue a word: a letter, a digit or an underscore.
pub open spec fn is_word_char(c: u8) -> bool {
    is_alpha(c) || is_digit(c) || c == 95
}

pub fn is_ws_byte(c: u8) -> (r: bool)
    ensures
        r == is_ws(c),
{
    c == 32 || c == 9 || c == 10 || c == 12 || c == 13
}

pub fn is_word_start_byte(c: u8) -> (r: bool)
    ensures
        r == is_word_start(c),
{
    (65 <= c && c <= 90) || (97 <= c && c <= 122) || c == 95
}

pub fn is_word_char_byte(c: u8) -> (r: bool)
    ensures
        r == is_word_char(c),
{
    (65 <= c && c <= 90) || (97 <= c && c <= 122) || (48 <= c && c <= 57) || c == 95
}

// ---------------------------------------------------------------------------
// Positions
// ---------------------------------------------------------------------------

/// The 1-based line and column of byte position `i`: a line feed starts a
/// new line, and every other byte moves one column on.
pub open spec fn line_col(b: Seq<u8>, i: int) -> (int, int)
    decreases i,
{
    if i <= 0 {
        (1, 1)
    } else {
        let p = line_col(b, i - 1);
        if b[i - 1] == 10 {
            (p.0 + 1, 1)
        } else {
            (p.0, p.1 + 1)
        }
    }
}

pub proof fn lemma_line_col_bounds(b: Seq<u8>, i: int)
    requires
        0 <= i,
    ensures
        1 <= line_col(b, i).0 <= i + 1,
        1 <= line_col(b, i).1 <= i + 1,
    decreases i,
{
    if i > 0 {
        lemma_line_col_bounds(b, i - 1);
    }
}

/// Moves a (line, column) pair from position `from` to position `to`.
pub fn advance_line_col(b: &[u8], from: usize, to: usize, line: usize, col: usize) -> (r: (
    usize,
    usize,
))
    requires
        from <= to <= b@.len(),
        b@.len() < usize::MAX,
        line_col(b@, from as int) == (line as int, col as int),
    ensures
        line_col(b@, to as int) == (r.0 as int, r.1 as int),
{
    let mut i = from;
    let mut l = line;
    let mut c = col;
    while i < to
        invariant
            from <= i <= to <= b@.len(),
            b@.len() < usize::MAX,
            line_col(b@, i as int) == (l as int, c as int),
        decreases to - i,
    {
        proof {
            lemma_line_col_bounds(b@, i as int);
        }
        if b[i] == 10 {
            l = l + 1;
            c = 1;
        } else {
            c = c + 1;
        }
        i = i + 1;
    }
    (l, c)
}

// ---------------------------------------------------------------------------
// Comments and words
// ---------------------------------------------------------------------------

/// Where a line comment whose text starts at `i` ends: at the next line
/// feed, which it leaves in place, or at the end of the source.
pub open spec fn line_end(b: Seq<u8>, i: int) -> int
    decreases b.len() - i,
{
    if i >= b.len() || b[i] == 10 {
        i
    } else {
        line_end(b, i + 1)
    }
}

/// Where a block comment whose text starts at `i` ends: just after the
/// first `*/`, if there is one.
pub open spec fn block_end(b: Seq<u8>, i: int) -> Option<int>
    decreases b.len() - i,
{
    if i >= b.len() {
        None
    } else if b[i] == 42 && i + 1 < b.len() && b[i + 1] == 47 {
        Some(i + 2)
    } else {
        block_end(b, i + 1)
    }
}

/// Where a word that continues at `i` ends.
pub open spec fn word_end(b: Seq<u8>, i: int) -> int
    decreases b.len() - i,
{
    if i >= b.len() || !is_word_char(b[i]) {
        i
    } else {
        word_end(b, i + 1)
    }
}

pub proof fn lemma_line_end(b: Seq<u8>, i: int)
    ensures
        i <= line_end(b, i),
        i <= b.len() ==> line_end(b, i) <= b.len(),
    decreases b.len() - i,
{
    if !(i >= b.len() || b[i] == 10) {
        lemma_line_end(b, i + 1);
    }
}

pub proof fn lemma_block_end(b: Seq<u8>, i: int)
    ensures
        block_end(b, i) matches Some(j) ==> i + 2 <= j <= b.len(),
    decreases b.len() - i,
{
    if i < b.len() && !(b[i] == 42 && i + 1 < b.len() && b[i + 1] == 47) {
        lemma_block_end(b, i + 1);
    }
}

pub proof fn lemma_word_end(b: Seq<u8>, i: int)
    ensures
        i <= word_end(b, i),
        i <= b.len() ==> word_end(b, i) <= b.len(),
    decreases b.len() - i,
{
    if !(i >= b.len() || !is_word_char(b[i])) {
        lemma_word_end(b, i + 1);
    }
}

pub fn line_end_exec(b: &[u8], i: usize) -> (r: usize)
    requires
        i <= b@.len(),
    ensures
        r == line_end(b@, i as int),
{
    let mut j = i;
    while j < b.len() && b[j] != 10
        invariant
            i <= j <= b@.len(),
            line_end(b@, i as int) == line_end(b@, j as int),
        decreases b@.len() - j,
    {
        j = j + 1;
    }
    j
}

pub fn block_end_exec(b: &[u8], i: usize) -> (r: Option<usize>)
    requires
        i <= b@.len(),
    ensures
        match r {
            Some(j) => block_end(b@, i as int) == Some(j as int),
            None => block_end(b@, i as int) is None,
        },
{
    let mut j = i;
    while j < b.len()
        invariant
            i <= j <= b@.len(),
            block_end(b@, i as int) == block_end(b@, j as int),
        decreases b@.len() - j,
    {
        if b[j] == 42 && j + 1 < b.len() && b[j + 1] == 47 {
            return Some(j + 2);
        }
        j = j + 1;
    }
    None
}

pub fn word_end_exec(b: &[u8], i: usize) -> (r: usize)
    requires
        i <= b@.len(),
    ensures
        r == word_end(b@, i as int),
{
    let mut j = i;
    while j < b.len() && is_word_char_byte(b[j])
        invariant
            i <= j <= b@.len(),
            word_end(b@, i as int) == word_end(b@, j as int),
        decreases b@.len() - j,
    {
        j = j + 1;
    }
    j
}

// ---------------------------------------------------------------------------
// String bodies
// ---------------------------------------------------------------------------

/// The character that an escape `\c` stands for, if `c` is a known escape.
pub open spec fn escape_char(c: u8) -> Option<char> {
    if c == 92 {
        Some('\\')
    } else if c == 34 {
        Some('"')
    } else if c == 110 {
        Some('\n')
    } else if c == 116 {
        Some('\t')
    } else {
        None
    }
}

/// The outcome of scanning the body of a string literal.
pub enum StrScan {
    /// The characters of the literal, and the position just past its
    /// closing quote.
    Done(Seq<char>, int),
    /// The source ended before the closing quote.
    Unterminated,
    /// An unknown escape: the position of the byte after the backslash,
    /// and that byte.
    BadEscape(int, u8),
}

pub open spec fn str_prepend(c: char, r: StrScan) -> StrScan {
    match r {
        StrScan::Done(s, e) => StrScan::Done(seq![c] + s, e),
        other => other,
    }
}

pub open spec fn str_prepend_all(p: Seq<char>, r: StrScan) -> StrScan {
    match r {
        StrScan::Done(s, e) => StrScan::Done(p + s, e),
        other => other,
    }
}

/// The end of the run of plain bytes (neither `"` nor `\\`) from `i`.
pub open spec fn run_end(b: Seq<u8>, i: int) -> int
    decreases b.len() - i,
{
    if i < 0 || i >= b.len() || b[i] == 34 || b[i] == 92 {
        i
    } else {
        run_end(b, i + 1)
    }
}

pub proof fn lemma_run_end(b: Seq<u8>, i: int)
    requires
        0 <= i <= b.len(),
    ensures
        i <= run_end(b, i) <= b.len(),
        run_end(b, i) < b.len() ==> b[run_end(b, i)] == 34 || b[run_end(b, i)] == 92,
        forall|k: int| i <= k < run_end(b, i) ==> b[k] != 34 && b[k] != 92,
    decreases b.len() - i,
{
    if i < b.len() && b[i] != 34 && b[i] != 92 {
        lemma_run_end(b, i + 1);
    }
}

/// Scans the body of a string literal from `i` (just after the opening
/// quote): each run of plain bytes stands for the characters that its
/// UTF-8 encodes, and the escapes `\\`, `\"`, `\n`, `\t` for their
/// characters, up to the closing quote.
pub open spec fn scan_str(b: Seq<u8>, i: int) -> StrScan
    decreases b.len() - i,
{
    if i < 0 || i >= b.len() {
        StrScan::Unterminated
    } else if b[i] == 34 {
        StrScan::Done(seq![], i + 1)
    } else if b[i] == 92 {
        if i + 1 >= b.len() {
            StrScan::Unterminated
        } else {
            match escape_char(b[i + 1]) {
                Some(c) => str_prepend(c, scan_str(b, i + 2)),
                None => StrScan::BadEscape(i + 1, b[i + 1]),
            }
        }
    } else {
        proof {
            lemma_run_end(b, i + 1);
        }
        let e = run_end(b, i);
        str_prepend_all(vstd::utf8::decode_utf8(b.subrange(i, e)), scan_str(b, e))
    }
}

pub proof fn lemma_scan_str(b: Seq<u8>, i: int)
    ensures
        scan_str(b, i) matches StrScan::Done(_, e) ==> i < e <= b.len(),
        scan_str(b, i) matches StrScan::BadEscape(p, _) ==> i < p < b.len(),
    decreases b.len() - i,
{
    if 0 <= i < b.len() && b[i] != 34 {
        if b[i] == 92 {
            if i + 1 < b.len() && escape_char(b[i + 1]) is Some {
                lemma_scan_str(b, i + 2);
            }
        } else {
            lemma_run_end(b, i + 1);
            lemma_scan_str(b, run_end(b, i));
        }
    }
}

/// In valid UTF-8, the position after an ASCII byte starts a character.
pub proof fn lemma_after_ascii_boundary(bytes: Seq<u8>, k: int)
    requires
        vstd::utf8::valid_utf8(bytes),
        0 <= k < bytes.len(),
        bytes[k] < 128,
    ensures
        vstd::utf8::is_char_boundary(bytes, k + 1),
    decreases bytes.len(),
{
    let l = vstd::utf8::length_of_first_scalar(bytes);
    let rest = vstd::utf8::pop_first_scalar(bytes);
    assert(vstd::utf8::valid_utf8(rest));
    if k == 0 {
        assert(l == 1);
        assert(vstd::utf8::is_char_boundary(rest, 0));
    } else if k < l {
        assert(vstd::utf8::is_continuation_byte(bytes[k]));
    } else {
        assert(rest[k - l] == bytes[k]);
        lemma_after_ascii_boundary(rest, k - l);
    }
}

/// What [`scan_string_body`] returns.
pub enum StrScanResult {
    Done(String, usize),
    Unterminated,
    BadEscape(usize, u8),
}

impl View for StrScanResult {
    type V = StrScan;

    open spec fn view(&self) -> StrScan {
        match self {
            StrScanResult::Done(s, e) => StrScan::Done(s@, *e as int),
            StrScanResult::Unterminated => StrScan::Unterminated,
            StrScanResult::BadEscape(p, c) => StrScan::BadEscape(*p as int, *c),
        }
    }
}

/// The end of the run of plain bytes from `i`.
fn run_end_exec(b: &[u8], i: usize) -> (r: usize)
    requires
        i <= b@.len(),
    ensures
        r == run_end(b@, i as int),
{
    let mut j = i;
    while j < b.len() && b[j] != 34 && b[j] != 92
        invariant
            i <= j <= b@.len(),
            run_end(b@, i as int) == run_end(b@, j as int),
        decreases b@.len() - j,
    {
        j = j + 1;
    }
    j
}

/// Scans the body of a string literal from `i`, just after its opening
/// quote; `src` is the text whose UTF-8 bytes are `b`.
pub fn scan_string_body(src: &str, b: &[u8], i: usize) -> (r: StrScanResult)
    requires
        src.spec_bytes() == b@,
        0 < i <= b@.len(),
        b@[i - 1] == 34,
        b@.len() < usize::MAX,
    ensures
        r@ == scan_str(b@, i as int),
{
    proof {
        vstd::utf8::encode_utf8_valid_utf8(src@);
    }
    let mut s = String::new();
    let mut j = i;
    while j < b.len()
        invariant
            src.spec_bytes() == b@,
            vstd::utf8::valid_utf8(b@),
            i <= j <= b@.len(),
            b@.len() < usize::MAX,
            j == b@.len() || (j > 0 && b@[j - 1] < 128) || (b@[j as int] == 34 || b@[j as int] == 92),
            scan_str(b@, i as int) == str_prepend_all(s@, scan_str(b@, j as int)),
        decreases b@.len() - j,
    {
        let c = b[j];
        if c == 34 {
            return StrScanResult::Done(s, j + 1);
        }
        if c == 92 {
            if j + 1 >= b.len() {
                return StrScanResult::Unterminated;
            }
            let e = b[j + 1];
            let ch = if e == 92 {
                '\\'
            } else if e == 34 {
                '"'
            } else if e == 110 {
                '\n'
            } else if e == 116 {
                '\t'
            } else {
                return StrScanResult::BadEscape(j + 1, e);
            };
            proof {
                assert(str_prepend_all(s@, str_prepend(ch, scan_str(b@, j + 2))) == str_prepend_all(
                    s@.push(ch),
                    scan_str(b@, j + 2),
                )) by {
                    match scan_str(b@, j + 2) {
                        StrScan::Done(t, _) => {
                            assert(s@ + (seq![ch] + t) =~= s@.push(ch) + t);
                        },
                        _ => {},
                    }
                }
            }
            s.push(ch);
            j = j + 2;
        } else {
            let e = run_end_exec(b, j);
            proof {
                lemma_run_end(b@, j as int);
                lemma_run_end(b@, j + 1);
                lemma_after_ascii_boundary(b@, j - 1);
            }
            let (_, tail) = src.split_at(j);
            proof {
                vstd::utf8::encode_utf8_valid_utf8(tail@);
                let tb = tail.spec_bytes();
                assert(tb =~= b@.subrange(j as int, b@.len() as int));
                if e < b.len() {
                    assert(tb[e - j] == b@[e as int]);
                    vstd::utf8::is_char_boundary_iff_not_is_continuation_byte(tb, e - j);
                } else {
                    vstd::utf8::is_char_boundary_start_end_of_seq(tb);
                }
            }
            let (mid, _) = tail.split_at(e - j);
            proof {
                vstd::utf8::encode_utf8_decode_utf8(mid@);
                assert(mid.spec_bytes() =~= b@.subrange(j as int, e as int));
                assert(mid@ == vstd::utf8::decode_utf8(b@.subrange(j as int, e as int)));
                let d = vstd::utf8::decode_utf8(b@.subrange(j as int, e as int));
                assert(str_prepend_all(s@, str_prepend_all(d, scan_str(b@, e as int))) == str_prepend_all(
                    s@ + d,
                    scan_str(b@, e as int),
                )) by {
                    match scan_str(b@, e as int) {
                        StrScan::Done(t, _) => {
                            assert(s@ + (d + t) =~= (s@ + d) + t);
                        },
                        _ => {},
                    }
                }
            }
            s.append(mid);
            j = e;
        }
    }
    StrScanResult::Unterminated
}

// ---------------------------------------------------------------------------
// Tokens
// ---------------------------------------------------------------------------

pub open spec fn escape_message(c: u8) -> Seq<char> {
    "unknown escape sequence: \\ "@ + seq![c as char]
}

/// Scans an annotation `@name("value")` that starts at `i`. An error is the
/// position it is reported at and its message.
pub open spec fn scan_annotation(b: Seq<u8>, i: int) -> Result<(TokenView, int), (int, Seq<char>)> {
    let n0 = i + 1;
    if n0 >= b.len() || !is_word_start(b[n0]) {
        Err((n0, "expected identifier after @"@))
    } else {
        let ne = word_end(b, n0);
        let name = byte_chars(b.subrange(n0, ne));
        if ne >= b.len() || b[ne] != 40 {
            Err((ne, "expected '(' after @ "@ + name))
        } else {
            let q = ne + 1;
            if q >= b.len() || b[q] != 34 {
                Err((q, "expected string literal in annotation"@))
            } else {
                match scan_str(b, q + 1) {
                    StrScan::Unterminated => Err((q, "unterminated string literal in annotation"@)),
                    StrScan::BadEscape(p, c) => Err((p, escape_message(c))),
                    StrScan::Done(v, e) => {
                        if e >= b.len() || b[e] != 41 {
                            Err((e, "expected ')' after string in @ "@ + name))
                        } else {
                            Ok((TokenView::Annotation(name, v), e + 1))
                        }
                    },
                }
            }
        }
    }
}

/// The delimiter token that a byte stands for, if any.
pub open spec fn delimiter(c: u8) -> Option<TokenView> {
    if c == 123 {
        Some(TokenView::LBrace)
    } else if c == 125 {
        Some(TokenView::RBrace)
    } else if c == 91 {
        Some(TokenView::LBracket)
    } else if c == 93 {
        Some(TokenView::RBracket)
    } else if c == 44 {
        Some(TokenView::Comma)
    } else {
        None
    }
}

/// Scans the token that starts at `i` (a byte that is neither whitespace
/// nor the start of a comment): a string literal, an annotation, a keyword
/// or a delimiter. On success, the token and the position just past it.
pub open spec fn scan_token(b: Seq<u8>, i: int) -> Result<(TokenView, int), (int, Seq<char>)> {
    let c = b[i];
    if c == 34 {
        match scan_str(b, i + 1) {
            StrScan::Done(s, e) => Ok((TokenView::Str(s), e)),
            StrScan::Unterminated => Err((i, "unterminated string literal"@)),
            StrScan::BadEscape(p, x) => Err((p, escape_message(x))),
        }
    } else if c == 64 {
        scan_annotation(b, i)
    } else if is_word_start(c) {
        let e = word_end(b, i);
        let w = byte_chars(b.subrange(i, e));
        match keyword_token(w) {
            Some(t) => Ok((t, e)),
            None => Err((i, "unknown word: '"@ + w + "'"@)),
        }
    } else {
        match delimiter(c) {
            Some(t) => Ok((t, i + 1)),
            None => Err((i, "unknown character: '"@ + seq![c as char] + "'"@)),
        }
    }
}

pub proof fn lemma_scan_token(b: Seq<u8>, i: int)
    requires
        0 <= i < b.len(),
    ensures
        scan_token(b, i) matches Ok((_, e)) ==> i < e <= b.len(),
        scan_token(b, i) matches Err((p, _)) ==> i <= p <= b.len(),
{
    lemma_scan_str(b, i + 1);
    lemma_word_end(b, i);
    if i + 1 < b.len() {
        lemma_word_end(b, i + 1);
        let ne = word_end(b, i + 1);
        lemma_scan_str(b, ne + 2);
    }
}

/// What [`scan_token_exec`] returns.
pub enum TokenScan {
    Token(Token, usize),
    Error(usize, String),
}

pub open spec fn token_scan_view(r: TokenScan) -> Result<(TokenView, int), (int, Seq<char>)> {
    match r {
        TokenScan::Token(t, e) => Ok((t@, e as int)),
        TokenScan::Error(p, m) => Err((p as int, m@)),
    }
}

fn escape_message_exec(c: u8) -> (s: String)
    ensures
        s@ == escape_message(c),
{
    let mut s = String::from_str("unknown escape sequence: \\ ");
    s.push(c as char);
    assert(s@ =~= escape_message(c));
    s
}

fn word_string(b: &[u8], from: usize, to: usize) -> (s: String)
    requires
        from <= to <= b@.len(),
    ensures
        s@ == byte_chars(b@.subrange(from as int, to as int)),
{
    let mut s = String::new();
    crate::text::push_byte_chars(&mut s, b, from, to);
    assert(s@ =~= byte_chars(b@.subrange(from as int, to as int)));
    s
}

fn scan_annotation_exec(src: &str, b: &[u8], i: usize) -> (r: TokenScan)
    requires
        src.spec_bytes() == b@,
        i < b@.len(),
        b@.len() < usize::MAX,
    ensures
        token_scan_view(r) == scan_annotation(b@, i as int),
{
    let n0 = i + 1;
    if n0 >= b.len() || !is_word_start_byte(b[n0]) {
        return TokenScan::Error(n0, String::from_str("expected identifier after @"));
    }
    let ne = word_end_exec(b, n0);
    proof {
        lemma_word_end(b@, n0 as int);
    }
    let name = word_string(b, n0, ne);
    if ne >= b.len() || b[ne] != 40 {
        let mut m = String::from_str("expected '(' after @ ");
        m.append(name.as_str());
        return TokenScan::Error(ne, m);
    }
    let q = ne + 1;
    if q >= b.len() || b[q] != 34 {
        return TokenScan::Error(q, String::from_str("expected string literal in annotation"));
    }
    match scan_string_body(src, b, q + 1) {
        StrScanResult::Unterminated => TokenScan::Error(
            q,
            String::from_str("unterminated string literal in annotation"),
        ),
        StrScanResult::BadEscape(p, c) => TokenScan::Error(p, escape_message_exec(c)),
        StrScanResult::Done(v, e) => {
            proof {
                lemma_scan_str(b@, q + 1);
            }
            if e >= b.len() || b[e] != 41 {
                let mut m = String::from_str("expected ')' after string in @ ");
                m.append(name.as_str());
                TokenScan::Error(e, m)
            } else {
                TokenScan::Token(Token::Annotation(name, v), e + 1)
            }
        },
    }
}

/// Scans the token that starts at `i`.
pub fn scan_token_exec(src: &str, b: &[u8], i: usize) -> (r: TokenScan)
    requires
        src.spec_bytes() == b@,
        i < b@.len(),
        b@.len() < usize::MAX,
    ensures
        token_scan_view(r) == scan_token(b@, i as int),
{
    let c = b[i];
    if c == 34 {
        match scan_string_body(src, b, i + 1) {
            StrScanResult::Done(s, e) => TokenScan::Token(Token::String(s), e),
            StrScanResult::Unterminated => TokenScan::Error(
                i,
                String::from_str("unterminated string literal"),
            ),
            StrScanResult::BadEscape(p, x) => TokenScan::Error(p, escape_message_exec(x)),
        }
    } else if c == 64 {
        scan_annotation_exec(src, b, i)
    } else if is_word_start_byte(c) {
        let e = word_end_exec(b, i);
        proof {
            lemma_word_end(b@, i as int);
        }
        let w = word_string(b, i, e);
        match keyword(&w) {
            Some(t) => TokenScan::Token(t, e),
            None => {
                let mut m = String::from_str("unknown word: '");
                m.append(w.as_str());
                m.append("'");
                TokenScan::Error(i, m)
            },
        }
    } else {
        let t = if c == 123 {
            Token::LBrace
        } else if c == 125 {
            Token::RBrace
        } else if c == 91 {
            Token::LBracket
        } else if c == 93 {
            Token::RBracket
        } else if c == 44 {
            Token::Comma
        } else {
            let mut m = String::from_str("unknown character: '");
            m.push(c as char);
            m.append("'");
            assert(m@ =~= "unknown character: '"@ + seq![c as char] + "'"@);
            return TokenScan::Error(i, m);
        };
        TokenScan::Token(t, i + 1)
    }
}

} // verus!
