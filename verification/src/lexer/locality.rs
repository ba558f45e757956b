//! Lexing is local: what the lexer makes of a stretch of source depends on
//! that stretch alone, so a source can be lexed in pieces, and a comment
//! between two pieces adds no token.
use crate::lexer::scan::{
    block_end, is_word_char, lemma_block_end, lemma_line_end, lemma_run_end, lemma_scan_str, lemma_scan_token,
    lemma_word_end, line_end, run_end, scan_annotation, scan_str, scan_token, word_end, StrScan,
};
use crate::lexer::token::TokenView;
use crate::lexer::{lex_from, lex_spec};
use vstd::prelude::*;

verus! {

/// Tokens with their byte ranges moved `n` bytes on.
pub open spec fn shift_tokens(ts: Seq<(TokenView, int, int)>, n: int) -> Seq<(TokenView, int, int)> {
    ts.map_values(|t: (TokenView, int, int)| (t.0, t.1 + n, t.2 + n))
}

/// A lexing outcome with every position in it moved `n` bytes on.
pub open spec fn shift_lex(r: Result<Seq<(TokenView, int, int)>, (int, Seq<char>)>, n: int) -> Result<
    Seq<(TokenView, int, int)>,
    (int, Seq<char>),
> {
    match r {
        Ok(ts) => Ok(shift_tokens(ts, n)),
        Err((p, m)) => Err((p + n, m)),
    }
}

spec fn shift_scan(r: Result<(TokenView, int), (int, Seq<char>)>, n: int) -> Result<(TokenView, int), (int, Seq<char>)> {
    match r {
        Ok((t, e)) => Ok((t, e + n)),
        Err((p, m)) => Err((p + n, m)),
    }
}

spec fn shift_str(r: StrScan, n: int) -> StrScan {
    match r {
        StrScan::Done(s, e) => StrScan::Done(s, e + n),
        StrScan::Unterminated => StrScan::Unterminated,
        StrScan::BadEscape(p, c) => StrScan::BadEscape(p + n, c),
    }
}

proof fn lemma_line_end_shift(p: Seq<u8>, b: Seq<u8>, i: int)
    requires
        0 <= i,
    ensures
        line_end(p + b, p.len() + i) == p.len() + line_end(b, i),
    decreases b.len() - i,
{
    if i < b.len() && b[i] != 10 {
        lemma_line_end_shift(p, b, i + 1);
    }
}

proof fn lemma_block_end_shift(p: Seq<u8>, b: Seq<u8>, i: int)
    requires
        0 <= i,
    ensures
        block_end(p + b, p.len() + i) == match block_end(b, i) {
            Some(j) => Some(p.len() + j),
            None => None::<int>,
        },
    decreases b.len() - i,
{
    if i < b.len() && !(b[i] == 42 && i + 1 < b.len() && b[i + 1] == 47) {
        lemma_block_end_shift(p, b, i + 1);
    }
}

proof fn lemma_word_end_shift(p: Seq<u8>, b: Seq<u8>, i: int)
    requires
        0 <= i,
    ensures
        word_end(p + b, p.len() + i) == p.len() + word_end(b, i),
    decreases b.len() - i,
{
    if i < b.len() && is_word_char(b[i]) {
        lemma_word_end_shift(p, b, i + 1);
    }
}

proof fn lemma_run_end_shift(p: Seq<u8>, b: Seq<u8>, i: int)
    requires
        0 <= i,
    ensures
        run_end(p + b, p.len() + i) == p.len() + run_end(b, i),
    decreases b.len() - i,
{
    if i < b.len() && b[i] != 34 && b[i] != 92 {
        lemma_run_end_shift(p, b, i + 1);
    }
}

proof fn lemma_scan_str_shift(p: Seq<u8>, b: Seq<u8>, i: int)
    requires
        0 <= i,
    ensures
        scan_str(p + b, p.len() + i) == shift_str(scan_str(b, i), p.len() as int),
    decreases b.len() - i,
{
    let x = p + b;
    let n = p.len() as int;
    if i < b.len() && b[i] != 34 {
        if b[i] == 92 {
            if i + 1 < b.len() {
                lemma_scan_str_shift(p, b, i + 2);
            }
        } else {
            lemma_run_end(b, i + 1);
            lemma_run_end_shift(p, b, i);
            let e = run_end(b, i);
            lemma_scan_str_shift(p, b, e);
            assert(x.subrange(n + i, n + e) =~= b.subrange(i, e));
        }
    }
}

proof fn lemma_scan_annotation_shift(p: Seq<u8>, b: Seq<u8>, i: int)
    requires
        0 <= i < b.len(),
    ensures
        scan_annotation(p + b, p.len() + i) == shift_scan(scan_annotation(b, i), p.len() as int),
{
    let x = p + b;
    let n = p.len() as int;
    let n0 = i + 1;
    if n0 < b.len() {
        assert(x[n + n0] == b[n0]);
    }
    if n0 < b.len() && crate::lexer::scan::is_word_start(b[n0]) {
        lemma_word_end_shift(p, b, n0);
        lemma_word_end(b, n0);
        let ne = word_end(b, n0);
        assert(x.subrange(n + n0, n + ne) =~= b.subrange(n0, ne));
        let name = crate::text::byte_chars(b.subrange(n0, ne));
        if ne < b.len() {
            assert(x[n + ne] == b[ne]);
            let q = ne + 1;
            if q < b.len() {
                assert(x[n + q] == b[q]);
                if b[ne] == 40 && b[q] == 34 {
                    lemma_scan_str_shift(p, b, q + 1);
                    lemma_scan_str(b, q + 1);
                    if let StrScan::Done(v, e) = scan_str(b, q + 1) {
                        if e < b.len() {
                            assert(x[n + e] == b[e]);
                        }
                    }
                }
            }
        }
    }
}

proof fn lemma_scan_token_shift(p: Seq<u8>, b: Seq<u8>, i: int)
    requires
        0 <= i < b.len(),
    ensures
        scan_token(p + b, p.len() + i) == shift_scan(scan_token(b, i), p.len() as int),
{
    let x = p + b;
    let n = p.len() as int;
    lemma_scan_str_shift(p, b, i + 1);
    lemma_scan_annotation_shift(p, b, i);
    lemma_word_end_shift(p, b, i);
    lemma_word_end(b, i);
    let e = word_end(b, i);
    assert(x.subrange(n + i, n + e) =~= b.subrange(i, e));
}

/// Lexing `b` from position `i` after a prefix `p` gives what lexing `b`
/// alone gives, every position moved on by the length of `p`.
pub proof fn lemma_lex_shift(p: Seq<u8>, b: Seq<u8>, i: int)
    requires
        0 <= i,
    ensures
        lex_from(p + b, p.len() + i) == shift_lex(lex_from(b, i), p.len() as int),
    decreases b.len() - i,
{
    let n = p.len() as int;
    if i < b.len() {
        if crate::lexer::scan::is_ws(b[i]) {
            lemma_lex_shift(p, b, i + 1);
        } else if b[i] == 47 && i + 1 < b.len() && b[i + 1] == 47 {
            lemma_line_end(b, i + 2);
            lemma_line_end_shift(p, b, i + 2);
            lemma_lex_shift(p, b, line_end(b, i + 2));
        } else if b[i] == 47 && i + 1 < b.len() && b[i + 1] == 42 {
            lemma_block_end(b, i + 2);
            lemma_block_end_shift(p, b, i + 2);
            if let Some(j) = block_end(b, i + 2) {
                lemma_lex_shift(p, b, j);
            }
        } else {
            lemma_scan_token(b, i);
            lemma_scan_token_shift(p, b, i);
            if let Ok((t, j)) = scan_token(b, i) {
                lemma_lex_shift(p, b, j);
                if let Ok(rest) = lex_from(b, j) {
                    assert(shift_tokens(seq![(t, i, j)] + rest, n) =~= seq![(t, n + i, n + j)] + shift_tokens(
                        rest,
                        n,
                    ));
                }
            }
        }
    } else {
        assert(shift_tokens(seq![], n) =~= seq![]);
    }
}

proof fn lemma_word_end_extend(a: Seq<u8>, r: Seq<u8>, i: int)
    requires
        0 <= i <= a.len(),
        r.len() > 0,
        !is_word_char(r[0]),
    ensures
        word_end(a + r, i) == word_end(a, i),
    decreases a.len() - i,
{
    if i < a.len() && is_word_char(a[i]) {
        lemma_word_end_extend(a, r, i + 1);
    }
}

/// A token that lexes within `a`, a stretch without quotes or slashes, is
/// the same token when whitespace and more follow `a`.
proof fn lemma_scan_token_extend(a: Seq<u8>, r: Seq<u8>, i: int)
    requires
        0 <= i < a.len(),
        forall|k: int| 0 <= k < a.len() ==> a[k] != 34 && a[k] != 47,
        r.len() > 0,
        crate::lexer::scan::is_ws(r[0]),
        scan_token(a, i) is Ok,
    ensures
        scan_token(a + r, i) == scan_token(a, i),
{
    let x = a + r;
    assert(x[i] == a[i]);
    if a[i] == 64 {
        let n0 = i + 1;
        lemma_word_end(a, n0);
        let ne = word_end(a, n0);
        assert(false) by {
            if n0 < a.len() && crate::lexer::scan::is_word_start(a[n0]) && ne < a.len() && a[ne] == 40 && ne + 1
                < a.len() {
                assert(a[ne + 1] != 34);
            }
        }
    } else if crate::lexer::scan::is_word_start(a[i]) {
        lemma_word_end_extend(a, r, i);
        lemma_word_end(a, i);
        let e = word_end(a, i);
        assert(x.subrange(i, e) =~= a.subrange(i, e));
    }
}

/// Lexing `a` followed by whitespace and more yields the tokens of `a`
/// first, when `a` holds no quotes or slashes and lexes without error.
pub proof fn lemma_lex_extend(a: Seq<u8>, r: Seq<u8>, i: int)
    requires
        0 <= i <= a.len(),
        forall|k: int| 0 <= k < a.len() ==> a[k] != 34 && a[k] != 47,
        r.len() > 0,
        crate::lexer::scan::is_ws(r[0]),
        lex_from(a, i) is Ok,
    ensures
        lex_from(a + r, i) == match lex_from(a + r, a.len() as int) {
            Ok(rest) => Ok(lex_from(a, i)->Ok_0 + rest),
            Err(e) => Err(e),
        },
    decreases a.len() - i,
{
    let x = a + r;
    if i == a.len() {
        if let Ok(rest) = lex_from(x, i) {
            assert(Seq::<(TokenView, int, int)>::empty() + rest =~= rest);
        }
    } else {
        assert(x[i] == a[i]);
        if crate::lexer::scan::is_ws(a[i]) {
            lemma_lex_extend(a, r, i + 1);
        } else {
            lemma_scan_token(a, i);
            lemma_scan_token_extend(a, r, i);
            if let Ok((t, j)) = scan_token(a, i) {
                lemma_lex_extend(a, r, j);
                if let Ok(rest) = lex_from(x, a.len() as int) {
                    assert(seq![(t, i, j)] + (lex_from(a, j)->Ok_0 + rest) =~= (seq![(t, i, j)] + lex_from(
                        a,
                        j,
                    )->Ok_0) + rest);
                }
            }
        }
    }
}

proof fn lemma_block_end_to(x: Seq<u8>, j: int, e: int)
    requires
        0 <= j <= e,
        e + 1 < x.len(),
        x[e] == 42,
        x[e + 1] == 47,
        forall|k: int| j <= k < e ==> !(#[trigger] x[k] == 42 && x[k + 1] == 47),
    ensures
        block_end(x, j) == Some(e + 2),
    decreases e - j,
{
    if j < e {
        lemma_block_end_to(x, j + 1, e);
    }
}

proof fn lemma_line_end_to(x: Seq<u8>, j: int, e: int)
    requires
        0 <= j <= e < x.len(),
        x[e] == 10,
        forall|k: int| j <= k < e ==> x[k] != 10,
    ensures
        line_end(x, j) == e,
    decreases e - j,
{
    if j < e {
        lemma_line_end_to(x, j + 1, e);
    }
}

/// A block comment between two pieces of source adds no token: the tokens
/// are those of the first piece, then those of the second, moved on by
/// where it starts. The first piece holds no quotes or slashes, and the
/// comment's text holds no `*/`.
pub proof fn law_block_comment_separates(a: Seq<u8>, c: Seq<u8>, b: Seq<u8>)
    requires
        forall|k: int| 0 <= k < a.len() ==> a[k] != 34 && a[k] != 47,
        forall|k: int| 0 <= k < c.len() ==> !(#[trigger] c[k] == 42 && k + 1 < c.len() && c[k + 1] == 47),
        lex_spec(a) is Ok,
        lex_spec(b) is Ok,
    ensures
        ({
            let mid = seq![32u8, 47u8, 42u8] + c + seq![42u8, 47u8, 32u8];
            lex_spec(a + mid + b) == Ok::<Seq<(TokenView, int, int)>, (int, Seq<char>)>(
                lex_spec(a)->Ok_0 + shift_tokens(lex_spec(b)->Ok_0, (a.len() + mid.len()) as int),
            )
        }),
{
    let mid = seq![32u8, 47u8, 42u8] + c + seq![42u8, 47u8, 32u8];
    let x = a + mid + b;
    let n = a.len() as int;
    let m = mid.len() as int;
    assert(x =~= a + (mid + b));
    assert((mid + b)[0] == 32);
    lemma_lex_extend(a, mid + b, 0);
    assert(x =~= (a + mid) + b);
    lemma_lex_shift(a + mid, b, 0);
    assert(x[n] == 32);
    assert(x[n + 1] == 47);
    assert(x[n + 2] == 42);
    let e = n + 3 + c.len();
    assert(x[e] == 42);
    assert(x[e + 1] == 47);
    assert(x[e + 2] == 32);
    assert forall|k: int| n + 3 <= k < e implies !(#[trigger] x[k] == 42 && x[k + 1] == 47) by {
        assert(x[k] == c[k - n - 3]);
        if k + 1 < e {
            assert(x[k + 1] == c[k + 1 - n - 3]);
        }
    }
    lemma_block_end_to(x, n + 3, e);
    assert(e + 3 == n + m);
    assert(lex_from(x, n + 1) == lex_from(x, e + 2));
    assert(lex_from(x, e + 2) == lex_from(x, e + 3));
}

/// A line comment between two pieces of source adds no token, in the same
/// way; the comment's text holds no line feed.
pub proof fn law_line_comment_separates(a: Seq<u8>, d: Seq<u8>, b: Seq<u8>)
    requires
        forall|k: int| 0 <= k < a.len() ==> a[k] != 34 && a[k] != 47,
        forall|k: int| 0 <= k < d.len() ==> d[k] != 10,
        lex_spec(a) is Ok,
        lex_spec(b) is Ok,
    ensures
        ({
            let mid = seq![32u8, 47u8, 47u8] + d + seq![10u8];
            lex_spec(a + mid + b) == Ok::<Seq<(TokenView, int, int)>, (int, Seq<char>)>(
                lex_spec(a)->Ok_0 + shift_tokens(lex_spec(b)->Ok_0, (a.len() + mid.len()) as int),
            )
        }),
{
    let mid = seq![32u8, 47u8, 47u8] + d + seq![10u8];
    let x = a + mid + b;
    let n = a.len() as int;
    let m = mid.len() as int;
    assert(x =~= a + (mid + b));
    assert((mid + b)[0] == 32);
    lemma_lex_extend(a, mid + b, 0);
    assert(x =~= (a + mid) + b);
    lemma_lex_shift(a + mid, b, 0);
    assert(x[n] == 32);
    assert(x[n + 1] == 47);
    assert(x[n + 2] == 47);
    let e = n + 3 + d.len();
    assert(x[e] == 10);
    assert forall|k: int| n + 3 <= k < e implies x[k] != 10 by {
        assert(x[k] == d[k - n - 3]);
    }
    lemma_line_end_to(x, n + 3, e);
    assert(e + 1 == n + m);
    assert(lex_from(x, n + 1) == lex_from(x, e));
    assert(lex_from(x, e) == lex_from(x, e + 1));
}

} // verus!
