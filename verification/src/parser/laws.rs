//! Laws of the grammar, stated over the tokens it reads: an evidence block
//! keeps every item written in it.
use crate::lexer::token::TokenView;
use crate::parser::ast::EvidenceView;
use crate::parser::grammar::{
    lemma_evidence_advance, lemma_evidence_items_advance, p_analogy, p_evidence, p_evidence_items, p_items,
    p_revelation, p_synthesis, tok, ParseInput, Parsed,
};
use vstd::prelude::*;

verus! {

/// How many of the tokens at positions `lo..hi` are `t`.
pub open spec fn count_tok(c: ParseInput, lo: int, hi: int, t: TokenView) -> nat
    decreases hi - lo,
{
    if hi <= lo {
        0
    } else {
        count_tok(c, lo, hi - 1, t) + if tok(c, hi - 1) == Some(t) {
            1nat
        } else {
            0nat
        }
    }
}

/// Whether a token starts an evidence item.
pub open spec fn is_item_keyword(t: Option<TokenView>) -> bool {
    t == Some(TokenView::Revelation) || t == Some(TokenView::Synthesis) || t == Some(TokenView::Analogy)
}

proof fn lemma_count_split(c: ParseInput, lo: int, mid: int, hi: int, t: TokenView)
    requires
        lo <= mid <= hi,
    ensures
        count_tok(c, lo, hi, t) == count_tok(c, lo, mid, t) + count_tok(c, mid, hi, t),
    decreases hi - mid,
{
    if mid < hi {
        lemma_count_split(c, lo, mid, hi - 1, t);
    }
}

proof fn lemma_count_none(c: ParseInput, lo: int, hi: int, t: TokenView)
    requires
        is_item_keyword(Some(t)),
        forall|k: int| lo <= k < hi ==> !is_item_keyword(#[trigger] tok(c, k)),
    ensures
        count_tok(c, lo, hi, t) == 0,
    decreases hi - lo,
{
    if lo < hi {
        assert(!is_item_keyword(tok(c, hi - 1)));
        lemma_count_none(c, lo, hi - 1, t);
    }
}

proof fn lemma_list_items_clean(c: ParseInput, i: int, acc: Seq<Seq<char>>)
    ensures
        p_items(c, i, acc) matches Parsed::Done(_, j) ==> forall|k: int|
            i <= k < j ==> !is_item_keyword(#[trigger] tok(c, k)),
    decreases c.ts.len() - i,
{
    if let Some(TokenView::Str(s)) = tok(c, i) {
        if tok(c, i + 1) == Some(TokenView::Comma) {
            lemma_list_items_clean(c, i + 2, acc.push(s));
        }
    }
}

/// The tokens of an item, after its keyword, start no item.
proof fn lemma_item_clean(c: ParseInput, i: int)
    ensures
        p_revelation(c, i) matches Parsed::Done(_, j) ==> forall|k: int|
            i < k < j ==> !is_item_keyword(#[trigger] tok(c, k)),
        p_synthesis(c, i) matches Parsed::Done(_, j) ==> forall|k: int|
            i < k < j ==> !is_item_keyword(#[trigger] tok(c, k)),
        p_analogy(c, i) matches Parsed::Done(_, j) ==> forall|k: int|
            i < k < j ==> !is_item_keyword(#[trigger] tok(c, k)),
{
    lemma_list_items_clean(c, i + 4, seq![]);
}

proof fn lemma_count_one(c: ParseInput, i: int, t: TokenView)
    ensures
        count_tok(c, i, i + 1, t) == if tok(c, i) == Some(t) {
            1nat
        } else {
            0nat
        },
{
    assert(count_tok(c, i, i, t) == 0);
}

/// The keyword of `t`'s kind at the start of an item parsed from `i`
/// counts once, and nothing else in the item counts.
proof fn lemma_item_count(c: ParseInput, i: int, j: int, t: TokenView)
    requires
        i < j,
        is_item_keyword(Some(t)),
        forall|k: int| i < k < j ==> !is_item_keyword(#[trigger] tok(c, k)),
    ensures
        count_tok(c, i, j, t) == if tok(c, i) == Some(t) {
            1nat
        } else {
            0nat
        },
{
    lemma_count_split(c, i, i + 1, j, t);
    lemma_count_none(c, i + 1, j, t);
    lemma_count_one(c, i, t);
}

/// Parsing the items of an evidence block keeps the items it started
/// with and adds one item for each item keyword it reads: the revelations,
/// syntheses and analogies that come out are those that went in, followed
/// by as many more as the block has `revelation`, `synthesis` and
/// `analogy` keywords.
pub proof fn law_evidence_items_keep_every_item(c: ParseInput, i: int, b: EvidenceView)
    ensures
        p_evidence_items(c, i, b) matches Parsed::Done(b2, j) ==> {
            &&& b2.revelations.len() == b.revelations.len() + count_tok(c, i, j, TokenView::Revelation)
            &&& b2.syntheses.len() == b.syntheses.len() + count_tok(c, i, j, TokenView::Synthesis)
            &&& b2.analogies.len() == b.analogies.len() + count_tok(c, i, j, TokenView::Analogy)
            &&& b2.revelations.take(b.revelations.len() as int) == b.revelations
            &&& b2.syntheses.take(b.syntheses.len() as int) == b.syntheses
            &&& b2.analogies.take(b.analogies.len() as int) == b.analogies
        },
    decreases c.ts.len() - i,
{
    lemma_evidence_items_advance(c, i);
    lemma_item_clean(c, i);
    let r = TokenView::Revelation;
    let s = TokenView::Synthesis;
    let a = TokenView::Analogy;
    match tok(c, i) {
        Some(TokenView::RBrace) => {
            lemma_count_one(c, i, r);
            lemma_count_one(c, i, s);
            lemma_count_one(c, i, a);
            assert(b.revelations.take(b.revelations.len() as int) =~= b.revelations);
            assert(b.syntheses.take(b.syntheses.len() as int) =~= b.syntheses);
            assert(b.analogies.take(b.analogies.len() as int) =~= b.analogies);
        },
        Some(TokenView::Revelation) => {
            if let Parsed::Done(x, j1) = p_revelation(c, i) {
                let b1 = EvidenceView { revelations: b.revelations.push(x), ..b };
                law_evidence_items_keep_every_item(c, j1, b1);
                lemma_evidence_advance(c, j1, b1);
                if let Parsed::Done(b2, j) = p_evidence_items(c, j1, b1) {
                    lemma_item_count(c, i, j1, r);
                    lemma_item_count(c, i, j1, s);
                    lemma_item_count(c, i, j1, a);
                    lemma_count_split(c, i, j1, j, r);
                    lemma_count_split(c, i, j1, j, s);
                    lemma_count_split(c, i, j1, j, a);
                    assert(b2.revelations.take(b.revelations.len() as int) =~= b1.revelations.take(
                        b.revelations.len() as int,
                    ));
                    assert(b1.revelations.take(b.revelations.len() as int) =~= b.revelations);
                }
            }
        },
        Some(TokenView::Synthesis) => {
            if let Parsed::Done(x, j1) = p_synthesis(c, i) {
                let b1 = EvidenceView { syntheses: b.syntheses.push(x), ..b };
                law_evidence_items_keep_every_item(c, j1, b1);
                lemma_evidence_advance(c, j1, b1);
                if let Parsed::Done(b2, j) = p_evidence_items(c, j1, b1) {
                    lemma_item_count(c, i, j1, r);
                    lemma_item_count(c, i, j1, s);
                    lemma_item_count(c, i, j1, a);
                    lemma_count_split(c, i, j1, j, r);
                    lemma_count_split(c, i, j1, j, s);
                    lemma_count_split(c, i, j1, j, a);
                    assert(b2.syntheses.take(b.syntheses.len() as int) =~= b1.syntheses.take(
                        b.syntheses.len() as int,
                    ));
                    assert(b1.syntheses.take(b.syntheses.len() as int) =~= b.syntheses);
                }
            }
        },
        Some(TokenView::Analogy) => {
            if let Parsed::Done(x, j1) = p_analogy(c, i) {
                let b1 = EvidenceView { analogies: b.analogies.push(x), ..b };
                law_evidence_items_keep_every_item(c, j1, b1);
                lemma_evidence_advance(c, j1, b1);
                if let Parsed::Done(b2, j) = p_evidence_items(c, j1, b1) {
                    lemma_item_count(c, i, j1, r);
                    lemma_item_count(c, i, j1, s);
                    lemma_item_count(c, i, j1, a);
                    lemma_count_split(c, i, j1, j, r);
                    lemma_count_split(c, i, j1, j, s);
                    lemma_count_split(c, i, j1, j, a);
                    assert(b2.analogies.take(b.analogies.len() as int) =~= b1.analogies.take(
                        b.analogies.len() as int,
                    ));
                    assert(b1.analogies.take(b.analogies.len() as int) =~= b.analogies);
                }
            }
        },
        _ => {},
    }
}

/// An evidence block holds one revelation, synthesis or analogy for each
/// `revelation`, `synthesis` or `analogy` keyword from its opening brace to
/// its end.
pub proof fn law_evidence_block_has_every_item(c: ParseInput, i: int)
    ensures
        p_evidence(c, i) matches Parsed::Done(b, j) ==> {
            &&& b.revelations.len() == count_tok(c, i + 1, j, TokenView::Revelation)
            &&& b.syntheses.len() == count_tok(c, i + 1, j, TokenView::Synthesis)
            &&& b.analogies.len() == count_tok(c, i + 1, j, TokenView::Analogy)
        },
{
    let e = crate::parser::grammar::empty_evidence();
    law_evidence_items_keep_every_item(c, i + 2, e);
    lemma_evidence_advance(c, i + 2, e);
    if let Parsed::Done(b, j) = p_evidence(c, i) {
        let r = TokenView::Revelation;
        let s = TokenView::Synthesis;
        let a = TokenView::Analogy;
        lemma_count_split(c, i + 1, i + 2, j, r);
        lemma_count_split(c, i + 1, i + 2, j, s);
        lemma_count_split(c, i + 1, i + 2, j, a);
        lemma_count_one(c, i + 1, r);
        lemma_count_one(c, i + 1, s);
        lemma_count_one(c, i + 1, a);
    }
}

} // verus!
