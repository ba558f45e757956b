//! The order in which a cycle's message names its ids: it starts at the
//! smallest id, in the byte-wise order of strings.
use crate::validator::rules::{bytes_lt, min_index, rotate_to_min, str_lt};
use vstd::prelude::*;

verus! {

proof fn lemma_bytes_lt_irreflexive(a: Seq<u8>)
    ensures
        !bytes_lt(a, a),
    decreases a.len(),
{
    if a.len() > 0 {
        lemma_bytes_lt_irreflexive(a.drop_first());
    }
}

proof fn lemma_bytes_lt_transitive(a: Seq<u8>, b: Seq<u8>, c: Seq<u8>)
    requires
        bytes_lt(a, b),
        bytes_lt(b, c),
    ensures
        bytes_lt(a, c),
    decreases a.len(),
{
    if a.len() > 0 && b.len() > 0 && c.len() > 0 && a[0] == b[0] && b[0] == c[0] {
        lemma_bytes_lt_transitive(a.drop_first(), b.drop_first(), c.drop_first());
    }
}

proof fn lemma_min_index(c: Seq<Seq<char>>, n: int)
    requires
        1 <= n <= c.len(),
    ensures
        0 <= min_index(c, n) < n,
        forall|k: int| 0 <= k < n ==> !str_lt(#[trigger] c[k], c[min_index(c, n)]),
    decreases n,
{
    if n > 1 {
        lemma_min_index(c, n - 1);
        let b = min_index(c, n - 1);
        if str_lt(c[n - 1], c[b]) {
            assert forall|k: int| 0 <= k < n implies !str_lt(#[trigger] c[k], c[n - 1]) by {
                if k == n - 1 {
                    lemma_bytes_lt_irreflexive(vstd::utf8::encode_utf8(c[k]));
                } else if str_lt(c[k], c[n - 1]) {
                    lemma_bytes_lt_transitive(
                        vstd::utf8::encode_utf8(c[k]),
                        vstd::utf8::encode_utf8(c[n - 1]),
                        vstd::utf8::encode_utf8(c[b]),
                    );
                }
            }
        }
    } else {
        lemma_bytes_lt_irreflexive(vstd::utf8::encode_utf8(c[0]));
    }
}

/// The ids of a cycle, as its message names them, are the cycle's ids
/// turned round to start at the smallest: no id on the cycle is smaller
/// than the first, and each follows the one before as on the cycle.
pub proof fn law_cycle_message_starts_at_smallest(c: Seq<Seq<char>>)
    requires
        c.len() > 0,
    ensures
        ({
            let r = rotate_to_min(c);
            let mi = min_index(c, c.len() as int);
            &&& r.len() == c.len()
            &&& forall|k: int| 0 <= k < c.len() ==> !str_lt(#[trigger] c[k], r[0])
            &&& forall|j: int|
                0 <= j < c.len() ==> #[trigger] r[j] == (if mi + j < c.len() {
                    c[mi + j]
                } else {
                    c[mi + j - c.len()]
                })
        }),
{
    lemma_min_index(c, c.len() as int);
}

} // verus!
