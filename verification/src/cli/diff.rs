//! Comparing two entities: the report of the `diff` command.
use crate::graph::index_map::{entity_map_get_index, entity_map_len, key_pos, lemma_key_pos};
use crate::graph::node::KnowledgeGraph;
use crate::graph::query::entity_views;
use crate::parser::ast::{
    entity_type_name, properties_view, rel_type_name, strings_view, Entity, EntityView,
    RelationshipView,
};
use crate::text::{decimal, usize_to_string};
use crate::validator::rules::{bytes_lt, bytes_lt_exec, str_lt};
use vstd::prelude::*;
use vstd::string::StringSliceAdditionalSpecFns;

verus! {

broadcast use vstd::seq_lib::group_seq_properties;

// ---------------------------------------------------------------------------
// Order and sets of text pairs
// ---------------------------------------------------------------------------

proof fn lemma_bytes_lt_total(a: Seq<u8>, b: Seq<u8>)
    requires
        a != b,
    ensures
        bytes_lt(a, b) || bytes_lt(b, a),
    decreases a.len(),
{
    if a.len() > 0 && b.len() > 0 && a[0] == b[0] {
        if a.drop_first() == b.drop_first() {
            assert(a =~= seq![a[0]] + a.drop_first());
            assert(b =~= seq![b[0]] + b.drop_first());
        }
        lemma_bytes_lt_total(a.drop_first(), b.drop_first());
    } else if a.len() == 0 && b.len() == 0 {
        assert(a =~= b);
    }
}

proof fn lemma_str_lt_total(a: Seq<char>, b: Seq<char>)
    requires
        a != b,
    ensures
        str_lt(a, b) || str_lt(b, a),
{
    vstd::utf8::encode_utf8_decode_utf8(a);
    vstd::utf8::encode_utf8_decode_utf8(b);
    lemma_bytes_lt_total(vstd::utf8::encode_utf8(a), vstd::utf8::encode_utf8(b));
}

/// The order of text pairs: by the first text, then by the second, each
/// in the order of `str`.
pub open spec fn pair_lt(a: (Seq<char>, Seq<char>), b: (Seq<char>, Seq<char>)) -> bool {
    str_lt(a.0, b.0) || (a.0 == b.0 && str_lt(a.1, b.1))
}

/// Whether each pair of `q` comes before the next.
pub open spec fn sorted_strict(q: Seq<(Seq<char>, Seq<char>)>) -> bool {
    forall|i: int| 0 <= i < q.len() - 1 ==> pair_lt(#[trigger] q[i], q[i + 1])
}

proof fn lemma_bytes_lt_irrefl(a: Seq<u8>)
    ensures
        !bytes_lt(a, a),
    decreases a.len(),
{
    if a.len() > 0 {
        lemma_bytes_lt_irrefl(a.drop_first());
    }
}

proof fn lemma_bytes_lt_trans(a: Seq<u8>, b: Seq<u8>, c: Seq<u8>)
    requires
        bytes_lt(a, b),
        bytes_lt(b, c),
    ensures
        bytes_lt(a, c),
    decreases a.len(),
{
    if a.len() > 0 && a[0] == b[0] && b[0] == c[0] {
        lemma_bytes_lt_trans(a.drop_first(), b.drop_first(), c.drop_first());
    }
}

proof fn lemma_pair_lt_irrefl(a: (Seq<char>, Seq<char>))
    ensures
        !pair_lt(a, a),
{
    lemma_bytes_lt_irrefl(vstd::utf8::encode_utf8(a.0));
    lemma_bytes_lt_irrefl(vstd::utf8::encode_utf8(a.1));
}

proof fn lemma_pair_lt_trans(a: (Seq<char>, Seq<char>), b: (Seq<char>, Seq<char>), c: (Seq<char>, Seq<char>))
    requires
        pair_lt(a, b),
        pair_lt(b, c),
    ensures
        pair_lt(a, c),
{
    if str_lt(a.0, b.0) && str_lt(b.0, c.0) {
        lemma_bytes_lt_trans(
            vstd::utf8::encode_utf8(a.0),
            vstd::utf8::encode_utf8(b.0),
            vstd::utf8::encode_utf8(c.0),
        );
    }
    if a.0 == b.0 && b.0 == c.0 && str_lt(a.1, b.1) && str_lt(b.1, c.1) {
        lemma_bytes_lt_trans(
            vstd::utf8::encode_utf8(a.1),
            vstd::utf8::encode_utf8(b.1),
            vstd::utf8::encode_utf8(c.1),
        );
    }
}

proof fn lemma_sorted_strict_ordered(q: Seq<(Seq<char>, Seq<char>)>, i: int, j: int)
    requires
        sorted_strict(q),
        0 <= i < j < q.len(),
    ensures
        pair_lt(q[i], q[j]),
    decreases j - i,
{
    if j > i + 1 {
        lemma_sorted_strict_ordered(q, i, j - 1);
        assert(pair_lt(q[j - 1], q[(j - 1) + 1]));
        lemma_pair_lt_trans(q[i], q[j - 1], q[j]);
    }
}

/// A strictly increasing sequence of text pairs is the only one with its
/// set of pairs.
pub proof fn lemma_sorted_strict_unique(s: Seq<(Seq<char>, Seq<char>)>, t: Seq<(Seq<char>, Seq<char>)>)
    requires
        sorted_strict(s),
        sorted_strict(t),
        s.to_set() == t.to_set(),
    ensures
        s == t,
    decreases s.len(),
{
    if s.len() == 0 {
        if t.len() > 0 {
            assert(t.to_set().contains(t[0]));
        }
        assert(s =~= t);
    } else {
        assert(s.to_set().contains(s[0]));
        assert(t.len() > 0);
        assert(t.to_set().contains(t[0]));
        let k = choose|k: int| 0 <= k < s.len() && s[k] == t[0];
        let m = choose|m: int| 0 <= m < t.len() && t[m] == s[0];
        if s[0] != t[0] {
            lemma_sorted_strict_ordered(s, 0, k);
            lemma_sorted_strict_ordered(t, 0, m);
            lemma_pair_lt_trans(s[0], t[0], s[0]);
            lemma_pair_lt_irrefl(s[0]);
        }
        let s1 = s.drop_first();
        let t1 = t.drop_first();
        assert forall|x: (Seq<char>, Seq<char>)| s1.to_set().contains(x) implies t1.to_set().contains(x) by {
            let i = choose|i: int| 0 <= i < s1.len() && s1[i] == x;
            lemma_sorted_strict_ordered(s, 0, i + 1);
            lemma_pair_lt_irrefl(x);
            assert(s.to_set().contains(s[i + 1]));
            let j = choose|j: int| 0 <= j < t.len() && t[j] == x;
            assert(t1[j - 1] == x);
        }
        assert forall|x: (Seq<char>, Seq<char>)| t1.to_set().contains(x) implies s1.to_set().contains(x) by {
            let i = choose|i: int| 0 <= i < t1.len() && t1[i] == x;
            lemma_sorted_strict_ordered(t, 0, i + 1);
            lemma_pair_lt_irrefl(x);
            assert(t.to_set().contains(t[i + 1]));
            let j = choose|j: int| 0 <= j < s.len() && s[j] == x;
            assert(s1[j - 1] == x);
        }
        assert(s1.to_set() =~= t1.to_set());
        assert forall|i: int| 0 <= i < s1.len() - 1 implies pair_lt(#[trigger] s1[i], s1[i + 1]) by {
            assert(pair_lt(s[i + 1], s[(i + 1) + 1]));
        }
        assert forall|i: int| 0 <= i < t1.len() - 1 implies pair_lt(#[trigger] t1[i], t1[i + 1]) by {
            assert(pair_lt(t[i + 1], t[(i + 1) + 1]));
        }
        lemma_sorted_strict_unique(s1, t1);
        assert(s =~= seq![s[0]] + s1);
        assert(t =~= seq![t[0]] + t1);
    }
}

fn str_less(a: &String, b: &String) -> (r: bool)
    ensures
        r == str_lt(a@, b@),
{
    bytes_lt_exec(a.as_str().as_bytes(), b.as_str().as_bytes())
}

fn pair_less(a: &(String, String), b: &(String, String)) -> (r: bool)
    ensures
        r == pair_lt((a.0@, a.1@), (b.0@, b.1@)),
{
    if str_less(&a.0, &b.0) {
        true
    } else if a.0 == b.0 {
        str_less(&a.1, &b.1)
    } else {
        false
    }
}

fn contains_pair(v: &Vec<(String, String)>, x: &(String, String)) -> (r: bool)
    ensures
        r == properties_view(v@).contains((x.0@, x.1@)),
{
    let ghost pv = properties_view(v@);
    let mut i: usize = 0;
    while i < v.len()
        invariant
            pv == properties_view(v@),
            i <= pv.len(),
            forall|j: int| 0 <= j < i ==> pv[j] != (x.0@, x.1@),
        decreases pv.len() - i,
    {
        if v[i].0 == x.0 && v[i].1 == x.1 {
            assert(pv[i as int] == (x.0@, x.1@));
            return true;
        }
        i = i + 1;
    }
    false
}

/// Adds a pair to a sorted list of pairs, where it belongs, unless it is
/// there already.
fn insert_sorted(v: &mut Vec<(String, String)>, x: (String, String))
    requires
        sorted_strict(properties_view(old(v)@)),
    ensures
        sorted_strict(properties_view(final(v)@)),
        properties_view(final(v)@).to_set() == properties_view(old(v)@).to_set().insert((x.0@, x.1@)),
{
    let ghost q = properties_view(v@);
    let ghost xv = (x.0@, x.1@);
    if contains_pair(v, &x) {
        assert(q.to_set().insert(xv) =~= q.to_set());
        return;
    }
    let mut p: usize = 0;
    while p < v.len() && pair_less(&v[p], &x)
        invariant
            xv == (x.0@, x.1@),
            q == properties_view(v@),
            p <= q.len(),
            forall|j: int| 0 <= j < p ==> pair_lt(#[trigger] q[j], xv),
        decreases q.len() - p,
    {
        assert(q[p as int] == (v@[p as int].0@, v@[p as int].1@));
        p = p + 1;
    }
    v.insert(p, x);
    proof {
        let q2 = properties_view(v@);
        assert(q2 =~= q.insert(p as int, xv));
        if (p as int) < q.len() {
            assert(!pair_lt(q[p as int], xv));
            assert(q[p as int] != xv);
            if q[p as int].0 != xv.0 {
                lemma_str_lt_total(q[p as int].0, xv.0);
            } else {
                lemma_str_lt_total(q[p as int].1, xv.1);
            }
            assert(pair_lt(xv, q[p as int]));
        }
        assert forall|i: int| 0 <= i < q2.len() - 1 implies pair_lt(#[trigger] q2[i], q2[i + 1]) by {
            if i < p - 1 {
                assert(q2[i] == q[i] && q2[i + 1] == q[i + 1]);
            } else if i == p - 1 {
                assert(q2[i] == q[i] && q2[i + 1] == xv);
            } else if i == p {
                assert(q2[i] == xv && q2[i + 1] == q[i]);
            } else {
                assert(q2[i] == q[i - 1] && q2[i + 1] == q[i]);
                assert(pair_lt(q[i - 1], q[(i - 1) + 1]));
            }
        }
        assert(q2.to_set() =~= q.to_set().insert(xv)) by {
            assert forall|y: (Seq<char>, Seq<char>)| q2.to_set().contains(y) implies q.to_set().insert(xv).contains(y) by {
                let k = choose|k: int| 0 <= k < q2.len() && q2[k] == y;
                if k < p {
                    assert(q[k] == y);
                } else if k > p {
                    assert(q[k - 1] == y);
                }
            }
            assert forall|y: (Seq<char>, Seq<char>)| q.to_set().insert(xv).contains(y) implies q2.to_set().contains(y) by {
                if y == xv {
                    assert(q2[p as int] == xv);
                } else {
                    let k = choose|k: int| 0 <= k < q.len() && q[k] == y;
                    if k < p {
                        assert(q2[k] == y);
                    } else {
                        assert(q2[k + 1] == y);
                    }
                }
            }
        }
    }
}

// ---------------------------------------------------------------------------
// The report
// ---------------------------------------------------------------------------

/// Whether the bytes of `needle` occur in `hay`, which is what
/// `str::contains` tests.
pub open spec fn contains_bytes(hay: Seq<u8>, needle: Seq<u8>) -> bool {
    exists|i: int| 0 <= i <= hay.len() - needle.len() && #[trigger] hay.subrange(i, i + needle.len()) == needle
}

/// Whether the bytes of `n` occur in `h` at position `i`.
fn bytes_at(h: &[u8], n: &[u8], i: usize) -> (r: bool)
    requires
        i + n@.len() <= h@.len(),
    ensures
        r == (h@.subrange(i as int, i + n@.len()) == n@),
{
    let hl = h.len();
    let mut j: usize = 0;
    while j < n.len()
        invariant
            i + n@.len() <= h@.len(),
            hl == h@.len(),
            j <= n@.len(),
            forall|t: int| 0 <= t < j ==> h@[i + t] == n@[t],
        decreases n@.len() - j,
    {
        if h[i + j] != n[j] {
            assert(h@.subrange(i as int, i + n@.len())[j as int] != n@[j as int]);
            return false;
        }
        j = j + 1;
    }
    assert(h@.subrange(i as int, i + n@.len()) =~= n@);
    true
}

/// Whether `needle` occurs in `hay`.
fn contains_text(hay: &str, needle: &str) -> (r: bool)
    ensures
        r == contains_bytes(hay.spec_bytes(), needle.spec_bytes()),
{
    let h = hay.as_bytes();
    let n = needle.as_bytes();
    let ghost hb = h@;
    let ghost nb = n@;
    if n.len() > h.len() {
        return false;
    }
    let last = h.len() - n.len();
    let mut i: usize = 0;
    loop
        invariant
            hb == h@,
            nb == n@,
            hb == hay.spec_bytes(),
            nb == needle.spec_bytes(),
            last == hb.len() - nb.len(),
            i <= last,
            forall|k: int| 0 <= k < i ==> #[trigger] hb.subrange(k, k + nb.len()) != nb,
        decreases last - i,
    {
        if bytes_at(h, n, i) {
            assert(contains_bytes(hb, nb));
            return true;
        }
        if i == last {
            assert(!contains_bytes(hb, nb)) by {
                if contains_bytes(hb, nb) {
                    let k = choose|k: int| 0 <= k <= hb.len() - nb.len() && #[trigger] hb.subrange(k, k + nb.len()) == nb;
                    assert(k <= i);
                }
            }
            return false;
        }
        i = i + 1;
    }
}

/// The entities, in node order, whose id contains `id`.
pub open spec fn diff_candidates(nodes: Seq<(Seq<char>, EntityView)>, id: Seq<char>) -> Seq<EntityView> {
    nodes.flat_map(
        |n: (Seq<char>, EntityView)|
            if contains_bytes(vstd::utf8::encode_utf8(n.1.id), vstd::utf8::encode_utf8(id)) {
                seq![n.1]
            } else {
                seq![]
            },
    )
}

/// The value of property `k`: the last one set under `k`, if any.
pub open spec fn prop_get(props: Seq<(Seq<char>, Seq<char>)>, k: Seq<char>) -> Option<Seq<char>> {
    if key_pos(props, k) >= 0 {
        Some(props[key_pos(props, k)].1)
    } else {
        None
    }
}

/// The property keys of two entities, each paired with an empty text.
pub open spec fn key_pairs(a: EntityView, b: EntityView) -> Set<(Seq<char>, Seq<char>)> {
    a.properties.map_values(|p: (Seq<char>, Seq<char>)| (p.0, Seq::<char>::empty())).to_set()
        + b.properties.map_values(|p: (Seq<char>, Seq<char>)| (p.0, Seq::<char>::empty())).to_set()
}

/// The (target, relationship type) pairs of an entity.
pub open spec fn rel_set(e: EntityView) -> Set<(Seq<char>, Seq<char>)> {
    e.relationships.map_values(|r: RelationshipView| (r.target_id, rel_type_name(r.rel_type))).to_set()
}

/// The report line of one property key, when the two entities differ on it.
pub open spec fn prop_line(a: EntityView, b: EntityView, k: Seq<char>) -> Seq<Seq<char>> {
    match (prop_get(a.properties, k), prop_get(b.properties, k)) {
        (Some(av), Some(bv)) => if av != bv {
            seq!["  PROPERTY "@ + k + ": '"@ + av + "' | '"@ + bv + "'"@]
        } else {
            seq![]
        },
        (Some(av), None) => seq!["  PROPERTY "@ + k + ": '"@ + av + "' | <missing>"@],
        (None, Some(bv)) => seq!["  PROPERTY "@ + k + ": <missing> | '"@ + bv + "'"@],
        (None, None) => seq![],
    }
}

pub open spec fn prop_line_fn(a: EntityView, b: EntityView) -> spec_fn((Seq<char>, Seq<char>)) -> Seq<Seq<char>> {
    |k: (Seq<char>, Seq<char>)| prop_line(a, b, k.0)
}

/// The lines of the relationships of `rs` that `other` lacks.
pub open spec fn only_fn(id: Seq<char>, other: Set<(Seq<char>, Seq<char>)>) -> spec_fn((Seq<char>, Seq<char>)) -> Seq<Seq<char>> {
    |p: (Seq<char>, Seq<char>)|
        if other.contains(p) {
            seq![]
        } else {
            seq!["  REL only in "@ + id + ": "@ + p.1 + " → "@ + p.0]
        }
}

pub open spec fn dashes(n: nat) -> Seq<char> {
    Seq::new(n, |i: int| '-')
}

/// The lines for the title, description, version and type, where the
/// entities differ on them.
pub open spec fn field_lines(a: EntityView, b: EntityView) -> Seq<Seq<char>> {
    (if a.title != b.title {
        seq!["  TITLE: '"@ + a.title + "' | '"@ + b.title + "'"@]
    } else {
        seq![]
    }) + (if a.description != b.description {
        seq!["  DESCRIPTION: '"@ + a.description + "' | '"@ + b.description + "'"@]
    } else {
        seq![]
    }) + (if a.version != b.version {
        seq!["  VERSION: '"@ + a.version + "' | '"@ + b.version + "'"@]
    } else {
        seq![]
    }) + (if a.entity_type != b.entity_type {
        seq!["  TYPE: "@ + entity_type_name(a.entity_type) + " | "@ + entity_type_name(b.entity_type)]
    } else {
        seq![]
    })
}

/// The report for two entities, given their property keys `ka` and the
/// relationship pairs `ra`, `rb` of each, in order.
pub open spec fn diff_body(
    a: EntityView,
    b: EntityView,
    ka: Seq<(Seq<char>, Seq<char>)>,
    ra: Seq<(Seq<char>, Seq<char>)>,
    rb: Seq<(Seq<char>, Seq<char>)>,
) -> Seq<Seq<char>> {
    let only_a = ra.flat_map(only_fn(a.id, rb.to_set()));
    let only_b = rb.flat_map(only_fn(b.id, ra.to_set()));
    seq!["Diff: "@ + a.id + " vs "@ + b.id, dashes(50)] + ka.flat_map(prop_line_fn(a, b)) + only_a
        + only_b + field_lines(a, b) + if ka.len() == 0 && only_a.len() == 0 && only_b.len() == 0 {
        seq!["  (no differences found)"@]
    } else {
        seq![]
    }
}

/// Whether `lines` is the `diff` report for `id`: with fewer than two
/// matching entities a line that says so; else the report on the first
/// two, with property keys and relationship pairs each in increasing order.
pub open spec fn diff_report(nodes: Seq<(Seq<char>, EntityView)>, id: Seq<char>, lines: Seq<Seq<char>>) -> bool {
    let ms = diff_candidates(nodes, id);
    if ms.len() < 2 {
        lines == seq![
            "Need exactly 2 entities matching '"@ + id + "' for diff. Found "@ + decimal(ms.len())
                + "."@,
        ]
    } else {
        exists|ka: Seq<(Seq<char>, Seq<char>)>, ra: Seq<(Seq<char>, Seq<char>)>, rb: Seq<(Seq<char>, Seq<char>)>|
            {
                &&& sorted_strict(ka)
                &&& ka.to_set() == key_pairs(ms[0], ms[1])
                &&& sorted_strict(ra)
                &&& ra.to_set() == rel_set(ms[0])
                &&& sorted_strict(rb)
                &&& rb.to_set() == rel_set(ms[1])
                &&& lines == #[trigger] diff_body(ms[0], ms[1], ka, ra, rb)
            }
    }
}

/// The report of `diff` is determined by the nodes and the id: the
/// orders of its property keys and relationship pairs are.
pub proof fn law_diff_report_unique(
    nodes: Seq<(Seq<char>, EntityView)>,
    id: Seq<char>,
    l1: Seq<Seq<char>>,
    l2: Seq<Seq<char>>,
)
    requires
        diff_report(nodes, id, l1),
        diff_report(nodes, id, l2),
    ensures
        l1 == l2,
{
    let ms = diff_candidates(nodes, id);
    if ms.len() >= 2 {
        let (ka, ra, rb) = choose|ka: Seq<(Seq<char>, Seq<char>)>, ra: Seq<(Seq<char>, Seq<char>)>, rb: Seq<(Seq<char>, Seq<char>)>|
            {
                &&& sorted_strict(ka)
                &&& ka.to_set() == key_pairs(ms[0], ms[1])
                &&& sorted_strict(ra)
                &&& ra.to_set() == rel_set(ms[0])
                &&& sorted_strict(rb)
                &&& rb.to_set() == rel_set(ms[1])
                &&& l1 == #[trigger] diff_body(ms[0], ms[1], ka, ra, rb)
            };
        let (kb, sa, sb) = choose|ka: Seq<(Seq<char>, Seq<char>)>, ra: Seq<(Seq<char>, Seq<char>)>, rb: Seq<(Seq<char>, Seq<char>)>|
            {
                &&& sorted_strict(ka)
                &&& ka.to_set() == key_pairs(ms[0], ms[1])
                &&& sorted_strict(ra)
                &&& ra.to_set() == rel_set(ms[0])
                &&& sorted_strict(rb)
                &&& rb.to_set() == rel_set(ms[1])
                &&& l2 == #[trigger] diff_body(ms[0], ms[1], ka, ra, rb)
            };
        lemma_sorted_strict_unique(ka, kb);
        lemma_sorted_strict_unique(ra, sa);
        lemma_sorted_strict_unique(rb, sb);
    }
}

/// The value of property `k` of `props`: the last one set under `k`.
fn prop_value<'a>(props: &'a Vec<(String, String)>, k: &String) -> (r: Option<&'a String>)
    ensures
        match r {
            Some(v) => prop_get(properties_view(props@), k@) == Some(v@),
            None => prop_get(properties_view(props@), k@) is None,
        },
{
    let ghost pv = properties_view(props@);
    let mut found: Option<&'a String> = None;
    let mut i: usize = 0;
    while i < props.len()
        invariant
            pv == properties_view(props@),
            i <= pv.len(),
            match found {
                Some(v) => key_pos(pv.take(i as int), k@) >= 0 && pv.take(i as int)[key_pos(pv.take(i as int), k@)].1 == v@,
                None => key_pos(pv.take(i as int), k@) == -1,
            },
        decreases pv.len() - i,
    {
        proof {
            assert(pv.take(i + 1).drop_last() =~= pv.take(i as int));
            lemma_key_pos(pv.take(i as int), k@);
            let kp = key_pos(pv.take(i as int), k@);
            if kp >= 0 {
                assert(pv.take(i + 1)[kp] == pv.take(i as int)[kp]);
            }
            assert(pv.take(i + 1)[i as int] == pv[i as int]);
            assert(pv[i as int] == (props@[i as int].0@, props@[i as int].1@));
        }
        if props[i].0 == *k {
            found = Some(&props[i].1);
        }
        i = i + 1;
    }
    assert(pv.take(pv.len() as int) =~= pv);
    found
}

/// The property keys of `e`, each paired with an empty text.
pub open spec fn key_pair_seq(e: EntityView) -> Seq<(Seq<char>, Seq<char>)> {
    e.properties.map_values(|p: (Seq<char>, Seq<char>)| (p.0, Seq::<char>::empty()))
}

/// The (target, relationship type) pairs of `e`, in order.
pub open spec fn rel_pair_seq(e: EntityView) -> Seq<(Seq<char>, Seq<char>)> {
    e.relationships.map_values(|r: RelationshipView| (r.target_id, rel_type_name(r.rel_type)))
}

/// Adds the property keys of `e` to a sorted list of pairs.
fn add_keys(v: &mut Vec<(String, String)>, e: &Entity)
    requires
        sorted_strict(properties_view(old(v)@)),
    ensures
        sorted_strict(properties_view(final(v)@)),
        properties_view(final(v)@).to_set() == properties_view(old(v)@).to_set() + key_pair_seq(e@).to_set(),
{
    let ghost base = properties_view(v@).to_set();
    let ghost ks = key_pair_seq(e@);
    let mut i: usize = 0;
    while i < e.properties.len()
        invariant
            ks == key_pair_seq(e@),
            i <= ks.len(),
            sorted_strict(properties_view(v@)),
            properties_view(v@).to_set() == base + ks.take(i as int).to_set(),
        decreases ks.len() - i,
    {
        insert_sorted(v, (e.properties[i].0.clone(), String::new()));
        proof {
            assert(ks.take(i + 1) =~= ks.take(i as int).push(ks[i as int]));
            ks.take(i as int).lemma_push_to_set_commute(ks[i as int]);
            assert(properties_view(v@).to_set() =~= base + ks.take(i + 1).to_set());
        }
        i = i + 1;
    }
    assert(ks.take(ks.len() as int) =~= ks);
}

/// The (target, relationship type) pairs of `e`, sorted.
fn rel_pairs(e: &Entity) -> (r: Vec<(String, String)>)
    ensures
        sorted_strict(properties_view(r@)),
        properties_view(r@).to_set() == rel_set(e@),
{
    let ghost rs = rel_pair_seq(e@);
    let mut v: Vec<(String, String)> = Vec::new();
    assert(properties_view(v@).to_set() =~= rs.take(0).to_set());
    let mut i: usize = 0;
    while i < e.relationships.len()
        invariant
            rs == rel_pair_seq(e@),
            i <= rs.len(),
            sorted_strict(properties_view(v@)),
            properties_view(v@).to_set() == rs.take(i as int).to_set(),
        decreases rs.len() - i,
    {
        let rel = &e.relationships[i];
        insert_sorted(&mut v, (rel.target_id.clone(), String::from_str(rel.rel_type.as_str())));
        proof {
            assert(rs[i as int] == (rel@.target_id, rel_type_name(rel@.rel_type)));
            assert(rs.take(i + 1) =~= rs.take(i as int).push(rs[i as int]));
            rs.take(i as int).lemma_push_to_set_commute(rs[i as int]);
        }
        i = i + 1;
    }
    assert(rs.take(rs.len() as int) =~= rs);
    v
}

/// Appends the property lines for the keys of `ka`.
fn push_prop_lines(lines: &mut Vec<String>, a: &Entity, b: &Entity, ka: &Vec<(String, String)>)
    ensures
        strings_view(final(lines)@) == strings_view(old(lines)@) + properties_view(ka@).flat_map(prop_line_fn(a@, b@)),
{
    let ghost kv = properties_view(ka@);
    let ghost f = prop_line_fn(a@, b@);
    let ghost base = strings_view(lines@);
    let mut i: usize = 0;
    while i < ka.len()
        invariant
            kv == properties_view(ka@),
            f == prop_line_fn(a@, b@),
            i <= kv.len(),
            strings_view(lines@) == base + kv.take(i as int).flat_map(f),
        decreases kv.len() - i,
    {
        proof {
            kv.lemma_flat_map_take_append(f, i as int);
        }
        let k = &ka[i].0;
        let ghost before = strings_view(lines@);
        match (prop_value(&a.properties, k), prop_value(&b.properties, k)) {
            (Some(av), Some(bv)) => {
                if *av != *bv {
                    let mut s = String::from_str("  PROPERTY ");
                    s.append(k.as_str());
                    s.append(": '");
                    s.append(av.as_str());
                    s.append("' | '");
                    s.append(bv.as_str());
                    s.append("'");
                    lines.push(s);
                    assert(strings_view(lines@) =~= before + prop_line(a@, b@, k@));
                } else {
                    assert(strings_view(lines@) =~= before + prop_line(a@, b@, k@));
                }
            },
            (Some(av), None) => {
                let mut s = String::from_str("  PROPERTY ");
                s.append(k.as_str());
                s.append(": '");
                s.append(av.as_str());
                s.append("' | <missing>");
                lines.push(s);
                assert(strings_view(lines@) =~= before + prop_line(a@, b@, k@));
            },
            (None, Some(bv)) => {
                let mut s = String::from_str("  PROPERTY ");
                s.append(k.as_str());
                s.append(": <missing> | '");
                s.append(bv.as_str());
                s.append("'");
                lines.push(s);
                assert(strings_view(lines@) =~= before + prop_line(a@, b@, k@));
            },
            (None, None) => {
                assert(strings_view(lines@) =~= before + prop_line(a@, b@, k@));
            },
        }
        assert(kv[i as int].0 == k@);
        i = i + 1;
    }
    assert(kv.take(kv.len() as int) =~= kv);
}

/// Appends the lines of the pairs of `ra` that `rb` lacks.
fn push_only_lines(lines: &mut Vec<String>, id: &String, ra: &Vec<(String, String)>, rb: &Vec<(String, String)>)
    ensures
        strings_view(final(lines)@) == strings_view(old(lines)@) + properties_view(ra@).flat_map(
            only_fn(id@, properties_view(rb@).to_set()),
        ),
{
    let ghost av = properties_view(ra@);
    let ghost other = properties_view(rb@).to_set();
    let ghost f = only_fn(id@, other);
    let ghost base = strings_view(lines@);
    let mut i: usize = 0;
    while i < ra.len()
        invariant
            av == properties_view(ra@),
            other == properties_view(rb@).to_set(),
            f == only_fn(id@, other),
            i <= av.len(),
            strings_view(lines@) == base + av.take(i as int).flat_map(f),
        decreases av.len() - i,
    {
        proof {
            av.lemma_flat_map_take_append(f, i as int);
            assert(av[i as int] == (ra@[i as int].0@, ra@[i as int].1@));
        }
        let ghost before = strings_view(lines@);
        if contains_pair(rb, &ra[i]) {
            assert(strings_view(lines@) =~= before + f(av[i as int]));
        } else {
            let mut s = String::from_str("  REL only in ");
            s.append(id.as_str());
            s.append(": ");
            s.append(ra[i].1.as_str());
            s.append(" → ");
            s.append(ra[i].0.as_str());
            lines.push(s);
            assert(strings_view(lines@) =~= before + f(av[i as int]));
        }
        i = i + 1;
    }
    assert(av.take(av.len() as int) =~= av);
}

/// Appends the lines for the fields on which the entities differ.
fn push_field_lines(lines: &mut Vec<String>, a: &Entity, b: &Entity)
    ensures
        strings_view(final(lines)@) == strings_view(old(lines)@) + field_lines(a@, b@),
{
    let ghost base = strings_view(lines@);
    if a.title != b.title {
        let mut s = String::from_str("  TITLE: '");
        s.append(a.title.as_str());
        s.append("' | '");
        s.append(b.title.as_str());
        s.append("'");
        lines.push(s);
    }
    let ghost l1 = strings_view(lines@);
    assert(l1 =~= base + (if a@.title != b@.title {
        seq!["  TITLE: '"@ + a@.title + "' | '"@ + b@.title + "'"@]
    } else {
        seq![]
    }));
    if a.description != b.description {
        let mut s = String::from_str("  DESCRIPTION: '");
        s.append(a.description.as_str());
        s.append("' | '");
        s.append(b.description.as_str());
        s.append("'");
        lines.push(s);
    }
    let ghost l2 = strings_view(lines@);
    assert(l2 =~= l1 + (if a@.description != b@.description {
        seq!["  DESCRIPTION: '"@ + a@.description + "' | '"@ + b@.description + "'"@]
    } else {
        seq![]
    }));
    if a.version != b.version {
        let mut s = String::from_str("  VERSION: '");
        s.append(a.version.as_str());
        s.append("' | '");
        s.append(b.version.as_str());
        s.append("'");
        lines.push(s);
    }
    let ghost l3 = strings_view(lines@);
    assert(l3 =~= l2 + (if a@.version != b@.version {
        seq!["  VERSION: '"@ + a@.version + "' | '"@ + b@.version + "'"@]
    } else {
        seq![]
    }));
    if a.entity_type != b.entity_type {
        let mut s = String::from_str("  TYPE: ");
        s.append(a.entity_type.as_str());
        s.append(" | ");
        s.append(b.entity_type.as_str());
        lines.push(s);
    }
    assert(strings_view(lines@) =~= base + field_lines(a@, b@));
}

/// Fifty dashes.
fn dash_line() -> (s: String)
    ensures
        s@ == dashes(50),
{
    let mut s = String::new();
    let mut i: usize = 0;
    while i < 50
        invariant
            i <= 50,
            s@ == dashes(i as nat),
        decreases 50 - i,
    {
        s.push('-');
        assert(s@ =~= dashes((i + 1) as nat));
        i = i + 1;
    }
    s
}

/// The entities of the graph, in node order, whose id contains `id`.
fn candidates<'a>(graph: &'a KnowledgeGraph, id: &str) -> (r: Vec<&'a Entity>)
    ensures
        entity_views(r@) == diff_candidates(graph@.nodes, id@),
{
    let ghost nodes = graph@.nodes;
    let ghost f = |n: (Seq<char>, EntityView)|
        if contains_bytes(vstd::utf8::encode_utf8(n.1.id), vstd::utf8::encode_utf8(id@)) {
            seq![n.1]
        } else {
            seq![]
        };
    let n = entity_map_len(&graph.nodes);
    let mut v: Vec<&'a Entity> = Vec::new();
    let mut i: usize = 0;
    while i < n
        invariant
            nodes == graph@.nodes,
            n == nodes.len(),
            i <= n,
            f == (|n: (Seq<char>, EntityView)|
                if contains_bytes(vstd::utf8::encode_utf8(n.1.id), vstd::utf8::encode_utf8(id@)) {
                    seq![n.1]
                } else {
                    seq![]
                }),
            entity_views(v@) == nodes.take(i as int).flat_map(f),
        decreases n - i,
    {
        let (_, e) = entity_map_get_index(&graph.nodes, i).unwrap();
        proof {
            assert(nodes[i as int].1 == e@);
            nodes.lemma_flat_map_take_append(f, i as int);
        }
        let ghost before = entity_views(v@);
        if contains_text(e.id.as_str(), id) {
            v.push(e);
            assert(entity_views(v@) =~= before + seq![e@]);
        } else {
            assert(entity_views(v@) =~= before + Seq::<EntityView>::empty());
        }
        i = i + 1;
    }
    assert(nodes.take(n as int) =~= nodes);
    v
}

/// The lines of the `diff` command for `id`: the differences between the
/// first two entities whose ids contain `id`, in properties (keys in
/// order), relationships (pairs in order) and their title, description,
/// version and type; with fewer than two such entities, a line saying how
/// many matched.
pub fn diff_lines(graph: &KnowledgeGraph, id: &str) -> (r: Vec<String>)
    ensures
        diff_report(graph@.nodes, id@, strings_view(r@)),
{
    let ms = candidates(graph, id);
    let mut lines: Vec<String> = Vec::new();
    if ms.len() < 2 {
        let mut s = String::from_str("Need exactly 2 entities matching '");
        s.append(id);
        s.append("' for diff. Found ");
        let count = usize_to_string(ms.len());
        s.append(count.as_str());
        s.append(".");
        lines.push(s);
        assert(strings_view(lines@) =~= seq![
            "Need exactly 2 entities matching '"@ + id@ + "' for diff. Found "@ + decimal(ms@.len())
                + "."@,
        ]);
        return lines;
    }
    let a = ms[0];
    let b = ms[1];
    let ghost av = a@;
    let ghost bv = b@;
    let mut head = String::from_str("Diff: ");
    head.append(a.id.as_str());
    head.append(" vs ");
    head.append(b.id.as_str());
    lines.push(head);
    lines.push(dash_line());
    let mut ka: Vec<(String, String)> = Vec::new();
    assert(properties_view(ka@).to_set() =~= Set::<(Seq<char>, Seq<char>)>::empty());
    add_keys(&mut ka, a);
    add_keys(&mut ka, b);
    assert(properties_view(ka@).to_set() =~= key_pairs(av, bv));
    let ra = rel_pairs(a);
    let rb = rel_pairs(b);
    let ghost head_lines = strings_view(lines@);
    push_prop_lines(&mut lines, a, b, &ka);
    let n0 = lines.len();
    let ghost after_props = strings_view(lines@);
    push_only_lines(&mut lines, &a.id, &ra, &rb);
    let n1 = lines.len();
    let ghost after_a = strings_view(lines@);
    push_only_lines(&mut lines, &b.id, &rb, &ra);
    let n2 = lines.len();
    let ghost after_b = strings_view(lines@);
    push_field_lines(&mut lines, a, b);
    let ghost after_fields = strings_view(lines@);
    let ghost only_a = properties_view(ra@).flat_map(only_fn(av.id, properties_view(rb@).to_set()));
    let ghost only_b = properties_view(rb@).flat_map(only_fn(bv.id, properties_view(ra@).to_set()));
    assert(after_a =~= after_props + only_a);
    assert(after_b =~= after_a + only_b);
    if ka.len() == 0 && n1 == n0 && n2 == n1 {
        lines.push(String::from_str("  (no differences found)"));
    }
    proof {
        let body = diff_body(av, bv, properties_view(ka@), properties_view(ra@), properties_view(rb@));
        assert(head_lines =~= seq!["Diff: "@ + av.id + " vs "@ + bv.id, dashes(50)]);
        assert(strings_view(lines@) =~= body);
        assert(diff_candidates(graph@.nodes, id@)[0] == av);
        assert(diff_candidates(graph@.nodes, id@)[1] == bv);
    }
    lines
}

} // verus!
