//! Laws of the command reports, stated over the entities they compare.
use crate::cli::diff::{
    diff_body, diff_candidates, diff_report, field_lines, key_pairs, only_fn, prop_get, prop_line_fn, rel_set,
    sorted_strict,
};
use crate::graph::index_map::lemma_key_pos;
use crate::validator::laws::lemma_flat_map_has;
use crate::parser::ast::{entity_type_name, rel_type_name, EntityView, RelationshipView};
use vstd::prelude::*;

verus! {

/// The text with which the diff reports a property: its value in an
/// entity, or `<missing>`.
pub open spec fn shown_value(v: Option<Seq<char>>) -> Seq<char> {
    match v {
        Some(x) => "'"@ + x + "'"@,
        None => "<missing>"@,
    }
}

/// The report line of property `k` of two entities.
spec fn changed_line(a: EntityView, b: EntityView, k: Seq<char>) -> Seq<char> {
    "  PROPERTY "@ + k + ": "@ + shown_value(prop_get(a.properties, k)) + " | "@ + shown_value(
        prop_get(b.properties, k),
    )
}

proof fn lemma_prop_line_shape(a: EntityView, b: EntityView, k: Seq<char>)
    requires
        prop_get(a.properties, k) != prop_get(b.properties, k),
    ensures
        crate::cli::diff::prop_line(a, b, k) == seq![changed_line(a, b, k)],
{
    reveal_strlit("'");
    reveal_strlit(": ");
    reveal_strlit(" | ");
    reveal_strlit("<missing>");
    reveal_strlit(": '");
    reveal_strlit("' | '");
    reveal_strlit("' | <missing>");
    reveal_strlit(": <missing> | '");
    let line = changed_line(a, b, k);
    match (prop_get(a.properties, k), prop_get(b.properties, k)) {
        (Some(x), Some(y)) => {
            assert(line =~= "  PROPERTY "@ + k + ": '"@ + x + "' | '"@ + y + "'"@);
        },
        (Some(x), None) => {
            assert(line =~= "  PROPERTY "@ + k + ": '"@ + x + "' | <missing>"@);
        },
        (None, Some(y)) => {
            assert(line =~= "  PROPERTY "@ + k + ": <missing> | '"@ + y + "'"@);
        },
        (None, None) => {},
    }
}

proof fn lemma_key_in_pairs(a: EntityView, b: EntityView, k: Seq<char>)
    requires
        prop_get(a.properties, k) != prop_get(b.properties, k),
    ensures
        key_pairs(a, b).contains((k, Seq::<char>::empty())),
{
    lemma_key_pos(a.properties, k);
    lemma_key_pos(b.properties, k);
    let pk = (k, Seq::<char>::empty());
    let fa = |p: (Seq<char>, Seq<char>)| (p.0, Seq::<char>::empty());
    if prop_get(a.properties, k) is Some {
        let i = crate::graph::index_map::key_pos(a.properties, k);
        assert(a.properties.map_values(fa)[i] == pk);
        assert(a.properties.map_values(fa).to_set().contains(pk));
    } else {
        let i = crate::graph::index_map::key_pos(b.properties, k);
        assert(b.properties.map_values(fa)[i] == pk);
        assert(b.properties.map_values(fa).to_set().contains(pk));
    }
}

proof fn lemma_body_props(
    a: EntityView,
    b: EntityView,
    ka: Seq<(Seq<char>, Seq<char>)>,
    ra: Seq<(Seq<char>, Seq<char>)>,
    rb: Seq<(Seq<char>, Seq<char>)>,
    q: int,
)
    requires
        0 <= q < ka.flat_map(prop_line_fn(a, b)).len(),
    ensures
        diff_body(a, b, ka, ra, rb)[2 + q] == ka.flat_map(prop_line_fn(a, b))[q],
{
}

/// When two entities are compared, every property whose value differs
/// between them (set in both with different values, or set in one only)
/// has its line in the report, naming the key and both values.
pub proof fn law_diff_reports_each_changed_property(
    nodes: Seq<(Seq<char>, EntityView)>,
    id: Seq<char>,
    lines: Seq<Seq<char>>,
    k: Seq<char>,
)
    requires
        diff_report(nodes, id, lines),
        diff_candidates(nodes, id).len() >= 2,
    ensures
        ({
            let a = diff_candidates(nodes, id)[0];
            let b = diff_candidates(nodes, id)[1];
            let va = prop_get(a.properties, k);
            let vb = prop_get(b.properties, k);
            va != vb ==> lines.contains("  PROPERTY "@ + k + ": "@ + shown_value(va) + " | "@ + shown_value(vb))
        }),
{
    let ms = diff_candidates(nodes, id);
    let a = ms[0];
    let b = ms[1];
    if prop_get(a.properties, k) != prop_get(b.properties, k) {
        let (ka, ra, rb) = choose|ka: Seq<(Seq<char>, Seq<char>)>, ra: Seq<(Seq<char>, Seq<char>)>, rb: Seq<(Seq<char>, Seq<char>)>|
            {
                &&& sorted_strict(ka)
                &&& ka.to_set() == key_pairs(ms[0], ms[1])
                &&& sorted_strict(ra)
                &&& ra.to_set() == rel_set(ms[0])
                &&& sorted_strict(rb)
                &&& rb.to_set() == rel_set(ms[1])
                &&& lines == #[trigger] diff_body(ms[0], ms[1], ka, ra, rb)
            };
        let pk = (k, Seq::<char>::empty());
        lemma_key_in_pairs(a, b, k);
        assert(ka.to_set().contains(pk));
        let j = choose|j: int| 0 <= j < ka.len() && ka[j] == pk;
        let line = changed_line(a, b, k);
        let g = prop_line_fn(a, b);
        lemma_prop_line_shape(a, b, k);
        assert(g(ka[j]) == seq![line]);
        assert(g(ka[j])[0] == line);
        lemma_flat_map_has(ka, g, j, line);
        let props = ka.flat_map(g);
        let q = choose|q: int| 0 <= q < props.len() && props[q] == line;
        lemma_body_props(a, b, ka, ra, rb, q);
        assert(lines[2 + q] == line);
    }
}

proof fn lemma_body_parts(
    a: EntityView,
    b: EntityView,
    ka: Seq<(Seq<char>, Seq<char>)>,
    ra: Seq<(Seq<char>, Seq<char>)>,
    rb: Seq<(Seq<char>, Seq<char>)>,
)
    ensures
        ({
            let props = ka.flat_map(prop_line_fn(a, b));
            let only_a = ra.flat_map(only_fn(a.id, rb.to_set()));
            let only_b = rb.flat_map(only_fn(b.id, ra.to_set()));
            let d = diff_body(a, b, ka, ra, rb);
            &&& forall|q: int| 0 <= q < only_a.len() ==> d[2 + props.len() + q] == #[trigger] only_a[q]
            &&& forall|q: int|
                0 <= q < field_lines(a, b).len() ==> d[2 + props.len() + only_a.len() + only_b.len() + q]
                    == #[trigger] field_lines(a, b)[q]
        }),
{
}

/// The report line of a relationship that only the first entity has.
pub open spec fn only_line(id: Seq<char>, r: RelationshipView) -> Seq<char> {
    "  REL only in "@ + id + ": "@ + rel_type_name(r.rel_type) + " → "@ + r.target_id
}

/// When two entities are compared, every relationship of the first that
/// the second has not (no relationship of the second has its target and
/// type) has its line in the report, naming the first entity, the type
/// and the target.
pub proof fn law_diff_reports_each_relationship_only_in_first(
    nodes: Seq<(Seq<char>, EntityView)>,
    id: Seq<char>,
    lines: Seq<Seq<char>>,
    r: RelationshipView,
)
    requires
        diff_report(nodes, id, lines),
        diff_candidates(nodes, id).len() >= 2,
        diff_candidates(nodes, id)[0].relationships.contains(r),
        forall|s: RelationshipView|
            #[trigger] diff_candidates(nodes, id)[1].relationships.contains(s) ==> !(s.target_id == r.target_id
                && rel_type_name(s.rel_type) == rel_type_name(r.rel_type)),
    ensures
        lines.contains(only_line(diff_candidates(nodes, id)[0].id, r)),
{
    let ms = diff_candidates(nodes, id);
    let a = ms[0];
    let b = ms[1];
    let (ka, ra, rb) = choose|ka: Seq<(Seq<char>, Seq<char>)>, ra: Seq<(Seq<char>, Seq<char>)>, rb: Seq<(Seq<char>, Seq<char>)>|
        {
            &&& sorted_strict(ka)
            &&& ka.to_set() == key_pairs(ms[0], ms[1])
            &&& sorted_strict(ra)
            &&& ra.to_set() == rel_set(ms[0])
            &&& sorted_strict(rb)
            &&& rb.to_set() == rel_set(ms[1])
            &&& lines == #[trigger] diff_body(ms[0], ms[1], ka, ra, rb)
        };
    let pr = (r.target_id, rel_type_name(r.rel_type));
    let fr = |x: RelationshipView| (x.target_id, rel_type_name(x.rel_type));
    let ia = choose|i: int| 0 <= i < a.relationships.len() && a.relationships[i] == r;
    assert(a.relationships.map_values(fr)[ia] == pr);
    assert(rel_set(a).contains(pr));
    assert(!rel_set(b).contains(pr)) by {
        if rel_set(b).contains(pr) {
            let ib = choose|i: int| 0 <= i < b.relationships.map_values(fr).len() && b.relationships.map_values(fr)[i] == pr;
            assert(b.relationships.contains(b.relationships[ib]));
        }
    }
    assert(ra.to_set().contains(pr));
    let j = choose|j: int| 0 <= j < ra.len() && ra[j] == pr;
    let g = only_fn(a.id, rb.to_set());
    let line = only_line(a.id, r);
    assert(g(ra[j]) == seq![line]);
    assert(g(ra[j])[0] == line);
    lemma_flat_map_has(ra, g, j, line);
    let only_a = ra.flat_map(g);
    let q = choose|q: int| 0 <= q < only_a.len() && only_a[q] == line;
    lemma_body_parts(a, b, ka, ra, rb);
    let props = ka.flat_map(prop_line_fn(a, b));
    assert(lines[2 + props.len() + q] == line);
}

/// When two entities are compared, each of title, description, version
/// and type on which they differ has its line in the report, with both
/// values.
pub proof fn law_diff_reports_changed_fields(
    nodes: Seq<(Seq<char>, EntityView)>,
    id: Seq<char>,
    lines: Seq<Seq<char>>,
)
    requires
        diff_report(nodes, id, lines),
        diff_candidates(nodes, id).len() >= 2,
    ensures
        ({
            let a = diff_candidates(nodes, id)[0];
            let b = diff_candidates(nodes, id)[1];
            &&& a.title != b.title ==> lines.contains("  TITLE: '"@ + a.title + "' | '"@ + b.title + "'"@)
            &&& a.description != b.description ==> lines.contains(
                "  DESCRIPTION: '"@ + a.description + "' | '"@ + b.description + "'"@,
            )
            &&& a.version != b.version ==> lines.contains(
                "  VERSION: '"@ + a.version + "' | '"@ + b.version + "'"@,
            )
            &&& a.entity_type != b.entity_type ==> lines.contains(
                "  TYPE: "@ + entity_type_name(a.entity_type) + " | "@ + entity_type_name(b.entity_type),
            )
        }),
{
    let ms = diff_candidates(nodes, id);
    let a = ms[0];
    let b = ms[1];
    let (ka, ra, rb) = choose|ka: Seq<(Seq<char>, Seq<char>)>, ra: Seq<(Seq<char>, Seq<char>)>, rb: Seq<(Seq<char>, Seq<char>)>|
        {
            &&& sorted_strict(ka)
            &&& ka.to_set() == key_pairs(ms[0], ms[1])
            &&& sorted_strict(ra)
            &&& ra.to_set() == rel_set(ms[0])
            &&& sorted_strict(rb)
            &&& rb.to_set() == rel_set(ms[1])
            &&& lines == #[trigger] diff_body(ms[0], ms[1], ka, ra, rb)
        };
    lemma_body_parts(a, b, ka, ra, rb);
    let props = ka.flat_map(prop_line_fn(a, b));
    let only_a = ra.flat_map(only_fn(a.id, rb.to_set()));
    let only_b = rb.flat_map(only_fn(b.id, ra.to_set()));
    let base: int = 2 + props.len() as int + only_a.len() as int + only_b.len() as int;
    let fl = field_lines(a, b);
    let t = if a.title != b.title { 1int } else { 0int };
    let d = if a.description != b.description { 1int } else { 0int };
    let v = if a.version != b.version { 1int } else { 0int };
    if a.title != b.title {
        assert(lines[base] == fl[0]);
    }
    if a.description != b.description {
        assert(lines[base + t] == fl[t]);
    }
    if a.version != b.version {
        assert(lines[base + t + d] == fl[t + d]);
    }
    if a.entity_type != b.entity_type {
        assert(lines[base + t + d + v] == fl[t + d + v]);
    }
}

} // verus!
