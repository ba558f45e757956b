//! Laws of the rule checks, stated over the entities they look at.
use crate::error::SourceLocationView;
use crate::parser::ast::{EntityType, EntityView, RelationshipType, RelationshipView};
use crate::validator::error::ValidationErrorView;
use crate::validator::rules::{
    completeness_errors_of, count_rel, evidence_completeness_errors, evidence_presence_errors, has_id,
    presence_errors_of, reference_errors_of, reference_integrity_errors, rel_reference_errors_of,
    revelation_errors_of, synthesis_errors_of, type_constraint_errors, type_errors_of,
};
use vstd::prelude::*;

verus! {

/// An entity that is not an artifact lacks evidence exactly when it has no
/// evidence block, or one with no revelation, no synthesis and no analogy.
pub open spec fn lacks_evidence(e: EntityView) -> bool {
    &&& e.entity_type != EntityType::Artifact
    &&& match e.evidence {
        None => true,
        Some(b) => b.revelations.len() == 0 && b.syntheses.len() == 0 && b.analogies.len() == 0,
    }
}

/// The evidence-presence check looks at each entity on its own: one more
/// entity adds one missing-evidence error, at that entity, when it lacks
/// evidence, and none when its block holds any revelation, synthesis or
/// analogy, or when it is an artifact.
pub proof fn law_presence_error_exactly_when_no_entry(m: Seq<EntityView>, e: EntityView)
    ensures
        lacks_evidence(e) ==> {
            let r = evidence_presence_errors(m.push(e));
            &&& r.len() == evidence_presence_errors(m).len() + 1
            &&& r.take(r.len() - 1) == evidence_presence_errors(m)
            &&& r.last() matches ValidationErrorView::MissingEvidence { location, .. } && location == e.location
        },
        !lacks_evidence(e) ==> evidence_presence_errors(m.push(e)) == evidence_presence_errors(m),
{
    let f = presence_errors_of();
    m.lemma_flat_map_push(f, e);
    let r = evidence_presence_errors(m.push(e));
    if lacks_evidence(e) {
        assert(r.take(r.len() - 1) =~= evidence_presence_errors(m));
    } else {
        assert(r =~= evidence_presence_errors(m));
    }
}

/// An element of what `g` gives for an item is in the flat map of `g`.
pub proof fn lemma_flat_map_has<A, B>(s: Seq<A>, g: spec_fn(A) -> Seq<B>, j: int, x: B)
    requires
        0 <= j < s.len(),
        g(s[j]).contains(x),
    ensures
        s.flat_map(g).contains(x),
    decreases s.len(),
{
    let p = s.drop_last();
    assert(s =~= p.push(s.last()));
    p.lemma_flat_map_push(g, s.last());
    if j == s.len() - 1 {
        let gj = g(s[j]);
        let q = choose|q: int| 0 <= q < gj.len() && gj[q] == x;
        let n = p.flat_map(g).len() as int;
        assert(s.flat_map(g)[n + q] == x);
    } else {
        lemma_flat_map_has(p, g, j, x);
        let pf = p.flat_map(g);
        let q = choose|q: int| 0 <= q < pf.len() && pf[q] == x;
        assert(s.flat_map(g)[q] == x);
    }
}

/// A flat map of items that each give nothing is empty.
pub proof fn lemma_flat_map_none<A, B>(s: Seq<A>, g: spec_fn(A) -> Seq<B>)
    requires
        forall|j: int| 0 <= j < s.len() ==> (#[trigger] g(s[j])).len() == 0,
    ensures
        s.flat_map(g).len() == 0,
    decreases s.len(),
{
    if s.len() > 0 {
        let p = s.drop_last();
        assert(s =~= p.push(s.last()));
        p.lemma_flat_map_push(g, s.last());
        assert forall|j: int| 0 <= j < p.len() implies (#[trigger] g(p[j])).len() == 0 by {
            assert(p[j] == s[j]);
        }
        lemma_flat_map_none(p, g);
        assert(g(s[s.len() - 1]).len() == 0);
    } else {
        assert(s.flat_map(g) =~= Seq::<B>::empty());
    }
}

proof fn lemma_count_rel_pos(rels: Seq<RelationshipView>, t: RelationshipType, k: int)
    requires
        0 <= k < rels.len(),
        rels[k].rel_type == t,
    ensures
        count_rel(rels, t) > 0,
    decreases rels.len(),
{
    if k < rels.len() - 1 {
        lemma_count_rel_pos(rels.drop_last(), t, k);
    }
}

/// Whether `errs` holds an error of the kind that `kind` tells apart, at
/// `location`.
pub open spec fn has_error_at(
    errs: Seq<ValidationErrorView>,
    kind: spec_fn(ValidationErrorView) -> bool,
    location: SourceLocationView,
) -> bool {
    exists|q: int| 0 <= q < errs.len() && kind(#[trigger] errs[q]) && error_location(errs[q]) == Some(location)
}

/// The location of an error, if it has one.
pub open spec fn error_location(e: ValidationErrorView) -> Option<SourceLocationView> {
    match e {
        ValidationErrorView::TypeConstraint { location, .. } => Some(location),
        ValidationErrorView::ReferenceIntegrity { location, .. } => Some(location),
        ValidationErrorView::MissingEvidence { location, .. } => Some(location),
        ValidationErrorView::IncompleteEvidence { location, .. } => Some(location),
        ValidationErrorView::Cycle { .. } => None,
        ValidationErrorView::InvalidVersion { location, .. } => Some(location),
    }
}

pub open spec fn is_reference_error() -> spec_fn(ValidationErrorView) -> bool {
    |e: ValidationErrorView| e is ReferenceIntegrity
}

pub open spec fn is_type_error() -> spec_fn(ValidationErrorView) -> bool {
    |e: ValidationErrorView| e is TypeConstraint
}

pub open spec fn is_incomplete_error() -> spec_fn(ValidationErrorView) -> bool {
    |e: ValidationErrorView| e is IncompleteEvidence
}

/// Whether some entity of `m` has id `id`.
pub open spec fn names_entity(m: Seq<EntityView>, id: Seq<char>) -> bool {
    exists|k: int| 0 <= k < m.len() && (#[trigger] m[k]).id == id
}

/// Reference integrity: a relationship whose target is the id of no entity
/// of the module gives an error at the relationship; a module whose
/// targets all name entities gives none.
pub proof fn law_reference_errors_are_the_unresolved_targets(m: Seq<EntityView>, i: int, k: int)
    ensures
        0 <= i < m.len() && 0 <= k < m[i].relationships.len() && !names_entity(m, m[i].relationships[k].target_id)
            ==> has_error_at(reference_integrity_errors(m), is_reference_error(), m[i].relationships[k].location),
        (forall|a: int, b: int|
            0 <= a < m.len() && 0 <= b < m[a].relationships.len() ==> names_entity(
                m,
                #[trigger] m[a].relationships[b].target_id,
            )) ==> reference_integrity_errors(m).len() == 0,
{
    if 0 <= i < m.len() && 0 <= k < m[i].relationships.len() && !names_entity(m, m[i].relationships[k].target_id) {
        let e = m[i];
        let r = e.relationships[k];
        let g = rel_reference_errors_of(m, e);
        let err = g(r)[0];
        assert(!has_id(m, r.target_id));
        lemma_flat_map_has(e.relationships, g, k, err);
        lemma_flat_map_has(m, reference_errors_of(m), i, err);
        let errs = reference_integrity_errors(m);
        let q = choose|q: int| 0 <= q < errs.len() && errs[q] == err;
        assert(is_reference_error()(errs[q]) && error_location(errs[q]) == Some(r.location));
    }
    if forall|a: int, b: int|
        0 <= a < m.len() && 0 <= b < m[a].relationships.len() ==> names_entity(
            m,
            #[trigger] m[a].relationships[b].target_id,
        ) {
        assert forall|a: int| 0 <= a < m.len() implies (#[trigger] reference_errors_of(m)(m[a])).len() == 0 by {
            let e = m[a];
            let g = rel_reference_errors_of(m, e);
            assert forall|b: int| 0 <= b < e.relationships.len() implies (#[trigger] g(e.relationships[b])).len()
                == 0 by {
                assert(names_entity(m, m[a].relationships[b].target_id));
            }
            lemma_flat_map_none(e.relationships, g);
        }
        lemma_flat_map_none(m, reference_errors_of(m));
    }
}

/// Type constraints: an axiom with a `requires` relationship, a framework
/// without `based_on`, and a law or principle without `derives_from` each
/// give a type-constraint error at the entity.
pub proof fn law_type_errors_of_misrelated_entities(m: Seq<EntityView>, i: int)
    requires
        0 <= i < m.len(),
    ensures
        ({
            let e = m[i];
            let with_rel = |t: RelationshipType|
                exists|k: int| 0 <= k < e.relationships.len() && (#[trigger] e.relationships[k]).rel_type == t;
            ((e.entity_type == EntityType::Axiom && with_rel(RelationshipType::Requires)) || (e.entity_type
                == EntityType::Framework && !with_rel(RelationshipType::BasedOn)) || ((e.entity_type == EntityType::Law
                || e.entity_type == EntityType::Principle) && !with_rel(RelationshipType::DerivesFrom)))
                ==> has_error_at(type_constraint_errors(m), is_type_error(), e.location)
        }),
{
    let e = m[i];
    let rels = e.relationships;
    if e.entity_type == EntityType::Axiom {
        if exists|k: int| 0 <= k < rels.len() && (#[trigger] rels[k]).rel_type == RelationshipType::Requires {
            let k = choose|k: int| 0 <= k < rels.len() && (#[trigger] rels[k]).rel_type == RelationshipType::Requires;
            lemma_count_rel_pos(rels, RelationshipType::Requires, k);
        }
    }
    let g = type_errors_of(m);
    if g(e).len() > 0 {
        let err = g(e)[0];
        lemma_flat_map_has(m, g, i, err);
        let errs = type_constraint_errors(m);
        let q = choose|q: int| 0 <= q < errs.len() && errs[q] == err;
        assert(is_type_error()(errs[q]) && error_location(errs[q]) == Some(e.location));
    }
}

/// Evidence completeness: a synthesis with fewer than two sources gives an
/// incomplete-evidence error at the synthesis.
pub proof fn law_synthesis_needs_two_sources(m: Seq<EntityView>, i: int, k: int)
    requires
        0 <= i < m.len(),
        m[i].evidence is Some,
        0 <= k < m[i].evidence->Some_0.syntheses.len(),
        m[i].evidence->Some_0.syntheses[k].sources.len() < 2,
    ensures
        has_error_at(evidence_completeness_errors(m), is_incomplete_error(), m[i].evidence->Some_0.syntheses[k].location),
{
    let e = m[i];
    let b = e.evidence->Some_0;
    let s = b.syntheses[k];
    let g = synthesis_errors_of(e.id);
    let err = g(s)[0];
    lemma_flat_map_has(b.syntheses, g, k, err);
    let part = b.syntheses.flat_map(g);
    let q0 = choose|q: int| 0 <= q < part.len() && part[q] == err;
    let before = b.revelations.flat_map(revelation_errors_of(e.id));
    let all = completeness_errors_of()(e);
    assert(all[before.len() + q0] == err);
    lemma_flat_map_has(m, completeness_errors_of(), i, err);
    let errs = evidence_completeness_errors(m);
    let q = choose|q: int| 0 <= q < errs.len() && errs[q] == err;
    assert(is_incomplete_error()(errs[q]) && error_location(errs[q]) == Some(s.location));
}

} // verus!
