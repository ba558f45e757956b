//! The individual validation rules. Each checks one aspect of a module and
//! returns the errors it finds, entity by entity, in module order.
use crate::error::SourceLocation;
use crate::parser::ast::{
    entity_type_name, Entity, EntityType, EntityView, EvidenceView, Module, Relationship,
    RelationshipType, RelationshipView, RevelationView, SynthesisView, AnalogyView,
};
use crate::matching::{regex_is_match, regex_matches, version_pattern, version_shape};
use crate::text::{blank, decimal, is_blank, usize_to_string};
use crate::validator::dag::{adj_view, adj_wf, all_cycles, cycles_view, edge, find_cycles, is_cycle, acyclic};
use crate::graph::dfs::{first_pos, lemma_first_pos};
use crate::validator::error::{errors_view, ValidationError, ValidationErrorView};
use vstd::prelude::*;

verus! {

broadcast use vstd::seq_lib::group_seq_properties;

/// Appends `more` to `errors`.
pub fn append_errors(errors: &mut Vec<ValidationError>, more: Vec<ValidationError>)
    ensures
        errors_view(final(errors)@) == errors_view(old(errors)@) + errors_view(more@),
{
    let mut more = more;
    let ghost a = errors@;
    let ghost m = more@;
    errors.append(&mut more);
    assert(errors_view(errors@) =~= errors_view(a) + errors_view(m));
}

fn one_error(e: ValidationError) -> (r: Vec<ValidationError>)
    ensures
        errors_view(r@) == seq![e@],
{
    let mut v = Vec::new();
    v.push(e);
    assert(errors_view(v@) =~= seq![e@]);
    v
}

fn no_errors() -> (r: Vec<ValidationError>)
    ensures
        errors_view(r@) == Seq::<ValidationErrorView>::empty(),
{
    let v = Vec::new();
    assert(errors_view(v@) =~= Seq::<ValidationErrorView>::empty());
    v
}

/// `"<pre>'<id>'<post>"`-shaped messages: `pre + id + post`.
fn quoted(pre: &str, id: &str, post: &str) -> (s: String)
    ensures
        s@ == pre@ + id@ + post@,
{
    let mut s = String::from_str(pre);
    s.append(id);
    s.append(post);
    s
}

// ---------------------------------------------------------------------------
// 1. Type constraints
// ---------------------------------------------------------------------------

/// How many of `rels` have type `t`.
pub open spec fn count_rel(rels: Seq<RelationshipView>, t: RelationshipType) -> nat
    decreases rels.len(),
{
    if rels.len() == 0 {
        0
    } else {
        count_rel(rels.drop_last(), t) + if rels.last().rel_type == t {
            1nat
        } else {
            0nat
        }
    }
}

/// Whether one of `rels` has type `t`.
pub open spec fn has_rel(rels: Seq<RelationshipView>, t: RelationshipType) -> bool {
    exists|k: int| 0 <= k < rels.len() && (#[trigger] rels[k]).rel_type == t
}

/// The type of the entity with id `id`; where several entities share the
/// id, the last one's.
pub open spec fn type_of(m: Seq<EntityView>, id: Seq<char>) -> Option<EntityType>
    decreases m.len(),
{
    if m.len() == 0 {
        None
    } else if m.last().id == id {
        Some(m.last().entity_type)
    } else {
        type_of(m.drop_last(), id)
    }
}

pub open spec fn is_law_or_principle(t: Option<EntityType>) -> bool {
    t == Some(EntityType::Law) || t == Some(EntityType::Principle)
}

/// Whether one of `rels` points at a law or a principle of `m`.
pub open spec fn refs_law_or_principle(m: Seq<EntityView>, rels: Seq<RelationshipView>) -> bool {
    exists|k: int| 0 <= k < rels.len() && is_law_or_principle(type_of(m, (#[trigger] rels[k]).target_id))
}

pub open spec fn type_error(e: EntityView, message: Seq<char>) -> Seq<ValidationErrorView> {
    seq![ValidationErrorView::TypeConstraint { location: e.location, message }]
}

/// The type constraint errors of one entity of `m`: an axiom has no
/// `requires`; a framework has a `based_on`; a law and a principle have a
/// `derives_from`; an artifact references a law or a principle of `m`.
pub open spec fn entity_type_errors(m: Seq<EntityView>, e: EntityView) -> Seq<ValidationErrorView> {
    let rels = e.relationships;
    match e.entity_type {
        EntityType::Axiom => if count_rel(rels, RelationshipType::Requires) > 0 {
            type_error(
                e,
                "axiom '"@ + e.id + "' must have no requires relationships, found "@ + decimal(
                    count_rel(rels, RelationshipType::Requires),
                ),
            )
        } else {
            seq![]
        },
        EntityType::Framework => if !has_rel(rels, RelationshipType::BasedOn) {
            type_error(
                e,
                "framework '"@ + e.id + "' must have at least one based_on relationship"@,
            )
        } else {
            seq![]
        },
        EntityType::Law => if !has_rel(rels, RelationshipType::DerivesFrom) {
            type_error(e, "law '"@ + e.id + "' must have at least one derives_from relationship"@)
        } else {
            seq![]
        },
        EntityType::Principle => if !has_rel(rels, RelationshipType::DerivesFrom) {
            type_error(
                e,
                "principle '"@ + e.id + "' must have at least one derives_from relationship"@,
            )
        } else {
            seq![]
        },
        EntityType::Artifact => if !refs_law_or_principle(m, rels) {
            type_error(e, "artifact '"@ + e.id + "' must reference at least one law or principle"@)
        } else {
            seq![]
        },
        _ => seq![],
    }
}

pub open spec fn type_errors_of(m: Seq<EntityView>) -> spec_fn(EntityView) -> Seq<
    ValidationErrorView,
> {
    |e: EntityView| entity_type_errors(m, e)
}

/// All type constraint errors of a module, in entity order.
pub open spec fn type_constraint_errors(m: Seq<EntityView>) -> Seq<ValidationErrorView> {
    m.flat_map(type_errors_of(m))
}

pub open spec fn rels_view(v: Seq<Relationship>) -> Seq<RelationshipView> {
    v.map_values(|r: Relationship| r@)
}

fn count_rel_exec(rels: &Vec<Relationship>, t: RelationshipType) -> (n: usize)
    ensures
        n == count_rel(rels_view(rels@), t),
{
    let ghost rv = rels_view(rels@);
    let mut n: usize = 0;
    let mut i: usize = 0;
    while i < rels.len()
        invariant
            rv == rels_view(rels@),
            i <= rels@.len(),
            n == count_rel(rv.take(i as int), t),
            n <= i,
        decreases rels@.len() - i,
    {
        assert(rv.take(i + 1).drop_last() =~= rv.take(i as int));
        if rels[i].rel_type == t {
            n = n + 1;
        }
        i = i + 1;
    }
    assert(rv.take(rels@.len() as int) =~= rv);
    n
}

fn has_rel_exec(rels: &Vec<Relationship>, t: RelationshipType) -> (r: bool)
    ensures
        r == has_rel(rels_view(rels@), t),
{
    let ghost rv = rels_view(rels@);
    let mut i: usize = 0;
    while i < rels.len()
        invariant
            rv == rels_view(rels@),
            i <= rels@.len(),
            forall|k: int| 0 <= k < i ==> (#[trigger] rv[k]).rel_type != t,
        decreases rels@.len() - i,
    {
        if rels[i].rel_type == t {
            assert(rv[i as int].rel_type == t);
            return true;
        }
        i = i + 1;
    }
    false
}

/// The type of the last entity of `module` with id `id`.
pub fn type_of_exec(module: &Module, id: &String) -> (r: Option<EntityType>)
    ensures
        r == type_of(module@, id@),
{
    let ghost m = module@;
    let mut i = module.entities.len();
    while i > 0
        invariant
            m == module@,
            i <= m.len(),
            type_of(m, id@) == type_of(m.take(i as int), id@),
        decreases i,
    {
        let e = &module.entities[i - 1];
        assert(m.take(i as int).drop_last() =~= m.take(i - 1));
        if e.id == *id {
            return Some(e.entity_type);
        }
        i = i - 1;
    }
    None
}

fn refs_law_or_principle_exec(module: &Module, rels: &Vec<Relationship>) -> (r: bool)
    ensures
        r == refs_law_or_principle(module@, rels_view(rels@)),
{
    let ghost rv = rels_view(rels@);
    let mut i: usize = 0;
    while i < rels.len()
        invariant
            rv == rels_view(rels@),
            i <= rels@.len(),
            forall|k: int| 0 <= k < i ==> !is_law_or_principle(type_of(module@, (#[trigger] rv[k]).target_id)),
        decreases rels@.len() - i,
    {
        let t = type_of_exec(module, &rels[i].target_id);
        if t == Some(EntityType::Law) || t == Some(EntityType::Principle) {
            assert(is_law_or_principle(type_of(module@, rv[i as int].target_id)));
            return true;
        }
        i = i + 1;
    }
    false
}

fn type_error_exec(e: &Entity, message: String) -> (r: Vec<ValidationError>)
    ensures
        errors_view(r@) == type_error(e@, message@),
{
    one_error(ValidationError::TypeConstraint { location: e.source_location.clone(), message })
}

fn entity_type_errors_exec(module: &Module, e: &Entity) -> (r: Vec<ValidationError>)
    ensures
        errors_view(r@) == entity_type_errors(module@, e@),
{
    match e.entity_type {
        EntityType::Axiom => {
            let n = count_rel_exec(&e.relationships, RelationshipType::Requires);
            if n > 0 {
                let mut msg = quoted(
                    "axiom '",
                    e.id.as_str(),
                    "' must have no requires relationships, found ",
                );
                let count = usize_to_string(n);
                msg.append(count.as_str());
                type_error_exec(e, msg)
            } else {
                no_errors()
            }
        },
        EntityType::Framework => {
            if !has_rel_exec(&e.relationships, RelationshipType::BasedOn) {
                type_error_exec(
                    e,
                    quoted(
                        "framework '",
                        e.id.as_str(),
                        "' must have at least one based_on relationship",
                    ),
                )
            } else {
                no_errors()
            }
        },
        EntityType::Law => {
            if !has_rel_exec(&e.relationships, RelationshipType::DerivesFrom) {
                type_error_exec(
                    e,
                    quoted("law '", e.id.as_str(), "' must have at least one derives_from relationship"),
                )
            } else {
                no_errors()
            }
        },
        EntityType::Principle => {
            if !has_rel_exec(&e.relationships, RelationshipType::DerivesFrom) {
                type_error_exec(
                    e,
                    quoted(
                        "principle '",
                        e.id.as_str(),
                        "' must have at least one derives_from relationship",
                    ),
                )
            } else {
                no_errors()
            }
        },
        EntityType::Artifact => {
            if !refs_law_or_principle_exec(module, &e.relationships) {
                type_error_exec(
                    e,
                    quoted("artifact '", e.id.as_str(), "' must reference at least one law or principle"),
                )
            } else {
                no_errors()
            }
        },
        _ => no_errors(),
    }
}

/// 1. Type constraint validation.
pub fn check_type_constraints(module: &Module) -> (r: Vec<ValidationError>)
    ensures
        errors_view(r@) == type_constraint_errors(module@),
{
    let ghost m = module@;
    let mut errors: Vec<ValidationError> = Vec::new();
    let mut i: usize = 0;
    while i < module.entities.len()
        invariant
            m == module@,
            i <= m.len(),
            errors_view(errors@) == m.take(i as int).flat_map(type_errors_of(m)),
        decreases m.len() - i,
    {
        let more = entity_type_errors_exec(module, &module.entities[i]);
        append_errors(&mut errors, more);
        proof {
            m.lemma_flat_map_take_append(type_errors_of(m), i as int);
        }
        i = i + 1;
    }
    assert(m.take(m.len() as int) =~= m);
    errors
}

// ---------------------------------------------------------------------------
// 2. Reference integrity
// ---------------------------------------------------------------------------

/// Whether some entity of `m` has id `id`.
pub open spec fn has_id(m: Seq<EntityView>, id: Seq<char>) -> bool {
    exists|k: int| 0 <= k < m.len() && (#[trigger] m[k]).id == id
}

/// The error for a relationship of `e` whose target is not an entity of `m`.
pub open spec fn relationship_reference_errors(
    m: Seq<EntityView>,
    e: EntityView,
    r: RelationshipView,
) -> Seq<ValidationErrorView> {
    if has_id(m, r.target_id) {
        seq![]
    } else {
        seq![
            ValidationErrorView::ReferenceIntegrity {
                location: r.location,
                message: "entity '"@ + e.id + "' references unresolved target '"@ + r.target_id
                    + "'"@,
            },
        ]
    }
}

pub open spec fn rel_reference_errors_of(m: Seq<EntityView>, e: EntityView) -> spec_fn(
    RelationshipView,
) -> Seq<ValidationErrorView> {
    |r: RelationshipView| relationship_reference_errors(m, e, r)
}

/// The reference errors of one entity: one per relationship whose target
/// is not the id of an entity of `m`, at the relationship's location.
pub open spec fn entity_reference_errors(m: Seq<EntityView>, e: EntityView) -> Seq<
    ValidationErrorView,
> {
    e.relationships.flat_map(rel_reference_errors_of(m, e))
}

pub open spec fn reference_errors_of(m: Seq<EntityView>) -> spec_fn(EntityView) -> Seq<
    ValidationErrorView,
> {
    |e: EntityView| entity_reference_errors(m, e)
}

/// All reference integrity errors of a module.
pub open spec fn reference_integrity_errors(m: Seq<EntityView>) -> Seq<ValidationErrorView> {
    m.flat_map(reference_errors_of(m))
}

/// Whether some entity of `module` has id `id`.
pub fn has_id_exec(module: &Module, id: &String) -> (r: bool)
    ensures
        r == has_id(module@, id@),
{
    let ghost m = module@;
    let mut i: usize = 0;
    while i < module.entities.len()
        invariant
            m == module@,
            i <= m.len(),
            forall|k: int| 0 <= k < i ==> (#[trigger] m[k]).id != id@,
        decreases m.len() - i,
    {
        if module.entities[i].id == *id {
            assert(m[i as int].id == id@);
            return true;
        }
        i = i + 1;
    }
    false
}

fn entity_reference_errors_exec(module: &Module, e: &Entity) -> (r: Vec<ValidationError>)
    ensures
        errors_view(r@) == entity_reference_errors(module@, e@),
{
    let ghost rv = e@.relationships;
    let ghost f = rel_reference_errors_of(module@, e@);
    let mut errors: Vec<ValidationError> = Vec::new();
    let mut i: usize = 0;
    while i < e.relationships.len()
        invariant
            rv == e@.relationships,
            f == rel_reference_errors_of(module@, e@),
            i <= rv.len(),
            errors_view(errors@) == rv.take(i as int).flat_map(f),
        decreases rv.len() - i,
    {
        let rel = &e.relationships[i];
        if !has_id_exec(module, &rel.target_id) {
            let mut msg = quoted("entity '", e.id.as_str(), "' references unresolved target '");
            msg.append(rel.target_id.as_str());
            msg.append("'");
            let more = one_error(
                ValidationError::ReferenceIntegrity {
                    location: rel.source_location.clone(),
                    message: msg,
                },
            );
            append_errors(&mut errors, more);
        }
        proof {
            rv.lemma_flat_map_take_append(f, i as int);
            assert(errors_view(errors@) =~= rv.take(i as int).flat_map(f) + f(rv[i as int]));
        }
        i = i + 1;
    }
    assert(rv.take(rv.len() as int) =~= rv);
    errors
}

/// 2. Reference integrity validation.
pub fn check_reference_integrity(module: &Module) -> (r: Vec<ValidationError>)
    ensures
        errors_view(r@) == reference_integrity_errors(module@),
{
    let ghost m = module@;
    let mut errors: Vec<ValidationError> = Vec::new();
    let mut i: usize = 0;
    while i < module.entities.len()
        invariant
            m == module@,
            i <= m.len(),
            errors_view(errors@) == m.take(i as int).flat_map(reference_errors_of(m)),
        decreases m.len() - i,
    {
        let more = entity_reference_errors_exec(module, &module.entities[i]);
        append_errors(&mut errors, more);
        proof {
            m.lemma_flat_map_take_append(reference_errors_of(m), i as int);
        }
        i = i + 1;
    }
    assert(m.take(m.len() as int) =~= m);
    errors
}

// ---------------------------------------------------------------------------
// 3. Evidence presence
// ---------------------------------------------------------------------------

/// Whether an evidence block is present and holds at least one entry.
pub open spec fn has_evidence_entries(ev: Option<EvidenceView>) -> bool {
    match ev {
        Some(b) => b.revelations.len() > 0 || b.syntheses.len() > 0 || b.analogies.len() > 0,
        None => false,
    }
}

/// The presence error of one entity: every entity but an artifact has
/// evidence with at least one entry.
pub open spec fn entity_presence_errors(e: EntityView) -> Seq<ValidationErrorView> {
    if e.entity_type != EntityType::Artifact && !has_evidence_entries(e.evidence) {
        seq![
            ValidationErrorView::MissingEvidence {
                location: e.location,
                message: "entity '"@ + e.id + "' of type '"@ + entity_type_name(e.entity_type)
                    + "' must have evidence with at least one entry"@,
            },
        ]
    } else {
        seq![]
    }
}

pub open spec fn presence_errors_of() -> spec_fn(EntityView) -> Seq<ValidationErrorView> {
    |e: EntityView| entity_presence_errors(e)
}

/// All evidence presence errors of a module.
pub open spec fn evidence_presence_errors(m: Seq<EntityView>) -> Seq<ValidationErrorView> {
    m.flat_map(presence_errors_of())
}

fn entity_presence_errors_exec(e: &Entity) -> (r: Vec<ValidationError>)
    ensures
        errors_view(r@) == entity_presence_errors(e@),
{
    if e.entity_type == EntityType::Artifact {
        return no_errors();
    }
    let has_evidence = match &e.evidence {
        Some(ev) => ev.revelations.len() > 0 || ev.syntheses.len() > 0 || ev.analogies.len() > 0,
        None => false,
    };
    if has_evidence {
        no_errors()
    } else {
        let mut msg = quoted("entity '", e.id.as_str(), "' of type '");
        msg.append(e.entity_type.as_str());
        msg.append("' must have evidence with at least one entry");
        one_error(
            ValidationError::MissingEvidence { location: e.source_location.clone(), message: msg },
        )
    }
}

/// 3. Evidence presence validation.
pub fn check_evidence_presence(module: &Module) -> (r: Vec<ValidationError>)
    ensures
        errors_view(r@) == evidence_presence_errors(module@),
{
    let ghost m = module@;
    let mut errors: Vec<ValidationError> = Vec::new();
    let mut i: usize = 0;
    while i < module.entities.len()
        invariant
            m == module@,
            i <= m.len(),
            errors_view(errors@) == m.take(i as int).flat_map(presence_errors_of()),
        decreases m.len() - i,
    {
        let more = entity_presence_errors_exec(&module.entities[i]);
        append_errors(&mut errors, more);
        proof {
            m.lemma_flat_map_take_append(presence_errors_of(), i as int);
        }
        i = i + 1;
    }
    assert(m.take(m.len() as int) =~= m);
    errors
}

// ---------------------------------------------------------------------------
// 4. Evidence completeness
// ---------------------------------------------------------------------------

pub open spec fn incomplete(location: crate::error::SourceLocationView, message: Seq<char>) -> Seq<
    ValidationErrorView,
> {
    seq![ValidationErrorView::IncompleteEvidence { location, message }]
}

/// A revelation's errors: its source and its text are not blank.
pub open spec fn revelation_errors(id: Seq<char>, r: RevelationView) -> Seq<ValidationErrorView> {
    (if is_blank(r.source) {
        incomplete(r.location, "revelation in entity '"@ + id + "' has empty source"@)
    } else {
        seq![]
    }) + (if is_blank(r.text) {
        incomplete(r.location, "revelation in entity '"@ + id + "' has empty text"@)
    } else {
        seq![]
    })
}

/// A synthesis's errors: it has at least two sources, and its argument is
/// not blank.
pub open spec fn synthesis_errors(id: Seq<char>, s: SynthesisView) -> Seq<ValidationErrorView> {
    (if s.sources.len() < 2 {
        incomplete(
            s.location,
            "synthesis in entity '"@ + id + "' must have at least 2 sources, found "@ + decimal(
                s.sources.len(),
            ),
        )
    } else {
        seq![]
    }) + (if is_blank(s.argument) {
        incomplete(s.location, "synthesis in entity '"@ + id + "' has empty argument"@)
    } else {
        seq![]
    })
}

/// An analogy's errors: its domain and its mapping are not blank.
pub open spec fn analogy_errors(id: Seq<char>, a: AnalogyView) -> Seq<ValidationErrorView> {
    (if is_blank(a.domain) {
        incomplete(a.location, "analogy in entity '"@ + id + "' has empty domain"@)
    } else {
        seq![]
    }) + (if is_blank(a.mapping) {
        incomplete(a.location, "analogy in entity '"@ + id + "' has empty mapping"@)
    } else {
        seq![]
    })
}

pub open spec fn revelation_errors_of(id: Seq<char>) -> spec_fn(RevelationView) -> Seq<
    ValidationErrorView,
> {
    |r: RevelationView| revelation_errors(id, r)
}

pub open spec fn synthesis_errors_of(id: Seq<char>) -> spec_fn(SynthesisView) -> Seq<
    ValidationErrorView,
> {
    |s: SynthesisView| synthesis_errors(id, s)
}

pub open spec fn analogy_errors_of(id: Seq<char>) -> spec_fn(AnalogyView) -> Seq<
    ValidationErrorView,
> {
    |a: AnalogyView| analogy_errors(id, a)
}

/// The completeness errors of one entity: those of its revelations, then
/// of its syntheses, then of its analogies.
pub open spec fn entity_completeness_errors(e: EntityView) -> Seq<ValidationErrorView> {
    match e.evidence {
        Some(b) => b.revelations.flat_map(revelation_errors_of(e.id)) + b.syntheses.flat_map(
            synthesis_errors_of(e.id),
        ) + b.analogies.flat_map(analogy_errors_of(e.id)),
        None => seq![],
    }
}

pub open spec fn completeness_errors_of() -> spec_fn(EntityView) -> Seq<ValidationErrorView> {
    |e: EntityView| entity_completeness_errors(e)
}

/// All evidence completeness errors of a module.
pub open spec fn evidence_completeness_errors(m: Seq<EntityView>) -> Seq<ValidationErrorView> {
    m.flat_map(completeness_errors_of())
}

fn pair_errors(
    first: bool,
    location: &SourceLocation,
    m1: String,
    second: bool,
    m2: String,
) -> (r: Vec<ValidationError>)
    ensures
        errors_view(r@) == (if first {
            incomplete(location@, m1@)
        } else {
            seq![]
        }) + (if second {
            incomplete(location@, m2@)
        } else {
            seq![]
        }),
{
    let mut v: Vec<ValidationError> = Vec::new();
    if first {
        v.push(ValidationError::IncompleteEvidence { location: location.clone(), message: m1 });
    }
    if second {
        v.push(ValidationError::IncompleteEvidence { location: location.clone(), message: m2 });
    }
    assert(errors_view(v@) =~= (if first {
        incomplete(location@, m1@)
    } else {
        seq![]
    }) + (if second {
        incomplete(location@, m2@)
    } else {
        seq![]
    }));
    v
}

fn entity_completeness_errors_exec(e: &Entity) -> (r: Vec<ValidationError>)
    ensures
        errors_view(r@) == entity_completeness_errors(e@),
{
    let ev = match &e.evidence {
        Some(ev) => ev,
        None => {
            return no_errors();
        },
    };
    let ghost id = e@.id;
    let mut errors: Vec<ValidationError> = Vec::new();

    let ghost rv = ev@.revelations;
    let mut i: usize = 0;
    while i < ev.revelations.len()
        invariant
            rv == ev@.revelations,
            id == e@.id,
            i <= rv.len(),
            errors_view(errors@) == rv.take(i as int).flat_map(revelation_errors_of(id)),
        decreases rv.len() - i,
    {
        let r = &ev.revelations[i];
        let more = pair_errors(
            blank(r.source.as_str()),
            &r.source_location,
            quoted("revelation in entity '", e.id.as_str(), "' has empty source"),
            blank(r.text.as_str()),
            quoted("revelation in entity '", e.id.as_str(), "' has empty text"),
        );
        append_errors(&mut errors, more);
        proof {
            rv.lemma_flat_map_take_append(revelation_errors_of(id), i as int);
        }
        i = i + 1;
    }
    assert(rv.take(rv.len() as int) =~= rv);
    let ghost after_rev = errors_view(errors@);

    let ghost sv = ev@.syntheses;
    let mut errors2: Vec<ValidationError> = Vec::new();
    let mut i: usize = 0;
    while i < ev.syntheses.len()
        invariant
            sv == ev@.syntheses,
            id == e@.id,
            i <= sv.len(),
            errors_view(errors2@) == sv.take(i as int).flat_map(synthesis_errors_of(id)),
        decreases sv.len() - i,
    {
        let s = &ev.syntheses[i];
        let mut m1 = quoted(
            "synthesis in entity '",
            e.id.as_str(),
            "' must have at least 2 sources, found ",
        );
        let n = usize_to_string(s.sources.len());
        m1.append(n.as_str());
        let more = pair_errors(
            s.sources.len() < 2,
            &s.source_location,
            m1,
            blank(s.argument.as_str()),
            quoted("synthesis in entity '", e.id.as_str(), "' has empty argument"),
        );
        append_errors(&mut errors2, more);
        proof {
            sv.lemma_flat_map_take_append(synthesis_errors_of(id), i as int);
        }
        i = i + 1;
    }
    assert(sv.take(sv.len() as int) =~= sv);

    let ghost av = ev@.analogies;
    let mut errors3: Vec<ValidationError> = Vec::new();
    let mut i: usize = 0;
    while i < ev.analogies.len()
        invariant
            av == ev@.analogies,
            id == e@.id,
            i <= av.len(),
            errors_view(errors3@) == av.take(i as int).flat_map(analogy_errors_of(id)),
        decreases av.len() - i,
    {
        let a = &ev.analogies[i];
        let more = pair_errors(
            blank(a.domain.as_str()),
            &a.source_location,
            quoted("analogy in entity '", e.id.as_str(), "' has empty domain"),
            blank(a.mapping.as_str()),
            quoted("analogy in entity '", e.id.as_str(), "' has empty mapping"),
        );
        append_errors(&mut errors3, more);
        proof {
            av.lemma_flat_map_take_append(analogy_errors_of(id), i as int);
        }
        i = i + 1;
    }
    assert(av.take(av.len() as int) =~= av);
    append_errors(&mut errors, errors2);
    append_errors(&mut errors, errors3);
    errors
}

/// 4. Evidence completeness validation.
pub fn check_evidence_completeness(module: &Module) -> (r: Vec<ValidationError>)
    ensures
        errors_view(r@) == evidence_completeness_errors(module@),
{
    let ghost m = module@;
    let mut errors: Vec<ValidationError> = Vec::new();
    let mut i: usize = 0;
    while i < module.entities.len()
        invariant
            m == module@,
            i <= m.len(),
            errors_view(errors@) == m.take(i as int).flat_map(completeness_errors_of()),
        decreases m.len() - i,
    {
        let more = entity_completeness_errors_exec(&module.entities[i]);
        append_errors(&mut errors, more);
        proof {
            m.lemma_flat_map_take_append(completeness_errors_of(), i as int);
        }
        i = i + 1;
    }
    assert(m.take(m.len() as int) =~= m);
    errors
}

// ---------------------------------------------------------------------------
// 6. Version format
// ---------------------------------------------------------------------------

/// The version error of one entity: its version matches the version
/// pattern `^\d+\.\d+$`.
pub open spec fn entity_version_errors(e: EntityView) -> Seq<ValidationErrorView> {
    if regex_matches(version_pattern(), e.version) {
        seq![]
    } else {
        seq![
            ValidationErrorView::InvalidVersion {
                location: e.location,
                message: "entity '"@ + e.id + "' has invalid version '"@ + e.version
                    + "', expected format 'MAJOR.MINOR' (e.g., '0.1')"@,
            },
        ]
    }
}

pub open spec fn version_errors_of() -> spec_fn(EntityView) -> Seq<ValidationErrorView> {
    |e: EntityView| entity_version_errors(e)
}

/// All version format errors of a module.
pub open spec fn version_format_errors(m: Seq<EntityView>) -> Seq<ValidationErrorView> {
    m.flat_map(version_errors_of())
}

/// 6. Version format validation. On ASCII versions the pattern accepts
/// exactly `MAJOR.MINOR` with ASCII digits.
pub fn check_version_format(module: &Module) -> (r: Vec<ValidationError>)
    ensures
        errors_view(r@) == version_format_errors(module@),
        forall|k: int|
            0 <= k < module@.len() && vstd::utf8::is_ascii_chars(#[trigger] module@[k].version)
                ==> (regex_matches(version_pattern(), module@[k].version) <==> version_shape(
                module@[k].version,
            )),
{
    let ghost m = module@;
    let mut errors: Vec<ValidationError> = Vec::new();
    let mut i: usize = 0;
    while i < module.entities.len()
        invariant
            m == module@,
            i <= m.len(),
            errors_view(errors@) == m.take(i as int).flat_map(version_errors_of()),
            forall|k: int|
                0 <= k < i && vstd::utf8::is_ascii_chars(#[trigger] m[k].version) ==> (
                regex_matches(version_pattern(), m[k].version) <==> version_shape(m[k].version)),
        decreases m.len() - i,
    {
        let e = &module.entities[i];
        let ok = match regex_is_match("^\\d+\\.\\d+$", e.version.as_str()) {
            Ok(b) => b,
            Err(_) => true,
        };
        if !ok {
            let mut msg = quoted("entity '", e.id.as_str(), "' has invalid version '");
            msg.append(e.version.as_str());
            msg.append("', expected format 'MAJOR.MINOR' (e.g., '0.1')");
            let more = one_error(
                ValidationError::InvalidVersion { location: e.source_location.clone(), message: msg },
            );
            append_errors(&mut errors, more);
        }
        proof {
            m.lemma_flat_map_take_append(version_errors_of(), i as int);
        }
        i = i + 1;
    }
    assert(m.take(m.len() as int) =~= m);
    errors
}

// ---------------------------------------------------------------------------
// 5. No cycles through requires / derives_from
// ---------------------------------------------------------------------------

/// The relationship types that carry dependencies.
pub open spec fn is_dependency(t: RelationshipType) -> bool {
    t == RelationshipType::Requires || t == RelationshipType::DerivesFrom
}

/// Whether the entity at `ei` of `m` has a dependency relationship at `ki`.
pub open spec fn dep_at(m: Seq<EntityView>, ei: int, ki: int) -> bool {
    0 <= ei < m.len() && 0 <= ki < m[ei].relationships.len() && is_dependency(
        m[ei].relationships[ki].rel_type,
    )
}

/// Whether some entity with id `a` has a `requires` or `derives_from`
/// relationship to `b`.
pub open spec fn dep_edge(m: Seq<EntityView>, a: Seq<char>, b: Seq<char>) -> bool {
    exists|ei: int, ki: int|
        #![trigger m[ei].relationships[ki]]
        dep_at(m, ei, ki) && m[ei].id == a && m[ei].relationships[ki].target_id == b
}

/// The dependency edges among the relationships before position `(i, k)`.
pub open spec fn dep_edge_upto(m: Seq<EntityView>, i: int, k: int, a: Seq<char>, b: Seq<char>) -> bool {
    exists|ei: int, ki: int|
        #![trigger m[ei].relationships[ki]]
        dep_at(m, ei, ki) && (ei < i || (ei == i && ki < k)) && m[ei].id == a
            && m[ei].relationships[ki].target_id == b
}

/// Whether the ids `c` form a dependency cycle.
pub open spec fn dep_cycle(m: Seq<EntityView>, c: Seq<Seq<char>>) -> bool {
    &&& c.len() >= 1
    &&& forall|j: int| 0 <= j < c.len() - 1 ==> dep_edge(m, #[trigger] c[j], c[j + 1])
    &&& dep_edge(m, c.last(), c[0])
}

/// Whether no ids form a dependency cycle.
pub open spec fn dependency_acyclic(m: Seq<EntityView>) -> bool {
    forall|c: Seq<Seq<char>>| !dep_cycle(m, c)
}

/// Byte-wise lexicographic order, which is the order of `str`.
pub open spec fn bytes_lt(a: Seq<u8>, b: Seq<u8>) -> bool
    decreases a.len(),
{
    if b.len() == 0 {
        false
    } else if a.len() == 0 {
        true
    } else if a[0] != b[0] {
        a[0] < b[0]
    } else {
        bytes_lt(a.drop_first(), b.drop_first())
    }
}

pub open spec fn str_lt(a: Seq<char>, b: Seq<char>) -> bool {
    bytes_lt(vstd::utf8::encode_utf8(a), vstd::utf8::encode_utf8(b))
}

/// The index of the first smallest of `c[..n]`.
pub open spec fn min_index(c: Seq<Seq<char>>, n: int) -> int
    decreases n,
{
    if n <= 1 {
        0
    } else {
        let b = min_index(c, n - 1);
        if str_lt(c[n - 1], c[b]) {
            n - 1
        } else {
            b
        }
    }
}

/// `c` rotated so that its first smallest id comes first.
pub open spec fn rotate_to_min(c: Seq<Seq<char>>) -> Seq<Seq<char>> {
    let mi = min_index(c, c.len() as int);
    c.subrange(mi, c.len() as int) + c.subrange(0, mi)
}

/// Ids joined with `" → "`.
pub open spec fn join_arrows(c: Seq<Seq<char>>) -> Seq<char>
    decreases c.len(),
{
    if c.len() == 0 {
        seq![]
    } else if c.len() == 1 {
        c[0]
    } else {
        join_arrows(c.drop_last()) + " → "@ + c.last()
    }
}

/// The message for a cycle: its ids from the smallest on, joined with
/// arrows, and back to the smallest.
pub open spec fn cycle_message(c: Seq<Seq<char>>) -> Seq<char> {
    join_arrows(rotate_to_min(c)) + " → "@ + rotate_to_min(c)[0]
}

pub open spec fn names_view(v: Seq<String>) -> Seq<Seq<char>> {
    v.map_values(|s: String| s@)
}

pub(crate) fn bytes_lt_exec(a: &[u8], b: &[u8]) -> (r: bool)
    ensures
        r == bytes_lt(a@, b@),
{
    let mut i: usize = 0;
    while i < a.len() && i < b.len() && a[i] == b[i]
        invariant
            i <= a@.len(),
            i <= b@.len(),
            bytes_lt(a@, b@) == bytes_lt(a@.subrange(i as int, a@.len() as int), b@.subrange(i as int, b@.len() as int)),
        decreases a@.len() - i,
    {
        proof {
            let sa = a@.subrange(i as int, a@.len() as int);
            let sb = b@.subrange(i as int, b@.len() as int);
            assert(sa.drop_first() =~= a@.subrange(i + 1, a@.len() as int));
            assert(sb.drop_first() =~= b@.subrange(i + 1, b@.len() as int));
        }
        i = i + 1;
    }
    if i >= b.len() {
        false
    } else if i >= a.len() {
        true
    } else {
        a[i] < b[i]
    }
}

/// The message for the cycle `names` (in path order).
fn cycle_message_exec(names: &Vec<String>) -> (s: String)
    requires
        names@.len() >= 1,
    ensures
        s@ == cycle_message(names_view(names@)),
{
    let ghost c = names_view(names@);
    let n = names.len();
    let mut mi: usize = 0;
    let mut j: usize = 1;
    while j < n
        invariant
            c == names_view(names@),
            n == c.len(),
            1 <= j <= n,
            mi as int == min_index(c, j as int),
            mi < j,
        decreases n - j,
    {
        if bytes_lt_exec(names[j].as_str().as_bytes(), names[mi].as_str().as_bytes()) {
            mi = j;
        }
        j = j + 1;
    }
    let ghost rot = rotate_to_min(c);
    assert(rot.len() == n);
    let mut s = String::new();
    let mut k: usize = 0;
    while k < n
        invariant
            c == names_view(names@),
            n == c.len(),
            mi < n,
            rot == c.subrange(mi as int, n as int) + c.subrange(0, mi as int),
            rot.len() == n,
            k <= n,
            s@ == join_arrows(rot.take(k as int)),
        decreases n - k,
    {
        let idx = if k < n - mi {
            mi + k
        } else {
            k - (n - mi)
        };
        assert(rot[k as int] == c[idx as int]);
        assert(rot.take(k + 1).drop_last() =~= rot.take(k as int));
        if k > 0 {
            s.append(" → ");
        } else {
            assert(s@ =~= seq![]);
        }
        s.append(names[idx].as_str());
        assert(s@ =~= join_arrows(rot.take(k + 1)));
        k = k + 1;
    }
    assert(rot.take(n as int) =~= rot);
    s.append(" → ");
    assert(rot[0] == c[mi as int]);
    s.append(names[mi].as_str());
    s
}

/// Whether `ids` holds distinct ids.
pub open spec fn distinct_names(ids: Seq<Seq<char>>) -> bool {
    forall|x: int, y: int| 0 <= x < ids.len() && 0 <= y < ids.len() && x != y ==> ids[x] != ids[y]
}

/// Whether the graph `g` over the distinct names `nm` has exactly the edges
/// of the relation `p`, and every name that `p` relates is in `nm`.
pub open spec fn graph_matches(
    g: Seq<Seq<usize>>,
    nm: Seq<Seq<char>>,
    p: spec_fn(Seq<char>, Seq<char>) -> bool,
) -> bool {
    &&& g.len() == nm.len()
    &&& adj_wf(g)
    &&& distinct_names(nm)
    &&& forall|x: int, y: int|
        #![trigger edge(g, x, y)]
        #![trigger p(nm[x], nm[y])]
        0 <= x < nm.len() && 0 <= y < nm.len() ==> (edge(g, x, y) <==> p(nm[x], nm[y]))
    &&& forall|a: Seq<char>, b: Seq<char>| #[trigger] p(a, b) ==> nm.contains(a) && nm.contains(b)
}

proof fn lemma_graph_new_name(
    g: Seq<Seq<usize>>,
    nm: Seq<Seq<char>>,
    p: spec_fn(Seq<char>, Seq<char>) -> bool,
    s: Seq<char>,
)
    requires
        graph_matches(g, nm, p),
        !nm.contains(s),
    ensures
        graph_matches(g.push(seq![]), nm.push(s), p),
{
    let g2 = g.push(seq![]);
    let nm2 = nm.push(s);
    let n = nm.len() as int;
    assert forall|x: int, q: int| 0 <= x < g2.len() && 0 <= q < g2[x].len() implies (#[trigger] g2[x][q])
        < g2.len() by {
        assert(g2[x] == g[x]);
    }
    assert forall|x: int, y: int| 0 <= x < nm2.len() && 0 <= y < nm2.len() implies (edge(g2, x, y)
        <==> p(nm2[x], nm2[y])) by {
        if x == n {
            if p(nm2[x], nm2[y]) {
                assert(nm.contains(s));
            }
        } else if y == n {
            if edge(g2, x, y) {
                let q = choose|q: int| 0 <= q < g2[x].len() && g2[x][q] == y;
                assert(g[x][q] < g.len());
            }
            if p(nm2[x], nm2[y]) {
                assert(nm.contains(s));
            }
        } else {
            assert(g2[x] == g[x]);
            assert(nm2[x] == nm[x] && nm2[y] == nm[y]);
            if edge(g, x, y) {
                let q = choose|q: int| 0 <= q < g[x].len() && g[x][q] == y;
                assert(g2[x][q] == y);
            }
        }
    }
    assert forall|a: Seq<char>, b: Seq<char>| p(a, b) implies nm2.contains(a) && nm2.contains(b) by {
        let ka = choose|k: int| 0 <= k < nm.len() && nm[k] == a;
        let kb = choose|k: int| 0 <= k < nm.len() && nm[k] == b;
        assert(nm2[ka] == a);
        assert(nm2[kb] == b);
    }
}

proof fn lemma_graph_add_edge(
    g: Seq<Seq<usize>>,
    nm: Seq<Seq<char>>,
    p: spec_fn(Seq<char>, Seq<char>) -> bool,
    p2: spec_fn(Seq<char>, Seq<char>) -> bool,
    u: usize,
    v: usize,
)
    requires
        graph_matches(g, nm, p),
        u < nm.len(),
        v < nm.len(),
        forall|a: Seq<char>, b: Seq<char>| #[trigger] p2(a, b) == (p(a, b) || (a == nm[u as int] && b == nm[v as int])),
    ensures
        graph_matches(g.update(u as int, g[u as int].push(v)), nm, p2),
{
    let u = u as int;
    let g2 = g.update(u, g[u].push(v));
    assert forall|x: int, q: int| 0 <= x < g2.len() && 0 <= q < g2[x].len() implies (#[trigger] g2[x][q])
        < g2.len() by {
        if x == u && q == g[u].len() {
        } else {
            assert(g2[x][q] == g[x][q]);
        }
    }
    assert forall|x: int, y: int| 0 <= x < nm.len() && 0 <= y < nm.len() implies (edge(g2, x, y)
        <==> p2(nm[x], nm[y])) by {
        if edge(g2, x, y) {
            let q = choose|q: int| 0 <= q < g2[x].len() && g2[x][q] == y;
            if !(x == u && q == g[u].len()) {
                assert(g[x][q] == y);
                assert(edge(g, x, y));
            }
        }
        if p2(nm[x], nm[y]) {
            if p(nm[x], nm[y]) {
                assert(edge(g, x, y));
                let q = choose|q: int| 0 <= q < g[x].len() && g[x][q] == y;
                assert(g2[x][q] == y);
            } else {
                assert(x == u) by {
                    if x != u {
                        assert(nm[x] != nm[u]);
                    }
                }
                assert(y == v) by {
                    if y != v {
                        assert(nm[y] != nm[v as int]);
                    }
                }
                assert(g2[x][g[u].len() as int] == y);
            }
        }
    }
    assert forall|a: Seq<char>, b: Seq<char>| p2(a, b) implies nm.contains(a) && nm.contains(b) by {
        if !p(a, b) {
            assert(nm[u] == a);
            assert(nm[v as int] == b);
        }
    }
}

/// The position of `s` in `ids`, added at the end if it is not there yet.
fn intern(ids: &mut Vec<String>, adj: &mut Vec<Vec<usize>>, s: &String) -> (r: usize)
    requires
        old(adj)@.len() == old(ids)@.len(),
    ensures
        final(adj)@.len() == final(ids)@.len(),
        r < final(ids)@.len(),
        names_view(final(ids)@)[r as int] == s@,
        names_view(old(ids)@).contains(s@) ==> names_view(final(ids)@) == names_view(old(ids)@)
            && adj_view(final(adj)@) == adj_view(old(adj)@),
        !names_view(old(ids)@).contains(s@) ==> names_view(final(ids)@) == names_view(old(ids)@).push(
            s@,
        ) && adj_view(final(adj)@) == adj_view(old(adj)@).push(seq![]),
{
    let ghost names = names_view(ids@);
    let mut i: usize = 0;
    while i < ids.len()
        invariant
            names == names_view(ids@),
            adj@.len() == ids@.len(),
            i <= ids@.len(),
            forall|k: int| 0 <= k < i ==> ids@[k]@ != s@,
        decreases ids@.len() - i,
    {
        if ids[i] == *s {
            assert(names[i as int] == s@);
            return i;
        }
        i = i + 1;
    }
    assert(!names.contains(s@)) by {
        if names.contains(s@) {
            let k = choose|k: int| 0 <= k < names.len() && names[k] == s@;
            assert(ids@[k]@ != s@);
        }
    }
    ids.push(s.clone());
    let empty: Vec<usize> = Vec::new();
    assert(empty@ =~= Seq::<usize>::empty());
    adj.push(empty);
    proof {
        assert(adj_view(adj@) =~= adj_view(old(adj)@).push(seq![]));
        assert(names_view(ids@) =~= names.push(s@));
    }
    ids.len() - 1
}

/// Adds `v` to the neighbours of `u`.
fn add_edge(adj: &mut Vec<Vec<usize>>, u: usize, v: usize)
    requires
        u < old(adj)@.len(),
    ensures
        final(adj)@.len() == old(adj)@.len(),
        adj_view(final(adj)@) == adj_view(old(adj)@).update(u as int, adj_view(old(adj)@)[u as int].push(v)),
{
    let mut list = adj[u].clone();
    assert(list@ =~= adj@[u as int]@);
    list.push(v);
    adj.set(u, list);
    assert(adj_view(adj@) =~= adj_view(old(adj)@).update(u as int, adj_view(old(adj)@)[u as int].push(v)));
}

pub open spec fn upto_fn(m: Seq<EntityView>, i: int, k: int) -> spec_fn(Seq<char>, Seq<char>) -> bool {
    |a: Seq<char>, b: Seq<char>| dep_edge_upto(m, i, k, a, b)
}

pub open spec fn dep_fn(m: Seq<EntityView>) -> spec_fn(Seq<char>, Seq<char>) -> bool {
    |a: Seq<char>, b: Seq<char>| dep_edge(m, a, b)
}

proof fn lemma_graph_same_relation(
    g: Seq<Seq<usize>>,
    nm: Seq<Seq<char>>,
    p: spec_fn(Seq<char>, Seq<char>) -> bool,
    p2: spec_fn(Seq<char>, Seq<char>) -> bool,
)
    requires
        graph_matches(g, nm, p),
        forall|a: Seq<char>, b: Seq<char>| #[trigger] p2(a, b) == p(a, b),
    ensures
        graph_matches(g, nm, p2),
{
}

/// A dependency graph over names: the names, and the adjacency lists of
/// their positions.
pub type DepGraph = (Seq<Seq<char>>, Seq<Seq<usize>>);

/// The graph once `s` has a node: a new name goes last, with no
/// neighbours.
pub open spec fn intern_spec(g: DepGraph, s: Seq<char>) -> DepGraph {
    if g.0.contains(s) {
        g
    } else {
        (g.0.push(s), g.1.push(seq![]))
    }
}

/// The graph after the relationships `rels` of the entity `id`, in order:
/// each `requires` or `derives_from` relationship appends its target (a
/// new target gets a node first) to the list of `id`.
pub open spec fn dep_graph_rels(g: DepGraph, id: Seq<char>, rels: Seq<RelationshipView>) -> DepGraph
    decreases rels.len(),
{
    if rels.len() == 0 {
        g
    } else {
        let g1 = dep_graph_rels(g, id, rels.drop_last());
        let r = rels.last();
        if is_dependency(r.rel_type) {
            let g2 = intern_spec(g1, r.target_id);
            let u = first_pos(g2.0, id);
            (g2.0, g2.1.update(u, g2.1[u].push(first_pos(g2.0, r.target_id) as usize)))
        } else {
            g1
        }
    }
}

/// The dependency graph of a module, entity by entity: names in order of
/// first mention.
pub open spec fn dep_graph_of(m: Seq<EntityView>) -> DepGraph
    decreases m.len(),
{
    if m.len() == 0 {
        (seq![], seq![])
    } else {
        let e = m.last();
        dep_graph_rels(intern_spec(dep_graph_of(m.drop_last()), e.id), e.id, e.relationships)
    }
}

proof fn lemma_first_pos_distinct(nm: Seq<Seq<char>>, i: int)
    requires
        distinct_names(nm),
        0 <= i < nm.len(),
    ensures
        first_pos(nm, nm[i]) == i,
{
    lemma_first_pos(nm, nm[i], i);
}

/// The dependency graph of `module` over the positions of its ids: every
/// entity id and every target of a `requires` or `derives_from`
/// relationship occurs once in `ids`, and `v` is a neighbour of `u` exactly
/// when `ids[u]` depends on `ids[v]`.
pub fn dependency_graph(module: &Module) -> (r: (Vec<String>, Vec<Vec<usize>>))
    ensures
        graph_matches(adj_view(r.1@), names_view(r.0@), dep_fn(module@)),
        (names_view(r.0@), adj_view(r.1@)) == dep_graph_of(module@),
{
    let ghost m = module@;
    let mut ids: Vec<String> = Vec::new();
    let mut adj: Vec<Vec<usize>> = Vec::new();
    proof {
        assert(names_view(ids@) =~= Seq::<Seq<char>>::empty());
        assert(adj_view(adj@) =~= Seq::<Seq<usize>>::empty());
        assert forall|a: Seq<char>, b: Seq<char>| !#[trigger] dep_edge_upto(m, 0, 0, a, b) by {
        }
    }
    let mut i: usize = 0;
    while i < module.entities.len()
        invariant
            m == module@,
            i <= m.len(),
            adj@.len() == ids@.len(),
            graph_matches(adj_view(adj@), names_view(ids@), upto_fn(m, i as int, 0)),
            (names_view(ids@), adj_view(adj@)) == dep_graph_of(m.take(i as int)),
        decreases m.len() - i,
    {
        let e = &module.entities[i];
        let ghost g0 = adj_view(adj@);
        let ghost nm0 = names_view(ids@);
        let ghost start = intern_spec(dep_graph_of(m.take(i as int)), m[i as int].id);
        proof {
            assert(m.take(i + 1).drop_last() =~= m.take(i as int));
        }
        let u = intern(&mut ids, &mut adj, &e.id);
        proof {
            assert((names_view(ids@), adj_view(adj@)) == start);
            assert(m[i as int].relationships.take(0) =~= Seq::<RelationshipView>::empty());
        }
        proof {
            if !nm0.contains(e@.id) {
                lemma_graph_new_name(g0, nm0, upto_fn(m, i as int, 0), e@.id);
            }
            lemma_graph_same_relation(
                adj_view(adj@),
                names_view(ids@),
                upto_fn(m, i as int, 0),
                upto_fn(m, i as int, 0),
            );
        }
        let mut k: usize = 0;
        while k < e.relationships.len()
            invariant
                m == module@,
                i < m.len(),
                e@ == m[i as int],
                k <= m[i as int].relationships.len(),
                adj@.len() == ids@.len(),
                u < ids@.len(),
                names_view(ids@)[u as int] == e@.id,
                graph_matches(adj_view(adj@), names_view(ids@), upto_fn(m, i as int, k as int)),
                start == intern_spec(dep_graph_of(m.take(i as int)), m[i as int].id),
                (names_view(ids@), adj_view(adj@)) == dep_graph_rels(start, e@.id, e@.relationships.take(k as int)),
            decreases m[i as int].relationships.len() - k,
        {
            let rel = &e.relationships[k];
            assert(m[i as int].relationships[k as int] == rel@);
            proof {
                assert(e@.relationships.take(k + 1).drop_last() =~= e@.relationships.take(k as int));
                assert(e@.relationships.take(k + 1).last() == rel@);
            }
            if rel.rel_type == RelationshipType::Requires || rel.rel_type
                == RelationshipType::DerivesFrom {
                let ghost g1 = adj_view(adj@);
                let ghost nm1 = names_view(ids@);
                let v = intern(&mut ids, &mut adj, &rel.target_id);
                proof {
                    if !nm1.contains(rel@.target_id) {
                        lemma_graph_new_name(g1, nm1, upto_fn(m, i as int, k as int), rel@.target_id);
                        assert(names_view(ids@)[u as int] == nm1[u as int]);
                    }
                }
                let ghost g2 = adj_view(adj@);
                let ghost nm2 = names_view(ids@);
                proof {
                    lemma_first_pos_distinct(nm2, u as int);
                    lemma_first_pos_distinct(nm2, v as int);
                    assert((nm2, g2) == intern_spec(dep_graph_rels(start, e@.id, e@.relationships.take(k as int)), rel@.target_id));
                }
                add_edge(&mut adj, u, v);
                proof {
                    assert(dep_at(m, i as int, k as int));
                    assert forall|a: Seq<char>, b: Seq<char>|
                        #[trigger] dep_edge_upto(m, i as int, k + 1, a, b) == (dep_edge_upto(m, i as int, k as int, a, b) || (a
                            == nm2[u as int] && b == nm2[v as int])) by {
                        if dep_edge_upto(m, i as int, k + 1, a, b) && !dep_edge_upto(m, i as int, k as int, a, b) {
                            let (ei, ki) = choose|ei: int, ki: int|
                                #![trigger m[ei].relationships[ki]]
                                dep_at(m, ei, ki) && (ei < i || (ei == i && ki < k + 1)) && m[ei].id == a
                                    && m[ei].relationships[ki].target_id == b;
                            assert(ei == i && ki == k);
                        }
                        if a == nm2[u as int] && b == nm2[v as int] {
                            assert(m[i as int].relationships[k as int] == m[i as int].relationships[k as int]);
                        }
                    }
                    lemma_graph_add_edge(
                        g2,
                        nm2,
                        upto_fn(m, i as int, k as int),
                        upto_fn(m, i as int, k + 1),
                        u,
                        v,
                    );
                }
            } else {
                proof {
                    assert(!dep_at(m, i as int, k as int));
                    assert forall|a: Seq<char>, b: Seq<char>|
                        #[trigger] dep_edge_upto(m, i as int, k + 1, a, b) == dep_edge_upto(m, i as int, k as int, a, b) by {
                        if dep_edge_upto(m, i as int, k + 1, a, b) {
                            let (ei, ki) = choose|ei: int, ki: int|
                                #![trigger m[ei].relationships[ki]]
                                dep_at(m, ei, ki) && (ei < i || (ei == i && ki < k + 1)) && m[ei].id == a
                                    && m[ei].relationships[ki].target_id == b;
                            assert(!(ei == i && ki == k));
                        }
                    }
                    lemma_graph_same_relation(
                        adj_view(adj@),
                        names_view(ids@),
                        upto_fn(m, i as int, k as int),
                        upto_fn(m, i as int, k + 1),
                    );
                }
            }
            k = k + 1;
        }
        proof {
            assert forall|a: Seq<char>, b: Seq<char>|
                #[trigger] dep_edge_upto(m, i + 1, 0, a, b) == dep_edge_upto(m, i as int, k as int, a, b) by {
                if dep_edge_upto(m, i + 1, 0, a, b) {
                    let (ei, ki) = choose|ei: int, ki: int|
                        #![trigger m[ei].relationships[ki]]
                        dep_at(m, ei, ki) && (ei < i + 1 || (ei == i + 1 && ki < 0)) && m[ei].id == a
                            && m[ei].relationships[ki].target_id == b;
                    assert(m[ei].relationships[ki] == m[ei].relationships[ki]);
                }
                if dep_edge_upto(m, i as int, k as int, a, b) {
                    let (ei, ki) = choose|ei: int, ki: int|
                        #![trigger m[ei].relationships[ki]]
                        dep_at(m, ei, ki) && (ei < i || (ei == i && ki < k)) && m[ei].id == a
                            && m[ei].relationships[ki].target_id == b;
                    assert(m[ei].relationships[ki] == m[ei].relationships[ki]);
                }
            }
            lemma_graph_same_relation(
                adj_view(adj@),
                names_view(ids@),
                upto_fn(m, i as int, k as int),
                upto_fn(m, i + 1, 0),
            );
        }
        i = i + 1;
    }
    proof {
        assert forall|a: Seq<char>, b: Seq<char>|
            #[trigger] dep_edge(m, a, b) == dep_edge_upto(m, m.len() as int, 0, a, b) by {
            if dep_edge(m, a, b) {
                let (ei, ki) = choose|ei: int, ki: int|
                    #![trigger m[ei].relationships[ki]]
                    dep_at(m, ei, ki) && m[ei].id == a && m[ei].relationships[ki].target_id == b;
                assert(m[ei].relationships[ki] == m[ei].relationships[ki]);
            }
        }
        lemma_graph_same_relation(
            adj_view(adj@),
            names_view(ids@),
            upto_fn(m, m.len() as int, 0),
            dep_fn(m),
        );
    }
    (ids, adj)
}

/// The ids of the nodes of an index cycle.
pub open spec fn cycle_names(nm: Seq<Seq<char>>, c: Seq<usize>) -> Seq<Seq<char>> {
    c.map_values(|x: usize| nm[x as int])
}

proof fn lemma_index_cycle_is_dep_cycle(
    g: Seq<Seq<usize>>,
    nm: Seq<Seq<char>>,
    m: Seq<EntityView>,
    c: Seq<usize>,
)
    requires
        graph_matches(g, nm, dep_fn(m)),
        is_cycle(g, c),
    ensures
        dep_cycle(m, cycle_names(nm, c)),
{
    let names = cycle_names(nm, c);
    assert forall|j: int| 0 <= j < names.len() - 1 implies dep_edge(m, #[trigger] names[j], names[j + 1]) by {
        assert(edge(g, c[j] as int, c[j + 1] as int));
        let q = choose|q: int| 0 <= q < g[c[j] as int].len() && g[c[j] as int][q] == c[j + 1];
        assert(g[c[j] as int][q] < g.len());
    }
    assert(edge(g, c.last() as int, c[0] as int));
    let q = choose|q: int| 0 <= q < g[c.last() as int].len() && g[c.last() as int][q] == c[0];
    assert(g[c.last() as int][q] < g.len());
    assert(names.last() == nm[c.last() as int]);
}

proof fn lemma_dep_cycle_gives_index_cycle(
    g: Seq<Seq<usize>>,
    nm: Seq<Seq<char>>,
    m: Seq<EntityView>,
    c: Seq<Seq<char>>,
)
    requires
        graph_matches(g, nm, dep_fn(m)),
        dep_cycle(m, c),
        nm.len() <= usize::MAX,
    ensures
        !acyclic(g),
{
    assert forall|j: int| 0 <= j < c.len() implies nm.contains(#[trigger] c[j]) by {
        if j < c.len() - 1 {
            assert(dep_fn(m)(c[j], c[j + 1]));
        } else {
            assert(dep_fn(m)(c.last(), c[0]));
        }
    }
    let idx = Seq::new(
        c.len(),
        |j: int| (choose|k: int| 0 <= k < nm.len() && nm[k] == c[j]) as usize,
    );
    assert forall|j: int| 0 <= j < c.len() implies 0 <= #[trigger] idx[j] < nm.len() && nm[idx[j] as int] == c[j] by {
        assert(nm.contains(c[j]));
        let k = choose|k: int| 0 <= k < nm.len() && nm[k] == c[j];
        assert(idx[j] == k as usize);
    }
    assert forall|j: int| 0 <= j < idx.len() - 1 implies edge(g, #[trigger] idx[j] as int, idx[j + 1] as int) by {
        assert(dep_fn(m)(c[j], c[j + 1]));
        assert(nm[idx[j] as int] == c[j]);
        assert(nm[idx[j + 1] as int] == c[j + 1]);
    }
    assert(dep_fn(m)(c.last(), c[0]));
    assert(nm[idx.last() as int] == c.last());
    assert(nm[idx[0] as int] == c[0]);
    assert(edge(g, idx.last() as int, idx[0] as int));
    assert(is_cycle(g, idx));
}

/// The errors of the dependency-cycle check: one per cycle that the
/// depth-first search of the dependency graph reports, in order, with the
/// message of the cycle's ids.
pub open spec fn dag_errors(m: Seq<EntityView>) -> Seq<ValidationErrorView> {
    let dg = dep_graph_of(m);
    all_cycles(dg.1).map_values(
        |c: Seq<usize>| ValidationErrorView::Cycle { message: cycle_message(cycle_names(dg.0, c)) },
    )
}

/// Whether `e` reports the dependency cycle `c` of `m`, whose ids are
/// pairwise distinct.
pub open spec fn reports_cycle(m: Seq<EntityView>, c: Seq<Seq<char>>, e: ValidationErrorView) -> bool {
    &&& dep_cycle(m, c)
    &&& c.no_duplicates()
    &&& e == (ValidationErrorView::Cycle { message: cycle_message(c) })
}

/// The ids of a cycle of node positions.
fn cycle_ids(ids: &Vec<String>, adj: &Vec<Vec<usize>>, cycle: &Vec<usize>, m: Ghost<Seq<EntityView>>) -> (names: Vec<String>)
    requires
        graph_matches(adj_view(adj@), names_view(ids@), dep_fn(m@)),
        is_cycle(adj_view(adj@), cycle@),
    ensures
        names_view(names@) == cycle_names(names_view(ids@), cycle@),
{
    let ghost g = adj_view(adj@);
    let ghost nm = names_view(ids@);
    let mut names: Vec<String> = Vec::new();
    let mut j: usize = 0;
    while j < cycle.len()
        invariant
            g == adj_view(adj@),
            nm == names_view(ids@),
            graph_matches(g, nm, dep_fn(m@)),
            is_cycle(g, cycle@),
            j <= cycle@.len(),
            names_view(names@) == cycle_names(nm, cycle@).take(j as int),
        decreases cycle@.len() - j,
    {
        let x = cycle[j];
        proof {
            if j < cycle@.len() - 1 {
                assert(edge(g, cycle@[j as int] as int, cycle@[j + 1] as int));
            } else {
                assert(edge(g, cycle@.last() as int, cycle@[0] as int));
            }
        }
        let ghost before = names_view(names@);
        names.push(ids[x].clone());
        proof {
            assert(cycle_names(nm, cycle@)[j as int] == nm[x as int]);
            assert(names_view(names@) =~= before.push(nm[x as int]));
        }
        j = j + 1;
        assert(names_view(names@) =~= cycle_names(nm, cycle@).take(j as int));
    }
    assert(cycle_names(nm, cycle@).take(cycle@.len() as int) =~= cycle_names(nm, cycle@));
    names
}

/// The ids of each cycle that the dependency-cycle check reports, in the
/// order of its errors.
pub fn dag_cycles(module: &Module) -> (r: Vec<Vec<String>>)
    ensures
        r@.len() == dag_errors(module@).len(),
        forall|k: int| 0 <= k < r@.len() ==> names_view((#[trigger] r@[k])@) == dag_cycle(module@, k),
{
    let ghost m = module@;
    let (ids, adj) = dependency_graph(module);
    let cycles = find_cycles(&adj);
    let mut r: Vec<Vec<String>> = Vec::new();
    let mut i: usize = 0;
    while i < cycles.len()
        invariant
            (names_view(ids@), adj_view(adj@)) == dep_graph_of(m),
            graph_matches(adj_view(adj@), names_view(ids@), dep_fn(m)),
            forall|k: int| 0 <= k < cycles@.len() ==> is_cycle(adj_view(adj@), #[trigger] cycles@[k]@),
            cycles_view(cycles@) == all_cycles(adj_view(adj@)),
            i <= cycles@.len(),
            r@.len() == i,
            forall|k: int| 0 <= k < i ==> names_view((#[trigger] r@[k])@) == dag_cycle(m, k),
        decreases cycles@.len() - i,
    {
        let names = cycle_ids(&ids, &adj, &cycles[i], Ghost(m));
        assert(cycles_view(cycles@)[i as int] == cycles@[i as int]@);
        r.push(names);
        i = i + 1;
    }
    r
}

/// The ids of the `k`-th cycle that the dependency-cycle check reports.
pub open spec fn dag_cycle(m: Seq<EntityView>, k: int) -> Seq<Seq<char>> {
    cycle_names(dep_graph_of(m).0, all_cycles(dep_graph_of(m).1)[k])
}

/// 5. DAG validation: no cycles through `requires` / `derives_from`.
///
/// Each error is a [`ValidationError::Cycle`] whose message is the
/// [`cycle_message`] of a dependency cycle of the module, and there is none
/// exactly when the module has no dependency cycle.
pub fn check_dag(module: &Module) -> (r: Vec<ValidationError>)
    ensures
        errors_view(r@) == dag_errors(module@),
        forall|k: int| 0 <= k < r@.len() ==> reports_cycle(module@, dag_cycle(module@, k), (#[trigger] r@[k])@),
        r@.len() == 0 <==> dependency_acyclic(module@),
{
    let ghost m = module@;
    let (ids, adj) = dependency_graph(module);
    let ghost g = adj_view(adj@);
    let ghost nm = names_view(ids@);
    let n_ids = ids.len();
    let cycles = find_cycles(&adj);
    let mut errors: Vec<ValidationError> = Vec::new();
    let mut i: usize = 0;
    while i < cycles.len()
        invariant
            g == adj_view(adj@),
            nm == names_view(ids@),
            n_ids == ids@.len(),
            graph_matches(g, nm, dep_fn(m)),
            forall|k: int| 0 <= k < cycles@.len() ==> is_cycle(g, #[trigger] cycles@[k]@),
            i <= cycles@.len(),
            errors@.len() == i,
            forall|k: int| 0 <= k < i ==> reports_cycle(m, cycle_names(nm, cycles@[k]@), (#[trigger] errors@[k])@),
            forall|k: int| 0 <= k < cycles@.len() ==> (#[trigger] cycles@[k])@.no_duplicates(),
            (nm, g) == dep_graph_of(m),
            cycles_view(cycles@) == all_cycles(g),
            errors_view(errors@) == dag_errors(m).take(i as int),
        decreases cycles@.len() - i,
    {
        let cycle = &cycles[i];
        assert(is_cycle(g, cycle@));
        let names = cycle_ids(&ids, &adj, cycle, Ghost(m));
        proof {
            lemma_index_cycle_is_dep_cycle(g, nm, m, cycle@);
        }
        let message = cycle_message_exec(&names);
        let ghost old_errors = errors@;
        errors.push(ValidationError::Cycle { message });
        proof {
            let cn = cycle_names(nm, cycle@);
            assert(cn.no_duplicates()) by {
                assert(cycle@.no_duplicates());
                assert forall|a: int, b: int| 0 <= a < b < cn.len() implies cn[a] != cn[b] by {
                    assert(cycle@[a] != cycle@[b]);
                    assert(edge(g, cycle@[a] as int, cycle@[a] as int) || true);
                    assert(cycle@[a] < nm.len() && cycle@[b] < nm.len()) by {
                        if a < cycle@.len() - 1 {
                            assert(edge(g, cycle@[a] as int, cycle@[a + 1] as int));
                        } else {
                            assert(edge(g, cycle@.last() as int, cycle@[0] as int));
                        }
                        if b < cycle@.len() - 1 {
                            assert(edge(g, cycle@[b] as int, cycle@[b + 1] as int));
                        } else {
                            assert(edge(g, cycle@.last() as int, cycle@[0] as int));
                        }
                    }
                }
            }
            assert forall|k: int| 0 <= k < i + 1 implies reports_cycle(m, cycle_names(nm, cycles@[k]@), (#[trigger] errors@[k])@) by {
                if k < i {
                    assert(errors@[k] == old_errors[k]);
                } else {
                    assert(reports_cycle(m, cn, errors@[k]@));
                }
            }
            assert(all_cycles(g)[i as int] == cycle@);
            assert(errors_view(errors@) =~= dag_errors(m).take(i + 1));
        }
        i = i + 1;
    }
    assert(errors@.len() == cycles@.len());
    proof {
        assert(dag_errors(m).take(cycles@.len() as int) =~= dag_errors(m));
        if cycles@.len() == 0 {
            assert(nm.len() == ids@.len());
            assert(nm.len() == n_ids);
            assert forall|c: Seq<Seq<char>>| !dep_cycle(m, c) by {
                if dep_cycle(m, c) {
                    lemma_dep_cycle_gives_index_cycle(g, nm, m, c);
                }
            }
        } else {
            lemma_index_cycle_is_dep_cycle(g, nm, m, cycles@[0]@);
        }
    }
    assert forall|k: int| 0 <= k < errors@.len() implies reports_cycle(m, dag_cycle(m, k), (#[trigger] errors@[k])@) by {
        assert(cycles_view(cycles@)[k] == cycles@[k]@);
    }
    errors
}

} // verus!
