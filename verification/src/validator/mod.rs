//! The validator: checks a parsed module against the compiler's rules.
pub mod dag;
pub mod error;
pub mod laws;
pub mod order;
pub mod rules;

use crate::error::{SourceLocation, SourceLocationView, VdlError, VdlErrorView};
use crate::graph::node::contains_name;
use crate::parser::ast::{EntityView, Module};
use crate::graph::node::names_of;
use crate::validator::error::{errors_view, to_vdl_error_spec, ValidationError, ValidationErrorView};
use crate::validator::rules::{
    append_errors, check_dag, check_evidence_completeness, check_evidence_presence,
    check_reference_integrity, check_type_constraints, check_version_format, dag_cycle, dag_cycles,
    dag_errors, dependency_acyclic, evidence_completeness_errors, evidence_presence_errors, names_view,
    reference_integrity_errors, type_constraint_errors, version_format_errors,
};
use crate::codegen::search::{join, join_strings};
use crate::error::location_text;
use crate::parser::ast::strings_view;
use vstd::prelude::*;

verus! {

/// The errors of the rules that run before the cycle check, in order:
/// type constraints, reference integrity, evidence presence, evidence
/// completeness.
pub open spec fn structural_errors(m: Seq<EntityView>) -> Seq<ValidationErrorView> {
    type_constraint_errors(m) + reference_integrity_errors(m) + evidence_presence_errors(m)
        + evidence_completeness_errors(m)
}

/// Whether a module satisfies every rule.
pub open spec fn valid_module(m: Seq<EntityView>) -> bool {
    &&& structural_errors(m).len() == 0
    &&& dependency_acyclic(m)
    &&& version_format_errors(m).len() == 0
}

/// Where a dependency cycle is reported: at the first entity of the
/// module, from position `i` on, whose id is on the cycle.
pub open spec fn cycle_location_from(m: Seq<EntityView>, c: Seq<Seq<char>>, i: int) -> SourceLocationView
    decreases m.len() - i,
{
    if i < 0 || i >= m.len() {
        SourceLocationView { file: seq![], line: 0, column: 0 }
    } else if c.contains(m[i].id) {
        m[i].location
    } else {
        cycle_location_from(m, c, i + 1)
    }
}

/// Where a dependency cycle of `m` is reported: at the first entity whose
/// id is on it.
pub open spec fn cycle_location(m: Seq<EntityView>, c: Seq<Seq<char>>) -> SourceLocationView {
    cycle_location_from(m, c, 0)
}

/// The location with which a rule's error that has none of its own is
/// built; only cycles lack one, and they are reported at their first entity.
pub open spec fn no_location() -> SourceLocationView {
    SourceLocationView { file: seq![], line: 0, column: 0 }
}

/// How a violation is listed: `[file:line:column] Validation error: message`.
pub open spec fn violation_line(e: VdlErrorView) -> Seq<char> {
    match e {
        VdlErrorView::Validation { location, message } => "["@ + location_text(location)
            + "] Validation error: "@ + message,
        _ => seq![],
    }
}

/// The lines of errors that carry their own locations.
pub open spec fn located_lines(es: Seq<ValidationErrorView>) -> Seq<Seq<char>> {
    es.map_values(|e: ValidationErrorView| violation_line(to_vdl_error_spec(e, no_location())))
}

/// The lines of the dependency cycles, each at the first entity on it.
pub open spec fn cycle_lines(m: Seq<EntityView>) -> Seq<Seq<char>> {
    Seq::new(
        dag_errors(m).len(),
        |k: int| violation_line(to_vdl_error_spec(dag_errors(m)[k], cycle_location(m, dag_cycle(m, k)))),
    )
}

/// The lines of every violation of a module, in rule order: type
/// constraints, reference integrity, evidence presence, evidence
/// completeness, dependency cycles, version format.
pub open spec fn violation_lines(m: Seq<EntityView>) -> Seq<Seq<char>> {
    located_lines(structural_errors(m)) + cycle_lines(m) + located_lines(version_format_errors(m))
}

/// How many violations a module has, over all six rules.
pub open spec fn violation_count(m: Seq<EntityView>) -> nat {
    structural_errors(m).len() + dag_errors(m).len() + version_format_errors(m).len()
}

/// The error that reports every violation of a module together: their
/// count and their lines, one per line.
pub open spec fn violations_error(m: Seq<EntityView>) -> VdlErrorView {
    VdlErrorView::ValidationErrors { count: violation_count(m) as usize, messages: join(violation_lines(m), "\n"@) }
}

/// The location of the first entity of `module` whose id is in `c`.
fn cycle_location_exec(module: &Module, c: &Vec<String>) -> (r: SourceLocation)
    ensures
        r@ == cycle_location(module@, names_of(c@)),
{
    let ghost m = module@;
    let mut i: usize = 0;
    while i < module.entities.len()
        invariant
            m == module@,
            i <= m.len(),
            cycle_location(m, names_of(c@)) == cycle_location_from(m, names_of(c@), i as int),
        decreases m.len() - i,
    {
        let e = &module.entities[i];
        if contains_name(c, &e.id) {
            let loc = &e.source_location;
            return SourceLocation { file: loc.file.clone(), line: loc.line, column: loc.column };
        }
        i = i + 1;
    }
    SourceLocation { file: String::new(), line: 0, column: 0 }
}

/// The line of a validation error; a cycle is reported at `cycle_at`.
fn error_line(e: &ValidationError, cycle_at: &SourceLocation) -> (r: String)
    ensures
        r@ == violation_line(to_vdl_error_spec(e@, cycle_at@)),
{
    let (location, message, is_cycle) = match e {
        ValidationError::TypeConstraint { location, message } => (location, message, false),
        ValidationError::ReferenceIntegrity { location, message } => (location, message, false),
        ValidationError::MissingEvidence { location, message } => (location, message, false),
        ValidationError::IncompleteEvidence { location, message } => (location, message, false),
        ValidationError::Cycle { message } => (cycle_at, message, true),
        ValidationError::InvalidVersion { location, message } => (location, message, false),
    };
    let mut s = String::from_str("[");
    let l = location.to_text();
    s.append(l.as_str());
    s.append("] Validation error: ");
    if is_cycle {
        s.append("Cycle detected: ");
    }
    s.append(message.as_str());
    s
}

/// Appends the lines of errors that carry their own locations.
fn push_located_lines(lines: &mut Vec<String>, errs: &Vec<ValidationError>)
    ensures
        strings_view(final(lines)@) == strings_view(old(lines)@) + located_lines(errors_view(errs@)),
{
    let ghost start = strings_view(lines@);
    let ghost ev = errors_view(errs@);
    let none = SourceLocation { file: String::new(), line: 0, column: 0 };
    let mut i: usize = 0;
    while i < errs.len()
        invariant
            ev == errors_view(errs@),
            none@ == no_location(),
            i <= errs@.len(),
            strings_view(lines@) == start + located_lines(ev).take(i as int),
        decreases errs@.len() - i,
    {
        let line = error_line(&errs[i], &none);
        let ghost prev = lines@;
        lines.push(line);
        proof {
            assert(strings_view(lines@) =~= strings_view(prev).push(line@));
            assert(ev[i as int] == errs@[i as int]@);
            assert(located_lines(ev).take(i + 1) =~= located_lines(ev).take(i as int).push(line@));
            assert(strings_view(lines@) =~= start + located_lines(ev).take(i + 1));
        }
        i = i + 1;
    }
    assert(located_lines(ev).take(errs@.len() as int) =~= located_lines(ev));
}

/// Validates a parsed module against all compiler rules: type constraints,
/// reference integrity, evidence presence, evidence completeness, no
/// dependency cycles, version format.
///
/// Succeeds exactly when the module satisfies every rule. Otherwise all
/// violations are collected and reported together, as a
/// [`VdlError::ValidationErrors`] with their count and one line for each,
/// in rule order (a dependency cycle at the first entity on it).
pub fn validate(module: &Module) -> (r: Result<(), VdlError>)
    ensures
        r is Ok <==> valid_module(module@),
        r matches Err(e) ==> e@ == violations_error(module@),
        valid_module(module@) <==> violation_count(module@) == 0,
{
    let ghost m = module@;
    let mut structural: Vec<ValidationError> = check_type_constraints(module);
    append_errors(&mut structural, check_reference_integrity(module));
    append_errors(&mut structural, check_evidence_presence(module));
    append_errors(&mut structural, check_evidence_completeness(module));
    assert(errors_view(structural@) == structural_errors(m));
    let dag = check_dag(module);
    let cycles = dag_cycles(module);
    let versions = check_version_format(module);
    let mut lines: Vec<String> = Vec::new();
    push_located_lines(&mut lines, &structural);
    let ghost before = strings_view(lines@);
    let mut k: usize = 0;
    while k < dag.len()
        invariant
            m == module@,
            errors_view(dag@) == dag_errors(m),
            cycles@.len() == dag@.len(),
            forall|j: int| 0 <= j < cycles@.len() ==> names_view((#[trigger] cycles@[j])@) == dag_cycle(m, j),
            k <= dag@.len(),
            strings_view(lines@) == before + cycle_lines(m).take(k as int),
        decreases dag@.len() - k,
    {
        assert(names_of(cycles@[k as int]@) == names_view(cycles@[k as int]@));
        let at = cycle_location_exec(module, &cycles[k]);
        let line = error_line(&dag[k], &at);
        let ghost prev = lines@;
        lines.push(line);
        proof {
            assert(strings_view(lines@) =~= strings_view(prev).push(line@));
            assert(errors_view(dag@)[k as int] == dag@[k as int]@);
            assert(cycle_lines(m).take(k + 1) =~= cycle_lines(m).take(k as int).push(line@));
            assert(strings_view(lines@) =~= before + cycle_lines(m).take(k + 1));
        }
        k = k + 1;
    }
    assert(cycle_lines(m).take(dag@.len() as int) =~= cycle_lines(m));
    push_located_lines(&mut lines, &versions);
    assert(strings_view(lines@) =~= violation_lines(m));
    let count = lines.len();
    if count == 0 {
        Ok(())
    } else {
        let messages = join_strings(&lines, "\n");
        Err(VdlError::ValidationErrors { count, messages })
    }
}

} // verus!
