//! The errors that the validation rules report.
use crate::error::{SourceLocation, SourceLocationView, VdlError, VdlErrorView};
use vstd::prelude::*;

verus! {

/// An error found by one of the validation rules.
#[derive(Debug, PartialEq)]
pub enum ValidationError {
    TypeConstraint { location: SourceLocation, message: String },
    ReferenceIntegrity { location: SourceLocation, message: String },
    MissingEvidence { location: SourceLocation, message: String },
    IncompleteEvidence { location: SourceLocation, message: String },
    Cycle { message: String },
    InvalidVersion { location: SourceLocation, message: String },
}

/// What a [`ValidationError`] denotes.
pub enum ValidationErrorView {
    TypeConstraint { location: SourceLocationView, message: Seq<char> },
    ReferenceIntegrity { location: SourceLocationView, message: Seq<char> },
    MissingEvidence { location: SourceLocationView, message: Seq<char> },
    IncompleteEvidence { location: SourceLocationView, message: Seq<char> },
    Cycle { message: Seq<char> },
    InvalidVersion { location: SourceLocationView, message: Seq<char> },
}

impl View for ValidationError {
    type V = ValidationErrorView;

    open spec fn view(&self) -> ValidationErrorView {
        match self {
            ValidationError::TypeConstraint { location, message } =>
                ValidationErrorView::TypeConstraint { location: location@, message: message@ },
            ValidationError::ReferenceIntegrity { location, message } =>
                ValidationErrorView::ReferenceIntegrity {
                    location: location@,
                    message: message@,
                },
            ValidationError::MissingEvidence { location, message } =>
                ValidationErrorView::MissingEvidence { location: location@, message: message@ },
            ValidationError::IncompleteEvidence { location, message } =>
                ValidationErrorView::IncompleteEvidence {
                    location: location@,
                    message: message@,
                },
            ValidationError::Cycle { message } => ValidationErrorView::Cycle {
                message: message@,
            },
            ValidationError::InvalidVersion { location, message } =>
                ValidationErrorView::InvalidVersion { location: location@, message: message@ },
        }
    }
}

pub open spec fn errors_view(v: Seq<ValidationError>) -> Seq<ValidationErrorView> {
    v.map_values(|e: ValidationError| e@)
}

/// The compiler error that a validation error becomes: a
/// [`VdlError::Validation`] at the error's location; a cycle, which has no
/// location of its own, is reported at `cycle_at`, its message after
/// `Cycle detected: `.
pub open spec fn to_vdl_error_spec(e: ValidationErrorView, cycle_at: SourceLocationView) -> VdlErrorView {
    match e {
        ValidationErrorView::TypeConstraint { location, message } => VdlErrorView::Validation {
            location,
            message,
        },
        ValidationErrorView::ReferenceIntegrity { location, message } =>
            VdlErrorView::Validation { location, message },
        ValidationErrorView::MissingEvidence { location, message } => VdlErrorView::Validation {
            location,
            message,
        },
        ValidationErrorView::IncompleteEvidence { location, message } =>
            VdlErrorView::Validation { location, message },
        ValidationErrorView::Cycle { message } => VdlErrorView::Validation {
            location: cycle_at,
            message: "Cycle detected: "@ + message,
        },
        ValidationErrorView::InvalidVersion { location, message } => VdlErrorView::Validation {
            location,
            message,
        },
    }
}

/// Turns a validation error into a compiler error; a cycle is reported at
/// `cycle_at`.
pub fn to_vdl_error(e: ValidationError, cycle_at: SourceLocation) -> (r: VdlError)
    ensures
        r@ == to_vdl_error_spec(e@, cycle_at@),
{
    match e {
        ValidationError::TypeConstraint { location, message }
        | ValidationError::ReferenceIntegrity { location, message }
        | ValidationError::MissingEvidence { location, message }
        | ValidationError::IncompleteEvidence { location, message }
        | ValidationError::InvalidVersion { location, message } => VdlError::Validation {
            location,
            message,
        },
        ValidationError::Cycle { message } => {
            let mut text = String::from_str("Cycle detected: ");
            text.append(message.as_str());
            VdlError::Validation { location: cycle_at, message: text }
        },
    }
}

} // verus!
