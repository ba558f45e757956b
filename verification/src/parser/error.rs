//! The errors of the parsing stage.
use crate::error::{location_text, SourceLocation, SourceLocationView};
use vstd::prelude::*;

verus! {

/// Errors that can occur during parsing.
#[derive(Debug, PartialEq)]
pub enum ParseError {
    UnexpectedToken { location: SourceLocation, message: String },
    MissingField { field: String, location: SourceLocation },
    InvalidSyntax { location: SourceLocation, message: String },
}

/// What a [`ParseError`] denotes.
pub enum ParseErrorView {
    UnexpectedToken { location: SourceLocationView, message: Seq<char> },
    MissingField { field: Seq<char>, location: SourceLocationView },
    InvalidSyntax { location: SourceLocationView, message: Seq<char> },
}

impl View for ParseError {
    type V = ParseErrorView;

    open spec fn view(&self) -> ParseErrorView {
        match self {
            ParseError::UnexpectedToken { location, message } => ParseErrorView::UnexpectedToken {
                location: location@,
                message: message@,
            },
            ParseError::MissingField { field, location } => ParseErrorView::MissingField {
                field: field@,
                location: location@,
            },
            ParseError::InvalidSyntax { location, message } => ParseErrorView::InvalidSyntax {
                location: location@,
                message: message@,
            },
        }
    }
}

/// The text of a parse error.
pub open spec fn parse_error_text(e: ParseErrorView) -> Seq<char> {
    match e {
        ParseErrorView::UnexpectedToken { location, message } => "Unexpected token at "@
            + location_text(location) + ": "@ + message,
        ParseErrorView::MissingField { field, location } => "Missing required field '"@ + field
            + "' at "@ + location_text(location),
        ParseErrorView::InvalidSyntax { location, message } => "Invalid syntax at "@
            + location_text(location) + ": "@ + message,
    }
}

impl ParseError {
    /// The text of this error.
    pub fn message(&self) -> (s: String)
        ensures
            s@ == parse_error_text(self@),
    {
        match self {
            ParseError::UnexpectedToken { location, message } => {
                let mut s = String::from_str("Unexpected token at ");
                let l = location.to_text();
                s.append(l.as_str());
                s.append(": ");
                s.append(message.as_str());
                s
            },
            ParseError::MissingField { field, location } => {
                let mut s = String::from_str("Missing required field '");
                s.append(field.as_str());
                s.append("' at ");
                let l = location.to_text();
                s.append(l.as_str());
                s
            },
            ParseError::InvalidSyntax { location, message } => {
                let mut s = String::from_str("Invalid syntax at ");
                let l = location.to_text();
                s.append(l.as_str());
                s.append(": ");
                s.append(message.as_str());
                s
            },
        }
    }
}

} // verus!
