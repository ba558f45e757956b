//! Error types shared by every stage of the compiler, and the source
//! locations that they carry.
use crate::text::{decimal, usize_to_string};
use vstd::prelude::*;

verus! {

/// A location within a VDL source file: the file's path, a 1-based line and
/// a 1-based column.
#[derive(Debug, PartialEq, Eq, Hash)]
pub struct SourceLocation {
    pub file: String,
    pub line: usize,
    pub column: usize,
}

/// What a [`SourceLocation`] denotes.
pub struct SourceLocationView {
    pub file: Seq<char>,
    pub line: usize,
    pub column: usize,
}

impl View for SourceLocation {
    type V = SourceLocationView;

    open spec fn view(&self) -> SourceLocationView {
        SourceLocationView { file: self.file@, line: self.line, column: self.column }
    }
}

impl Clone for SourceLocation {
    fn clone(&self) -> (r: Self)
        ensures
            r == *self,
    {
        SourceLocation { file: self.file.clone(), line: self.line, column: self.column }
    }
}

impl SourceLocation {
    /// Creates a location in `file` at the given line and column.
    pub fn new(file: &str, line: usize, column: usize) -> (r: Self)
        ensures
            r@ == (SourceLocationView { file: file@, line, column }),
    {
        SourceLocation { file: file.to_owned(), line, column }
    }
}

/// The main error type of the compiler. Every variant carries enough
/// context for a diagnostic.
#[derive(Debug, PartialEq)]
pub enum VdlError {
    Lexer { location: SourceLocation, message: String },
    Parser { location: SourceLocation, message: String },
    Validation { location: SourceLocation, message: String },
    ValidationErrors { count: usize, messages: String },
    Graph { message: String },
    Codegen { message: String },
    Io { message: String },
    Other { message: String },
}

/// The result of a compiler stage.
pub type VdlResult<T> = Result<T, VdlError>;

/// What a [`VdlError`] denotes.
pub enum VdlErrorView {
    Lexer { location: SourceLocationView, message: Seq<char> },
    Parser { location: SourceLocationView, message: Seq<char> },
    Validation { location: SourceLocationView, message: Seq<char> },
    ValidationErrors { count: usize, messages: Seq<char> },
    Graph { message: Seq<char> },
    Codegen { message: Seq<char> },
    Io { message: Seq<char> },
    Other { message: Seq<char> },
}

impl View for VdlError {
    type V = VdlErrorView;

    open spec fn view(&self) -> VdlErrorView {
        match self {
            VdlError::Lexer { location, message } => VdlErrorView::Lexer {
                location: location@,
                message: message@,
            },
            VdlError::Parser { location, message } => VdlErrorView::Parser {
                location: location@,
                message: message@,
            },
            VdlError::Validation { location, message } => VdlErrorView::Validation {
                location: location@,
                message: message@,
            },
            VdlError::ValidationErrors { count, messages } => VdlErrorView::ValidationErrors {
                count: *count,
                messages: messages@,
            },
            VdlError::Graph { message } => VdlErrorView::Graph { message: message@ },
            VdlError::Codegen { message } => VdlErrorView::Codegen { message: message@ },
            VdlError::Io { message } => VdlErrorView::Io { message: message@ },
            VdlError::Other { message } => VdlErrorView::Other { message: message@ },
        }
    }
}

impl Clone for VdlError {
    fn clone(&self) -> (r: Self)
        ensures
            r == *self,
    {
        match self {
            VdlError::Lexer { location, message } => VdlError::Lexer {
                location: location.clone(),
                message: message.clone(),
            },
            VdlError::Parser { location, message } => VdlError::Parser {
                location: location.clone(),
                message: message.clone(),
            },
            VdlError::Validation { location, message } => VdlError::Validation {
                location: location.clone(),
                message: message.clone(),
            },
            VdlError::ValidationErrors { count, messages } => VdlError::ValidationErrors {
                count: *count,
                messages: messages.clone(),
            },
            VdlError::Graph { message } => VdlError::Graph { message: message.clone() },
            VdlError::Codegen { message } => VdlError::Codegen { message: message.clone() },
            VdlError::Io { message } => VdlError::Io { message: message.clone() },
            VdlError::Other { message } => VdlError::Other { message: message.clone() },
        }
    }
}

/// How a location is written: `file:line:column`.
pub open spec fn location_text(l: SourceLocationView) -> Seq<char> {
    l.file + ":"@ + decimal(l.line as nat) + ":"@ + decimal(l.column as nat)
}

impl SourceLocation {
    /// This location written as `file:line:column`.
    pub fn to_text(&self) -> (s: String)
        ensures
            s@ == location_text(self@),
    {
        let mut s = self.file.clone();
        s.append(":");
        let line = usize_to_string(self.line);
        s.append(line.as_str());
        s.append(":");
        let column = usize_to_string(self.column);
        s.append(column.as_str());
        s
    }
}

/// The text of a compiler error.
pub open spec fn error_text(e: VdlErrorView) -> Seq<char> {
    match e {
        VdlErrorView::Lexer { location, message } => "Lexical error at "@ + location_text(location)
            + ": "@ + message,
        VdlErrorView::Parser { location, message } => "Parse error at "@ + location_text(location)
            + ": "@ + message,
        VdlErrorView::Validation { location, message } => "Validation error at "@ + location_text(
            location,
        ) + ": "@ + message,
        VdlErrorView::ValidationErrors { count, messages } => "Validation failed with "@ + decimal(
            count as nat,
        ) + " error(s):\n"@ + messages,
        VdlErrorView::Graph { message } => "Graph error: "@ + message,
        VdlErrorView::Codegen { message } => "Codegen error: "@ + message,
        VdlErrorView::Io { message } => "IO error: "@ + message,
        VdlErrorView::Other { message } => message,
    }
}

/// `prefix`, then the location, `": "` and the message.
fn located_text(prefix: &str, location: &SourceLocation, message: &String) -> (s: String)
    ensures
        s@ == prefix@ + location_text(location@) + ": "@ + message@,
{
    let mut s = String::from_str(prefix);
    let l = location.to_text();
    s.append(l.as_str());
    s.append(": ");
    s.append(message.as_str());
    s
}

impl VdlError {
    /// The text of this error.
    pub fn message(&self) -> (s: String)
        ensures
            s@ == error_text(self@),
    {
        match self {
            VdlError::Lexer { location, message } => located_text("Lexical error at ", location, message),
            VdlError::Parser { location, message } => located_text("Parse error at ", location, message),
            VdlError::Validation { location, message } => located_text(
                "Validation error at ",
                location,
                message,
            ),
            VdlError::ValidationErrors { count, messages } => {
                let mut s = String::from_str("Validation failed with ");
                let n = usize_to_string(*count);
                s.append(n.as_str());
                s.append(" error(s):\n");
                s.append(messages.as_str());
                s
            },
            VdlError::Graph { message } => {
                let mut s = String::from_str("Graph error: ");
                s.append(message.as_str());
                s
            },
            VdlError::Codegen { message } => {
                let mut s = String::from_str("Codegen error: ");
                s.append(message.as_str());
                s
            },
            VdlError::Io { message } => {
                let mut s = String::from_str("IO error: ");
                s.append(message.as_str());
                s
            },
            VdlError::Other { message } => message.clone(),
        }
    }
}

} // verus!
