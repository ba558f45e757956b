//! Voidlight Definition Language (VDL) compiler: a lexer, a parser, a
//! validator, a knowledge graph and the renderers of its output targets,
//! each stated as a contract and proved.
//!
//! The pipeline runs in stages: the lexer turns source text into tokens,
//! the parser builds the syntax tree, the validator checks the rules, the
//! graph builder links the entities, and the code generators render JSON,
//! Markdown, a search index and Graphviz DOT.
pub mod cli;
pub mod codegen;
pub mod error;
pub mod graph;
pub mod lexer;
pub mod matching;
pub mod parser;
pub mod test_helpers;
pub mod text;
pub mod validator;

pub use error::{SourceLocation, VdlError, VdlResult};
pub use parser::ast::{
    Analogy, Annotation, Entity, EntityType, EvidenceBlock, Module, Relationship,
    RelationshipType, Revelation, Synthesis,
};
