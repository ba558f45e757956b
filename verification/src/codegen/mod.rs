//! The output targets: Markdown pages, a Graphviz graph, a search index
//! and a JSON graph.
pub mod markdown;
pub mod dot;
pub mod search;
pub mod json;
pub mod laws;
