//! The knowledge graph built from a validated module, and the queries
//! over it.
pub mod dfs;
pub mod index_map;
pub mod laws;
pub mod node;
pub mod query;

use crate::parser::ast::EntityType;
use vstd::prelude::*;

verus! {

/// The fill colour of an entity type in graph drawings.
pub open spec fn type_color(t: EntityType) -> Seq<char> {
    match t {
        EntityType::Axiom => "#E8D5B7"@,
        EntityType::Framework => "#D4A373"@,
        EntityType::Law => "#C75B39"@,
        EntityType::Principle => "#6B8E23"@,
        EntityType::Concept => "#5F9EA0"@,
        EntityType::Artifact => "#9370DB"@,
        EntityType::Pillar => "#2F4F4F"@,
        _ => "#999999"@,
    }
}

/// The fill colour of an entity type in graph drawings; types without a
/// colour of their own are grey.
pub fn entity_type_color(t: EntityType) -> (s: &'static str)
    ensures
        s@ == type_color(t),
{
    match t {
        EntityType::Axiom => "#E8D5B7",
        EntityType::Framework => "#D4A373",
        EntityType::Law => "#C75B39",
        EntityType::Principle => "#6B8E23",
        EntityType::Concept => "#5F9EA0",
        EntityType::Artifact => "#9370DB",
        EntityType::Pillar => "#2F4F4F",
        _ => "#999999",
    }
}

} // verus!

