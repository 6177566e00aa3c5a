//! Mutation events published to realtime subscribers.
use vstd::prelude::*;

verus! {

/// What a mutation did to an entity.
#[derive(Clone, Copy, Debug, PartialEq, Eq, Structural)]
pub enum MutationType {
    Create,
    Update,
    Delete,
}

/// Where a mutation originated.
#[derive(Clone, Copy, Debug, PartialEq, Eq, Structural)]
pub enum MutationSource {
    Local,
    Remote,
}

/// Schema facts shipped with a mutation event: the type's unique fields,
/// its searchable fields with their strategies, and its facet fields.
#[derive(Clone, Debug)]
pub struct SchemaMetadata {
    pub uniques: Vec<String>,
    /// Field name and its index strategies, one entry per field.
    pub search_fields: Vec<(String, Vec<String>)>,
    pub facet_fields: Vec<String>,
}

} // verus!
