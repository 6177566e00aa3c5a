//! Index capabilities a field can offer the planner.
use vstd::prelude::*;

verus! {

#[derive(Debug, Clone, Copy, PartialEq, Eq, Structural)]
pub enum IndexCapability {
    UniqueKey,
    OrderedIndex,
    TermIndex,
    FulltextIndex,
    VectorIndex,
}

impl IndexCapability {
    pub open spec fn name(self) -> Seq<char> {
        match self {
            IndexCapability::UniqueKey => "unique_key"@,
            IndexCapability::OrderedIndex => "ordered_index"@,
            IndexCapability::TermIndex => "term_index"@,
            IndexCapability::FulltextIndex => "fulltext_index"@,
            IndexCapability::VectorIndex => "vector_index"@,
        }
    }

    pub fn as_str(&self) -> (s: &'static str)
        ensures
            s@ == self.name(),
    {
        match self {
            IndexCapability::UniqueKey => "unique_key",
            IndexCapability::OrderedIndex => "ordered_index",
            IndexCapability::TermIndex => "term_index",
            IndexCapability::FulltextIndex => "fulltext_index",
            IndexCapability::VectorIndex => "vector_index",
        }
    }
}

} // verus!
