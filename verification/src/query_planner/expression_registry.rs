//! Query positions an expression can be compiled for.
use vstd::prelude::*;

verus! {

/// Query position an expression was compiled for.
#[derive(Debug, Clone, Copy, PartialEq, Eq, Hash, Structural)]
pub enum ComputeSite {
    Filter,
    Sort,
    Projection,
}

} // verus!
