//! Function infrastructure: declared [`Signature`]s, the builtin scalar
//! functions, and the builtin aggregates.
pub mod aggregate;
pub mod builtins;
pub mod signature;

pub use aggregate::{Count, CountAcc, MathMax, MathMean, MathMin, MathSum};
pub use builtins::{Abs, Concat, Len, Lower, Trim, Upper};
pub use signature::{Param, Signature};
