//! Order-preserving, in-place filtering of a sub-range of a vector.

pub mod bounds;
pub mod laws;
pub mod retain;

pub use bounds::{Bound, IndexRange};
pub use retain::{backshift_holes, RetainRange};
