use vstd::prelude::*;

pub mod fixed;
pub mod things;
pub mod geometry;
pub mod collision;
pub mod space;
pub mod laws;
pub mod reading;

verus! {

/// Identifier of a body, unique within one session.
pub type Id = u16;

} // verus!
