//! Machines: resolved graphs of caps, their notation, and how a strand of a
//! graph becomes a list of steps.

pub mod graph;
pub mod json;
pub mod notation;
pub mod payload;
pub mod realize;
pub mod serializer;
