//! The fabric: cap and media definitions under their URNs, in one registry, and
//! the short names that stand for URNs.

pub mod alias;
pub mod registry;
