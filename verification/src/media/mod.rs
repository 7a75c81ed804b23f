//! Media definitions and the schemas that their profiles name.

pub mod pattern;
pub mod profile;
pub mod reference;
pub mod spec;
