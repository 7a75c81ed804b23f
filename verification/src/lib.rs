//! Cap definitions, media URNs, machines and the runtime bookkeeping around
//! them, with every rule stated as a contract.
#![allow(unused_imports)]

pub mod bifaci;
pub mod build_env;
pub mod capture;
pub mod cartridge_discovery;
pub mod cli;
pub mod dev;
pub mod digest;
pub mod fabric;
pub mod machine;
pub mod media;
pub mod path;
pub mod text;
pub mod text_map;
pub mod urn;
pub mod version;
