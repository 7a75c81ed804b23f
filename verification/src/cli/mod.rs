//! The command line: which command a line asks for, what its options say, and
//! how input files are bound to a machine.
//!
//! Reading never fails silently: a line that cannot be read ends in an
//! [`Exit`], with the message to show and the code to exit with.

pub mod cap;
pub mod command;
pub mod inputs;
pub mod options;
pub mod plan;
pub mod run;
