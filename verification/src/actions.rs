//! The runners of the command line: which of the actions that a comparison
//! found they let through to the applier, and how they show them.

pub mod push;
pub mod status;
