//! Review comments on the IAM permissions that a change to source files adds or removes.

pub mod actions;
pub mod comment;
pub mod diff;
pub mod generate;
pub mod laws;
