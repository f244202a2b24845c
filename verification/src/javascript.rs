//! SDK calls of JavaScript and TypeScript source files.

pub mod laws;
pub mod shared;
pub mod types;
