//! AWS SDK for Java: what its calls look like in a source file, and which operations they mean.

pub mod arguments;
pub mod ast;
pub mod extraction_laws;
pub mod extractor;
pub mod files;
pub mod import_laws;
pub mod imports;
pub mod laws;
pub mod matcher;
pub mod naming;
pub mod pipeline;
pub mod scan;
pub mod scope;
pub mod scope_laws;
pub mod services;
pub mod types;
pub mod utilities;
