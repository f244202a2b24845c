//! From Terraform plans to SDK calls.

pub mod crud_map;
pub mod laws;
pub mod mapper;
pub mod model_index;
pub mod plan;
pub mod symbols;
