pub mod call_graph;
pub mod call_hierarchy;
pub mod call_order;
pub mod casing;
pub mod commands;
pub mod errors;
pub mod extraction;
pub mod framework;
pub mod generate_model;
pub mod go;
pub mod go_conventions;
pub mod go_laws;
pub mod input_kind;
pub mod input_laws;
pub mod java;
pub mod javascript;
pub mod json;
pub mod language;
pub mod library_model;
pub mod lints;
pub mod lsp;
pub mod model_error;
pub mod model_generation;
pub mod model_laws;
pub mod order;
pub mod path_laws;
pub mod paths;
pub mod policy_checker;
pub mod policy_laws;
pub mod review;
pub mod sdk;
pub mod service_configuration;
pub mod terraform;
pub mod text;
pub mod text_laws;
pub mod text_map;
pub mod versions;
pub mod view_laws;
