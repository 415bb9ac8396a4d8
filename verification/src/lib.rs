//! Tooling core for collecting Solidity contract ABIs, grouping them by
//! documentation tags, remapping import paths, and synthesizing an OpenAPI
//! description of the collected contracts.

pub mod collect;
pub mod commands;
pub mod config;
pub mod errors;
pub mod json;
pub mod metadata;
pub mod openapi;
pub mod parser;
pub mod remappings;
pub mod text;
