//! Declarative IPC topology: resolution of `network.toml` descriptions into a
//! network graph, validation of that graph, and generation of C, TypeScript
//! and Nix sources from it.

pub mod codegen;
pub mod config;
pub mod document;
pub mod error;
pub mod network;
pub mod nix;
pub mod rules;
pub mod schema;
pub mod studio;
pub mod template;
pub mod text;
pub mod types;
