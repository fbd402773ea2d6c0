//! Generation of PureScript schema modules from an introspected GraphQL schema.

pub mod config;
pub mod decl;
pub mod directives;
pub mod enum_gen;
pub mod error;
pub mod expr;
pub mod import;
pub mod manifest;
pub mod module;
pub mod order;
pub mod outside;
pub mod record;
pub mod resolve;
pub mod schema;
pub mod text;
pub mod wrapping;
