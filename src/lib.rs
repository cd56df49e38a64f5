//! Resolution of UCP-annotated JSON Schemas into plain JSON Schema.
//!
//! A schema's properties may carry `ucp_request` / `ucp_response`
//! annotations that say, per operation, whether a property is included,
//! required, optional or omitted. [`resolve`] projects such a schema onto one
//! direction and operation; [`compose`] builds one schema from the
//! capabilities a self-describing payload advertises; [`bundle`] inlines
//! `$ref` references, within a document and across the documents the caller
//! loads for it; [`cli`] holds the command line's decisions. Every function here is verified against a
//! model of its input and output ([`json::JsonModel`]), and the modules
//! [`laws`], [`stripped`] and [`strict`] prove what resolution guarantees.
pub mod allof;
pub mod bundle;
pub mod compose;
pub mod cli;
pub mod error;
pub mod json;
pub mod laws;
pub mod names;
pub mod pointer;
pub mod resolver;
pub mod strict;
pub mod stripped;
pub mod text;
pub mod types;

pub use error::ResolveError;
pub use json::Json;
pub use resolver::{get_visibility, resolve, strip_annotations};
pub use types::{Direction, ResolveOptions, SchemaTransitionInfo, Visibility};
