//! Registry and dispatch machinery for a connector package: discovery of
//! handler units, schema bundling, generation of routing source, and
//! run-time resolution of handler identifiers.
pub mod error;
pub mod text;
pub mod discovery;
pub mod codegen;
pub mod bundle;
pub mod embed;
pub mod dispatch;
pub mod client;
pub mod json;
