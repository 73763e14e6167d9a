//! A verified core for turning a Terraform plan/state export, already parsed
//! into a JSON value, into a normalized graph of resource nodes, dependency
//! links and output values.
//!
//! The library is pure computation: it neither reads files nor serves
//! responses. An embedding program parses the document text into [`json::Json`],
//! calls [`terraform::parse_terraform`], and serializes the resulting
//! [`types::Graph`].

pub mod canon;
pub mod json;
pub mod terraform;
pub mod text;
pub mod types;

pub use json::Json;
