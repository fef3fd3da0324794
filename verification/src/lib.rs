//! Validation and trunk-view projection for graph-structured tree documents.
//!
//! A tree document is a JSON text that describes nodes, directed edges between
//! them, and an optional trunk: the main path through the graph. This crate
//! reads such a text, checks it against a structural schema and five rules on
//! its graph, and lays the trunk out as a list of steps.

pub mod error;
pub mod index;
pub mod json;
pub mod laws;
pub mod parse;
pub mod reach;
pub mod roundtrip;
pub mod scc;
pub mod schema;
pub mod summary;
pub mod text;
pub mod trunk;
pub mod types;
pub mod validate;
pub mod viewer;
pub mod wire;

pub use error::{Diagnostic, DocumentStats, Severity, ValidationResult};
pub use parse::{parse, parse_value};
pub use schema::{detect_tier, validate_schema};
pub use types::TreeDocument;
pub use validate::validate_document;
pub use viewer::{build_trunk_view, TrunkView};
