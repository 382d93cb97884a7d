//! A width-aware pretty-printing core for tree-shaped structured values.
//!
//! The crate has three layers. `doc` defines an immutable document algebra
//! and `render` turns a document and a target width into text, deciding for
//! every group whether it fits on the current line. `rule` resolves named
//! configuration options into per-field formatting rules, rejecting anything
//! it does not recognise. `builder` assembles one record or tagged-union
//! variant into a single document from its field rules and field values.
//! `names` derives display names from type and field identifiers, and `laws`
//! states and proves the properties that relate the pieces.

pub mod builder;
pub mod doc;
pub mod laws;
pub mod names;
pub mod render;
pub mod rule;
