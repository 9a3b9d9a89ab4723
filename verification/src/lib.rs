//! Redact sensitive substrings from text and from JSON documents.
//!
//! The pattern engine scans input text with an ordered list of
//! capture-group rules and replaces each captured substring with a
//! placeholder, one first occurrence per capture, in rule order.
//! The JSON redactor walks a parsed document and replaces values
//! selected by bare key name or by dotted path.

pub mod data;
pub mod engine;
pub mod json;
pub mod pattern;
pub mod redaction;
pub mod text_ops;

pub use crate::data::Pattern;
pub use crate::redaction::Redaction;
