//! Verified intake library for invoice-processing response files.
//!
//! The library holds the decision logic of the intake tool: filename
//! classification, property-record parsing, keep/delete disposition,
//! candidate selection for retrieval, header stripping, and the
//! cross-volume move protocol. All text handling is byte-oriented; the
//! delimiters the formats use (`#`, `=`, `\n`, `0`) are ASCII.

pub mod config;
pub mod matcher;
pub mod policy;
pub mod relocate;
pub mod record;
pub mod retrieval;
pub mod text;
pub mod watch;
