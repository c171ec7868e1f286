//! A catalog-synchronization engine: scraped manga records from several
//! sources are merged into one deduplicated store. Works from different
//! sources that share a title are linked into one logical group with a
//! single authoritative "main" record, elected by source trust priority;
//! chapters and pages are kept in sync by positional diffing.
use vstd::prelude::*;

pub mod chapter;
pub mod fetch;
pub mod genre;
pub mod insert;
pub mod laws;
pub mod manga;
pub mod outside;
pub mod source;
pub mod store;
pub mod types;

verus! {

/// Classifies a failure of the engine.
#[derive(Debug, Clone)]
pub enum MSErrorType {
    TextParseError,
    SQLError,
    NetworkError,
    IOError,
    JoinHandleError,
    OtherError,
    NoError,
}

/// A typed error value: a human-readable message and a kind tag.
#[derive(Debug, Clone)]
pub struct MSError {
    pub message: String,
    pub err_type: MSErrorType,
}

pub type Result<T> = core::result::Result<T, MSError>;

} // verus!
