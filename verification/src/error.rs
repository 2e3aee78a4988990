//! The library's error type.

use vstd::prelude::*;

use crate::text::{push_decimal, push_str};

verus! {

#[verifier::external_type_specification]
#[verifier::external_body]
pub struct ExIoError(std::io::Error);

#[verifier::external_type_specification]
#[verifier::external_body]
pub struct ExJsonError(serde_json::Error);

/// Calls `std::io::Error`'s `to_string`. What the text holds is left to the
/// error value, which is opaque here, so nothing is claimed of it.
#[verifier::external_body]
fn io_error_text(e: &std::io::Error) -> String {
    e.to_string()
}

/// Calls `serde_json::Error`'s `to_string`. Nothing is claimed of the text.
#[verifier::external_body]
fn json_error_text(e: &serde_json::Error) -> String {
    e.to_string()
}

/// Errors that can occur during libro operations.
#[derive(Debug)]
#[non_exhaustive]
pub enum LibroError {
    /// A chain entry's hash does not match its content, or the chain linkage is broken.
    ///
    /// `index` identifies the first invalid entry; `expected` and `actual`
    /// hold the mismatched hash values.
    IntegrityViolation { index: usize, expected: String, actual: String },
    /// An error from a storage backend.
    Store(String),
    /// An I/O error from file operations.
    Io(std::io::Error),
    /// A JSON serialization or deserialization error.
    Json(serde_json::Error),
    /// An input field exceeds the allowed maximum length.
    FieldTooLong { field: &'static str, len: usize, max: usize },
    /// An RFC 3161 timestamp request or response is malformed.
    Timestamp(String),
    /// A witness anchoring operation failed.
    Anchoring(String),
    /// DER encoding/decoding error.
    Der(String),
}

/// The result type of fallible library operations.
pub type Result<T> = std::result::Result<T, LibroError>;

/// The message of an integrity violation.
pub open spec fn violation_message(index: nat, expected: Seq<char>, actual: Seq<char>) -> Seq<char> {
    "chain integrity violated at entry "@ + crate::text::decimal(index) + ": expected hash "@
        + expected + ", got "@ + actual
}

impl LibroError {
    /// The human-readable message of this error.
    pub fn message(&self) -> (s: String)
        ensures
            match self {
                LibroError::IntegrityViolation { index, expected, actual } => s@ == violation_message(
                    *index as nat,
                    expected@,
                    actual@,
                ),
                LibroError::Store(m) => s@ == "store error: "@ + m@,
                LibroError::FieldTooLong { field, len, max } => s@ == "field `"@ + field@
                    + "` too long: "@ + crate::text::decimal(*len as nat) + " bytes (max "@
                    + crate::text::decimal(*max as nat) + ")"@,
                LibroError::Timestamp(m) => s@ == "timestamp error: "@ + m@,
                LibroError::Anchoring(m) => s@ == "anchoring error: "@ + m@,
                LibroError::Der(m) => s@ == "DER encoding error: "@ + m@,
                LibroError::Io(_) => true,
                LibroError::Json(_) => true,
            },
    {
        let mut s = String::new();
        match self {
            LibroError::IntegrityViolation { index, expected, actual } => {
                push_str(&mut s, "chain integrity violated at entry ");
                push_decimal(&mut s, *index as u64);
                push_str(&mut s, ": expected hash ");
                push_str(&mut s, expected.as_str());
                push_str(&mut s, ", got ");
                push_str(&mut s, actual.as_str());
            },
            LibroError::Store(m) => {
                push_str(&mut s, "store error: ");
                push_str(&mut s, m.as_str());
            },
            LibroError::Io(e) => {
                s = io_error_text(e);
            },
            LibroError::Json(e) => {
                s = json_error_text(e);
            },
            LibroError::FieldTooLong { field, len, max } => {
                push_str(&mut s, "field `");
                push_str(&mut s, field);
                push_str(&mut s, "` too long: ");
                push_decimal(&mut s, *len as u64);
                push_str(&mut s, " bytes (max ");
                push_decimal(&mut s, *max as u64);
                push_str(&mut s, ")");
            },
            LibroError::Timestamp(m) => {
                push_str(&mut s, "timestamp error: ");
                push_str(&mut s, m.as_str());
            },
            LibroError::Anchoring(m) => {
                push_str(&mut s, "anchoring error: ");
                push_str(&mut s, m.as_str());
            },
            LibroError::Der(m) => {
                push_str(&mut s, "DER encoding error: ");
                push_str(&mut s, m.as_str());
            },
        }
        s
    }
}

} // verus!
