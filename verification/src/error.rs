//! Error values for the parsing entry points.

use vstd::prelude::*;
use vstd::string::StringExecFns;

verus! {

/// Errors that can arise when obtaining a project from a source file.
///
/// Only reading the file can actually fail; the lenient record
/// extractor drops unrecognizable lines instead of reporting them, so
/// the variant for structurally invalid content is reserved.
#[derive(Debug, PartialEq)]
pub enum ParseError {
    /// The source file could not be read.
    FileRead { path: String, message: String },
    /// The exchange-structure text is invalid or malformed.
    InvalidStep { message: String },
}

impl ParseError {
    /// A short description of the error kind.
    pub fn describe(&self) -> (r: String)
        ensures
            self is FileRead ==> r@ == "failed to read file"@,
            self is InvalidStep ==> r@ == "invalid STEP format"@,
    {
        match self {
            ParseError::FileRead { .. } => String::from_str("failed to read file"),
            ParseError::InvalidStep { .. } => String::from_str("invalid STEP format"),
        }
    }
}

} // verus!
