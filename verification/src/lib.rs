//! Verified core of an IFC (ISO-10303-21 / STEP) model inspector.
//!
//! The library decodes the STEP text exchange format as used by IFC
//! building models: it extracts numbered entity records, parses their
//! attribute values, decodes the string escape dialect, resolves the
//! relationship records into containment / type-membership / property
//! maps, classifies type records into categories, and assembles an
//! immutable project model that the presentation layer queries.

use vstd::prelude::*;

pub mod app;
pub mod assemble;
pub mod decode;
pub mod error;
pub mod fixpoint;
pub mod ifc;
pub mod laws;
pub mod model;
pub mod numbers;
pub mod step;
pub mod text;
pub mod value;

pub use decode::decode_step_string;
pub use error::ParseError;
pub use step::StepFile;
pub use text::chars_of_str;
pub use value::StepEntity;
pub use value::StepValue;

verus! {

/// Whitespace stripped by the record scanner around lines and tokens.
pub open spec fn is_space_char(c: char) -> bool {
    c == ' ' || c == '\t' || c == '\r' || c == '\n'
}

} // verus!
