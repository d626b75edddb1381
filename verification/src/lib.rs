//! Parser for the ADI text interchange format: tagged, length-prefixed
//! fields (`<NAME:LENGTH[:TYPE]>VALUE`) embedded in free-form text, split
//! into a header and a sequence of records.
//!
//! The executable parser is verified against a specification-level model
//! of the grammar: `parse_adi` returns exactly what `spec_parse_adi` says
//! for every input.

pub mod chars;
pub mod display;
pub mod error;
pub mod parser;
pub mod types;

pub use error::AdifError;
pub use parser::parse_adi;
pub use types::{AdifFile, AdifHeader, DataType, Field, Record};
