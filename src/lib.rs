//! Converts comma-separated tables into typed documents: each data row becomes
//! a record that maps the header labels to cells classified as float, unsigned
//! integer or text.
use vstd::prelude::*;

pub mod classify;
pub mod document;
pub mod error;
pub mod naming;
pub mod pipeline;
pub mod table;

pub use classify::{chars_of, is_float_literal, matcher, parse_u64, OutType};
pub use document::{convert, OutRecord, Ronfile};
pub use error::ConvertError;
pub use naming::ron_filename;
pub use pipeline::{document_from_csv, prepare_output};
pub use table::{csvreader, Csvinput};

verus! {

} // verus!
