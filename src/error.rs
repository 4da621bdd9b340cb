//! Failures of the conversion pipeline.
use vstd::prelude::*;

verus! {

/// Why a conversion stopped.
#[derive(Debug, Clone, Copy, PartialEq, Eq, Structural)]
pub enum ConvertError {
    /// The text has no header row, or a row is malformed (an unterminated
    /// quote, for instance).
    Parse,
    /// Data row `row` (counted from 0, after the header) has `found` fields
    /// where the header has `expected`.
    Assembly { row: usize, expected: usize, found: usize },
    /// The input file name holds no `.`, so no output name can be derived.
    OutputNaming,
}

} // verus!
