//! The conversion from text to document, and the output name it is written to.
use vstd::prelude::*;
use crate::document::{convert, convert_spec, Ronfile};
use crate::error::ConvertError;
use crate::naming::{naming_fails, output_name, ron_filename};
use crate::table::{csv_table_of, csvreader, unclosed_quote};

verus! {

/// What converting `content` yields, given what the reader found in it.
pub open spec fn document_spec(content: Seq<char>, r: Result<Ronfile, ConvertError>) -> bool {
    if unclosed_quote(content) {
        r == Err::<Ronfile, ConvertError>(ConvertError::Parse)
    } else {
        match csv_table_of(content) {
        None => r == Err::<Ronfile, ConvertError>(ConvertError::Parse),
        Some((h, rows)) => if h.len() == 0 {
            r == Err::<Ronfile, ConvertError>(ConvertError::Parse)
        } else {
            convert_spec(h, rows, r)
        },
        }
    }
}

/// Parses `content` and assembles its document: a quoted field that never
/// closes, a parse error or an empty header gives `Parse`, a row whose length
/// differs from the header's gives `Assembly`, and otherwise each row becomes
/// a record of classified cells.
pub fn document_from_csv(content: &str) -> (r: Result<Ronfile, ConvertError>)
    ensures
        document_spec(content@, r),
{
    match csvreader(content) {
        Ok(csv) => convert(csv),
        Err(e) => Err(e),
    }
}

/// Everything a conversion decides before any output is written: the
/// document, then the output file name. An `Err` means that no output file
/// is to be created.
pub fn prepare_output(filename: &str, content: &str) -> (r: Result<(String, Ronfile), ConvertError>)
    ensures
        match r {
            Ok((name, doc)) => {
                &&& document_spec(content@, Ok::<Ronfile, ConvertError>(doc))
                &&& output_name(filename@, name@)
            },
            Err(ConvertError::OutputNaming) => {
                &&& naming_fails(filename@)
                &&& exists|doc: Ronfile| document_spec(content@, Ok::<Ronfile, ConvertError>(doc))
            },
            Err(e) => document_spec(content@, Err::<Ronfile, ConvertError>(e)),
        },
{
    let doc = match document_from_csv(content) {
        Ok(doc) => doc,
        Err(e) => {
            return Err(e);
        },
    };
    match ron_filename(filename) {
        Ok(name) => Ok((name, doc)),
        Err(e) => Err(e),
    }
}

} // verus!
