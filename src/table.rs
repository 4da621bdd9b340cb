//! Reading comma-separated text into a header and rows of trimmed fields.
use vstd::prelude::*;
use crate::classify::chars_of;
use crate::error::ConvertError;

verus! {

#[verifier::external_type_specification]
#[verifier::external_body]
pub struct ExCsvError(csv::Error);

/// Header and rows that csv's reader finds in a text (fields trimmed, rows of
/// any length admitted), or `None` where it reports an error.
pub uninterp spec fn csv_table_of(content: Seq<char>) -> Option<(Seq<Seq<char>>, Seq<Seq<Seq<char>>>)>;

/// An ASCII whitespace character: space, tab, line feed, vertical tab, form
/// feed or carriage return.
pub open spec fn is_ascii_ws(c: char) -> bool {
    c == ' ' || c == '\t' || c == '\n' || c == '\x0B' || c == '\x0C' || c == '\r'
}

/// `s` neither begins nor ends with ASCII whitespace.
pub open spec fn is_trimmed(s: Seq<char>) -> bool {
    s.len() == 0 || (!is_ascii_ws(s[0]) && !is_ascii_ws(s.last()))
}

/// Every header label and every field is trimmed.
pub open spec fn all_trimmed(header: Seq<Seq<char>>, rows: Seq<Seq<Seq<char>>>) -> bool {
    &&& forall|j: int| 0 <= j < header.len() ==> is_trimmed(#[trigger] header[j])
    &&& forall|i: int, j: int|
        0 <= i < rows.len() && 0 <= j < rows[i].len() ==> is_trimmed(#[trigger] rows[i][j])
}

/// Relies on csv's `Reader` (built with `Trim::All` and `flexible(true)`):
/// `headers` gives the first record, `records` the others, each field passed
/// through `str::trim`, and the outcome depends on the text alone.
#[verifier::external_body]
fn read_csv(content: &str) -> (r: Result<(Vec<String>, Vec<Vec<String>>), csv::Error>)
    ensures
        match r {
            Ok((h, rows)) => csv_table_of(content@) == Some((h.deep_view(), rows.deep_view())),
            Err(_) => csv_table_of(content@) is None,
        },
        r is Ok ==> all_trimmed(r->Ok_0.0.deep_view(), r->Ok_0.1.deep_view()),
{
    let mut rdr = csv::ReaderBuilder::new().trim(csv::Trim::All).flexible(true).from_reader(
        content.as_bytes(),
    );
    let header = rdr.headers()?.iter().map(|f| f.to_string()).collect();
    let rows: Vec<csv::StringRecord> = rdr.records().collect::<Result<_, _>>()?;
    Ok((header, rows.iter().map(|r| r.iter().map(|f| f.to_string()).collect()).collect()))
}

/// A parsed table: header labels and data rows, all fields trimmed.
#[derive(Debug, Clone)]
pub struct Csvinput {
    pub header: Vec<String>,
    pub records: Vec<Vec<String>>,
}

/// Where a scan of comma-separated text stands: at the start of a field, in an
/// unquoted field, in a quoted field, or just after a `"` inside a quoted field.
#[derive(Clone, Copy, PartialEq, Eq, Structural)]
pub enum QuoteState {
    FieldStart,
    Unquoted,
    Quoted,
    QuoteInQuoted,
}

pub open spec fn is_separator(c: char) -> bool {
    c == ',' || c == '\n' || c == '\r'
}

/// One step of the scan. A `"` opens a quoted field only as the field's first
/// character; inside, `""` stands for a quote and a lone `"` closes it.
pub open spec fn quote_step(st: QuoteState, c: char) -> QuoteState {
    match st {
        QuoteState::Quoted => if c == '"' {
            QuoteState::QuoteInQuoted
        } else {
            QuoteState::Quoted
        },
        QuoteState::QuoteInQuoted => if c == '"' {
            QuoteState::Quoted
        } else if is_separator(c) {
            QuoteState::FieldStart
        } else {
            QuoteState::Unquoted
        },
        QuoteState::FieldStart => if c == '"' {
            QuoteState::Quoted
        } else if is_separator(c) {
            QuoteState::FieldStart
        } else {
            QuoteState::Unquoted
        },
        QuoteState::Unquoted => if is_separator(c) {
            QuoteState::FieldStart
        } else {
            QuoteState::Unquoted
        },
    }
}

/// Where the scan stands after all of `s`.
pub open spec fn quote_state(s: Seq<char>) -> QuoteState
    decreases s.len(),
{
    if s.len() == 0 {
        QuoteState::FieldStart
    } else {
        quote_step(quote_state(s.drop_last()), s.last())
    }
}

/// `s` ends inside a quoted field that was never closed.
pub open spec fn unclosed_quote(s: Seq<char>) -> bool {
    quote_state(s) == QuoteState::Quoted
}

fn quote_step_exec(st: QuoteState, c: char) -> (r: QuoteState)
    ensures
        r == quote_step(st, c),
{
    let sep = c == ',' || c == '\n' || c == '\r';
    match st {
        QuoteState::Quoted => if c == '"' {
            QuoteState::QuoteInQuoted
        } else {
            QuoteState::Quoted
        },
        QuoteState::QuoteInQuoted => if c == '"' {
            QuoteState::Quoted
        } else if sep {
            QuoteState::FieldStart
        } else {
            QuoteState::Unquoted
        },
        QuoteState::FieldStart => if c == '"' {
            QuoteState::Quoted
        } else if sep {
            QuoteState::FieldStart
        } else {
            QuoteState::Unquoted
        },
        QuoteState::Unquoted => if sep {
            QuoteState::FieldStart
        } else {
            QuoteState::Unquoted
        },
    }
}

/// Decides whether `content` ends inside a quoted field that never closes.
pub fn has_unclosed_quote(content: &str) -> (r: bool)
    ensures
        r == unclosed_quote(content@),
{
    let v = chars_of(content);
    let mut st = QuoteState::FieldStart;
    let mut i: usize = 0;
    while i < v.len()
        invariant
            i <= v@.len(),
            st == quote_state(v@.take(i as int)),
        decreases v@.len() - i,
    {
        assert(v@.take(i as int + 1).drop_last() =~= v@.take(i as int));
        st = quote_step_exec(st, v[i]);
        i = i + 1;
    }
    assert(v@.take(i as int) =~= v@);
    st == QuoteState::Quoted
}

/// Splits `content` into its header row and data rows, every label and field
/// trimmed of surrounding whitespace. Fails where a quoted field never
/// closes, where the reader reports an error, or where it finds no header
/// field at all.
pub fn csvreader(content: &str) -> (r: Result<Csvinput, ConvertError>)
    ensures
        if unclosed_quote(content@) {
            r == Err::<Csvinput, ConvertError>(ConvertError::Parse)
        } else {
            match csv_table_of(content@) {
                None => r == Err::<Csvinput, ConvertError>(ConvertError::Parse),
                Some((h, rows)) => if h.len() == 0 {
                    r == Err::<Csvinput, ConvertError>(ConvertError::Parse)
                } else {
                    r is Ok && r->Ok_0.header.deep_view() == h && r->Ok_0.records.deep_view()
                        == rows
                },
            }
        },
        r is Ok ==> all_trimmed(r->Ok_0.header.deep_view(), r->Ok_0.records.deep_view()),
{
    if has_unclosed_quote(content) {
        return Err(ConvertError::Parse);
    }
    match read_csv(content) {
        Ok((header, records)) => {
            if header.len() == 0 {
                Err(ConvertError::Parse)
            } else {
                Ok(Csvinput { header, records })
            }
        },
        Err(_) => Err(ConvertError::Parse),
    }
}

} // verus!
