//! Spreadsheet statement files.

use vstd::prelude::*;
use crate::amount::is_digit;
use crate::cell::Cell;
use crate::cell::RawTable;
use crate::cell::TimeUnit;
use crate::cell::Value;
use crate::conf::detected;
use crate::conf::Config;
use crate::error::Error;
use crate::error::Failure;
use crate::reader::fmt_df;
use crate::reader::fmt_outcome;
use crate::reader::outcome;
use crate::reader::CanonicalRow;
use crate::reader::GenericFile;
use crate::reader::RowView;

verus! {

/// One cell of a sheet as the spreadsheet decoder gives it.
#[derive(PartialEq, Eq, Debug)]
pub enum SheetCell {
    Int(i64),
    /// The 64 bits of the double.
    Float(u64),
    String(String),
    Bool(bool),
    /// A date-time cell: the milliseconds since the Unix epoch where the decoder could
    /// tell them, and the cell as text.
    DateTime(Option<i64>, String),
    /// A date-time written in ISO 8601.
    DateTimeIso(String),
    /// A duration as text.
    DurationIso(String),
    /// The text of a cell error.
    Error(String),
    Empty,
}

/// Mathematical value of a [`SheetCell`].
pub ghost enum SheetValue {
    Int(i64),
    Float(u64),
    String(Seq<char>),
    Bool(bool),
    DateTime(Option<i64>, Seq<char>),
    DateTimeIso(Seq<char>),
    DurationIso(Seq<char>),
    Error(Seq<char>),
    Empty,
}

impl View for SheetCell {
    type V = SheetValue;

    open spec fn view(&self) -> SheetValue {
        match *self {
            SheetCell::Int(v) => SheetValue::Int(v),
            SheetCell::Float(bits) => SheetValue::Float(bits),
            SheetCell::String(s) => SheetValue::String(s@),
            SheetCell::Bool(b) => SheetValue::Bool(b),
            SheetCell::DateTime(millis, text) => SheetValue::DateTime(millis, text@),
            SheetCell::DateTimeIso(text) => SheetValue::DateTimeIso(text@),
            SheetCell::DurationIso(text) => SheetValue::DurationIso(text@),
            SheetCell::Error(text) => SheetValue::Error(text@),
            SheetCell::Empty => SheetValue::Empty,
        }
    }
}

impl DeepView for SheetCell {
    type V = SheetValue;

    open spec fn deep_view(&self) -> SheetValue {
        self@
    }
}

/// The first sheet of a workbook: the texts of its first row, absent where the sheet
/// has no cell at all, and the rows below the first.
pub struct Sheet {
    pub headers: Option<Vec<String>>,
    pub rows: Vec<Vec<SheetCell>>,
}

/// The nanoseconds since the Unix epoch of the instant that `text` writes in RFC 3339,
/// as chrono reads it; `None` where `text` is no RFC 3339 date-time, or the instant
/// is not within the nanoseconds that 64 bits hold.
pub uninterp spec fn rfc3339_nanos(text: Seq<char>) -> Option<i64>;

/// Parses a date-time with chrono's `DateTime::parse_from_rfc3339` and takes the
/// instant in nanoseconds with `DateTime::timestamp_nanos_opt`. The contract gives
/// the outcome its name and claims nothing more of it: both functions work on their
/// argument alone. A parse error and an instant out of range both come back as `None`.
#[verifier::external_body]
pub(crate) fn parse_rfc3339(text: &str) -> (r: Option<i64>)
    ensures
        r == rfc3339_nanos(text@),
{
    match chrono::DateTime::parse_from_rfc3339(text) {
        Ok(instant) => instant.timestamp_nanos_opt(),
        Err(_) => None,
    }
}

/// The nanoseconds that polars reads from a duration text such as `1h30m`: the sum of
/// its parts of an hour and below, whatever its sign and its parts of a day and above;
/// `None` where polars does not read `text` as a duration.
pub uninterp spec fn duration_nanos(text: Seq<char>) -> Option<i64>;

/// Parses a duration with polars' `Duration::try_parse` and takes its nanoseconds
/// with `Duration::nanoseconds`. The contract gives the outcome its name and claims
/// nothing more of it: both functions work on their argument alone. A parse error
/// comes back as `None`. The texts left out are those on which polars' sums and
/// products of the numbers in the text could leave 64 bits: with six digits in all no
/// number is above 999999, and the largest factor is the nanoseconds of an hour.
#[verifier::external_body]
pub(crate) fn parse_duration(text: &str) -> (r: Option<i64>)
    requires
        plain_duration(text@),
    ensures
        r == duration_nanos(text@),
{
    match polars::prelude::Duration::try_parse(text) {
        Ok(duration) => Some(duration.nanoseconds()),
        Err(_) => None,
    }
}

/// How many decimal digits a text holds.
pub open spec fn digit_count(s: Seq<char>) -> nat
    decreases s.len(),
{
    if s.len() == 0 {
        0
    } else {
        digit_count(s.drop_last()) + if is_digit(s.last()) {
            1nat
        } else {
            0nat
        }
    }
}

/// Whether a duration text can be handed to the parser: it holds six digits at most.
pub open spec fn plain_duration(text: Seq<char>) -> bool {
    digit_count(text) <= 6
}

/// The nanoseconds that a duration text holds: what the parser reads, and null for a
/// text that it cannot be handed.
pub open spec fn parsed_duration(text: Seq<char>) -> Option<i64> {
    if plain_duration(text) {
        duration_nanos(text)
    } else {
        None
    }
}

/// The cell of a duration, given what the parse of its text gave: the nanoseconds,
/// or the text itself where the parse gave nothing.
pub open spec fn duration_value(text: Seq<char>, nanos: Option<i64>) -> Value {
    match nanos {
        Some(d) => Value::Duration(d),
        None => Value::Str(text),
    }
}

/// Tells whether a duration text can be handed to the parser.
pub fn is_plain_duration(text: &str) -> (r: bool)
    ensures
        r == plain_duration(text@),
{
    let n = text.unicode_len();
    let mut digits: usize = 0;
    let mut i: usize = 0;
    assert(text@.take(0) =~= Seq::<char>::empty());
    while i < n
        invariant
            i <= n == text@.len(),
            digits == digit_count(text@.take(i as int)),
            digits <= i,
        decreases n - i,
    {
        let code: u32 = text.get_char(i) as u32;
        proof {
            let next = text@.take(i + 1);
            assert(next.drop_last() =~= text@.take(i as int));
            assert(next.last() == text@[i as int]);
        }
        if code >= 48 && code <= 57 {
            digits += 1;
        }
        i += 1;
    }
    assert(text@.take(n as int) =~= text@);
    digits <= 6
}

/// Reads the nanoseconds that a duration text holds.
pub fn read_duration(text: &str) -> (r: Option<i64>)
    ensures
        r == parsed_duration(text@),
{
    if is_plain_duration(text) {
        parse_duration(text)
    } else {
        None
    }
}

/// The cell of a duration from its text and the result of parsing it.
pub fn duration_cell(text: &str, nanos: Option<i64>) -> (r: Cell)
    ensures
        r@ == duration_value(text@, nanos),
{
    match nanos {
        Some(d) => Cell::Duration(d),
        None => Cell::Str(text.to_owned()),
    }
}

/// Whether a text cell stands for a missing value: a lone hyphen or a lone underscore.
pub open spec fn is_null_mark(s: Seq<char>) -> bool {
    s == seq!['-'] || s == seq!['_']
}

/// The cell of an ISO date-time, given what the parse of its text gave: the instant
/// in nanoseconds, or the text itself where the parse gave nothing.
pub open spec fn iso_value(text: Seq<char>, nanos: Option<i64>) -> Value {
    match nanos {
        Some(t) => Value::Datetime(t, TimeUnit::Nanoseconds),
        None => Value::Str(text),
    }
}

/// The typed value of a sheet cell.
pub open spec fn converted(cell: SheetValue) -> Value {
    match cell {
        SheetValue::Int(v) => Value::Int(v),
        SheetValue::Float(bits) => Value::Float(bits),
        SheetValue::String(s) => if is_null_mark(s) {
            Value::Null
        } else {
            Value::Str(s)
        },
        SheetValue::Bool(b) => Value::Bool(b),
        SheetValue::DateTime(millis, text) => match millis {
            Some(t) => Value::Datetime(t, TimeUnit::Milliseconds),
            None => Value::Str(text),
        },
        SheetValue::DateTimeIso(text) => iso_value(text, rfc3339_nanos(text)),
        SheetValue::DurationIso(text) => duration_value(text, parsed_duration(text)),
        SheetValue::Error(text) => Value::Str(text),
        SheetValue::Empty => Value::Null,
    }
}

/// Whether a text is a null mark.
pub fn null_mark(text: &str) -> (r: bool)
    ensures
        r == is_null_mark(text@),
{
    if text.unicode_len() != 1 {
        return false;
    }
    let c = text.get_char(0);
    proof {
        assert(c == '-' ==> text@ =~= seq!['-']);
        assert(c == '_' ==> text@ =~= seq!['_']);
        assert(seq!['-'][0] == '-');
        assert(seq!['_'][0] == '_');
    }
    c == '-' || c == '_'
}

/// The cell of an ISO date-time from its text and the result of parsing it.
pub fn iso_cell(text: &str, nanos: Option<i64>) -> (r: Cell)
    ensures
        r@ == iso_value(text@, nanos),
{
    match nanos {
        Some(t) => Cell::Datetime(t, TimeUnit::Nanoseconds),
        None => Cell::Str(text.to_owned()),
    }
}

/// Converts a sheet cell into a typed cell.
pub fn to_cell(cell: &SheetCell) -> (r: Cell)
    ensures
        r@ == converted(cell@),
{
    match cell {
        SheetCell::Int(v) => Cell::Int(*v),
        SheetCell::Float(bits) => Cell::Float(*bits),
        SheetCell::String(s) => {
            if null_mark(s.as_str()) {
                Cell::Null
            } else {
                Cell::Str(s.clone())
            }
        },
        SheetCell::Bool(b) => Cell::Bool(*b),
        SheetCell::DateTime(millis, text) => match millis {
            Some(t) => Cell::Datetime(*t, TimeUnit::Milliseconds),
            None => Cell::Str(text.clone()),
        },
        SheetCell::DateTimeIso(text) => iso_cell(text.as_str(), parse_rfc3339(text.as_str())),
        SheetCell::DurationIso(text) => duration_cell(text.as_str(), read_duration(text.as_str())),
        SheetCell::Error(text) => Cell::Str(text.clone()),
        SheetCell::Empty => Cell::Null,
    }
}

/// The typed values of the rows of a sheet.
pub open spec fn converted_rows(rows: Seq<Seq<SheetValue>>) -> Seq<Seq<Value>> {
    Seq::new(rows.len(), |i: int| Seq::new(rows[i].len(), |j: int| converted(rows[i][j])))
}

/// Converts the rows of a sheet cell by cell.
pub fn to_rows(rows: &Vec<Vec<SheetCell>>) -> (r: Vec<Vec<Cell>>)
    ensures
        r.deep_view() == converted_rows(rows.deep_view()),
{
    let mut out: Vec<Vec<Cell>> = Vec::new();
    let mut i: usize = 0;
    while i < rows.len()
        invariant
            i <= rows@.len(),
            out@.len() == i,
            forall|k: int|
                0 <= k < i ==> (#[trigger] out@[k]).deep_view() == converted_rows(
                    rows.deep_view(),
                )[k],
        decreases rows@.len() - i,
    {
        let source = &rows[i];
        let mut line: Vec<Cell> = Vec::new();
        let mut j: usize = 0;
        while j < source.len()
            invariant
                j <= source@.len(),
                line@.len() == j,
                forall|k: int| 0 <= k < j ==> (#[trigger] line@[k])@ == converted(source@[k]@),
            decreases source@.len() - j,
        {
            line.push(to_cell(&source[j]));
            j += 1;
        }
        assert(line.deep_view() =~= converted_rows(rows.deep_view())[i as int]);
        out.push(line);
        i += 1;
    }
    assert(out.deep_view() =~= converted_rows(rows.deep_view()));
    out
}

/// A spreadsheet file: its path, its first sheet, the texts of the first row, and
/// the layout detected from them.
pub struct XlsxData {
    pub path: String,
    pub sheet: Vec<Vec<SheetCell>>,
    pub sig: Vec<String>,
    pub config: Config,
}

/// What a spreadsheet gives once its layout is known: a sheet without rows below the
/// header is refused; else the columns are named by the header and the converted rows
/// are normalized under the layout. Where the header repeats a name, the first column
/// of that name is the one that is read.
pub open spec fn sheet_outcome(
    path: Seq<char>,
    sig: Seq<Seq<char>>,
    rows: Seq<Seq<SheetValue>>,
    config: Config,
) -> Result<Seq<RowView>, Failure> {
    if rows.len() == 0 {
        Err(Failure::EmptySheet)
    } else {
        fmt_outcome(sig, converted_rows(rows), path, config)
    }
}

/// What reading a spreadsheet gives, from the opening of the sheet on.
pub open spec fn xlsx_outcome(
    path: Seq<char>,
    headers: Option<Seq<Seq<char>>>,
    rows: Seq<Seq<SheetValue>>,
) -> Result<Seq<RowView>, Failure> {
    match headers {
        None => Err(Failure::MissingHeader),
        Some(sig) => match detected(sig) {
            Some(config) => sheet_outcome(path, sig, rows, config),
            None => Err(Failure::UnrecognizedLayout(sig)),
        },
    }
}

impl XlsxData {
    /// Takes up a spreadsheet from its path and its first sheet. Fails where the sheet
    /// has no header row, or no layout of the catalog matches the header.
    pub fn new(path: &str, sheet: Sheet) -> (r: Result<XlsxData, Error>)
        ensures
            match r {
                Ok(file) => {
                    &&& sheet.headers matches Some(sig)
                    &&& file.path@ == path@
                    &&& file.sig == sig
                    &&& file.sheet == sheet.rows
                    &&& detected(sig.deep_view()) == Some(file.config)
                },
                Err(e) => match sheet.headers {
                    None => e@ == Failure::MissingHeader,
                    Some(sig) => {
                        &&& detected(sig.deep_view()) is None
                        &&& e@ == Failure::UnrecognizedLayout(sig.deep_view())
                    },
                },
            },
    {
        let Sheet { headers, rows } = sheet;
        let sig = match headers {
            Some(sig) => sig,
            None => {
                return Err(Error::MissingHeader);
            },
        };
        let detection = {
            let names: &[String] = sig.as_slice();
            assert(names.deep_view() =~= sig.deep_view());
            Config::auto_detect(names)
        };
        match detection {
            Ok(config) => Ok(XlsxData { path: path.to_owned(), sheet: rows, sig, config }),
            Err(e) => Err(e),
        }
    }
}

impl GenericFile for XlsxData {
    /// The path the file was taken up with.
    fn path(&self) -> (r: String)
        ensures
            r@ == self.path@,
    {
        self.path.clone()
    }

    /// The column names by which the layout was detected.
    fn signature(&self) -> (r: &[String])
        ensures
            r@ == self.sig@,
    {
        self.sig.as_slice()
    }

    /// Normalizes the content of the file under its layout.
    fn into_dataframe(self) -> (r: Result<Vec<CanonicalRow>, Error>)
        ensures
            outcome(r) == sheet_outcome(
                self.path@,
                self.sig.deep_view(),
                self.sheet.deep_view(),
                self.config,
            ),
    {
        if self.sheet.len() == 0 {
            return Err(Error::EmptySheet);
        }
        let table = RawTable { header: self.sig, rows: to_rows(&self.sheet) };
        fmt_df(&table, self.path.as_str(), &self.config)
    }
}

} // verus!
