//! Comma-separated statement files.

use vstd::prelude::*;
use crate::cell::RawTable;
use crate::conf::detected;
use crate::conf::Config;
use crate::error::Error;
use crate::error::Failure;
use crate::reader::fmt_df;
use crate::reader::fmt_outcome;
use crate::reader::outcome;
use crate::reader::CanonicalRow;
use crate::reader::GenericFile;
use crate::reader::RowView;

verus! {

/// A line without the line break at its end: a final line feed is left out, and with
/// it a carriage return that stands before it. Nothing else is trimmed.
pub open spec fn without_line_end(s: Seq<char>) -> Seq<char> {
    if s.len() >= 2 && s[s.len() - 2] == '\r' && s[s.len() - 1] == '\n' {
        s.take(s.len() - 2)
    } else if s.len() >= 1 && s[s.len() - 1] == '\n' {
        s.take(s.len() - 1)
    } else {
        s
    }
}

/// The column names that the first line of a file holds: the pieces between the
/// commas of the line, its line break left out.
pub open spec fn header_names(line: Seq<char>) -> Seq<Seq<char>> {
    split_commas(without_line_end(line))
}

/// The pieces of a text between its commas. A text without a comma is one piece;
/// blanks stay, and quotes have no meaning.
pub open spec fn split_commas(s: Seq<char>) -> Seq<Seq<char>>
    decreases s.len(),
{
    match s.index_of_first(',') {
        Some(p) => if 0 <= p < s.len() {
            seq![s.take(p)] + split_commas(s.skip(p + 1))
        } else {
            seq![s]
        },
        None => seq![s],
    }
}

/// Splits the first line of a file, as it was read, into its column names.
pub fn split_header(line: &str) -> (pieces: Vec<String>)
    ensures
        pieces.deep_view() == header_names(line@),
{
    let n = line.unicode_len();
    let end = if n >= 2 && line.get_char(n - 2) == '\r' && line.get_char(n - 1) == '\n' {
        n - 2
    } else if n >= 1 && line.get_char(n - 1) == '\n' {
        n - 1
    } else {
        n
    };
    let body = line.substring_char(0, end);
    assert(body@ =~= without_line_end(line@));
    split_at_commas(body)
}

/// Splits a text at its commas.
fn split_at_commas(line: &str) -> (pieces: Vec<String>)
    ensures
        pieces.deep_view() == split_commas(line@),
{
    let n = line.unicode_len();
    let mut pieces: Vec<String> = Vec::new();
    let mut start: usize = 0;
    let mut i: usize = 0;
    assert(line@.skip(0) =~= line@);
    assert(pieces.deep_view() =~= Seq::<Seq<char>>::empty());
    while i < n
        invariant
            start <= i <= n == line@.len(),
            forall|k: int| start <= k < i ==> line@[k] != ',',
            split_commas(line@) == pieces.deep_view() + split_commas(line@.skip(start as int)),
        decreases n - i,
    {
        let c = line.get_char(i);
        if c == ',' {
            let piece = line.substring_char(start, i).to_owned();
            proof {
                let rest = line@.skip(start as int);
                rest.index_of_first_ensures(',');
                assert(rest[i - start] == ',');
                assert(forall|k: int| 0 <= k < i - start ==> rest[k] == line@[start + k]);
                assert(rest.index_of_first(',') == Some(i - start));
                assert(rest.take(i - start) =~= line@.subrange(start as int, i as int));
                assert(rest.skip(i - start + 1) =~= line@.skip(i + 1));
            }
            let ghost before = pieces.deep_view();
            pieces.push(piece);
            assert(pieces.deep_view() =~= before.push(piece@));
            assert(before.push(piece@) + split_commas(line@.skip(i + 1)) =~= before + (seq![piece@]
                + split_commas(line@.skip(i + 1))));
            start = i + 1;
        }
        i += 1;
    }
    let piece = line.substring_char(start, n).to_owned();
    proof {
        let rest = line@.skip(start as int);
        rest.index_of_first_ensures(',');
        assert(forall|k: int| 0 <= k < rest.len() ==> rest[k] == line@[start + k]);
        assert(rest.index_of_first(',') is None);
        assert(rest =~= line@.subrange(start as int, n as int));
    }
    let ghost before = pieces.deep_view();
    pieces.push(piece);
    assert(pieces.deep_view() =~= before.push(piece@));
    assert(before.push(piece@) =~= before + seq![piece@]);
    pieces
}

/// A comma-separated file: its path, the column names of its first line, the layout
/// detected from them, and its decoded content.
pub struct CsvData {
    pub path: String,
    pub sig: Vec<String>,
    pub config: Config,
    pub table: RawTable,
}

/// What reading a comma-separated file gives: the layout is detected from the names
/// of the first line, and the decoded table is normalized under it.
pub open spec fn csv_outcome(
    path: Seq<char>,
    first_line: Seq<char>,
    names: Seq<Seq<char>>,
    rows: Seq<Seq<crate::cell::Value>>,
) -> Result<Seq<RowView>, Failure> {
    match detected(header_names(first_line)) {
        Some(config) => fmt_outcome(names, rows, path, config),
        None => Err(Failure::UnrecognizedLayout(header_names(first_line))),
    }
}

impl CsvData {
    /// Takes up a file from its path, its first line, and its decoded table. The first
    /// line may still end in its line break; the names are those of the line without
    /// it. Fails where no layout of the catalog matches them.
    pub fn new(path: &str, first_line: &str, table: RawTable) -> (r: Result<CsvData, Error>)
        ensures
            match r {
                Ok(file) => {
                    &&& file.path@ == path@
                    &&& file.sig.deep_view() == header_names(first_line@)
                    &&& detected(header_names(first_line@)) == Some(file.config)
                    &&& file.table == table
                },
                Err(e) => {
                    &&& detected(header_names(first_line@)) is None
                    &&& e@ == Failure::UnrecognizedLayout(header_names(first_line@))
                },
            },
    {
        let sig = split_header(first_line);
        let detection = {
            let names: &[String] = sig.as_slice();
            assert(names.deep_view() =~= sig.deep_view());
            Config::auto_detect(names)
        };
        match detection {
            Ok(config) => Ok(CsvData { path: path.to_owned(), sig, config, table }),
            Err(e) => Err(e),
        }
    }
}

impl GenericFile for CsvData {
    /// The path the file was taken up with.
    fn path(&self) -> (r: String)
        ensures
            r@ == self.path@,
    {
        self.path.clone()
    }

    /// The column names by which the layout was detected.
    fn signature(&self) -> (r: &[String])
        ensures
            r@ == self.sig@,
    {
        self.sig.as_slice()
    }

    /// Normalizes the content of the file under its layout.
    fn into_dataframe(self) -> (r: Result<Vec<CanonicalRow>, Error>)
        ensures
            outcome(r) == fmt_outcome(
                self.table.header.deep_view(),
                self.table.rows.deep_view(),
                self.path@,
                self.config,
            ),
    {
        fmt_df(&self.table, self.path.as_str(), &self.config)
    }
}

} // verus!
