//! Failures that end the handling of one file or one batch.

use vstd::prelude::*;

verus! {

/// Why a file could not be turned into unified rows, or a batch not be taken into
/// the aggregate. A cell that does not parse is no failure: it gives a null.
#[derive(Debug, PartialEq, Eq)]
pub enum Error {
    /// No layout of the catalog has all its required columns in the header; the header is kept
    /// for the report.
    UnrecognizedLayout(Vec<String>),
    /// A layout was paired with a header that lacks one of its required columns.
    LayoutMismatch,
    /// The layout names a duplicate-key column that the header lacks.
    MissingColumn(&'static str),
    /// The path has no extension, or one that no decoder handles; the extension is kept.
    UnsupportedFormat(String),
    /// The file could not be opened or decoded.
    Unreadable,
    /// The content handed over was decoded for another kind of file than the path names.
    ContentMismatch,
    /// A sheet without a header row.
    MissingHeader,
    /// A sheet with a header row and nothing below it.
    EmptySheet,
    /// A batch holds a row whose fields do not have the types of the unified table.
    UnionFailure,
}

/// Mathematical value of an [`Error`]: the same cases, with text as sequences of characters.
pub ghost enum Failure {
    UnrecognizedLayout(Seq<Seq<char>>),
    LayoutMismatch,
    MissingColumn(Seq<char>),
    UnsupportedFormat(Seq<char>),
    Unreadable,
    ContentMismatch,
    MissingHeader,
    EmptySheet,
    UnionFailure,
}

impl View for Error {
    type V = Failure;

    open spec fn view(&self) -> Failure {
        match *self {
            Error::UnrecognizedLayout(header) => Failure::UnrecognizedLayout(header.deep_view()),
            Error::LayoutMismatch => Failure::LayoutMismatch,
            Error::MissingColumn(column) => Failure::MissingColumn(column@),
            Error::UnsupportedFormat(extension) => Failure::UnsupportedFormat(extension@),
            Error::Unreadable => Failure::Unreadable,
            Error::ContentMismatch => Failure::ContentMismatch,
            Error::MissingHeader => Failure::MissingHeader,
            Error::EmptySheet => Failure::EmptySheet,
            Error::UnionFailure => Failure::UnionFailure,
        }
    }
}

} // verus!
