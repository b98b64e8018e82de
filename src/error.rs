//! Errors reported by the codecs.

use vstd::prelude::*;

verus! {

/// One failure of a parse or serialize operation.
#[derive(Debug, Clone, PartialEq, Eq)]
pub enum Error {
    /// A read or a write failed; the message of the failure.
    Io(String),
    /// The delimited table could not be read or written.
    CsvError(String),
    /// The XML document could not be read or written.
    XmlError(String),
    /// A line of the MT940 text could not be decoded.
    Mt940ParseError { line: usize, message: String },
    /// A date could not be decoded.
    InvalidDate(String),
    /// An amount could not be decoded.
    InvalidAmount(String),
    /// A field that the format requires is absent.
    MissingField(String),
    /// The name of a format is not known.
    InvalidFormat(String),
    /// Any other decoding failure.
    ParseError(String),
    /// A statement could not be converted between formats.
    ConversionError(String),
}

/// An error, with its texts as character sequences.
pub enum ErrorView {
    Io(Seq<char>),
    CsvError(Seq<char>),
    XmlError(Seq<char>),
    Mt940ParseError { line: usize, message: Seq<char> },
    InvalidDate(Seq<char>),
    InvalidAmount(Seq<char>),
    MissingField(Seq<char>),
    InvalidFormat(Seq<char>),
    ParseError(Seq<char>),
    ConversionError(Seq<char>),
}

impl View for Error {
    type V = ErrorView;

    open spec fn view(&self) -> ErrorView {
        match self {
            Error::Io(m) => ErrorView::Io(m@),
            Error::CsvError(m) => ErrorView::CsvError(m@),
            Error::XmlError(m) => ErrorView::XmlError(m@),
            Error::Mt940ParseError { line, message } => ErrorView::Mt940ParseError {
                line: *line,
                message: message@,
            },
            Error::InvalidDate(m) => ErrorView::InvalidDate(m@),
            Error::InvalidAmount(m) => ErrorView::InvalidAmount(m@),
            Error::MissingField(m) => ErrorView::MissingField(m@),
            Error::InvalidFormat(m) => ErrorView::InvalidFormat(m@),
            Error::ParseError(m) => ErrorView::ParseError(m@),
            Error::ConversionError(m) => ErrorView::ConversionError(m@),
        }
    }
}

} // verus!
