//! Bank statement codecs: a fixed-column line format (MT940), an ISO 20022
//! XML statement (CAMT.053) and a delimited table, all meeting in one
//! canonical statement model.

pub mod text;
pub mod error;
pub mod types;
pub mod mt940_format;
pub mod mt940_round_trip;
pub mod camt053_format;
pub mod csv_format;
pub mod conversion;
pub mod compare;

use vstd::prelude::*;

pub use error::Error;
pub use types::{Amount, Balance, BalanceType, Date, DebitCredit, Statement, Transaction};

verus! {

/// The interchange formats.
#[derive(Debug, Clone, Copy, PartialEq, Eq, Structural)]
pub enum Format {
    /// The tagged line format (MT940).
    Mt940,
    /// The ISO 20022 XML statement (CAMT.053).
    Camt053,
    /// The delimited table.
    Csv,
}

/// The format that a lower-case name stands for, if any.
pub open spec fn format_of_name(s: Seq<char>) -> Option<Format> {
    if s == "mt940"@ || s == "mt-940"@ || s == "swift"@ {
        Some(Format::Mt940)
    } else if s == "camt053"@ || s == "camt.053"@ || s == "camt"@ || s == "xml"@ {
        Some(Format::Camt053)
    } else if s == "csv"@ {
        Some(Format::Csv)
    } else {
        None
    }
}

/// The file extension of a format.
pub open spec fn extension_of(f: Format) -> Seq<char> {
    match f {
        Format::Mt940 => "mt940"@,
        Format::Camt053 => "xml"@,
        Format::Csv => "csv"@,
    }
}

impl Format {
    /// The format named by a lower-case text.
    pub fn from_lower(name: &str) -> (r: Option<Format>)
        ensures
            r == format_of_name(name@),
    {
        if text::is_text(name, "mt940") || text::is_text(name, "mt-940") || text::is_text(
            name,
            "swift",
        ) {
            Some(Format::Mt940)
        } else if text::is_text(name, "camt053") || text::is_text(name, "camt.053")
            || text::is_text(name, "camt") || text::is_text(name, "xml") {
            Some(Format::Camt053)
        } else if text::is_text(name, "csv") {
            Some(Format::Csv)
        } else {
            None
        }
    }

    /// The format named by `s`, whatever its case; an unknown name is
    /// reported with the text as given.
    pub fn from_str(s: &str) -> (r: Result<Format, Error>)
        ensures
            format_of_name(text::lower_of(s@)) matches Some(f) ==> r == Ok::<Format, Error>(f),
            format_of_name(text::lower_of(s@)) is None ==> (r matches Err(Error::InvalidFormat(t))
                && t@ == s@),
    {
        let low = text::to_lower(s);
        match Format::from_lower(low.as_str()) {
            Some(f) => Ok(f),
            None => Err(Error::InvalidFormat(text::text_of(text::chars_of(s).as_slice()))),
        }
    }

    /// `mt940`, `xml` or `csv`.
    pub fn extension(&self) -> (r: &'static str)
        ensures
            r@ == extension_of(*self),
    {
        match self {
            Format::Mt940 => "mt940",
            Format::Camt053 => "xml",
            Format::Csv => "csv",
        }
    }
}

impl core::str::FromStr for Format {
    type Err = Error;

    fn from_str(s: &str) -> Result<Format, Error> {
        Format::from_str(s)
    }
}

} // verus!
