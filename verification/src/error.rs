//! The error taxonomy of the transcoder, together with the stable string
//! form of each error kind used for cross-boundary reporting.

use vstd::prelude::*;

verus! {

/// Represents the kind of errors that can be caught when transcoding
/// CSV <-> JSON data.
#[derive(Debug, Eq, PartialEq, Clone)]
pub enum Error {
    /// The CSV header line could not be parsed under the dialect.
    /// (Historical name: the original interface reported header parse
    /// failures as encoding failures, and the kind name is kept for
    /// wire compatibility.)
    InvalidEncoding,
    /// A CSV data row could not be parsed under the dialect.
    InvalidRow,
    /// A CSV data row has strictly more fields than the header.
    /// Carries (header length, row length).
    InvalidRowSize(usize, usize),
    /// Serializing a table to JSON failed; carries a diagnostic.
    JSONSerializationError(String),
    /// Deserializing JSON into a table failed; carries a diagnostic.
    JSONDeserializationError(String),
    /// Writing the CSV header failed; carries a diagnostic.
    CSVWriteHeaderError(String),
    /// Writing a CSV data row failed; carries a diagnostic.
    CSVWriteRowError(String),
}

/// The decimal digit character for a value in 0..=9.
pub open spec fn digit_char(d: int) -> char {
    if d == 0 {
        '0'
    } else if d == 1 {
        '1'
    } else if d == 2 {
        '2'
    } else if d == 3 {
        '3'
    } else if d == 4 {
        '4'
    } else if d == 5 {
        '5'
    } else if d == 6 {
        '6'
    } else if d == 7 {
        '7'
    } else if d == 8 {
        '8'
    } else {
        '9'
    }
}

/// The decimal digit string of a nonnegative integer, most significant
/// digit first, with no leading zeros (except for the value zero itself).
pub open spec fn dec_digits(n: int) -> Seq<char>
    decreases n,
{
    if n < 10 {
        seq![digit_char(n)]
    } else {
        dec_digits(n / 10).push(digit_char(n % 10))
    }
}

/// The stable string form of an error kind, as reported across the
/// call boundary.
pub open spec fn error_message(e: Error) -> Seq<char> {
    match e {
        Error::InvalidEncoding => "invalid_encoding"@,
        Error::InvalidRow => "invalid_row"@,
        Error::InvalidRowSize(h, r) => "invalid_row_size: header("@ + dec_digits(h as int)
            + "), row("@ + dec_digits(r as int) + ")"@,
        Error::JSONSerializationError(s) => "json_serialization_error: "@ + s@,
        Error::JSONDeserializationError(s) => "json_deserialization_error: "@ + s@,
        Error::CSVWriteHeaderError(s) => "csv_write_header_error: "@ + s@,
        Error::CSVWriteRowError(s) => "csv_write_row_error: "@ + s@,
    }
}

/// A single decimal digit as a string slice.
fn digit_str(d: usize) -> (r: &'static str)
    requires
        d < 10,
    ensures
        r@ == seq![digit_char(d as int)],
{
    proof {
        reveal_strlit("0");
        reveal_strlit("1");
        reveal_strlit("2");
        reveal_strlit("3");
        reveal_strlit("4");
        reveal_strlit("5");
        reveal_strlit("6");
        reveal_strlit("7");
        reveal_strlit("8");
        reveal_strlit("9");
    }
    let r: &'static str = match d {
        0 => "0",
        1 => "1",
        2 => "2",
        3 => "3",
        4 => "4",
        5 => "5",
        6 => "6",
        7 => "7",
        8 => "8",
        _ => "9",
    };
    proof {
        assert(r@ =~= seq![digit_char(d as int)]);
    }
    r
}

/// The decimal digit string of a machine integer.
pub fn dec_string(n: usize) -> (r: String)
    ensures
        r@ == dec_digits(n as int),
    decreases n,
{
    if n < 10 {
        String::from_str(digit_str(n))
    } else {
        let mut s = dec_string(n / 10);
        s.append(digit_str(n % 10));
        proof {
            assert(s@ =~= dec_digits(n as int));
        }
        s
    }
}

impl Error {
    /// The stable lowercase-with-underscores string form of this error,
    /// used by the boundary layer to fill the failure envelope.
    pub fn message(&self) -> (r: String)
        ensures
            r@ == error_message(*self),
    {
        match self {
            Error::InvalidEncoding => String::from_str("invalid_encoding"),
            Error::InvalidRow => String::from_str("invalid_row"),
            Error::InvalidRowSize(h, rl) => {
                let mut s = String::from_str("invalid_row_size: header(");
                s.append(dec_string(*h).as_str());
                s.append("), row(");
                s.append(dec_string(*rl).as_str());
                s.append(")");
                proof {
                    assert(s@ =~= error_message(*self));
                }
                s
            },
            Error::JSONSerializationError(m) => {
                let mut s = String::from_str("json_serialization_error: ");
                s.append(m.as_str());
                proof {
                    assert(s@ =~= error_message(*self));
                }
                s
            },
            Error::JSONDeserializationError(m) => {
                let mut s = String::from_str("json_deserialization_error: ");
                s.append(m.as_str());
                proof {
                    assert(s@ =~= error_message(*self));
                }
                s
            },
            Error::CSVWriteHeaderError(m) => {
                let mut s = String::from_str("csv_write_header_error: ");
                s.append(m.as_str());
                proof {
                    assert(s@ =~= error_message(*self));
                }
                s
            },
            Error::CSVWriteRowError(m) => {
                let mut s = String::from_str("csv_write_row_error: ");
                s.append(m.as_str());
                proof {
                    assert(s@ =~= error_message(*self));
                }
                s
            },
        }
    }
}

/// Every failure kind carries a non-empty stable message: the failure
/// envelope at the call boundary never shows an empty diagnostic.
pub proof fn lemma_error_message_nonempty(e: Error)
    ensures
        error_message(e).len() > 0,
{
    reveal_strlit("invalid_encoding");
    reveal_strlit("invalid_row");
    reveal_strlit("invalid_row_size: header(");
    reveal_strlit("json_serialization_error: ");
    reveal_strlit("json_deserialization_error: ");
    reveal_strlit("csv_write_header_error: ");
    reveal_strlit("csv_write_row_error: ");
}

/// The failure payload of the call boundary: a single diagnostic string.
#[derive(Debug, Clone)]
pub struct ErrorResult {
    pub error: String,
}

impl ErrorResult {
    /// Packs an error's stable message into the failure payload.
    pub fn from_error(e: &Error) -> (r: ErrorResult)
        ensures
            r.error@ == error_message(*e),
    {
        ErrorResult { error: e.message() }
    }
}

} // verus!
