//! The transcoding facade: the two public operations CSV -> JSON and
//! JSON -> CSV, each a pure function of its input bytes, and the JSON
//! envelopes in which a boundary layer reports results and failures.

use vstd::prelude::*;
use vstd::utf8::decode_utf8;
use vstd::utf8::valid_utf8;

use crate::csv_parse::parse_csv;
use crate::csv_parse::parse_table;
use crate::csv_parse::CsvOutcome;
use crate::csv_write::encode_table;
use crate::csv_write::marshal_csv;
use crate::error::error_message;
use crate::error::Error;
use crate::json_read::parse_json_table;
use crate::json_read::parse_json_table_x;
use crate::json_write::json_table;
use crate::json_write::table_to_json;
use crate::sanitize::sanitize_string;
use crate::sanitize::sanitized;
use crate::sanitize::utf8_str;
use crate::table::CSVData;

verus! {

/// Takes raw CSV file content and transcodes it into JSON text with the
/// table in the stable two-field shape. The bytes are sanitized first
/// (UTF-8 with Latin-1 fallback), so this never fails on encoding; it
/// fails exactly when the CSV parse fails, with that parse error.
pub fn csv_to_json(csv_data: Vec<u8>) -> (r: Result<String, Error>)
    ensures
        ({
            let text = sanitized(csv_data@);
            match r {
                Ok(js) => parse_table(text) matches CsvOutcome::Table(h, rows) && js@ == json_table(
                    h,
                    rows,
                ),
                Err(e) => match e {
                    Error::InvalidEncoding => parse_table(text) is BadHeader,
                    Error::InvalidRow => parse_table(text) is BadRow,
                    Error::InvalidRowSize(hl, rl) => parse_table(text) == CsvOutcome::RowTooLong(
                        hl as int,
                        rl as int,
                    ),
                    _ => false,
                },
            }
        }),
{
    let text = sanitize_string(csv_data);
    match parse_csv(text) {
        Ok(data) => Ok(table_to_json(&data)),
        Err(e) => Err(e),
    }
}

/// Takes JSON text as bytes, deserializes it into a table (the bytes
/// must be valid UTF-8 and the JSON must have the two-field table
/// shape, else `JSONDeserializationError`), and serializes that table
/// as CSV text.
pub fn json_to_csv(json_data: Vec<u8>) -> (r: Result<String, Error>)
    ensures
        match r {
            Ok(csv) => valid_utf8(json_data@) && (parse_json_table(decode_utf8(json_data@)) matches
            Some(t) && csv@ == encode_table(t.0, t.1)),
            Err(e) => match e {
                Error::JSONDeserializationError(m) => (!valid_utf8(json_data@) || parse_json_table(
                    decode_utf8(json_data@),
                ) is None) && m@.len() > 0,
                _ => false,
            },
        },
{
    let st = match utf8_str(json_data.as_slice()) {
        Some(st) => st,
        None => {
            proof {
                reveal_strlit("input is not valid utf-8 text");
            }
            return Err(
                Error::JSONDeserializationError(String::from_str("input is not valid utf-8 text")),
            );
        },
    };
    match parse_json_table_x(st) {
        None => {
            proof {
                reveal_strlit("expected an object with header and rows fields");
            }
            Err(
                Error::JSONDeserializationError(
                    String::from_str("expected an object with header and rows fields"),
                ),
            )
        },
        Some((header, rows)) => marshal_csv(CSVData { header, rows }),
    }
}

/// The success envelope that the boundary layer returns: the payload
/// wrapped in a one-field JSON object.
pub open spec fn data_envelope_text(payload: Seq<char>) -> Seq<char> {
    "{\"data\": "@ + payload + "}"@
}

/// The failure envelope that the boundary layer returns: the error's
/// stable message wrapped in a one-field JSON object.
pub open spec fn error_envelope_text(e: Error) -> Seq<char> {
    "{\"error\": \""@ + error_message(e) + "\"}"@
}

/// Wraps a successful payload in the success envelope.
pub fn data_envelope(payload: &String) -> (r: String)
    ensures
        r@ == data_envelope_text(payload@),
{
    let mut out = String::from_str("{\"data\": ");
    out.append(payload.as_str());
    out.append("}");
    proof {
        assert(out@ =~= data_envelope_text(payload@));
    }
    out
}

/// Wraps an error in the failure envelope. Every error kind has a
/// non-empty message, so the envelope never shows an empty diagnostic.
pub fn error_envelope(e: &Error) -> (r: String)
    ensures
        r@ == error_envelope_text(*e),
        error_message(*e).len() > 0,
{
    proof {
        crate::error::lemma_error_message_nonempty(*e);
    }
    let mut out = String::from_str("{\"error\": \"");
    let msg = e.message();
    out.append(msg.as_str());
    out.append("\"}");
    proof {
        assert(out@ =~= error_envelope_text(*e));
    }
    out
}

} // verus!
