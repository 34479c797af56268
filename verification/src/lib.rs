//! A bidirectional transcoder between CSV-encoded tabular text and a JSON
//! representation of the same table.
//!
//! Raw input bytes are first sanitized into text (strict UTF-8 with a
//! Latin-1 fallback), then parsed under a fixed CSV dialect into a
//! [`CSVData`] table, which can be serialized to JSON text and back.
//! Every failure is reported through the closed [`Error`] taxonomy.

pub mod csv_parse;
pub mod csv_scan;
pub mod csv_write;
pub mod error;
pub mod json_read;
pub mod json_write;
pub mod laws;
pub mod sanitize;
pub mod table;
pub mod transcode;

pub use csv_parse::parse_csv;
pub use csv_write::marshal_csv;
pub use error::Error;
pub use error::ErrorResult;
pub use json_write::json_string_of;
pub use json_write::table_to_json;
pub use sanitize::sanitize_string;
pub use table::CSVData;
pub use transcode::csv_to_json;
pub use transcode::data_envelope;
pub use transcode::error_envelope;
pub use transcode::json_to_csv;
