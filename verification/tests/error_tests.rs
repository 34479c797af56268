use csv_transcode::data_envelope;
use csv_transcode::error_envelope;
use csv_transcode::Error;
use csv_transcode::ErrorResult;

#[test]
fn stable_messages() {
    assert_eq!(Error::InvalidEncoding.message(), "invalid_encoding");
    assert_eq!(Error::InvalidRow.message(), "invalid_row");
    assert_eq!(
        Error::InvalidRowSize(3, 4).message(),
        "invalid_row_size: header(3), row(4)"
    );
    assert_eq!(
        Error::InvalidRowSize(120, 1005).message(),
        "invalid_row_size: header(120), row(1005)"
    );
    assert_eq!(
        Error::JSONSerializationError("boom".to_string()).message(),
        "json_serialization_error: boom"
    );
    assert_eq!(
        Error::JSONDeserializationError("boom".to_string()).message(),
        "json_deserialization_error: boom"
    );
    assert_eq!(
        Error::CSVWriteHeaderError("boom".to_string()).message(),
        "csv_write_header_error: boom"
    );
    assert_eq!(
        Error::CSVWriteRowError("boom".to_string()).message(),
        "csv_write_row_error: boom"
    );
}

#[test]
fn every_kind_has_nonempty_message() {
    let kinds = vec![
        Error::InvalidEncoding,
        Error::InvalidRow,
        Error::InvalidRowSize(0, 0),
        Error::JSONSerializationError("".to_string()),
        Error::JSONDeserializationError("".to_string()),
        Error::CSVWriteHeaderError("".to_string()),
        Error::CSVWriteRowError("".to_string()),
    ];
    for k in kinds {
        assert!(!k.message().is_empty());
    }
}

#[test]
fn envelope_shapes() {
    assert_eq!(
        error_envelope(&Error::InvalidRow),
        r#"{"error": "invalid_row"}"#
    );
    assert_eq!(
        error_envelope(&Error::InvalidRowSize(3, 4)),
        r#"{"error": "invalid_row_size: header(3), row(4)"}"#
    );
    assert_eq!(
        data_envelope(&r#"{"header":[],"rows":[]}"#.to_string()),
        r#"{"data": {"header":[],"rows":[]}}"#
    );
}

#[test]
fn error_result_carries_the_message() {
    let er = ErrorResult::from_error(&Error::InvalidEncoding);
    assert_eq!(er.error, "invalid_encoding");
}
