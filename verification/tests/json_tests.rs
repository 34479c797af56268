use csv_transcode::csv_to_json;
use csv_transcode::json_to_csv;
use csv_transcode::Error;

#[test]
fn empty_csv_to_json() {
    let empty = "".to_string().as_bytes().to_vec();
    let res = csv_to_json(empty).unwrap();
    assert_eq!(res, r#"{"header":[],"rows":[]}"#)
}

#[test]
fn comma_free_csv_to_json() {
    let res = csv_to_json(b"just words\nno commas".to_vec()).unwrap();
    assert_eq!(res, r#"{"header":[],"rows":[]}"#)
}

#[test]
fn csv_to_json_simple() {
    let res = csv_to_json(b"a,b\nx,y".to_vec()).unwrap();
    assert_eq!(res, r#"{"header":["a","b"],"rows":[["x","y"]]}"#);
}

#[test]
fn csv_to_json_escapes_cells() {
    let res = csv_to_json(b"a,b\n\"he said \"\"hi\"\"\",\"x\ny\"".to_vec()).unwrap();
    assert_eq!(res, "{\"header\":[\"a\",\"b\"],\"rows\":[[\"he said \\\"hi\\\"\",\"x\\ny\"]]}");
}

#[test]
fn csv_to_json_escapes_control_chars() {
    let res = csv_to_json(b"a,b\nx\x01,y".to_vec()).unwrap();
    assert_eq!(res, "{\"header\":[\"a\",\"b\"],\"rows\":[[\"x\\u0001\",\"y\"]]}");
}

#[test]
fn csv_to_json_propagates_parse_errors() {
    let res = csv_to_json(b"a,,b\nd,d,S,".to_vec());
    assert_eq!(res.unwrap_err(), Error::InvalidRowSize(3, 4));
}

#[test]
fn json_to_csv_simple() {
    let res = json_to_csv(br#"{"header":["a","b"],"rows":[["x","y"]]}"#.to_vec()).unwrap();
    assert_eq!(res, "a,b\nx,y\n");
}

#[test]
fn json_to_csv_fields_in_either_order() {
    let res = json_to_csv(br#" { "rows" : [["x","y"],["1","2"]] , "header" : ["a","b"] } "#.to_vec())
        .unwrap();
    assert_eq!(res, "a,b\nx,y\n1,2\n");
}

#[test]
fn json_to_csv_unescapes_strings() {
    let res = json_to_csv(br#"{"header":["a"],"rows":[["A\n\"\\ \ud83d\ude00"]]}"#.to_vec())
        .unwrap();
    assert_eq!(res, "a\n\"A\n\"\"\\ \u{1F600}\"\n");
}

#[test]
fn json_to_csv_rejects_malformed_json() {
    let res = json_to_csv(b"not json at all".to_vec());
    assert!(matches!(res.unwrap_err(), Error::JSONDeserializationError(_)));
}

#[test]
fn json_to_csv_rejects_missing_rows_field() {
    let res = json_to_csv(br#"{"header":["a","b"]}"#.to_vec());
    assert!(matches!(res.unwrap_err(), Error::JSONDeserializationError(_)));
}

#[test]
fn json_to_csv_rejects_wrong_element_types() {
    let res = json_to_csv(br#"{"header":[1],"rows":[]}"#.to_vec());
    assert!(matches!(res.unwrap_err(), Error::JSONDeserializationError(_)));
    let res2 = json_to_csv(br#"{"header":["a"],"rows":["x"]}"#.to_vec());
    assert!(matches!(res2.unwrap_err(), Error::JSONDeserializationError(_)));
}

#[test]
fn json_to_csv_rejects_invalid_utf8() {
    let res = json_to_csv(vec![0xff, 0xfe, 0x7b]);
    match res.unwrap_err() {
        Error::JSONDeserializationError(m) => assert!(!m.is_empty()),
        _ => assert!(false),
    }
}

#[test]
fn json_to_csv_rejects_trailing_garbage() {
    let res = json_to_csv(br#"{"header":[],"rows":[]} extra"#.to_vec());
    assert!(matches!(res.unwrap_err(), Error::JSONDeserializationError(_)));
}

#[test]
fn csv_json_round_trip() {
    let js = csv_to_json(b"a,b\nx,y\n1,2".to_vec()).unwrap();
    let csv = json_to_csv(js.into_bytes()).unwrap();
    assert_eq!(csv, "a,b\nx,y\n1,2\n");
}

#[test]
fn json_to_csv_writes_jagged_tables_as_given() {
    // A table built from untrusted JSON may violate the row-length
    // invariant; the serializer writes whatever length is present.
    let res = json_to_csv(br#"{"header":["a","b","c"],"rows":[["x"]]}"#.to_vec()).unwrap();
    assert_eq!(res, "a,b,c\nx\n");
}
