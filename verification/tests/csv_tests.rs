use csv_transcode::marshal_csv;
use csv_transcode::parse_csv;
use csv_transcode::CSVData;
use csv_transcode::Error;

fn s(v: &str) -> String {
    v.to_string()
}

#[test]
fn handle_row_size() {
    let csv_str = "a,,b\nd,d,S,";
    let result = parse_csv(csv_str.to_string());

    match result {
        Err(e) => assert_eq!(e, Error::InvalidRowSize(3, 4)),
        Ok(_) => assert!(false),
    }
}

#[test]
fn short_row_dropped() {
    let t = parse_csv("a,,b\nx,y".to_string()).unwrap();
    assert_eq!(t.header, vec![s("a"), s(""), s("b")]);
    assert_eq!(t.rows.len(), 0);
}

#[test]
fn residual_short_row_padded() {
    // The raw content is not shorter than the header in bytes, but the
    // field count is: the row is kept and padded with empty cells.
    let t = parse_csv("a,,b\nxxxx,y".to_string()).unwrap();
    assert_eq!(t.rows, vec![vec![s("xxxx"), s("y"), s("")]]);
}

#[test]
fn comma_free_input_yields_empty_table() {
    let t = parse_csv("".to_string()).unwrap();
    assert_eq!(t.header.len(), 0);
    assert_eq!(t.rows.len(), 0);

    let t2 = parse_csv("hello\nworld\n".to_string()).unwrap();
    assert_eq!(t2.header.len(), 0);
    assert_eq!(t2.rows.len(), 0);
}

#[test]
fn quoted_fields_parse() {
    let t = parse_csv("a,b\n\"x,1\",y".to_string()).unwrap();
    assert_eq!(t.rows, vec![vec![s("x,1"), s("y")]]);

    let t2 = parse_csv("a,b\n\"he said \"\"hi\"\"\",z".to_string()).unwrap();
    assert_eq!(t2.rows, vec![vec![s("he said \"hi\""), s("z")]]);
}

#[test]
fn newline_inside_quotes_is_content() {
    let t = parse_csv("a,b\n\"x\ny\",z".to_string()).unwrap();
    assert_eq!(t.rows, vec![vec![s("x\ny"), s("z")]]);
}

#[test]
fn unterminated_quote_in_row_is_invalid_row() {
    let r = parse_csv("a,b\n\"x".to_string());
    assert_eq!(r.unwrap_err(), Error::InvalidRow);
}

#[test]
fn unterminated_quote_in_header_is_invalid_encoding() {
    let r = parse_csv("\"a,b\nx,y".to_string());
    assert_eq!(r.unwrap_err(), Error::InvalidEncoding);
}

#[test]
fn crlf_and_blank_lines() {
    let t = parse_csv("a,b\r\n\r\nx,y\r\n".to_string()).unwrap();
    assert_eq!(t.header, vec![s("a"), s("b")]);
    assert_eq!(t.rows, vec![vec![s("x"), s("y")]]);
}

#[test]
fn marshal_simple_table() {
    let t = CSVData {
        header: vec![s("a"), s("b")],
        rows: vec![vec![s("x"), s("y")], vec![s("1"), s("2")]],
    };
    assert_eq!(marshal_csv(t).unwrap(), "a,b\nx,y\n1,2\n");
}

#[test]
fn marshal_header_only_is_one_line() {
    let t = CSVData { header: vec![s("a"), s(""), s("b")], rows: vec![] };
    let out = marshal_csv(t).unwrap();
    assert_eq!(out, "a,,b\n");
    assert_eq!(out.matches('\n').count(), 1);
    assert!(out.ends_with('\n'));
}

#[test]
fn marshal_quotes_when_necessary() {
    let t = CSVData {
        header: vec![s("a"), s("b")],
        rows: vec![vec![s("x,1"), s("he said \"hi\"")], vec![s("x\ny"), s("plain")]],
    };
    assert_eq!(
        marshal_csv(t).unwrap(),
        "a,b\n\"x,1\",\"he said \"\"hi\"\"\"\n\"x\ny\",plain\n"
    );
}

#[test]
fn marshal_writes_jagged_rows_as_given() {
    let t = CSVData {
        header: vec![s("a"), s("b"), s("c")],
        rows: vec![vec![s("x")], vec![s("1"), s("2"), s("3"), s("4")]],
    };
    assert_eq!(marshal_csv(t).unwrap(), "a,b,c\nx\n1,2,3,4\n");
}

#[test]
fn marshal_single_empty_field_is_quoted() {
    let t = CSVData { header: vec![s("x")], rows: vec![vec![s("")]] };
    assert_eq!(marshal_csv(t).unwrap(), "x\n\"\"\n");
}

#[test]
fn parse_serialize_round_trip() {
    let t = CSVData {
        header: vec![s("a"), s("b"), s("c")],
        rows: vec![vec![s("1"), s(""), s("3")], vec![s(""), s(""), s("")]],
    };
    let text = marshal_csv(t.clone()).unwrap();
    let back = parse_csv(text).unwrap();
    assert_eq!(back.header, t.header);
    assert_eq!(back.rows, t.rows);
}

#[test]
fn single_column_csv_is_treated_as_empty() {
    // Known limitation of the dialect: comma-free content, even a real
    // single-column table, is indistinguishable from empty input.
    let t = parse_csv("a\nx\ny".to_string()).unwrap();
    assert_eq!(t.header.len(), 0);
    assert_eq!(t.rows.len(), 0);
}
