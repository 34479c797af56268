use csv_transcode::parse_csv;
use csv_transcode::sanitize_string;

#[test]
fn valid_utf8_is_unchanged() {
    let bytes = "h\u{e9}llo, w\u{f6}rld".as_bytes().to_vec();
    assert_eq!(sanitize_string(bytes), "h\u{e9}llo, w\u{f6}rld");
}

#[test]
fn invalid_utf8_falls_back_to_latin1() {
    // 0xE9 is a lone UTF-8 lead byte, so the input is not valid UTF-8;
    // as Latin-1 it is the character with code point 0xE9.
    let bytes = vec![0x61, 0xE9, 0x62];
    assert_eq!(sanitize_string(bytes), "a\u{e9}b");
}

#[test]
fn every_latin1_byte_sanitizes() {
    let mut bytes: Vec<u8> = Vec::new();
    let mut b: usize = 128;
    while b < 256 {
        bytes.push(b as u8);
        b += 1;
    }
    // A run of continuation bytes is not valid UTF-8.
    let text = sanitize_string(bytes);
    assert_eq!(text.chars().count(), 128);
    assert_eq!(text.chars().next().unwrap(), '\u{80}');
    assert_eq!(text.chars().last().unwrap(), '\u{ff}');
}

#[test]
fn latin1_csv_parses() {
    let mut bytes = b"a,b\n".to_vec();
    bytes.push(0xE9);
    bytes.extend_from_slice(b",x");
    let t = parse_csv(sanitize_string(bytes)).unwrap();
    assert_eq!(t.rows, vec![vec!["\u{e9}".to_string(), "x".to_string()]]);
}
