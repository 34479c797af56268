//! Deserializing JSON text into a table: the input must be a JSON object
//! with exactly the fields `header` (an array of strings) and `rows` (an
//! array of arrays of strings), in either order. JSON strings support the
//! standard escapes, `\uXXXX` and surrogate pairs included; unescaped
//! control characters are rejected.

use vstd::prelude::*;

use crate::sanitize::char_from_u32;
use crate::sanitize::push_char;

verus! {

/// True for JSON whitespace.
pub open spec fn is_ws(c: char) -> bool {
    c == ' ' || c == '\t' || c == '\n' || c == '\r'
}

/// The text with its leading whitespace removed.
pub open spec fn skip_ws(s: Seq<char>) -> Seq<char>
    decreases s.len(),
{
    if s.len() > 0 && is_ws(s[0]) {
        skip_ws(s.drop_first())
    } else {
        s
    }
}

pub proof fn lemma_skip_ws_len(s: Seq<char>)
    ensures
        skip_ws(s).len() <= s.len(),
    decreases s.len(),
{
    if s.len() > 0 && is_ws(s[0]) {
        lemma_skip_ws_len(s.drop_first());
    }
}

/// The value of a hexadecimal digit character, `None` for any other.
pub open spec fn hex_val(c: char) -> Option<u32> {
    let v = c as u32;
    if 48 <= v && v <= 57 {
        Some((v - 48) as u32)
    } else if 97 <= v && v <= 102 {
        Some((v - 87) as u32)
    } else if 65 <= v && v <= 70 {
        Some((v - 55) as u32)
    } else {
        None
    }
}

/// The value of four hexadecimal digit characters, `None` when any is
/// not a hexadecimal digit.
pub open spec fn hex4(a: char, b: char, c: char, d: char) -> Option<u32> {
    match (hex_val(a), hex_val(b), hex_val(c), hex_val(d)) {
        (Some(x), Some(y), Some(z), Some(w)) => Some((x * 4096 + y * 256 + z * 16 + w) as u32),
        _ => None,
    }
}

/// The character named by a single-character JSON escape, `None` for an
/// unknown escape.
pub open spec fn esc_char(e: char) -> Option<char> {
    if e == '"' {
        Some('"')
    } else if e == '\\' {
        Some('\\')
    } else if e == '/' {
        Some('/')
    } else if e == 'b' {
        Some('\u{8}')
    } else if e == 'f' {
        Some('\u{c}')
    } else if e == 'n' {
        Some('\n')
    } else if e == 'r' {
        Some('\r')
    } else if e == 't' {
        Some('\t')
    } else {
        None
    }
}

/// The character with the given code point.
pub open spec fn char_of(code: int) -> char {
    ((code as u32) as char)
}

/// Content and rest of a JSON string, where `s` begins just after the
/// opening quote. `None` when the string is malformed or unterminated.
pub open spec fn scan_jstring(s: Seq<char>) -> Option<(Seq<char>, Seq<char>)>
    decreases s.len(),
{
    if s.len() == 0 {
        None
    } else if s[0] == '"' {
        Some((Seq::<char>::empty(), s.drop_first()))
    } else if s[0] == '\\' {
        if s.len() < 2 {
            None
        } else if s[1] == 'u' {
            if s.len() < 6 {
                None
            } else {
                match hex4(s[2], s[3], s[4], s[5]) {
                    None => None,
                    Some(v) => {
                        if 0xD800 <= v && v < 0xDC00 {
                            if s.len() < 12 || s[6] != '\\' || s[7] != 'u' {
                                None
                            } else {
                                match hex4(s[8], s[9], s[10], s[11]) {
                                    None => None,
                                    Some(w) => {
                                        if 0xDC00 <= w && w < 0xE000 {
                                            match scan_jstring(s.skip(12)) {
                                                Some(cr) => Some(
                                                    (
                                                        seq![
                                                            char_of(
                                                                0x10000 + (v - 0xD800) * 0x400 + (
                                                                w - 0xDC00),
                                                            )
                                                        ] + cr.0,
                                                        cr.1,
                                                    ),
                                                ),
                                                None => None,
                                            }
                                        } else {
                                            None
                                        }
                                    },
                                }
                            }
                        } else if 0xDC00 <= v && v < 0xE000 {
                            None
                        } else {
                            match scan_jstring(s.skip(6)) {
                                Some(cr) => Some((seq![char_of(v as int)] + cr.0, cr.1)),
                                None => None,
                            }
                        }
                    },
                }
            }
        } else {
            match esc_char(s[1]) {
                None => None,
                Some(c) => match scan_jstring(s.skip(2)) {
                    Some(cr) => Some((seq![c] + cr.0, cr.1)),
                    None => None,
                },
            }
        }
    } else if (s[0] as u32) < 0x20 {
        None
    } else {
        match scan_jstring(s.drop_first()) {
            Some(cr) => Some((seq![s[0]] + cr.0, cr.1)),
            None => None,
        }
    }
}

pub proof fn lemma_scan_jstring_rest(s: Seq<char>)
    ensures
        scan_jstring(s) matches Some(cr) ==> cr.1.len() < s.len(),
    decreases s.len(),
{
    if s.len() == 0 {
    } else if s[0] == '"' {
    } else if s[0] == '\\' {
        if s.len() >= 6 && s[1] == 'u' {
            lemma_scan_jstring_rest(s.skip(6));
            if s.len() >= 12 {
                lemma_scan_jstring_rest(s.skip(12));
            }
        } else if s.len() >= 2 {
            lemma_scan_jstring_rest(s.skip(2));
        }
    } else {
        lemma_scan_jstring_rest(s.drop_first());
    }
}

/// Elements and rest of a JSON array of strings, where `s` begins at the
/// first element (the array is known not to be empty).
pub open spec fn scan_string_items(s: Seq<char>) -> Option<(Seq<Seq<char>>, Seq<char>)>
    decreases s.len(),
    via scan_string_items_dec
{
    if s.len() == 0 || s[0] != '"' {
        None
    } else {
        match scan_jstring(s.drop_first()) {
            None => None,
            Some(cr) => {
                let r1 = skip_ws(cr.1);
                if r1.len() == 0 {
                    None
                } else if r1[0] == ',' {
                    match scan_string_items(skip_ws(r1.drop_first())) {
                        Some(xr) => Some((seq![cr.0] + xr.0, xr.1)),
                        None => None,
                    }
                } else if r1[0] == ']' {
                    Some((seq![cr.0], r1.drop_first()))
                } else {
                    None
                }
            },
        }
    }
}

#[via_fn]
proof fn scan_string_items_dec(s: Seq<char>) {
    if s.len() > 0 && s[0] == '"' {
        lemma_scan_jstring_rest(s.drop_first());
        match scan_jstring(s.drop_first()) {
            Some(cr) => {
                lemma_skip_ws_len(cr.1);
                let r1 = skip_ws(cr.1);
                if r1.len() > 0 && r1[0] == ',' {
                    lemma_skip_ws_len(r1.drop_first());
                }
            },
            None => {
            },
        }
    }
}

pub proof fn lemma_scan_string_items_rest(s: Seq<char>)
    ensures
        scan_string_items(s) matches Some(xr) ==> xr.1.len() < s.len(),
    decreases s.len(),
{
    if s.len() > 0 && s[0] == '"' {
        lemma_scan_jstring_rest(s.drop_first());
        match scan_jstring(s.drop_first()) {
            Some(cr) => {
                lemma_skip_ws_len(cr.1);
                let r1 = skip_ws(cr.1);
                if r1.len() > 0 && r1[0] == ',' {
                    lemma_skip_ws_len(r1.drop_first());
                    lemma_scan_string_items_rest(skip_ws(r1.drop_first()));
                }
            },
            None => {
            },
        }
    }
}

/// Elements and rest of a whole JSON array of strings, where `s` begins
/// at the opening bracket.
pub open spec fn scan_string_array(s: Seq<char>) -> Option<(Seq<Seq<char>>, Seq<char>)> {
    if s.len() == 0 || s[0] != '[' {
        None
    } else {
        let t = skip_ws(s.drop_first());
        if t.len() > 0 && t[0] == ']' {
            Some((Seq::<Seq<char>>::empty(), t.drop_first()))
        } else {
            scan_string_items(t)
        }
    }
}

pub proof fn lemma_scan_string_array_rest(s: Seq<char>)
    ensures
        scan_string_array(s) matches Some(ar) ==> ar.1.len() < s.len(),
{
    if s.len() > 0 && s[0] == '[' {
        lemma_skip_ws_len(s.drop_first());
        lemma_scan_string_items_rest(skip_ws(s.drop_first()));
    }
}

/// Elements and rest of a JSON array of string arrays, where `s` begins
/// at the first element (the array is known not to be empty).
pub open spec fn scan_row_items(s: Seq<char>) -> Option<(Seq<Seq<Seq<char>>>, Seq<char>)>
    decreases s.len(),
    via scan_row_items_dec
{
    if s.len() == 0 || s[0] != '[' {
        None
    } else {
        match scan_string_array(s) {
            None => None,
            Some(ar) => {
                let r1 = skip_ws(ar.1);
                if r1.len() == 0 {
                    None
                } else if r1[0] == ',' {
                    match scan_row_items(skip_ws(r1.drop_first())) {
                        Some(xr) => Some((seq![ar.0] + xr.0, xr.1)),
                        None => None,
                    }
                } else if r1[0] == ']' {
                    Some((seq![ar.0], r1.drop_first()))
                } else {
                    None
                }
            },
        }
    }
}

#[via_fn]
proof fn scan_row_items_dec(s: Seq<char>) {
    if s.len() > 0 && s[0] == '[' {
        lemma_scan_string_array_rest(s);
        match scan_string_array(s) {
            Some(ar) => {
                lemma_skip_ws_len(ar.1);
                let r1 = skip_ws(ar.1);
                if r1.len() > 0 && r1[0] == ',' {
                    lemma_skip_ws_len(r1.drop_first());
                }
            },
            None => {
            },
        }
    }
}

/// Elements and rest of a whole JSON array of string arrays, where `s`
/// begins at the opening bracket.
pub open spec fn scan_rows_array(s: Seq<char>) -> Option<(Seq<Seq<Seq<char>>>, Seq<char>)> {
    if s.len() == 0 || s[0] != '[' {
        None
    } else {
        let t = skip_ws(s.drop_first());
        if t.len() > 0 && t[0] == ']' {
            Some((Seq::<Seq<Seq<char>>>::empty(), t.drop_first()))
        } else {
            scan_row_items(t)
        }
    }
}

/// The header and rows denoted by JSON text in the two-field object
/// shape `{"header": [...], "rows": [[...], ...]}` (fields in either
/// order, surrounded by any whitespace), `None` for any other text.
pub open spec fn parse_json_table(s: Seq<char>) -> Option<(Seq<Seq<char>>, Seq<Seq<Seq<char>>>)> {
    let t = skip_ws(s);
    if !(t.len() > 0 && t[0] == '{') {
        None
    } else {
        let u = skip_ws(t.drop_first());
        if !(u.len() > 0 && u[0] == '"') {
            None
        } else {
            match scan_jstring(u.drop_first()) {
                None => None,
                Some(kr) => {
                    let r2 = skip_ws(kr.1);
                    if !(r2.len() > 0 && r2[0] == ':') {
                        None
                    } else {
                        let r3 = skip_ws(r2.drop_first());
                        if kr.0 == "header"@ {
                            match scan_string_array(r3) {
                                None => None,
                                Some(hr) => match rest_after_first(hr.1, "rows"@) {
                                    None => None,
                                    Some(rows2) => match scan_rows_array(rows2) {
                                        None => None,
                                        Some(rr) => if object_closes(rr.1) {
                                            Some((hr.0, rr.0))
                                        } else {
                                            None
                                        },
                                    },
                                },
                            }
                        } else if kr.0 == "rows"@ {
                            match scan_rows_array(r3) {
                                None => None,
                                Some(rr) => match rest_after_first(rr.1, "header"@) {
                                    None => None,
                                    Some(rows2) => match scan_string_array(rows2) {
                                        None => None,
                                        Some(hr) => if object_closes(hr.1) {
                                            Some((hr.0, rr.0))
                                        } else {
                                            None
                                        },
                                    },
                                },
                            }
                        } else {
                            None
                        }
                    }
                },
            }
        }
    }
}

/// After the first field's value: expects a comma, then the given key
/// and a colon, and yields the text at the second field's value.
pub open spec fn rest_after_first(s: Seq<char>, key: Seq<char>) -> Option<Seq<char>> {
    let r5 = skip_ws(s);
    if !(r5.len() > 0 && r5[0] == ',') {
        None
    } else {
        let r6 = skip_ws(r5.drop_first());
        if !(r6.len() > 0 && r6[0] == '"') {
            None
        } else {
            match scan_jstring(r6.drop_first()) {
                None => None,
                Some(kr) => {
                    if kr.0 != key {
                        None
                    } else {
                        let r8 = skip_ws(kr.1);
                        if !(r8.len() > 0 && r8[0] == ':') {
                            None
                        } else {
                            Some(skip_ws(r8.drop_first()))
                        }
                    }
                },
            }
        }
    }
}

/// True when the text is the closing brace of the object followed by
/// nothing but whitespace.
pub open spec fn object_closes(s: Seq<char>) -> bool {
    let t = skip_ws(s);
    t.len() > 0 && t[0] == '}' && skip_ws(t.drop_first()).len() == 0
}

/// The index of the first character after the whitespace at `i`.
fn skip_ws_x(s: &str, i: usize, n: usize) -> (j: usize)
    requires
        n == s@.len(),
        i <= n,
    ensures
        i <= j <= n,
        skip_ws(s@.skip(i as int)) == s@.skip(j as int),
{
    let mut j = i;
    proof {
        assert(s@.skip(i as int) == s@.skip(j as int));
    }
    while j < n
        invariant
            i <= j <= n,
            n == s@.len(),
            skip_ws(s@.skip(i as int)) == skip_ws(s@.skip(j as int)),
        decreases n - j,
    {
        let ghost t = s@.skip(j as int);
        proof {
            assert(t[0] == s@[j as int]);
        }
        let c = s.get_char(j);
        if c == ' ' || c == '\t' || c == '\n' || c == '\r' {
            proof {
                assert(t.drop_first() =~= s@.skip(j as int + 1));
            }
            j = j + 1;
        } else {
            proof {
                assert(skip_ws(t) == t);
            }
            return j;
        }
    }
    proof {
        assert(s@.skip(j as int) =~= Seq::<char>::empty());
    }
    j
}

/// The value of a hexadecimal digit character.
fn hex_val_x(c: char) -> (r: Option<u32>)
    ensures
        r == hex_val(c),
{
    let v = c as u32;
    if 48 <= v && v <= 57 {
        Some(v - 48)
    } else if 97 <= v && v <= 102 {
        Some(v - 87)
    } else if 65 <= v && v <= 70 {
        Some(v - 55)
    } else {
        None
    }
}

/// The string slice written by a single-character JSON escape.
fn esc_str(e: char) -> (r: Option<&'static str>)
    ensures
        match r {
            Some(lit) => esc_char(e) matches Some(c) && lit@ == seq![c],
            None => esc_char(e) is None,
        },
{
    proof {
        reveal_strlit("\"");
        reveal_strlit("\\");
        reveal_strlit("/");
        reveal_strlit("\u{8}");
        reveal_strlit("\u{c}");
        reveal_strlit("\n");
        reveal_strlit("\r");
        reveal_strlit("\t");
    }
    if e == '"' {
        Some("\"")
    } else if e == '\\' {
        Some("\\")
    } else if e == '/' {
        Some("/")
    } else if e == 'b' {
        Some("\u{8}")
    } else if e == 'f' {
        Some("\u{c}")
    } else if e == 'n' {
        Some("\n")
    } else if e == 'r' {
        Some("\r")
    } else if e == 't' {
        Some("\t")
    } else {
        None
    }
}

/// Scans the JSON string content of `s` starting at character `i`, which
/// sits just after the opening quote.
#[verifier::rlimit(80)]
fn scan_jstring_x(s: &str, i: usize, n: usize) -> (r: Option<(String, usize)>)
    requires
        n == s@.len(),
        i <= n,
    ensures
        match r {
            Some(cj) => i <= cj.1 <= n && scan_jstring(s@.skip(i as int)) == Some(
                (cj.0@, s@.skip(cj.1 as int)),
            ),
            None => scan_jstring(s@.skip(i as int)) is None,
        },
    decreases n - i,
{
    let ghost t = s@.skip(i as int);
    if i == n {
        proof {
            assert(t =~= Seq::<char>::empty());
        }
        return None;
    }
    let c = s.get_char(i);
    proof {
        assert(t[0] == s@[i as int]);
        assert(t.len() == n - i);
    }
    if c == '"' {
        proof {
            assert(t.drop_first() =~= s@.skip(i as int + 1));
        }
        Some((String::new(), i + 1))
    } else if c == '\\' {
        if n - i < 2 {
            return None;
        }
        let e = s.get_char(i + 1);
        proof {
            assert(t[1] == s@[i as int + 1]);
        }
        if e == 'u' {
            if n - i < 6 {
                return None;
            }
            proof {
                assert(t[2] == s@[i as int + 2]);
                assert(t[3] == s@[i as int + 3]);
                assert(t[4] == s@[i as int + 4]);
                assert(t[5] == s@[i as int + 5]);
            }
            let h1 = hex_val_x(s.get_char(i + 2));
            let h2 = hex_val_x(s.get_char(i + 3));
            let h3 = hex_val_x(s.get_char(i + 4));
            let h4 = hex_val_x(s.get_char(i + 5));
            let v: u32 = match (h1, h2, h3, h4) {
                (Some(x), Some(y), Some(z), Some(w)) => x * 4096 + y * 256 + z * 16 + w,
                _ => {
                    return None;
                },
            };
            if 0xD800 <= v && v < 0xDC00 {
                if n - i < 12 {
                    return None;
                }
                proof {
                    assert(t[6] == s@[i as int + 6]);
                    assert(t[7] == s@[i as int + 7]);
                    assert(t[8] == s@[i as int + 8]);
                    assert(t[9] == s@[i as int + 9]);
                    assert(t[10] == s@[i as int + 10]);
                    assert(t[11] == s@[i as int + 11]);
                }
                if !(s.get_char(i + 6) == '\\' && s.get_char(i + 7) == 'u') {
                    return None;
                }
                let g1 = hex_val_x(s.get_char(i + 8));
                let g2 = hex_val_x(s.get_char(i + 9));
                let g3 = hex_val_x(s.get_char(i + 10));
                let g4 = hex_val_x(s.get_char(i + 11));
                let w: u32 = match (g1, g2, g3, g4) {
                    (Some(x), Some(y), Some(z), Some(u)) => x * 4096 + y * 256 + z * 16 + u,
                    _ => {
                        return None;
                    },
                };
                if !(0xDC00 <= w && w < 0xE000) {
                    return None;
                }
                let code: u32 = 0x10000 + (v - 0xD800) * 0x400 + (w - 0xDC00);
                let copt = char_from_u32(code);
                let ch = copt.unwrap();
                proof {
                    vstd::utf8::char_u32_cast(ch, code);
                    assert(t.skip(12) =~= s@.skip(i as int + 12));
                }
                match scan_jstring_x(s, i + 12, n) {
                    Some((rest, j)) => {
                        let mut out = String::new();
                        push_char(&mut out, ch);
                        out.append(rest.as_str());
                        proof {
                            assert(out@ =~= seq![ch] + rest@);
                        }
                        Some((out, j))
                    },
                    None => None,
                }
            } else if 0xDC00 <= v && v < 0xE000 {
                None
            } else {
                let copt = char_from_u32(v);
                let ch = copt.unwrap();
                proof {
                    vstd::utf8::char_u32_cast(ch, v);
                    assert(t.skip(6) =~= s@.skip(i as int + 6));
                }
                match scan_jstring_x(s, i + 6, n) {
                    Some((rest, j)) => {
                        let mut out = String::new();
                        push_char(&mut out, ch);
                        out.append(rest.as_str());
                        proof {
                            assert(out@ =~= seq![ch] + rest@);
                        }
                        Some((out, j))
                    },
                    None => None,
                }
            }
        } else {
            match esc_str(e) {
                None => None,
                Some(lit) => {
                    proof {
                        assert(t.skip(2) =~= s@.skip(i as int + 2));
                    }
                    match scan_jstring_x(s, i + 2, n) {
                        Some((rest, j)) => {
                            let mut out = lit.to_owned();
                            out.append(rest.as_str());
                            proof {
                                assert(out@ =~= lit@ + rest@);
                            }
                            Some((out, j))
                        },
                        None => None,
                    }
                },
            }
        }
    } else if (c as u32) < 0x20 {
        None
    } else {
        proof {
            assert(t.drop_first() =~= s@.skip(i as int + 1));
        }
        match scan_jstring_x(s, i + 1, n) {
            Some((rest, j)) => {
                let mut out = s.substring_char(i, i + 1).to_owned();
                out.append(rest.as_str());
                proof {
                    assert(s@.subrange(i as int, i as int + 1) =~= seq![t[0]]);
                    assert(out@ =~= seq![t[0]] + rest@);
                }
                Some((out, j))
            },
            None => None,
        }
    }
}

/// Scans the elements of a JSON array of strings starting at character
/// `i`, the first element.
fn scan_string_items_x(s: &str, i: usize, n: usize) -> (r: Option<(Vec<String>, usize)>)
    requires
        n == s@.len(),
        i <= n,
    ensures
        match r {
            Some(xj) => i <= xj.1 <= n && scan_string_items(s@.skip(i as int)) == Some(
                (xj.0.deep_view(), s@.skip(xj.1 as int)),
            ),
            None => scan_string_items(s@.skip(i as int)) is None,
        },
    decreases n - i,
{
    let ghost t = s@.skip(i as int);
    if i == n {
        proof {
            assert(t =~= Seq::<char>::empty());
        }
        return None;
    }
    proof {
        assert(t[0] == s@[i as int]);
    }
    if s.get_char(i) != '"' {
        return None;
    }
    proof {
        assert(t.drop_first() =~= s@.skip(i as int + 1));
    }
    match scan_jstring_x(s, i + 1, n) {
        None => None,
        Some((str1, q)) => {
            let r1j = skip_ws_x(s, q, n);
            if r1j == n {
                proof {
                    assert(s@.skip(r1j as int) =~= Seq::<char>::empty());
                }
                return None;
            }
            proof {
                assert(s@.skip(r1j as int)[0] == s@[r1j as int]);
            }
            let c1 = s.get_char(r1j);
            if c1 == ',' {
                proof {
                    assert(s@.skip(r1j as int).drop_first() =~= s@.skip(r1j as int + 1));
                }
                let j2 = skip_ws_x(s, r1j + 1, n);
                match scan_string_items_x(s, j2, n) {
                    None => None,
                    Some((mut xs, jj)) => {
                        let ghost xsv = xs.deep_view();
                        let mut v: Vec<String> = Vec::new();
                        v.push(str1);
                        v.append(&mut xs);
                        proof {
                            assert(v.deep_view() =~= seq![v@[0]@] + xsv);
                        }
                        Some((v, jj))
                    },
                }
            } else if c1 == ']' {
                proof {
                    assert(s@.skip(r1j as int).drop_first() =~= s@.skip(r1j as int + 1));
                }
                let mut v: Vec<String> = Vec::new();
                v.push(str1);
                proof {
                    assert(v.deep_view() =~= seq![v@[0]@]);
                }
                Some((v, r1j + 1))
            } else {
                None
            }
        },
    }
}

/// Scans a whole JSON array of strings starting at character `i`, the
/// opening bracket.
fn scan_string_array_x(s: &str, i: usize, n: usize) -> (r: Option<(Vec<String>, usize)>)
    requires
        n == s@.len(),
        i <= n,
    ensures
        match r {
            Some(xj) => i <= xj.1 <= n && scan_string_array(s@.skip(i as int)) == Some(
                (xj.0.deep_view(), s@.skip(xj.1 as int)),
            ),
            None => scan_string_array(s@.skip(i as int)) is None,
        },
{
    let ghost t = s@.skip(i as int);
    if i == n {
        proof {
            assert(t =~= Seq::<char>::empty());
        }
        return None;
    }
    proof {
        assert(t[0] == s@[i as int]);
    }
    if s.get_char(i) != '[' {
        return None;
    }
    proof {
        assert(t.drop_first() =~= s@.skip(i as int + 1));
    }
    let j = skip_ws_x(s, i + 1, n);
    if j < n {
        proof {
            assert(s@.skip(j as int)[0] == s@[j as int]);
        }
        if s.get_char(j) == ']' {
            proof {
                assert(s@.skip(j as int).drop_first() =~= s@.skip(j as int + 1));
            }
            let v: Vec<String> = Vec::new();
            proof {
                assert(v.deep_view() =~= Seq::<Seq<char>>::empty());
            }
            return Some((v, j + 1));
        }
    }
    scan_string_items_x(s, j, n)
}

/// Scans the elements of a JSON array of string arrays starting at
/// character `i`, the first element.
fn scan_row_items_x(s: &str, i: usize, n: usize) -> (r: Option<(Vec<Vec<String>>, usize)>)
    requires
        n == s@.len(),
        i <= n,
    ensures
        match r {
            Some(xj) => i <= xj.1 <= n && scan_row_items(s@.skip(i as int)) == Some(
                (xj.0.deep_view(), s@.skip(xj.1 as int)),
            ),
            None => scan_row_items(s@.skip(i as int)) is None,
        },
    decreases n - i,
{
    let ghost t = s@.skip(i as int);
    if i == n {
        proof {
            assert(t =~= Seq::<char>::empty());
        }
        return None;
    }
    proof {
        assert(t[0] == s@[i as int]);
    }
    if s.get_char(i) != '[' {
        return None;
    }
    match scan_string_array_x(s, i, n) {
        None => None,
        Some((row, q)) => {
            proof {
                lemma_scan_string_array_rest(s@.skip(i as int));
            }
            let r1j = skip_ws_x(s, q, n);
            if r1j == n {
                proof {
                    assert(s@.skip(r1j as int) =~= Seq::<char>::empty());
                }
                return None;
            }
            proof {
                assert(s@.skip(r1j as int)[0] == s@[r1j as int]);
            }
            let c1 = s.get_char(r1j);
            if c1 == ',' {
                proof {
                    assert(s@.skip(r1j as int).drop_first() =~= s@.skip(r1j as int + 1));
                }
                let j2 = skip_ws_x(s, r1j + 1, n);
                match scan_row_items_x(s, j2, n) {
                    None => None,
                    Some((mut xs, jj)) => {
                        let ghost xsv = xs.deep_view();
                        let mut v: Vec<Vec<String>> = Vec::new();
                        v.push(row);
                        v.append(&mut xs);
                        proof {
                            assert(v.deep_view() =~= seq![v@[0].deep_view()] + xsv);
                        }
                        Some((v, jj))
                    },
                }
            } else if c1 == ']' {
                proof {
                    assert(s@.skip(r1j as int).drop_first() =~= s@.skip(r1j as int + 1));
                }
                let mut v: Vec<Vec<String>> = Vec::new();
                v.push(row);
                proof {
                    assert(v.deep_view() =~= seq![v@[0].deep_view()]);
                }
                Some((v, r1j + 1))
            } else {
                None
            }
        },
    }
}

/// Scans a whole JSON array of string arrays starting at character `i`,
/// the opening bracket.
fn scan_rows_array_x(s: &str, i: usize, n: usize) -> (r: Option<(Vec<Vec<String>>, usize)>)
    requires
        n == s@.len(),
        i <= n,
    ensures
        match r {
            Some(xj) => i <= xj.1 <= n && scan_rows_array(s@.skip(i as int)) == Some(
                (xj.0.deep_view(), s@.skip(xj.1 as int)),
            ),
            None => scan_rows_array(s@.skip(i as int)) is None,
        },
{
    let ghost t = s@.skip(i as int);
    if i == n {
        proof {
            assert(t =~= Seq::<char>::empty());
        }
        return None;
    }
    proof {
        assert(t[0] == s@[i as int]);
    }
    if s.get_char(i) != '[' {
        return None;
    }
    proof {
        assert(t.drop_first() =~= s@.skip(i as int + 1));
    }
    let j = skip_ws_x(s, i + 1, n);
    if j < n {
        proof {
            assert(s@.skip(j as int)[0] == s@[j as int]);
        }
        if s.get_char(j) == ']' {
            proof {
                assert(s@.skip(j as int).drop_first() =~= s@.skip(j as int + 1));
            }
            let v: Vec<Vec<String>> = Vec::new();
            proof {
                assert(v.deep_view() =~= Seq::<Seq<Seq<char>>>::empty());
            }
            return Some((v, j + 1));
        }
    }
    scan_row_items_x(s, j, n)
}

/// Scans a comma, the given second key and a colon; yields the index of
/// the second field's value.
fn rest_after_first_x(s: &str, i: usize, n: usize, key: &String) -> (r: Option<usize>)
    requires
        n == s@.len(),
        i <= n,
    ensures
        match r {
            Some(j) => j <= n && rest_after_first(s@.skip(i as int), key@) == Some(
                s@.skip(j as int),
            ),
            None => rest_after_first(s@.skip(i as int), key@) is None,
        },
{
    let r5 = skip_ws_x(s, i, n);
    if r5 == n {
        proof {
            assert(s@.skip(r5 as int) =~= Seq::<char>::empty());
        }
        return None;
    }
    proof {
        assert(s@.skip(r5 as int)[0] == s@[r5 as int]);
    }
    if s.get_char(r5) != ',' {
        return None;
    }
    proof {
        assert(s@.skip(r5 as int).drop_first() =~= s@.skip(r5 as int + 1));
    }
    let r6 = skip_ws_x(s, r5 + 1, n);
    if r6 == n {
        proof {
            assert(s@.skip(r6 as int) =~= Seq::<char>::empty());
        }
        return None;
    }
    proof {
        assert(s@.skip(r6 as int)[0] == s@[r6 as int]);
    }
    if s.get_char(r6) != '"' {
        return None;
    }
    proof {
        assert(s@.skip(r6 as int).drop_first() =~= s@.skip(r6 as int + 1));
    }
    match scan_jstring_x(s, r6 + 1, n) {
        None => None,
        Some((k2, q)) => {
            if !k2.eq(key) {
                return None;
            }
            let r8 = skip_ws_x(s, q, n);
            if r8 == n {
                proof {
                    assert(s@.skip(r8 as int) =~= Seq::<char>::empty());
                }
                return None;
            }
            proof {
                assert(s@.skip(r8 as int)[0] == s@[r8 as int]);
            }
            if s.get_char(r8) != ':' {
                return None;
            }
            proof {
                assert(s@.skip(r8 as int).drop_first() =~= s@.skip(r8 as int + 1));
            }
            let j = skip_ws_x(s, r8 + 1, n);
            Some(j)
        },
    }
}

/// Whether the text at `i` is the closing brace followed by nothing but
/// whitespace.
fn object_closes_x(s: &str, i: usize, n: usize) -> (b: bool)
    requires
        n == s@.len(),
        i <= n,
    ensures
        b == object_closes(s@.skip(i as int)),
{
    let t = skip_ws_x(s, i, n);
    if t == n {
        proof {
            assert(s@.skip(t as int) =~= Seq::<char>::empty());
        }
        return false;
    }
    proof {
        assert(s@.skip(t as int)[0] == s@[t as int]);
    }
    if s.get_char(t) != '}' {
        return false;
    }
    proof {
        assert(s@.skip(t as int).drop_first() =~= s@.skip(t as int + 1));
    }
    let u = skip_ws_x(s, t + 1, n);
    proof {
        if u == n {
            assert(s@.skip(u as int) =~= Seq::<char>::empty());
        }
    }
    u == n
}

/// Parses JSON text in the two-field object shape into the header and
/// rows of a table.
pub(crate) fn parse_json_table_x(s: &str) -> (r: Option<(Vec<String>, Vec<Vec<String>>)>)
    ensures
        match r {
            Some(hr) => parse_json_table(s@) == Some((hr.0.deep_view(), hr.1.deep_view())),
            None => parse_json_table(s@) is None,
        },
{
    let n = s.unicode_len();
    proof {
        assert(s@.skip(0) =~= s@);
    }
    let t = skip_ws_x(s, 0, n);
    if t == n {
        proof {
            assert(s@.skip(t as int) =~= Seq::<char>::empty());
        }
        return None;
    }
    proof {
        assert(s@.skip(t as int)[0] == s@[t as int]);
    }
    if s.get_char(t) != '{' {
        return None;
    }
    proof {
        assert(s@.skip(t as int).drop_first() =~= s@.skip(t as int + 1));
    }
    let u = skip_ws_x(s, t + 1, n);
    if u == n {
        proof {
            assert(s@.skip(u as int) =~= Seq::<char>::empty());
        }
        return None;
    }
    proof {
        assert(s@.skip(u as int)[0] == s@[u as int]);
    }
    if s.get_char(u) != '"' {
        return None;
    }
    proof {
        assert(s@.skip(u as int).drop_first() =~= s@.skip(u as int + 1));
    }
    match scan_jstring_x(s, u + 1, n) {
        None => None,
        Some((key, q)) => {
            let r2 = skip_ws_x(s, q, n);
            if r2 == n {
                proof {
                    assert(s@.skip(r2 as int) =~= Seq::<char>::empty());
                }
                return None;
            }
            proof {
                assert(s@.skip(r2 as int)[0] == s@[r2 as int]);
            }
            if s.get_char(r2) != ':' {
                return None;
            }
            proof {
                assert(s@.skip(r2 as int).drop_first() =~= s@.skip(r2 as int + 1));
            }
            let r3 = skip_ws_x(s, r2 + 1, n);
            let hdr_key = String::from_str("header");
            let rows_key = String::from_str("rows");
            if key == hdr_key {
                match scan_string_array_x(s, r3, n) {
                    None => None,
                    Some((h, q4)) => match rest_after_first_x(s, q4, n, &rows_key) {
                        None => None,
                        Some(j5) => match scan_rows_array_x(s, j5, n) {
                            None => None,
                            Some((rows, q6)) => {
                                if object_closes_x(s, q6, n) {
                                    Some((h, rows))
                                } else {
                                    None
                                }
                            },
                        },
                    },
                }
            } else if key == rows_key {
                match scan_rows_array_x(s, r3, n) {
                    None => None,
                    Some((rows, q4)) => match rest_after_first_x(s, q4, n, &hdr_key) {
                        None => None,
                        Some(j5) => match scan_string_array_x(s, j5, n) {
                            None => None,
                            Some((h, q6)) => {
                                if object_closes_x(s, q6, n) {
                                    Some((h, rows))
                                } else {
                                    None
                                }
                            },
                        },
                    },
                }
            } else {
                None
            }
        },
    }
}

} // verus!
