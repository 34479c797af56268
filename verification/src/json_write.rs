//! Serializing a table as JSON text: a two-field object
//! `{"header":[...],"rows":[[...],...]}` where every cell is a JSON
//! string. Strings are escaped the standard way: quote, backslash and
//! control characters are escaped (`\b \f \n \r \t`, else `\u00xx`),
//! everything else is written as it is.

use vstd::prelude::*;

use crate::table::CSVData;

verus! {

/// The hexadecimal digit character for a value in 0..=15 (lower case).
pub open spec fn hex_digit(d: int) -> char {
    if d == 0 {
        '0'
    } else if d == 1 {
        '1'
    } else if d == 2 {
        '2'
    } else if d == 3 {
        '3'
    } else if d == 4 {
        '4'
    } else if d == 5 {
        '5'
    } else if d == 6 {
        '6'
    } else if d == 7 {
        '7'
    } else if d == 8 {
        '8'
    } else if d == 9 {
        '9'
    } else if d == 10 {
        'a'
    } else if d == 11 {
        'b'
    } else if d == 12 {
        'c'
    } else if d == 13 {
        'd'
    } else if d == 14 {
        'e'
    } else {
        'f'
    }
}

/// How one character is written inside a JSON string.
pub open spec fn json_escape_char(c: char) -> Seq<char> {
    if c == '"' {
        seq!['\\', '"']
    } else if c == '\\' {
        seq!['\\', '\\']
    } else if c == '\u{8}' {
        seq!['\\', 'b']
    } else if c == '\u{c}' {
        seq!['\\', 'f']
    } else if c == '\n' {
        seq!['\\', 'n']
    } else if c == '\r' {
        seq!['\\', 'r']
    } else if c == '\t' {
        seq!['\\', 't']
    } else if (c as u32) < 0x20 {
        seq!['\\', 'u', '0', '0', hex_digit((c as u32) as int / 16), hex_digit(
            (c as u32) as int % 16,
        )]
    } else {
        seq![c]
    }
}

/// A string's content as written inside a JSON string.
pub open spec fn json_escape(s: Seq<char>) -> Seq<char>
    decreases s.len(),
{
    if s.len() == 0 {
        Seq::<char>::empty()
    } else {
        json_escape_char(s[0]) + json_escape(s.drop_first())
    }
}

/// A JSON string: quoted escaped content.
pub open spec fn json_string(s: Seq<char>) -> Seq<char> {
    seq!['"'] + json_escape(s) + seq!['"']
}

/// The comma-separated JSON strings of a cell list.
pub open spec fn json_cells(xs: Seq<Seq<char>>) -> Seq<char>
    decreases xs.len(),
{
    if xs.len() == 0 {
        Seq::<char>::empty()
    } else if xs.len() == 1 {
        json_string(xs[0])
    } else {
        json_string(xs[0]) + seq![','] + json_cells(xs.drop_first())
    }
}

/// A JSON array of strings.
pub open spec fn json_string_array(xs: Seq<Seq<char>>) -> Seq<char> {
    seq!['['] + json_cells(xs) + seq![']']
}

/// The comma-separated JSON arrays of a row list.
pub open spec fn json_row_list(rows: Seq<Seq<Seq<char>>>) -> Seq<char>
    decreases rows.len(),
{
    if rows.len() == 0 {
        Seq::<char>::empty()
    } else if rows.len() == 1 {
        json_string_array(rows[0])
    } else {
        json_string_array(rows[0]) + seq![','] + json_row_list(rows.drop_first())
    }
}

/// A whole table as JSON text: the stable two-field object shape.
pub open spec fn json_table(h: Seq<Seq<char>>, rows: Seq<Seq<Seq<char>>>) -> Seq<char> {
    "{\"header\":"@ + json_string_array(h) + ",\"rows\":["@ + json_row_list(rows) + "]}"@
}

/// A single lower-case hexadecimal digit as a string slice.
fn hex_digit_x(d: u32) -> (r: &'static str)
    requires
        d < 16,
    ensures
        r@ == seq![hex_digit(d as int)],
{
    proof {
        reveal_strlit("0");
        reveal_strlit("1");
        reveal_strlit("2");
        reveal_strlit("3");
        reveal_strlit("4");
        reveal_strlit("5");
        reveal_strlit("6");
        reveal_strlit("7");
        reveal_strlit("8");
        reveal_strlit("9");
        reveal_strlit("a");
        reveal_strlit("b");
        reveal_strlit("c");
        reveal_strlit("d");
        reveal_strlit("e");
        reveal_strlit("f");
    }
    let r: &'static str = match d {
        0 => "0",
        1 => "1",
        2 => "2",
        3 => "3",
        4 => "4",
        5 => "5",
        6 => "6",
        7 => "7",
        8 => "8",
        9 => "9",
        10 => "a",
        11 => "b",
        12 => "c",
        13 => "d",
        14 => "e",
        _ => "f",
    };
    proof {
        assert(r@ =~= seq![hex_digit(d as int)]);
    }
    r
}

/// The escaped content of `s` from character `i` on.
fn json_escape_x(s: &str, i: usize, n: usize) -> (r: String)
    requires
        n == s@.len(),
        i <= n,
    ensures
        r@ == json_escape(s@.skip(i as int)),
    decreases n - i,
{
    let ghost t = s@.skip(i as int);
    if i == n {
        proof {
            assert(t =~= Seq::<char>::empty());
        }
        String::new()
    } else {
        proof {
            assert(t[0] == s@[i as int]);
            assert(t.drop_first() =~= s@.skip(i as int + 1));
        }
        let c = s.get_char(i);
        let rest = json_escape_x(s, i + 1, n);
        let mut out: String;
        if c == '"' {
            out = String::from_str("\\\"");
            proof {
                reveal_strlit("\\\"");
                assert(out@ =~= json_escape_char(t[0]));
            }
        } else if c == '\\' {
            out = String::from_str("\\\\");
            proof {
                reveal_strlit("\\\\");
                assert(out@ =~= json_escape_char(t[0]));
            }
        } else if c == '\u{8}' {
            out = String::from_str("\\b");
            proof {
                reveal_strlit("\\b");
                assert(out@ =~= json_escape_char(t[0]));
            }
        } else if c == '\u{c}' {
            out = String::from_str("\\f");
            proof {
                reveal_strlit("\\f");
                assert(out@ =~= json_escape_char(t[0]));
            }
        } else if c == '\n' {
            out = String::from_str("\\n");
            proof {
                reveal_strlit("\\n");
                assert(out@ =~= json_escape_char(t[0]));
            }
        } else if c == '\r' {
            out = String::from_str("\\r");
            proof {
                reveal_strlit("\\r");
                assert(out@ =~= json_escape_char(t[0]));
            }
        } else if c == '\t' {
            out = String::from_str("\\t");
            proof {
                reveal_strlit("\\t");
                assert(out@ =~= json_escape_char(t[0]));
            }
        } else if (c as u32) < 0x20 {
            let v = c as u32;
            out = String::from_str("\\u00");
            out.append(hex_digit_x(v / 16));
            out.append(hex_digit_x(v % 16));
            proof {
                reveal_strlit("\\u00");
                assert(out@ =~= json_escape_char(t[0]));
            }
        } else {
            out = s.substring_char(i, i + 1).to_owned();
            proof {
                assert(s@.subrange(i as int, i as int + 1) =~= seq![t[0]]);
                assert(out@ =~= json_escape_char(t[0]));
            }
        }
        out.append(rest.as_str());
        proof {
            assert(out@ =~= json_escape_char(t[0]) + json_escape(t.drop_first()));
        }
        out
    }
}

/// One cell as a JSON string.
pub fn json_string_of(s: &String) -> (r: String)
    ensures
        r@ == json_string(s@),
{
    let st = s.as_str();
    let n = st.unicode_len();
    let mut out = String::from_str("\"");
    let esc = json_escape_x(st, 0, n);
    out.append(esc.as_str());
    out.append("\"");
    proof {
        reveal_strlit("\"");
        assert(st@.skip(0) =~= s@);
        assert(out@ =~= seq!['"'] + json_escape(s@) + seq!['"']);
    }
    out
}

/// The comma-separated JSON strings of the cells from index `k` on.
fn json_cells_x(xs: &Vec<String>, k: usize) -> (out: String)
    requires
        k <= xs.len(),
    ensures
        out@ == json_cells(xs.deep_view().skip(k as int)),
    decreases xs.len() - k,
{
    let ghost t = xs.deep_view().skip(k as int);
    proof {
        assert(xs.deep_view().len() == xs@.len());
    }
    if k == xs.len() {
        proof {
            assert(t =~= Seq::<Seq<char>>::empty());
        }
        String::new()
    } else {
        proof {
            assert(t[0] == xs.deep_view()[k as int]);
            assert(xs.deep_view()[k as int] == xs@[k as int]@);
        }
        let mut out = json_string_of(&xs[k]);
        if k + 1 == xs.len() {
            proof {
                assert(t.len() == 1);
            }
            out
        } else {
            proof {
                assert(t.drop_first() =~= xs.deep_view().skip(k as int + 1));
            }
            let rest = json_cells_x(xs, k + 1);
            out.append(",");
            out.append(rest.as_str());
            proof {
                reveal_strlit(",");
                assert(out@ =~= json_string(t[0]) + seq![','] + json_cells(t.drop_first()));
            }
            out
        }
    }
}

/// One row as a JSON array of strings.
fn json_string_array_x(xs: &Vec<String>) -> (out: String)
    ensures
        out@ == json_string_array(xs.deep_view()),
{
    let mut out = String::from_str("[");
    let cells = json_cells_x(xs, 0);
    out.append(cells.as_str());
    out.append("]");
    proof {
        reveal_strlit("[");
        reveal_strlit("]");
        assert(xs.deep_view().skip(0) =~= xs.deep_view());
        assert(out@ =~= seq!['['] + json_cells(xs.deep_view()) + seq![']']);
    }
    out
}

/// The comma-separated JSON arrays of the rows from index `k` on.
fn json_row_list_x(rows: &Vec<Vec<String>>, k: usize) -> (out: String)
    requires
        k <= rows.len(),
    ensures
        out@ == json_row_list(rows.deep_view().skip(k as int)),
    decreases rows.len() - k,
{
    let ghost t = rows.deep_view().skip(k as int);
    proof {
        assert(rows.deep_view().len() == rows@.len());
    }
    if k == rows.len() {
        proof {
            assert(t =~= Seq::<Seq<Seq<char>>>::empty());
        }
        String::new()
    } else {
        proof {
            assert(t[0] == rows.deep_view()[k as int]);
            assert(rows.deep_view()[k as int] == rows@[k as int].deep_view());
        }
        let mut out = json_string_array_x(&rows[k]);
        if k + 1 == rows.len() {
            proof {
                assert(t.len() == 1);
            }
            out
        } else {
            proof {
                assert(t.drop_first() =~= rows.deep_view().skip(k as int + 1));
            }
            let rest = json_row_list_x(rows, k + 1);
            out.append(",");
            out.append(rest.as_str());
            proof {
                reveal_strlit(",");
                assert(out@ =~= json_string_array(t[0]) + seq![','] + json_row_list(
                    t.drop_first(),
                ));
            }
            out
        }
    }
}

/// A whole table as JSON text in the stable two-field object shape.
pub fn table_to_json(data: &CSVData) -> (r: String)
    ensures
        r@ == json_table(data.hdr(), data.rws()),
{
    let mut out = String::from_str("{\"header\":");
    let h = json_string_array_x(&data.header);
    out.append(h.as_str());
    out.append(",\"rows\":[");
    let rl = json_row_list_x(&data.rows, 0);
    out.append(rl.as_str());
    out.append("]}");
    proof {
        assert(data.rows.deep_view().skip(0) =~= data.rws());
        assert(out@ =~= json_table(data.hdr(), data.rws()));
    }
    out
}

} // verus!
