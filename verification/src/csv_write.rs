//! The fixed CSV dialect, write direction: serializing a table into CSV
//! text.
//!
//! Fields are written as given, quoted only when necessary (the field
//! contains a comma, a quote or a record terminator, or it is the only
//! field of a record and empty), with quote characters doubled inside
//! quoted fields; each record ends with `\n`. Rows are written exactly
//! as given, without padding or truncation to the header length.

use vstd::prelude::*;

use crate::csv_scan::is_delim;
use crate::table::CSVData;

verus! {

/// True for the characters that force a field to be quoted.
pub open spec fn is_special(c: char) -> bool {
    c == '"' || is_delim(c)
}

/// True when a field must be written in quotes.
pub open spec fn needs_quoting(f: Seq<char>) -> bool {
    exists|k: int| 0 <= k < f.len() && is_special(#[trigger] f[k])
}

/// The field content with every quote character doubled.
pub open spec fn doubled(f: Seq<char>) -> Seq<char>
    decreases f.len(),
{
    if f.len() == 0 {
        Seq::<char>::empty()
    } else if f[0] == '"' {
        seq!['"', '"'] + doubled(f.drop_first())
    } else {
        seq![f[0]] + doubled(f.drop_first())
    }
}

/// One field as written: quoted with doubled quotes when necessary,
/// else exactly the content.
pub open spec fn enc_field(f: Seq<char>) -> Seq<char> {
    if needs_quoting(f) {
        seq!['"'] + doubled(f) + seq!['"']
    } else {
        f
    }
}

/// The fields of one record, joined by commas.
pub open spec fn enc_fields(r: Seq<Seq<char>>) -> Seq<char>
    decreases r.len(),
{
    if r.len() == 0 {
        Seq::<char>::empty()
    } else if r.len() == 1 {
        enc_field(r[0])
    } else {
        enc_field(r[0]) + seq![','] + enc_fields(r.drop_first())
    }
}

/// One record as written, ending with `\n`. A record of a single empty
/// field is written as a quoted empty field, so that it can be told
/// apart from a blank line when read back.
pub open spec fn encode_record(r: Seq<Seq<char>>) -> Seq<char> {
    if r.len() == 1 && r[0].len() == 0 {
        seq!['"', '"', '\n']
    } else {
        enc_fields(r) + seq!['\n']
    }
}

/// All data rows as written, in order.
pub open spec fn records_text(rs: Seq<Seq<Seq<char>>>) -> Seq<char>
    decreases rs.len(),
{
    if rs.len() == 0 {
        Seq::<char>::empty()
    } else {
        encode_record(rs[0]) + records_text(rs.drop_first())
    }
}

/// A whole table as written: the header record first, then every data
/// row in order.
pub open spec fn encode_table(h: Seq<Seq<char>>, rows: Seq<Seq<Seq<char>>>) -> Seq<char> {
    encode_record(h) + records_text(rows)
}

/// Whether the field must be quoted when written.
fn needs_quoting_x(s: &str, n: usize) -> (r: bool)
    requires
        n == s@.len(),
    ensures
        r == needs_quoting(s@),
{
    let mut i: usize = 0;
    while i < n
        invariant
            i <= n,
            n == s@.len(),
            forall|k: int| 0 <= k < i ==> !is_special(#[trigger] s@[k]),
        decreases n - i,
    {
        let c = s.get_char(i);
        if c == '"' || c == ',' || c == '\n' || c == '\r' {
            proof {
                assert(is_special(s@[i as int]));
            }
            return true;
        }
        i = i + 1;
    }
    false
}

/// The field content from character `i` on, with quotes doubled.
fn doubled_x(s: &str, i: usize, n: usize) -> (r: String)
    requires
        n == s@.len(),
        i <= n,
    ensures
        r@ == doubled(s@.skip(i as int)),
    decreases n - i,
{
    let ghost t = s@.skip(i as int);
    if i == n {
        proof {
            assert(t =~= Seq::<char>::empty());
        }
        String::new()
    } else {
        proof {
            assert(t[0] == s@[i as int]);
            assert(t.drop_first() =~= s@.skip(i as int + 1));
        }
        let c = s.get_char(i);
        let rec = doubled_x(s, i + 1, n);
        if c == '"' {
            let mut out = String::from_str("\"\"");
            out.append(rec.as_str());
            proof {
                reveal_strlit("\"\"");
                assert(out@ =~= seq!['"', '"'] + rec@);
            }
            out
        } else {
            let mut out = s.substring_char(i, i + 1).to_owned();
            out.append(rec.as_str());
            proof {
                assert(s@.subrange(i as int, i as int + 1) =~= seq![t[0]]);
                assert(out@ =~= seq![t[0]] + rec@);
            }
            out
        }
    }
}

/// One field as written.
fn enc_field_x(f: &String) -> (r: String)
    ensures
        r@ == enc_field(f@),
{
    let s = f.as_str();
    let n = s.unicode_len();
    if needs_quoting_x(s, n) {
        let d = doubled_x(s, 0, n);
        let mut out = String::from_str("\"");
        out.append(d.as_str());
        out.append("\"");
        proof {
            reveal_strlit("\"");
            assert(s@.skip(0) =~= s@);
            assert(out@ =~= seq!['"'] + doubled(f@) + seq!['"']);
        }
        out
    } else {
        f.clone()
    }
}

/// The fields of one record from index `k` on, joined by commas.
fn enc_fields_x(r: &Vec<String>, k: usize) -> (out: String)
    requires
        k <= r.len(),
    ensures
        out@ == enc_fields(r.deep_view().skip(k as int)),
    decreases r.len() - k,
{
    let ghost t = r.deep_view().skip(k as int);
    proof {
        assert(r.deep_view().len() == r@.len());
    }
    if k == r.len() {
        proof {
            assert(t =~= Seq::<Seq<char>>::empty());
        }
        String::new()
    } else {
        proof {
            assert(t[0] == r.deep_view()[k as int]);
            assert(r.deep_view()[k as int] == r@[k as int]@);
        }
        let mut out = enc_field_x(&r[k]);
        if k + 1 == r.len() {
            proof {
                assert(t.len() == 1);
            }
            out
        } else {
            proof {
                assert(t.drop_first() =~= r.deep_view().skip(k as int + 1));
            }
            let rest = enc_fields_x(r, k + 1);
            out.append(",");
            out.append(rest.as_str());
            proof {
                reveal_strlit(",");
                assert(out@ =~= enc_field(t[0]) + seq![','] + enc_fields(t.drop_first()));
            }
            out
        }
    }
}

/// One record as written, ending with `\n`.
fn encode_record_x(rec: &Vec<String>) -> (out: String)
    ensures
        out@ == encode_record(rec.deep_view()),
{
    proof {
        assert(rec.deep_view().len() == rec@.len());
        if rec.len() > 0 {
            assert(rec.deep_view()[0] == rec@[0]@);
        }
    }
    if rec.len() == 1 && rec[0].as_str().is_empty() {
        let out = String::from_str("\"\"\n");
        proof {
            reveal_strlit("\"\"\n");
            assert(out@ =~= seq!['"', '"', '\n']);
        }
        out
    } else {
        let mut out = enc_fields_x(rec, 0);
        out.append("\n");
        proof {
            reveal_strlit("\n");
            assert(rec.deep_view().skip(0) =~= rec.deep_view());
            assert(out@ =~= enc_fields(rec.deep_view()) + seq!['\n']);
        }
        out
    }
}

/// All data rows from index `k` on, as written.
fn records_text_x(rows: &Vec<Vec<String>>, k: usize) -> (out: String)
    requires
        k <= rows.len(),
    ensures
        out@ == records_text(rows.deep_view().skip(k as int)),
    decreases rows.len() - k,
{
    let ghost t = rows.deep_view().skip(k as int);
    proof {
        assert(rows.deep_view().len() == rows@.len());
    }
    if k == rows.len() {
        proof {
            assert(t =~= Seq::<Seq<Seq<char>>>::empty());
        }
        String::new()
    } else {
        proof {
            assert(t[0] == rows.deep_view()[k as int]);
            assert(rows.deep_view()[k as int] == rows@[k as int].deep_view());
            assert(t.drop_first() =~= rows.deep_view().skip(k as int + 1));
        }
        let mut out = encode_record_x(&rows[k]);
        let rest = records_text_x(rows, k + 1);
        out.append(rest.as_str());
        proof {
            assert(out@ =~= encode_record(t[0]) + records_text(t.drop_first()));
        }
        out
    }
}

/// Encodes a table into CSV text: the header record first, then every
/// data row in order, each exactly as given. Writing into memory cannot
/// fail, so the result is always `Ok`; the write-failure error kinds
/// exist for boundary layers whose sinks can fail.
pub fn marshal_csv(data: CSVData) -> (r: Result<String, crate::error::Error>)
    ensures
        match r {
            Ok(s) => s@ == encode_table(data.hdr(), data.rws()),
            Err(_) => false,
        },
{
    let mut out = encode_record_x(&data.header);
    let rest = records_text_x(&data.rows, 0);
    out.append(rest.as_str());
    proof {
        assert(data.rows.deep_view().skip(0) =~= data.rws());
        assert(out@ =~= encode_table(data.hdr(), data.rws()));
    }
    Ok(out)
}

} // verus!
