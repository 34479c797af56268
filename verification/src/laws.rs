//! Laws of the codec, proved once and for all: a well-formed table with
//! plain cells survives a serialize/parse round trip; comma-free input
//! parses to the empty table, whose JSON form is a fixed literal; and a
//! header-only table serializes to exactly one line.

use vstd::prelude::*;

use crate::csv_parse::has_comma;
use crate::csv_parse::parse_rows;
use crate::csv_parse::parse_table;
use crate::csv_parse::skip_blanks;
use crate::csv_parse::CsvOutcome;
use crate::csv_parse::RowsOutcome;
use crate::csv_scan::eat_term;
use crate::csv_scan::is_delim;
use crate::csv_scan::is_term;
use crate::csv_scan::scan_field;
use crate::csv_scan::scan_record;
use crate::csv_scan::scan_unquoted;
use crate::csv_write::enc_field;
use crate::csv_write::enc_fields;
use crate::csv_write::encode_record;
use crate::csv_write::encode_table;
use crate::csv_write::is_special;
use crate::csv_write::needs_quoting;
use crate::csv_write::records_text;
use crate::json_write::json_table;

verus! {

/// A cell with no delimiter or quote edge cases: it contains no comma,
/// no quote and no record terminator.
pub open spec fn clean_cell(f: Seq<char>) -> bool {
    forall|k: int| 0 <= k < f.len() ==> !is_special(#[trigger] f[k])
}

/// Every cell of the record is clean.
pub open spec fn clean_record(r: Seq<Seq<char>>) -> bool {
    forall|i: int| 0 <= i < r.len() ==> clean_cell(#[trigger] r[i])
}

/// Every cell of every row is clean.
pub open spec fn clean_rows(rs: Seq<Seq<Seq<char>>>) -> bool {
    forall|i: int| 0 <= i < rs.len() ==> clean_record(#[trigger] rs[i])
}

proof fn lemma_scan_unquoted_clean(f: Seq<char>, rest: Seq<char>)
    requires
        clean_cell(f),
        rest.len() > 0 ==> is_delim(rest[0]),
    ensures
        scan_unquoted(f + rest) == (f, rest),
    decreases f.len(),
{
    if f.len() == 0 {
        assert(f + rest =~= rest);
    } else {
        let s = f + rest;
        assert(s[0] == f[0]);
        assert(!is_special(f[0]));
        assert(s.drop_first() =~= f.drop_first() + rest);
        assert(clean_cell(f.drop_first())) by {
            assert(forall|k: int|
                0 <= k < f.drop_first().len() ==> f.drop_first()[k] == f[k + 1]);
        }
        lemma_scan_unquoted_clean(f.drop_first(), rest);
        assert(seq![f[0]] + f.drop_first() =~= f);
    }
}

proof fn lemma_scan_record_clean(r: Seq<Seq<char>>, rest: Seq<char>)
    requires
        r.len() >= 1,
        clean_record(r),
    ensures
        scan_record(enc_fields(r) + seq!['\n'] + rest) == Some((r, rest)),
    decreases r.len(),
{
    assert(clean_cell(r[0]));
    assert(!needs_quoting(r[0]));
    if r.len() == 1 {
        let s = enc_fields(r) + seq!['\n'] + rest;
        let tail = seq!['\n'] + rest;
        assert(s =~= r[0] + tail);
        lemma_scan_unquoted_clean(r[0], tail);
        assert(scan_field(s) == Some((r[0], tail))) by {
            if s.len() > 0 && s[0] == '"' {
                if r[0].len() > 0 {
                    assert(s[0] == r[0][0]);
                    assert(!is_special(r[0][0]));
                } else {
                    assert(s[0] == '\n');
                }
                assert(false);
            }
        }
        assert(eat_term(tail) =~= rest);
        assert(seq![r[0]] =~= r);
    } else {
        let tail2 = enc_fields(r.drop_first()) + seq!['\n'] + rest;
        let s = enc_fields(r) + seq!['\n'] + rest;
        assert(s =~= r[0] + (seq![','] + tail2));
        lemma_scan_unquoted_clean(r[0], seq![','] + tail2);
        assert(scan_field(s) == Some((r[0], seq![','] + tail2))) by {
            if s.len() > 0 && s[0] == '"' {
                if r[0].len() > 0 {
                    assert(s[0] == r[0][0]);
                    assert(!is_special(r[0][0]));
                } else {
                    assert(s[0] == ',');
                }
                assert(false);
            }
        }
        assert((seq![','] + tail2)[0] == ',');
        assert((seq![','] + tail2).drop_first() =~= tail2);
        assert(clean_record(r.drop_first())) by {
            assert(forall|i: int|
                0 <= i < r.drop_first().len() ==> r.drop_first()[i] == r[i + 1]);
        }
        lemma_scan_record_clean(r.drop_first(), rest);
        assert(seq![r[0]] + r.drop_first() =~= r);
    }
}

proof fn lemma_record_text_head_not_term(r: Seq<Seq<char>>, rest: Seq<char>)
    requires
        r.len() >= 2,
        clean_record(r),
    ensures
        (enc_fields(r) + seq!['\n'] + rest).len() > 0,
        !is_term((enc_fields(r) + seq!['\n'] + rest)[0]),
{
    let s = enc_fields(r) + seq!['\n'] + rest;
    assert(clean_cell(r[0]));
    assert(!needs_quoting(r[0]));
    assert(enc_fields(r) == r[0] + seq![','] + enc_fields(r.drop_first()));
    if r[0].len() > 0 {
        assert(s[0] == r[0][0]);
        assert(!is_special(r[0][0]));
    } else {
        assert(s[0] == ',');
    }
}

proof fn lemma_parse_rows_clean(rows: Seq<Seq<Seq<char>>>, hlen: int)
    requires
        hlen >= 2,
        clean_rows(rows),
        forall|i: int| 0 <= i < rows.len() ==> (#[trigger] rows[i]).len() == hlen,
    ensures
        parse_rows(records_text(rows), hlen) == RowsOutcome::Rows(rows),
    decreases rows.len(),
{
    if rows.len() == 0 {
        assert(rows =~= Seq::<Seq<Seq<char>>>::empty());
        assert(records_text(rows).len() == 0);
    } else {
        let r = rows[0];
        assert(clean_record(r));
        assert(r.len() == hlen);
        let rt2 = records_text(rows.drop_first());
        let s = records_text(rows);
        assert(encode_record(r) == enc_fields(r) + seq!['\n']);
        assert(s =~= enc_fields(r) + seq!['\n'] + rt2);
        lemma_record_text_head_not_term(r, rt2);
        lemma_scan_record_clean(r, rt2);
        assert(clean_rows(rows.drop_first())) by {
            assert(forall|i: int|
                0 <= i < rows.drop_first().len() ==> rows.drop_first()[i] == rows[i + 1]);
        }
        assert(forall|i: int|
            0 <= i < rows.drop_first().len() ==> (#[trigger] rows.drop_first()[i]).len() == hlen)
            by {
            assert(forall|i: int|
                0 <= i < rows.drop_first().len() ==> rows.drop_first()[i] == rows[i + 1]);
        }
        lemma_parse_rows_clean(rows.drop_first(), hlen);
        assert(crate::csv_parse::pad(r, hlen) == r);
        assert(seq![r] + rows.drop_first() =~= rows);
    }
}

/// Round trip: any table whose rows all have the header's length (with
/// at least two columns, so that the text is not comma-free) and whose
/// cells contain no delimiter or quote edge cases is parsed back,
/// unchanged, from its own CSV serialization.
pub proof fn lemma_parse_serialize_round_trip(h: Seq<Seq<char>>, rows: Seq<Seq<Seq<char>>>)
    requires
        h.len() >= 2,
        clean_record(h),
        clean_rows(rows),
        forall|i: int| 0 <= i < rows.len() ==> (#[trigger] rows[i]).len() == h.len(),
    ensures
        parse_table(encode_table(h, rows)) == CsvOutcome::Table(h, rows),
{
    let text = encode_table(h, rows);
    let rt = records_text(rows);
    assert(encode_record(h) == enc_fields(h) + seq!['\n']);
    assert(text =~= enc_fields(h) + seq!['\n'] + rt);
    assert(clean_cell(h[0]));
    assert(!needs_quoting(h[0]));
    assert(enc_fields(h) == h[0] + seq![','] + enc_fields(h.drop_first()));
    assert(has_comma(text)) by {
        let k = h[0].len() as int;
        assert(text[k] == ',');
    }
    lemma_record_text_head_not_term(h, rt);
    assert(skip_blanks(text) == text);
    lemma_scan_record_clean(h, rt);
    lemma_parse_rows_clean(rows, h.len() as int);
}

/// Trivial input: a comma-free text (the empty text included) parses to
/// the table with empty header and no rows.
pub proof fn lemma_trivial_input_empty_table(s: Seq<char>)
    requires
        !has_comma(s),
    ensures
        parse_table(s) == CsvOutcome::Table(
            Seq::<Seq<char>>::empty(),
            Seq::<Seq<Seq<char>>>::empty(),
        ),
{
}

/// The JSON form of the empty table is exactly the fixed literal
/// `{"header":[],"rows":[]}`.
pub proof fn lemma_empty_table_json()
    ensures
        json_table(Seq::<Seq<char>>::empty(), Seq::<Seq<Seq<char>>>::empty())
            == "{\"header\":[],\"rows\":[]}"@,
{
    reveal_strlit("{\"header\":");
    reveal_strlit(",\"rows\":[");
    reveal_strlit("]}");
    reveal_strlit("{\"header\":[],\"rows\":[]}");
    assert(json_table(Seq::<Seq<char>>::empty(), Seq::<Seq<Seq<char>>>::empty())
        =~= "{\"header\":[],\"rows\":[]}"@);
}

proof fn lemma_enc_fields_clean_no_term(r: Seq<Seq<char>>)
    requires
        clean_record(r),
    ensures
        forall|i: int| 0 <= i < enc_fields(r).len() ==> !is_term(#[trigger] enc_fields(r)[i]),
    decreases r.len(),
{
    if r.len() == 0 {
    } else if r.len() == 1 {
        assert(clean_cell(r[0]));
        assert(!needs_quoting(r[0]));
        assert(enc_fields(r) == r[0]);
        assert(forall|i: int|
            0 <= i < enc_fields(r).len() ==> !is_special(#[trigger] enc_fields(r)[i]));
    } else {
        assert(clean_cell(r[0]));
        assert(!needs_quoting(r[0]));
        assert(enc_fields(r) == r[0] + seq![','] + enc_fields(r.drop_first()));
        assert(clean_record(r.drop_first())) by {
            assert(forall|i: int|
                0 <= i < r.drop_first().len() ==> r.drop_first()[i] == r[i + 1]);
        }
        lemma_enc_fields_clean_no_term(r.drop_first());
        assert forall|i: int| 0 <= i < enc_fields(r).len() implies !is_term(
            #[trigger] enc_fields(r)[i],
        ) by {
            if i < r[0].len() {
                assert(enc_fields(r)[i] == r[0][i]);
                assert(!is_special(r[0][i]));
            } else if i == r[0].len() {
                assert(enc_fields(r)[i] == ',');
            } else {
                assert(enc_fields(r)[i] == enc_fields(r.drop_first())[i - r[0].len() - 1]);
            }
        }
    }
}

/// Header-only write: a table with no rows serializes to exactly the
/// header record — text ending in one terminating `\n` and, when the
/// header's cells are clean, containing no other line break.
pub proof fn lemma_header_only_serialize(h: Seq<Seq<char>>)
    ensures
        encode_table(h, Seq::<Seq<Seq<char>>>::empty()) == encode_record(h),
        encode_record(h).len() > 0,
        encode_record(h).last() == '\n',
        clean_record(h) ==> forall|i: int|
            0 <= i < encode_record(h).len() - 1 ==> !is_term(#[trigger] encode_record(h)[i]),
{
    assert(encode_table(h, Seq::<Seq<Seq<char>>>::empty()) =~= encode_record(h));
    if h.len() == 1 && h[0].len() == 0 {
        assert(encode_record(h) == seq!['"', '"', '\n']);
    } else {
        assert(encode_record(h) == enc_fields(h) + seq!['\n']);
        if clean_record(h) {
            lemma_enc_fields_clean_no_term(h);
            assert forall|i: int| 0 <= i < encode_record(h).len() - 1 implies !is_term(
                #[trigger] encode_record(h)[i],
            ) by {
                assert(encode_record(h)[i] == enc_fields(h)[i]);
            }
        }
    }
}

} // verus!
