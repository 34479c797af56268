//! Parsing CSV text into a table, with the row policy of the transcoder:
//! the first non-blank record is the header; a data row that is strictly
//! shorter than the header both in raw content bytes and in field count
//! is silently dropped; a row with more fields than the header aborts the
//! parse; a remaining short row is padded on the right with empty cells.

use vstd::prelude::*;
use vstd::utf8::encode_utf8;

use crate::csv_scan::eat_term;
use crate::csv_scan::is_term;
use crate::csv_scan::lemma_scan_record_rest;
use crate::csv_scan::scan_record;
use crate::csv_scan::scan_record_x;
use crate::error::Error;
use crate::table::CSVData;

verus! {

/// Outcome of reading the data rows of a CSV text under the row policy.
pub enum RowsOutcome {
    /// The surviving rows, in input order, each padded to the header length.
    Rows(Seq<Seq<Seq<char>>>),
    /// Some data row could not be parsed under the dialect.
    Bad,
    /// Some data row has more fields than the header; carries that count.
    TooLong(int),
}

/// Outcome of parsing a whole CSV text.
pub enum CsvOutcome {
    /// Header and data rows of the parsed table.
    Table(Seq<Seq<char>>, Seq<Seq<Seq<char>>>),
    /// The header record could not be parsed under the dialect.
    BadHeader,
    /// A data row could not be parsed under the dialect.
    BadRow,
    /// A data row has more fields than the header; carries both counts.
    RowTooLong(int, int),
}

/// The total UTF-8 byte length of a record's field contents (what
/// remains of the raw row once delimiters and quotes are stripped).
pub open spec fn fields_byte_len(r: Seq<Seq<char>>) -> int
    decreases r.len(),
{
    if r.len() == 0 {
        0
    } else {
        encode_utf8(r[0]).len() + fields_byte_len(r.drop_first())
    }
}

/// A record padded on the right with empty cells up to the header
/// length (a record at least that long is kept as it is).
pub open spec fn pad(r: Seq<Seq<char>>, hlen: int) -> Seq<Seq<char>> {
    if r.len() >= hlen {
        r
    } else {
        r + Seq::new((hlen - r.len()) as nat, |i: int| Seq::<char>::empty())
    }
}

/// Reads all data rows of `s` under the row policy against a header of
/// length `hlen`, skipping blank lines.
pub open spec fn parse_rows(s: Seq<char>, hlen: int) -> RowsOutcome
    decreases s.len(),
    via parse_rows_dec
{
    if s.len() == 0 {
        RowsOutcome::Rows(Seq::<Seq<Seq<char>>>::empty())
    } else if is_term(s[0]) {
        parse_rows(eat_term(s), hlen)
    } else {
        match scan_record(s) {
            None => RowsOutcome::Bad,
            Some(fr) => {
                if fields_byte_len(fr.0) < hlen && fr.0.len() < hlen {
                    parse_rows(fr.1, hlen)
                } else if fr.0.len() > hlen {
                    RowsOutcome::TooLong(fr.0.len() as int)
                } else {
                    match parse_rows(fr.1, hlen) {
                        RowsOutcome::Rows(rs) => RowsOutcome::Rows(seq![pad(fr.0, hlen)] + rs),
                        e => e,
                    }
                }
            },
        }
    }
}

#[via_fn]
proof fn parse_rows_dec(s: Seq<char>, hlen: int) {
    lemma_scan_record_rest(s);
}

/// The text with its leading blank lines removed.
pub open spec fn skip_blanks(s: Seq<char>) -> Seq<char>
    decreases s.len(),
{
    if s.len() > 0 && is_term(s[0]) {
        skip_blanks(eat_term(s))
    } else {
        s
    }
}

/// True when the text contains a comma anywhere.
pub open spec fn has_comma(s: Seq<char>) -> bool {
    exists|k: int| 0 <= k < s.len() && #[trigger] s[k] == ','
}

/// Parses a whole CSV text. A comma-free text yields the empty table;
/// otherwise the first non-blank record is the header and the remaining
/// records are read under the row policy.
pub open spec fn parse_table(s: Seq<char>) -> CsvOutcome {
    if !has_comma(s) {
        CsvOutcome::Table(Seq::<Seq<char>>::empty(), Seq::<Seq<Seq<char>>>::empty())
    } else {
        match scan_record(skip_blanks(s)) {
            None => CsvOutcome::BadHeader,
            Some(hr) => match parse_rows(hr.1, hr.0.len() as int) {
                RowsOutcome::Rows(rows) => CsvOutcome::Table(hr.0, rows),
                RowsOutcome::Bad => CsvOutcome::BadRow,
                RowsOutcome::TooLong(m) => CsvOutcome::RowTooLong(hr.0.len() as int, m),
            },
        }
    }
}

proof fn lemma_fields_byte_len_nonneg(r: Seq<Seq<char>>)
    ensures
        fields_byte_len(r) >= 0,
    decreases r.len(),
{
    if r.len() > 0 {
        lemma_fields_byte_len_nonneg(r.drop_first());
    }
}

/// Whether the record's raw content is strictly shorter, in UTF-8
/// bytes, than the header length.
fn row_bytes_short(row: &Vec<String>, hlen: usize) -> (b: bool)
    ensures
        b == (fields_byte_len(row.deep_view()) < hlen as int),
{
    let ghost d = row.deep_view();
    proof {
        assert(d.skip(0) =~= d);
    }
    let mut acc: usize = 0;
    let mut i: usize = 0;
    while i < row.len()
        invariant
            i <= row.len(),
            d == row.deep_view(),
            d.len() == row@.len(),
            acc <= hlen,
            fields_byte_len(d) == acc + fields_byte_len(d.skip(i as int)),
        decreases row.len() - i,
    {
        proof {
            assert(d.skip(i as int)[0] == d[i as int]);
            assert(d[i as int] == row@[i as int]@);
            assert(d.skip(i as int).drop_first() =~= d.skip(i as int + 1));
            lemma_fields_byte_len_nonneg(d.skip(i as int + 1));
        }
        let bl = row[i].as_str().as_bytes().len();
        if bl >= hlen - acc {
            proof {
                assert(fields_byte_len(d) >= hlen as int);
            }
            return false;
        }
        acc = acc + bl;
        i = i + 1;
    }
    proof {
        assert(d.skip(i as int) =~= Seq::<Seq<char>>::empty());
    }
    acc < hlen
}

/// Pads the record on the right with empty cells up to the header length.
fn pad_row(row: &mut Vec<String>, hlen: usize)
    ensures
        final(row).deep_view() == pad(old(row).deep_view(), hlen as int),
{
    let ghost orig = old(row).deep_view();
    while row.len() < hlen
        invariant
            orig.len() <= row.deep_view().len(),
            orig.len() < hlen ==> row.deep_view().len() <= hlen as int,
            orig.len() >= hlen ==> row.deep_view().len() == orig.len(),
            row.deep_view().len() == row@.len(),
            forall|j: int| 0 <= j < orig.len() ==> row.deep_view()[j] == orig[j],
            forall|j: int|
                orig.len() <= j < row.deep_view().len() ==> row.deep_view()[j]
                    == Seq::<char>::empty(),
        decreases hlen - row.len(),
    {
        let ghost prev = row.deep_view();
        row.push(String::new());
        proof {
            assert(row.deep_view() =~= prev.push(Seq::<char>::empty()));
        }
    }
    proof {
        assert(row.deep_view() =~= pad(orig, hlen as int));
    }
}

/// Whether the text contains a comma anywhere.
fn has_comma_x(s: &str, n: usize) -> (b: bool)
    requires
        n == s@.len(),
    ensures
        b == has_comma(s@),
{
    let mut i: usize = 0;
    while i < n
        invariant
            i <= n,
            n == s@.len(),
            forall|k: int| 0 <= k < i ==> #[trigger] s@[k] != ',',
        decreases n - i,
    {
        if s.get_char(i) == ',' {
            return true;
        }
        i = i + 1;
    }
    false
}

/// The index of the first character after the leading blank lines.
fn skip_blanks_x(s: &str, n: usize) -> (j: usize)
    requires
        n == s@.len(),
    ensures
        j <= n,
        skip_blanks(s@) == s@.skip(j as int),
{
    let mut j: usize = 0;
    proof {
        assert(s@.skip(0) =~= s@);
    }
    while j < n
        invariant
            j <= n,
            n == s@.len(),
            skip_blanks(s@) == skip_blanks(s@.skip(j as int)),
        decreases n - j,
    {
        let ghost t = s@.skip(j as int);
        proof {
            assert(t[0] == s@[j as int]);
        }
        let c = s.get_char(j);
        if c == '\n' {
            proof {
                assert(eat_term(t) =~= s@.skip(j as int + 1));
            }
            j = j + 1;
        } else if c == '\r' {
            let j2 = if j + 1 < n {
                if s.get_char(j + 1) == '\n' {
                    j + 2
                } else {
                    j + 1
                }
            } else {
                j + 1
            };
            proof {
                if t.len() >= 2 {
                    assert(t[1] == s@[j as int + 1]);
                }
                assert(eat_term(t) =~= s@.skip(j2 as int));
            }
            j = j2;
        } else {
            proof {
                assert(skip_blanks(t) == t);
            }
            return j;
        }
    }
    proof {
        assert(s@.skip(j as int) =~= Seq::<char>::empty());
    }
    j
}

/// Folds an already-read prefix of rows into the outcome of reading the
/// remaining text.
pub open spec fn rows_compose(acc: Seq<Seq<Seq<char>>>, o: RowsOutcome) -> RowsOutcome {
    match o {
        RowsOutcome::Rows(rs) => RowsOutcome::Rows(acc + rs),
        _ => o,
    }
}

/// Takes UTF-8 text with CSV content and parses it into a `CSVData`
/// table under the fixed dialect and the row policy.
///
/// A comma-free text (the empty text included) yields the empty table.
///
/// ## Errors
/// * `Error::InvalidEncoding` - the header record is malformed.
/// * `Error::InvalidRowSize` - a data row has more fields than the header.
/// * `Error::InvalidRow` - a data row is malformed.
#[verifier::loop_isolation(false)]
pub fn parse_csv(csv_data: String) -> (r: Result<CSVData, Error>)
    ensures
        match r {
            Ok(t) => parse_table(csv_data@) == CsvOutcome::Table(t.hdr(), t.rws()),
            Err(e) => match e {
                Error::InvalidEncoding => parse_table(csv_data@) is BadHeader,
                Error::InvalidRow => parse_table(csv_data@) is BadRow,
                Error::InvalidRowSize(hl, rl) => parse_table(csv_data@) == CsvOutcome::RowTooLong(
                    hl as int,
                    rl as int,
                ),
                _ => false,
            },
        },
{
    let s = csv_data.as_str();
    let n = s.unicode_len();
    if !has_comma_x(s, n) {
        let t = CSVData::default();
        proof {
            assert(t.hdr() == Seq::<Seq<char>>::empty());
            assert(t.rws() == Seq::<Seq<Seq<char>>>::empty());
        }
        return Ok(t);
    }
    let j = skip_blanks_x(s, n);
    match scan_record_x(s, j, n) {
        None => Err(Error::InvalidEncoding),
        Some((header, k)) => {
            let hlen = header.len();
            let ghost hdrv = header.deep_view();
            proof {
                assert(hdrv.len() == header@.len());
            }
            let mut rows: Vec<Vec<String>> = Vec::new();
            let mut p = k;
            let ghost k0 = k as int;
            proof {
                assert(rows.deep_view() =~= Seq::<Seq<Seq<char>>>::empty());
                match parse_rows(s@.skip(k0), hlen as int) {
                    RowsOutcome::Rows(rs) => {
                        assert(Seq::<Seq<Seq<char>>>::empty() + rs =~= rs);
                    },
                    _ => {
                    },
                }
            }
            while p < n
                invariant
                    p <= n,
                    n == s@.len(),
                    hlen as int == hdrv.len(),
                    parse_rows(s@.skip(k0), hlen as int) == rows_compose(
                        rows.deep_view(),
                        parse_rows(s@.skip(p as int), hlen as int),
                    ),
                decreases n - p,
            {
                let ghost t = s@.skip(p as int);
                proof {
                    assert(t[0] == s@[p as int]);
                }
                let c = s.get_char(p);
                if c == '\n' {
                    proof {
                        assert(eat_term(t) =~= s@.skip(p as int + 1));
                    }
                    p = p + 1;
                } else if c == '\r' {
                    let p2 = if p + 1 < n {
                        if s.get_char(p + 1) == '\n' {
                            p + 2
                        } else {
                            p + 1
                        }
                    } else {
                        p + 1
                    };
                    proof {
                        if t.len() >= 2 {
                            assert(t[1] == s@[p as int + 1]);
                        }
                        assert(eat_term(t) =~= s@.skip(p2 as int));
                    }
                    p = p2;
                } else {
                    match scan_record_x(s, p, n) {
                        None => {
                            return Err(Error::InvalidRow);
                        },
                        Some((mut rowv, q)) => {
                            let cnt = rowv.len();
                            let ghost rowd = rowv.deep_view();
                            proof {
                                assert(rowd.len() == rowv@.len());
                            }
                            proof {
                                lemma_scan_record_rest(s@.skip(p as int));
                            }
                            let bytes_short = row_bytes_short(&rowv, hlen);
                            if bytes_short && cnt < hlen {
                                p = q;
                            } else if cnt > hlen {
                                return Err(Error::InvalidRowSize(hlen, cnt));
                            } else {
                                pad_row(&mut rowv, hlen);
                                let ghost accd = rows.deep_view();
                                rows.push(rowv);
                                proof {
                                    assert(rows.deep_view() =~= accd.push(pad(rowd, hlen as int)));
                                    let o = parse_rows(s@.skip(q as int), hlen as int);
                                    match o {
                                        RowsOutcome::Rows(rs) => {
                                            assert(accd + (seq![pad(rowd, hlen as int)] + rs)
                                                =~= accd.push(pad(rowd, hlen as int)) + rs);
                                        },
                                        _ => {
                                        },
                                    }
                                }
                                p = q;
                            }
                        },
                    }
                }
            }
            proof {
                assert(s@.skip(p as int) =~= Seq::<char>::empty());
                assert(rows.deep_view() + Seq::<Seq<Seq<char>>>::empty() =~= rows.deep_view());
            }
            Ok(CSVData { header, rows })
        },
    }
}

} // verus!
