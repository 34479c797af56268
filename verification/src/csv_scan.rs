//! The fixed CSV dialect, read direction: a left-to-right scan of text
//! into records of fields.
//!
//! The dialect: fields are separated by commas, records by `\n`, `\r\n`
//! or `\r`; a field that begins with a double quote runs to the matching
//! closing quote (a doubled quote inside stands for one quote character,
//! and newlines inside quotes are field content); the closing quote must
//! be followed by a field or record separator. Blank lines between
//! records are skipped.

use vstd::prelude::*;

verus! {

/// True for the record terminator characters.
pub open spec fn is_term(c: char) -> bool {
    c == '\n' || c == '\r'
}

/// True for any character that ends an unquoted field.
pub open spec fn is_delim(c: char) -> bool {
    c == ',' || is_term(c)
}

/// The rest of the text after the record terminator at its head
/// (`\r\n` counts as a single terminator).
pub open spec fn eat_term(s: Seq<char>) -> Seq<char>
    recommends
        s.len() > 0 && is_term(s[0]),
{
    if s.len() >= 2 && s[0] == '\r' && s[1] == '\n' {
        s.subrange(2, s.len() as int)
    } else {
        s.drop_first()
    }
}

/// Content and rest of an unquoted field: the content runs to the first
/// delimiter or the end of the text.
pub open spec fn scan_unquoted(s: Seq<char>) -> (Seq<char>, Seq<char>)
    decreases s.len(),
{
    if s.len() == 0 || is_delim(s[0]) {
        (Seq::<char>::empty(), s)
    } else {
        let cr = scan_unquoted(s.drop_first());
        (seq![s[0]] + cr.0, cr.1)
    }
}

/// Content and rest of a quoted field, where `s` begins just after the
/// opening quote. `None` when the quote is never terminated.
pub open spec fn scan_quoted(s: Seq<char>) -> Option<(Seq<char>, Seq<char>)>
    decreases s.len(),
{
    if s.len() == 0 {
        None
    } else if s[0] == '"' {
        if s.len() >= 2 && s[1] == '"' {
            match scan_quoted(s.subrange(2, s.len() as int)) {
                Some(cr) => Some((seq!['"'] + cr.0, cr.1)),
                None => None,
            }
        } else {
            Some((Seq::<char>::empty(), s.drop_first()))
        }
    } else {
        match scan_quoted(s.drop_first()) {
            Some(cr) => Some((seq![s[0]] + cr.0, cr.1)),
            None => None,
        }
    }
}

/// Content and rest of one field. A field that begins with a quote is
/// read as quoted, and its closing quote must be followed by a delimiter
/// or the end; any other field is read as unquoted and cannot fail.
pub open spec fn scan_field(s: Seq<char>) -> Option<(Seq<char>, Seq<char>)> {
    if s.len() > 0 && s[0] == '"' {
        match scan_quoted(s.drop_first()) {
            Some(cr) => if cr.1.len() == 0 || is_delim(cr.1[0]) {
                Some(cr)
            } else {
                None
            },
            None => None,
        }
    } else {
        Some(scan_unquoted(s))
    }
}

pub proof fn lemma_scan_unquoted_rest(s: Seq<char>)
    ensures
        scan_unquoted(s).1.len() <= s.len(),
    decreases s.len(),
{
    if !(s.len() == 0 || is_delim(s[0])) {
        lemma_scan_unquoted_rest(s.drop_first());
    }
}

pub proof fn lemma_scan_quoted_rest(s: Seq<char>)
    ensures
        scan_quoted(s) matches Some(cr) ==> cr.1.len() < s.len(),
    decreases s.len(),
{
    if s.len() == 0 {
    } else if s[0] == '"' {
        if s.len() >= 2 && s[1] == '"' {
            lemma_scan_quoted_rest(s.subrange(2, s.len() as int));
        }
    } else {
        lemma_scan_quoted_rest(s.drop_first());
    }
}

pub proof fn lemma_scan_field_rest(s: Seq<char>)
    ensures
        scan_field(s) matches Some(cr) ==> cr.1.len() <= s.len(),
{
    if s.len() > 0 && s[0] == '"' {
        lemma_scan_quoted_rest(s.drop_first());
    } else {
        lemma_scan_unquoted_rest(s);
    }
}

/// Fields and rest of one record: fields separated by commas, ended by a
/// record terminator (which is consumed) or the end of the text.
pub open spec fn scan_record(s: Seq<char>) -> Option<(Seq<Seq<char>>, Seq<char>)>
    decreases s.len(),
    via scan_record_dec
{
    match scan_field(s) {
        None => None,
        Some(cr) => {
            if cr.1.len() == 0 {
                Some((seq![cr.0], cr.1))
            } else if cr.1[0] == ',' {
                match scan_record(cr.1.drop_first()) {
                    Some(fr) => Some((seq![cr.0] + fr.0, fr.1)),
                    None => None,
                }
            } else {
                Some((seq![cr.0], eat_term(cr.1)))
            }
        },
    }
}

#[via_fn]
proof fn scan_record_dec(s: Seq<char>) {
    lemma_scan_field_rest(s);
}

/// Scans one unquoted field of `s` starting at character `i`.
pub(crate) fn scan_unquoted_x(s: &str, i: usize, n: usize) -> (r: (String, usize))
    requires
        n == s@.len(),
        i <= n,
    ensures
        ({
            let sp = scan_unquoted(s@.skip(i as int));
            &&& r.0@ == sp.0
            &&& i <= r.1 <= n
            &&& sp.1 == s@.skip(r.1 as int)
        }),
    decreases n - i,
{
    let ghost t = s@.skip(i as int);
    if i == n {
        proof {
            assert(t =~= Seq::<char>::empty());
        }
        (String::new(), i)
    } else {
        let c = s.get_char(i);
        proof {
            assert(t[0] == s@[i as int]);
        }
        if c == ',' || c == '\n' || c == '\r' {
            (String::new(), i)
        } else {
            proof {
                assert(t.drop_first() =~= s@.skip(i as int + 1));
            }
            let rec = scan_unquoted_x(s, i + 1, n);
            let mut out = s.substring_char(i, i + 1).to_owned();
            out.append(rec.0.as_str());
            proof {
                assert(s@.subrange(i as int, i as int + 1) =~= seq![t[0]]);
                assert(out@ =~= seq![t[0]] + scan_unquoted(t.drop_first()).0);
            }
            (out, rec.1)
        }
    }
}

/// Scans the quoted field content of `s` starting at character `i`,
/// which sits just after the opening quote.
pub(crate) fn scan_quoted_x(s: &str, i: usize, n: usize) -> (r: Option<(String, usize)>)
    requires
        n == s@.len(),
        i <= n,
    ensures
        match r {
            Some(cj) => i <= cj.1 <= n && scan_quoted(s@.skip(i as int)) == Some(
                (cj.0@, s@.skip(cj.1 as int)),
            ),
            None => scan_quoted(s@.skip(i as int)) is None,
        },
    decreases n - i,
{
    let ghost t = s@.skip(i as int);
    if i == n {
        proof {
            assert(t =~= Seq::<char>::empty());
        }
        None
    } else {
        let c = s.get_char(i);
        proof {
            assert(t[0] == s@[i as int]);
            assert(t.len() == n - i);
        }
        if c == '"' {
            if i + 1 < n && s.get_char(i + 1) == '"' {
                proof {
                    assert(t[1] == s@[i as int + 1]);
                    assert(t.subrange(2, t.len() as int) =~= s@.skip(i as int + 2));
                }
                match scan_quoted_x(s, i + 2, n) {
                    Some((cc, j)) => {
                        let mut out = String::from_str("\"");
                        out.append(cc.as_str());
                        proof {
                            reveal_strlit("\"");
                            assert(out@ =~= seq!['"'] + cc@);
                        }
                        Some((out, j))
                    },
                    None => None,
                }
            } else {
                proof {
                    if i + 1 < n {
                        assert(t[1] == s@[i as int + 1]);
                    }
                    assert(!(t.len() >= 2 && t[1] == '"'));
                    assert(t.drop_first() =~= s@.skip(i as int + 1));
                }
                Some((String::new(), i + 1))
            }
        } else {
            proof {
                assert(t.drop_first() =~= s@.skip(i as int + 1));
            }
            match scan_quoted_x(s, i + 1, n) {
                Some((cc, j)) => {
                    let mut out = s.substring_char(i, i + 1).to_owned();
                    out.append(cc.as_str());
                    proof {
                        assert(s@.subrange(i as int, i as int + 1) =~= seq![t[0]]);
                        assert(out@ =~= seq![t[0]] + cc@);
                    }
                    Some((out, j))
                },
                None => None,
            }
        }
    }
}

/// Scans one field of `s` starting at character `i`.
pub(crate) fn scan_field_x(s: &str, i: usize, n: usize) -> (r: Option<(String, usize)>)
    requires
        n == s@.len(),
        i <= n,
    ensures
        match r {
            Some(cj) => i <= cj.1 <= n && scan_field(s@.skip(i as int)) == Some(
                (cj.0@, s@.skip(cj.1 as int)),
            ),
            None => scan_field(s@.skip(i as int)) is None,
        },
{
    let ghost t = s@.skip(i as int);
    if i < n && s.get_char(i) == '"' {
        proof {
            assert(t[0] == s@[i as int]);
            assert(t.drop_first() =~= s@.skip(i as int + 1));
        }
        match scan_quoted_x(s, i + 1, n) {
            Some((cc, j)) => {
                if j == n {
                    proof {
                        assert(s@.skip(j as int) =~= Seq::<char>::empty());
                    }
                    Some((cc, j))
                } else {
                    proof {
                        assert(s@.skip(j as int)[0] == s@[j as int]);
                    }
                    let cj = s.get_char(j);
                    if cj == ',' || cj == '\n' || cj == '\r' {
                        Some((cc, j))
                    } else {
                        None
                    }
                }
            },
            None => None,
        }
    } else {
        proof {
            if i < n {
                assert(t[0] == s@[i as int]);
            } else {
                assert(t =~= Seq::<char>::empty());
            }
        }
        Some(scan_unquoted_x(s, i, n))
    }
}

/// Scans one record of `s` starting at character `i`, consuming its
/// trailing record terminator when there is one.
pub(crate) fn scan_record_x(s: &str, i: usize, n: usize) -> (r: Option<(Vec<String>, usize)>)
    requires
        n == s@.len(),
        i <= n,
    ensures
        match r {
            Some(fj) => i <= fj.1 <= n && scan_record(s@.skip(i as int)) == Some(
                (fj.0.deep_view(), s@.skip(fj.1 as int)),
            ),
            None => scan_record(s@.skip(i as int)) is None,
        },
    decreases n - i,
{
    let ghost t = s@.skip(i as int);
    match scan_field_x(s, i, n) {
        None => None,
        Some((f, j)) => {
            if j == n {
                proof {
                    assert(s@.skip(j as int) =~= Seq::<char>::empty());
                }
                let mut v: Vec<String> = Vec::new();
                v.push(f);
                proof {
                    assert(v.deep_view() =~= seq![v@[0]@]);
                }
                Some((v, j))
            } else {
                proof {
                    assert(s@.skip(j as int)[0] == s@[j as int]);
                    assert(s@.skip(j as int).len() == n - j);
                }
                let cj = s.get_char(j);
                if cj == ',' {
                    proof {
                        assert(s@.skip(j as int).drop_first() =~= s@.skip(j as int + 1));
                    }
                    match scan_record_x(s, j + 1, n) {
                        Some((mut fs, k)) => {
                            let ghost fsv = fs.deep_view();
                            let mut v: Vec<String> = Vec::new();
                            v.push(f);
                            v.append(&mut fs);
                            proof {
                                assert(v.deep_view() =~= seq![v@[0]@] + fsv);
                            }
                            Some((v, k))
                        },
                        None => None,
                    }
                } else {
                    let j2 = if cj == '\r' && j + 1 < n {
                        if s.get_char(j + 1) == '\n' {
                            j + 2
                        } else {
                            j + 1
                        }
                    } else {
                        j + 1
                    };
                    proof {
                        let rest = s@.skip(j as int);
                        if rest.len() >= 2 {
                            assert(rest[1] == s@[j as int + 1]);
                        }
                        assert(eat_term(rest) =~= s@.skip(j2 as int));
                    }
                    let mut v: Vec<String> = Vec::new();
                    v.push(f);
                    proof {
                        assert(v.deep_view() =~= seq![v@[0]@]);
                    }
                    Some((v, j2))
                }
            }
        },
    }
}

/// After scanning one record of a non-empty text, the rest is strictly
/// shorter (or empty).
pub proof fn lemma_scan_record_rest(s: Seq<char>)
    ensures
        scan_record(s) matches Some(fr) ==> fr.1.len() < s.len() || fr.1.len() == 0,
    decreases s.len(),
{
    lemma_scan_field_rest(s);
    match scan_field(s) {
        None => {
        },
        Some(cr) => {
            if cr.1.len() == 0 {
            } else if cr.1[0] == ',' {
                lemma_scan_record_rest(cr.1.drop_first());
            } else {
            }
        },
    }
}

} // verus!
