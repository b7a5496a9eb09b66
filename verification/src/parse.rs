use vstd::prelude::*;

use crate::text::{
    BACKSLASH, COMMA, EQUALS, LBRACE, LBRACKET, QUOTE, RBRACE, RBRACKET, digit_check,
    ident_byte_check, is_digit, is_ident_byte, spec_unescape_byte,
};
use crate::value::{
    Field, FieldS, Value, ValueS, lemma_view_fields, lemma_view_values, view_field, view_fields,
    view_values,
};

verus! {

// ---------------------------------------------------------------------------
// The grammar, as recursive functions over the remaining input
// ---------------------------------------------------------------------------

/// The longest identifier prefix of `s`: field keys and event names.
pub open spec fn spec_scan_ident(s: Seq<u8>) -> Seq<u8>
    decreases s.len(),
{
    if s.len() > 0 && is_ident_byte(s[0]) {
        seq![s[0]] + spec_scan_ident(s.skip(1))
    } else {
        Seq::empty()
    }
}

/// The longest decimal-digit prefix of `s`: a leading command token.
pub open spec fn spec_scan_digits(s: Seq<u8>) -> Seq<u8>
    decreases s.len(),
{
    if s.len() > 0 && is_digit(s[0]) {
        seq![s[0]] + spec_scan_digits(s.skip(1))
    } else {
        Seq::empty()
    }
}

/// Parses the body of a quoted string, the opening quote already consumed:
/// the decoded text and the input after the closing quote.
pub open spec fn spec_parse_cstring(s: Seq<u8>) -> Option<(Seq<u8>, Seq<u8>)>
    decreases s.len(),
{
    if s.len() == 0 {
        None
    } else if s[0] == QUOTE {
        Some((Seq::empty(), s.skip(1)))
    } else if s[0] == BACKSLASH {
        if s.len() >= 2 {
            match spec_unescape_byte(s[1]) {
                Some(b) => match spec_parse_cstring(s.skip(2)) {
                    Some((t, r)) => Some((seq![b] + t, r)),
                    None => None,
                },
                None => None,
            }
        } else {
            None
        }
    } else {
        match spec_parse_cstring(s.skip(1)) {
            Some((t, r)) => Some((seq![s[0]] + t, r)),
            None => None,
        }
    }
}

/// Parses one value: a quoted string, a `{...}` tuple, or a `[...]` list.
pub open spec fn spec_parse_value(s: Seq<u8>) -> Option<(ValueS, Seq<u8>)>
    decreases s.len(), 0nat,
{
    if s.len() == 0 {
        None
    } else if s[0] == QUOTE {
        match spec_parse_cstring(s.skip(1)) {
            Some((t, r)) => Some((ValueS::Scalar(t), r)),
            None => None,
        }
    } else if s[0] == LBRACE {
        if s.len() >= 2 && s[1] == RBRACE {
            Some((ValueS::Tuple(Seq::empty()), s.skip(2)))
        } else {
            match spec_parse_fields(s.skip(1)) {
                Some((fl, r)) => if r.len() > 0 && r[0] == RBRACE {
                    Some((ValueS::Tuple(fl), r.skip(1)))
                } else {
                    None
                },
                None => None,
            }
        }
    } else if s[0] == LBRACKET {
        if s.len() >= 2 && s[1] == RBRACKET {
            Some((ValueS::List(Seq::empty()), s.skip(2)))
        } else {
            match spec_parse_values(s.skip(1)) {
                Some((vl, r)) => if r.len() > 0 && r[0] == RBRACKET {
                    Some((ValueS::List(vl), r.skip(1)))
                } else {
                    None
                },
                None => None,
            }
        }
    } else {
        None
    }
}

/// Parses a nonempty comma-separated field list. A trailing comma is
/// malformed: after a comma another field must follow.
pub open spec fn spec_parse_fields(s: Seq<u8>) -> Option<(Seq<FieldS>, Seq<u8>)>
    decreases s.len(), 2nat,
{
    let k = spec_scan_ident(s);
    if k.len() == 0 {
        None
    } else if k.len() + 1 <= s.len() && s[k.len() as int] == EQUALS {
        match spec_parse_value(s.skip(k.len() + 1 as int)) {
            Some((v, r)) => {
                if r.len() > 0 && r[0] == COMMA {
                    // A successful value parse always consumes input, so the
                    // length test cannot fail; it keeps the recursion
                    // well-founded.
                    if r.len() < s.len() {
                        match spec_parse_fields(r.skip(1)) {
                            Some((fl, r2)) => Some((seq![FieldS { key: k, value: v }] + fl, r2)),
                            None => None,
                        }
                    } else {
                        None
                    }
                } else {
                    Some((seq![FieldS { key: k, value: v }], r))
                }
            },
            None => None,
        }
    } else {
        None
    }
}

/// Parses a nonempty comma-separated value list.
pub open spec fn spec_parse_values(s: Seq<u8>) -> Option<(Seq<ValueS>, Seq<u8>)>
    decreases s.len(), 1nat,
{
    match spec_parse_value(s) {
        Some((v, r)) => {
            if r.len() > 0 && r[0] == COMMA {
                // As above: a successful value parse always consumes input.
                if r.len() < s.len() {
                    match spec_parse_values(r.skip(1)) {
                        Some((vl, r2)) => Some((seq![v] + vl, r2)),
                        None => None,
                    }
                } else {
                    None
                }
            } else {
                Some((seq![v], r))
            }
        },
        None => None,
    }
}

// ---------------------------------------------------------------------------
// Characterizations of the scanners
// ---------------------------------------------------------------------------

/// `spec_scan_ident` returns exactly the prefix up to the first byte that is
/// not an identifier byte.
pub proof fn lemma_scan_ident_take(s: Seq<u8>, n: int)
    requires
        0 <= n <= s.len(),
        forall|m: int| 0 <= m < n ==> is_ident_byte(#[trigger] s[m]),
        n == s.len() || !is_ident_byte(s[n]),
    ensures
        spec_scan_ident(s) == s.take(n),
    decreases n,
{
    if n == 0 {
        assert(spec_scan_ident(s) =~= s.take(0));
    } else {
        assert(is_ident_byte(s[0]));
        lemma_scan_ident_take(s.skip(1), n - 1);
        assert(spec_scan_ident(s) == seq![s[0]] + s.skip(1).take(n - 1));
        assert(seq![s[0]] + s.skip(1).take(n - 1) =~= s.take(n));
    }
}

/// `spec_scan_digits` returns exactly the prefix up to the first non-digit.
pub proof fn lemma_scan_digits_take(s: Seq<u8>, n: int)
    requires
        0 <= n <= s.len(),
        forall|m: int| 0 <= m < n ==> is_digit(#[trigger] s[m]),
        n == s.len() || !is_digit(s[n]),
    ensures
        spec_scan_digits(s) == s.take(n),
    decreases n,
{
    if n == 0 {
        assert(spec_scan_digits(s) =~= s.take(0));
    } else {
        assert(is_digit(s[0]));
        lemma_scan_digits_take(s.skip(1), n - 1);
        assert(spec_scan_digits(s) == seq![s[0]] + s.skip(1).take(n - 1));
        assert(seq![s[0]] + s.skip(1).take(n - 1) =~= s.take(n));
    }
}

/// Every byte the digit scanner collects is a digit.
pub proof fn lemma_scan_digits_all(s: Seq<u8>)
    ensures
        forall|m: int|
            0 <= m < spec_scan_digits(s).len() ==> is_digit(#[trigger] spec_scan_digits(s)[m]),
    decreases s.len(),
{
    if s.len() > 0 && is_digit(s[0]) {
        lemma_scan_digits_all(s.skip(1));
        assert forall|m: int|
            0 <= m < spec_scan_digits(s).len() implies is_digit(
            #[trigger] spec_scan_digits(s)[m],
        ) by {
            if m > 0 {
                assert(spec_scan_digits(s)[m] == spec_scan_digits(s.skip(1))[m - 1]);
            }
        }
    }
}

// ---------------------------------------------------------------------------
// Executable parser
// ---------------------------------------------------------------------------

/// Scans identifier bytes from `i`; returns the first index past them.
pub fn scan_ident(line: &Vec<u8>, i: usize) -> (j: usize)
    requires
        i <= line@.len(),
    ensures
        i <= j <= line@.len(),
        spec_scan_ident(line@.skip(i as int)) == line@.subrange(i as int, j as int),
        j == line@.len() || !is_ident_byte(line@[j as int]),
{
    let mut j: usize = i;
    while j < line.len() && ident_byte_check(line[j])
        invariant
            i <= j <= line@.len(),
            forall|m: int| i <= m < j ==> is_ident_byte(#[trigger] line@[m]),
        decreases line@.len() - j,
    {
        j = j + 1;
    }
    proof {
        let s = line@.skip(i as int);
        assert forall|m: int| 0 <= m < j - i implies is_ident_byte(#[trigger] s[m]) by {
            assert(s[m] == line@[i + m]);
        }
        if j < line.len() {
            assert(s[j - i] == line@[j as int]);
        }
        lemma_scan_ident_take(s, j - i);
        assert(s.take(j - i) =~= line@.subrange(i as int, j as int));
    }
    j
}

/// Scans decimal digits from `i`; returns the first index past them.
pub fn scan_digits(line: &Vec<u8>, i: usize) -> (j: usize)
    requires
        i <= line@.len(),
    ensures
        i <= j <= line@.len(),
        spec_scan_digits(line@.skip(i as int)) == line@.subrange(i as int, j as int),
        j == line@.len() || !is_digit(line@[j as int]),
{
    let mut j: usize = i;
    while j < line.len() && digit_check(line[j])
        invariant
            i <= j <= line@.len(),
            forall|m: int| i <= m < j ==> is_digit(#[trigger] line@[m]),
        decreases line@.len() - j,
    {
        j = j + 1;
    }
    proof {
        let s = line@.skip(i as int);
        assert forall|m: int| 0 <= m < j - i implies is_digit(#[trigger] s[m]) by {
            assert(s[m] == line@[i + m]);
        }
        if j < line.len() {
            assert(s[j - i] == line@[j as int]);
        }
        lemma_scan_digits_take(s, j - i);
        assert(s.take(j - i) =~= line@.subrange(i as int, j as int));
    }
    j
}

/// Copies `line[i..j]` into a fresh vector.
pub fn copy_range(line: &Vec<u8>, i: usize, j: usize) -> (r: Vec<u8>)
    requires
        i <= j <= line@.len(),
    ensures
        r@ == line@.subrange(i as int, j as int),
{
    let mut out: Vec<u8> = Vec::new();
    assert(out@ =~= line@.subrange(i as int, i as int));
    let mut k: usize = i;
    while k < j
        invariant
            i <= k <= j <= line@.len(),
            out@ == line@.subrange(i as int, k as int),
        decreases j - k,
    {
        out.push(line[k]);
        assert(out@ =~= line@.subrange(i as int, k + 1));
        k = k + 1;
    }
    out
}

/// Decodes a quoted string's body starting at `i` (the byte after the
/// opening quote); returns the decoded text and the index after the closing
/// quote.
pub fn parse_cstring_body(line: &Vec<u8>, i: usize) -> (r: Option<(Vec<u8>, usize)>)
    requires
        i <= line@.len(),
    ensures
        match r {
            Some(p) => i < p.1 <= line@.len() && spec_parse_cstring(line@.skip(i as int)) == Some(
                (p.0@, line@.skip(p.1 as int)),
            ),
            None => spec_parse_cstring(line@.skip(i as int)) is None,
        },
{
    let mut out: Vec<u8> = Vec::new();
    let mut cur: usize = i;
    proof {
        match spec_parse_cstring(line@.skip(i as int)) {
            Some(p) => {
                assert(out@ + p.0 =~= p.0);
            },
            None => {},
        }
    }
    loop
        invariant
            i <= cur <= line@.len(),
            match spec_parse_cstring(line@.skip(cur as int)) {
                Some(p) => spec_parse_cstring(line@.skip(i as int)) == Some((out@ + p.0, p.1)),
                None => spec_parse_cstring(line@.skip(i as int)) is None,
            },
        decreases line@.len() - cur,
    {
        proof {
            let s = line@.skip(cur as int);
            if cur < line@.len() {
                assert(s[0] == line@[cur as int]);
                assert(s.skip(1) =~= line@.skip(cur + 1));
                if cur + 1 < line@.len() {
                    assert(s[1] == line@[cur + 1]);
                    assert(s.skip(2) =~= line@.skip(cur + 2));
                }
            }
        }
        if cur == line.len() {
            return None;
        }
        let b = line[cur];
        if b == QUOTE {
            proof {
                assert(out@ + Seq::<u8>::empty() =~= out@);
            }
            return Some((out, cur + 1));
        } else if b == BACKSLASH {
            if cur + 1 == line.len() {
                return None;
            }
            let c = line[cur + 1];
            let decoded: u8 = if c == 0x6e {
                0x0a
            } else if c == 0x74 {
                0x09
            } else if c == QUOTE {
                QUOTE
            } else if c == BACKSLASH {
                BACKSLASH
            } else {
                return None;
            };
            proof {
                assert(spec_unescape_byte(line@[cur + 1]) == Some(decoded));
            }
            let ghost out_old = out@;
            out.push(decoded);
            proof {
                match spec_parse_cstring(line@.skip(cur + 2)) {
                    Some(p) => {
                        assert(out_old + (seq![decoded] + p.0) =~= out@ + p.0);
                    },
                    None => {},
                }
            }
            cur = cur + 2;
        } else {
            let ghost out_old = out@;
            out.push(b);
            proof {
                match spec_parse_cstring(line@.skip(cur + 1)) {
                    Some(p) => {
                        assert(out_old + (seq![b] + p.0) =~= out@ + p.0);
                    },
                    None => {},
                }
            }
            cur = cur + 1;
        }
    }
}

/// Parses one value starting at `i`.
pub fn parse_value(line: &Vec<u8>, i: usize) -> (r: Option<(Value, usize)>)
    requires
        i <= line@.len(),
    ensures
        match r {
            Some(p) => i < p.1 <= line@.len() && spec_parse_value(line@.skip(i as int)) == Some(
                (p.0@, line@.skip(p.1 as int)),
            ),
            None => spec_parse_value(line@.skip(i as int)) is None,
        },
    decreases line@.len() - i, 0nat,
{
    proof {
        let s = line@.skip(i as int);
        if i < line@.len() {
            assert(s[0] == line@[i as int]);
            assert(s.skip(1) =~= line@.skip(i + 1));
            if i + 1 < line@.len() {
                assert(s[1] == line@[i + 1]);
                assert(s.skip(2) =~= line@.skip(i + 2));
            }
        }
    }
    if i == line.len() {
        return None;
    }
    let b = line[i];
    if b == QUOTE {
        match parse_cstring_body(line, i + 1) {
            Some((t, j)) => Some((Value::Scalar(t), j)),
            None => None,
        }
    } else if b == LBRACE {
        if i + 1 < line.len() && line[i + 1] == RBRACE {
            let v = Value::Tuple(Vec::new());
            proof {
                assert(view_fields(Seq::<Field>::empty()) =~= Seq::<FieldS>::empty());
            }
            Some((v, i + 2))
        } else {
            match parse_fields(line, i + 1) {
                Some((fl, j)) => {
                    if j < line.len() && line[j] == RBRACE {
                        proof {
                            let rr = line@.skip(j as int);
                            assert(rr[0] == line@[j as int]);
                            assert(rr.skip(1) =~= line@.skip(j + 1));
                        }
                        Some((Value::Tuple(fl), j + 1))
                    } else {
                        None
                    }
                },
                None => None,
            }
        }
    } else if b == LBRACKET {
        if i + 1 < line.len() && line[i + 1] == RBRACKET {
            let v = Value::List(Vec::new());
            proof {
                assert(view_values(Seq::<Value>::empty()) =~= Seq::<ValueS>::empty());
            }
            Some((v, i + 2))
        } else {
            match parse_values(line, i + 1) {
                Some((vl, j)) => {
                    if j < line.len() && line[j] == RBRACKET {
                        proof {
                            let rr = line@.skip(j as int);
                            assert(rr[0] == line@[j as int]);
                            assert(rr.skip(1) =~= line@.skip(j + 1));
                        }
                        Some((Value::List(vl), j + 1))
                    } else {
                        None
                    }
                },
                None => None,
            }
        }
    } else {
        None
    }
}

/// Parses a nonempty field list starting at `i`.
pub fn parse_fields(line: &Vec<u8>, i: usize) -> (r: Option<(Vec<Field>, usize)>)
    requires
        i <= line@.len(),
    ensures
        match r {
            Some(p) => i < p.1 <= line@.len() && spec_parse_fields(line@.skip(i as int)) == Some(
                (view_fields(p.0@), line@.skip(p.1 as int)),
            ),
            None => spec_parse_fields(line@.skip(i as int)) is None,
        },
    decreases line@.len() - i, 2nat,
{
    let ghost s = line@.skip(i as int);
    let k_end = scan_ident(line, i);
    proof {
        assert(spec_scan_ident(s).len() == k_end - i);
    }
    if k_end == i {
        return None;
    }
    if k_end == line.len() || line[k_end] != EQUALS {
        proof {
            if k_end < line@.len() {
                assert(s[k_end - i] == line@[k_end as int]);
            }
        }
        return None;
    }
    proof {
        assert(s[k_end - i] == line@[k_end as int]);
        assert(s.skip(k_end - i + 1) =~= line@.skip(k_end + 1));
    }
    let key = copy_range(line, i, k_end);
    match parse_value(line, k_end + 1) {
        Some((v, j2)) => {
            let ghost k = spec_scan_ident(s);
            let ghost f_spec = FieldS { key: k, value: v@ };
            let f = Field { key, value: v };
            proof {
                assert(view_field(f) == f_spec);
                let rr = line@.skip(j2 as int);
                if j2 < line@.len() {
                    assert(rr[0] == line@[j2 as int]);
                    assert(rr.skip(1) =~= line@.skip(j2 + 1));
                }
                assert(rr.len() < s.len());
            }
            if j2 < line.len() && line[j2] == COMMA {
                match parse_fields(line, j2 + 1) {
                    Some((fl2, j3)) => {
                        let mut out: Vec<Field> = Vec::new();
                        out.push(f);
                        let mut tail = fl2;
                        out.append(&mut tail);
                        proof {
                            lemma_view_fields(out@);
                            lemma_view_fields(fl2@);
                            assert forall|m: int|
                                0 <= m < out@.len() implies view_fields(out@)[m] == (seq![f_spec]
                                + view_fields(fl2@))[m] by {
                                if m == 0 {
                                    assert(out@[0] == f);
                                } else {
                                    assert(out@[m] == fl2@[m - 1]);
                                }
                            }
                            assert(view_fields(out@) =~= seq![f_spec] + view_fields(fl2@));
                        }
                        Some((out, j3))
                    },
                    None => None,
                }
            } else {
                let mut out: Vec<Field> = Vec::new();
                out.push(f);
                proof {
                    lemma_view_fields(out@);
                    assert(view_fields(out@) =~= seq![f_spec]);
                }
                Some((out, j2))
            }
        },
        None => None,
    }
}

/// Parses a nonempty value list starting at `i`.
pub fn parse_values(line: &Vec<u8>, i: usize) -> (r: Option<(Vec<Value>, usize)>)
    requires
        i <= line@.len(),
    ensures
        match r {
            Some(p) => i < p.1 <= line@.len() && spec_parse_values(line@.skip(i as int)) == Some(
                (view_values(p.0@), line@.skip(p.1 as int)),
            ),
            None => spec_parse_values(line@.skip(i as int)) is None,
        },
    decreases line@.len() - i, 1nat,
{
    let ghost s = line@.skip(i as int);
    match parse_value(line, i) {
        Some((v, j)) => {
            proof {
                let rr = line@.skip(j as int);
                if j < line@.len() {
                    assert(rr[0] == line@[j as int]);
                    assert(rr.skip(1) =~= line@.skip(j + 1));
                }
                assert(rr.len() < s.len());
            }
            if j < line.len() && line[j] == COMMA {
                match parse_values(line, j + 1) {
                    Some((vl2, j3)) => {
                        let ghost v_spec = v@;
                        let mut out: Vec<Value> = Vec::new();
                        out.push(v);
                        let mut tail = vl2;
                        out.append(&mut tail);
                        proof {
                            lemma_view_values(out@);
                            lemma_view_values(vl2@);
                            assert forall|m: int|
                                0 <= m < out@.len() implies view_values(out@)[m] == (seq![v_spec]
                                + view_values(vl2@))[m] by {
                                if m == 0 {
                                    assert(out@[0] == Seq::<Value>::empty().push(out@[0])[0]);
                                } else {
                                    assert(out@[m] == vl2@[m - 1]);
                                }
                            }
                            assert(view_values(out@) =~= seq![v_spec] + view_values(vl2@));
                        }
                        Some((out, j3))
                    },
                    None => None,
                }
            } else {
                let ghost v_spec = v@;
                let mut out: Vec<Value> = Vec::new();
                out.push(v);
                proof {
                    lemma_view_values(out@);
                    assert(view_values(out@) =~= seq![v_spec]);
                }
                Some((out, j))
            }
        },
        None => None,
    }
}

} // verus!
