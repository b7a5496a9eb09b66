use vstd::prelude::*;

use crate::parse::{
    lemma_scan_ident_take, spec_parse_cstring, spec_parse_fields, spec_parse_value,
    spec_parse_values,
};
use crate::ser::{spec_ser_field, spec_ser_fields, spec_ser_value, spec_ser_values};
use crate::text::{
    BACKSLASH, COMMA, EQUALS, NEWLINE, QUOTE, RBRACE, RBRACKET, TAB, is_ident_byte, spec_escape,
    spec_escape_byte,
};
use crate::record::{
    RecordS, ResultStatus, async_char, kw_done, kw_error, kw_exit, kw_running, spec_parse_record,
    spec_parse_tail_fields, spec_ser_record, spec_ser_tail_fields, spec_status_of, status_keyword,
    stream_char, wf_record,
};
use crate::text::{CARET, dec_digits, digits_val, is_digit, lemma_dec_digits};
use crate::value::{FieldS, ValueS, wf_field, wf_fields, wf_value, wf_values};

verus! {

// ---------------------------------------------------------------------------
// Round-trip laws: whatever the serializer writes, the parser reads back.
// ---------------------------------------------------------------------------

/// A quoted scalar survives the round trip: escaping, closing the quote and
/// parsing gives back the scalar and the untouched rest of the input. This
/// holds for every byte string, since escaping covers every byte.
pub proof fn lemma_roundtrip_cstring(t: Seq<u8>, rest: Seq<u8>)
    ensures
        spec_parse_cstring(spec_escape(t) + seq![QUOTE] + rest) == Some((t, rest)),
    decreases t.len(),
{
    let s = spec_escape(t) + seq![QUOTE] + rest;
    if t.len() == 0 {
        assert(spec_escape(t) =~= Seq::<u8>::empty());
        assert(s =~= seq![QUOTE] + rest);
        assert(s[0] == QUOTE);
        assert(s.skip(1) =~= rest);
    } else {
        let b = t[0];
        let e = spec_escape_byte(b);
        assert(spec_escape(t) == e + spec_escape(t.skip(1)));
        lemma_roundtrip_cstring(t.skip(1), rest);
        let s1 = spec_escape(t.skip(1)) + seq![QUOTE] + rest;
        if b == QUOTE || b == BACKSLASH || b == NEWLINE || b == TAB {
            assert(e.len() == 2 && e[0] == BACKSLASH);
            assert(s =~= e + s1);
            assert(s[0] == BACKSLASH);
            assert(s[1] == e[1]);
            assert(crate::text::spec_unescape_byte(e[1]) == Some(b));
            assert(s.skip(2) =~= s1);
            assert(seq![b] + t.skip(1) =~= t);
        } else {
            assert(e =~= seq![b]);
            assert(s =~= seq![b] + s1);
            assert(s[0] == b);
            assert(s[0] != QUOTE && s[0] != BACKSLASH);
            assert(s.skip(1) =~= s1);
            assert(seq![b] + t.skip(1) =~= t);
        }
    }
}

/// A value survives the round trip, leaving the rest of the input alone.
pub proof fn lemma_roundtrip_value(v: ValueS, rest: Seq<u8>)
    requires
        wf_value(v),
    ensures
        spec_parse_value(spec_ser_value(v) + rest) == Some((v, rest)),
    decreases v, 0nat,
{
    let s = spec_ser_value(v) + rest;
    match v {
        ValueS::Scalar(t) => {
            assert(spec_ser_value(v) == seq![QUOTE] + spec_escape(t) + seq![QUOTE]);
            assert(s =~= seq![QUOTE] + (spec_escape(t) + seq![QUOTE] + rest));
            assert(s.len() >= 1);
            assert(s[0] == QUOTE);
            assert(s.skip(1) =~= spec_escape(t) + seq![QUOTE] + rest);
            lemma_roundtrip_cstring(t, rest);
            assert(spec_parse_cstring(s.skip(1)) == Some((t, rest)));
            assert(spec_parse_value(s) == Some((ValueS::Scalar(t), rest)));
        },
        ValueS::Tuple(fl) => {
            if fl.len() == 0 {
                assert(fl =~= Seq::<FieldS>::empty());
                assert(spec_ser_fields(fl) =~= Seq::<u8>::empty());
                assert(s =~= seq![crate::text::LBRACE, RBRACE] + rest);
                assert(s[0] == crate::text::LBRACE);
                assert(s.len() >= 2 && s[1] == RBRACE);
                assert(s.skip(2) =~= rest);
            } else {
                let inner = spec_ser_fields(fl) + (seq![RBRACE] + rest);
                assert(s =~= seq![crate::text::LBRACE] + inner);
                assert(s[0] == crate::text::LBRACE);
                assert(wf_fields(fl));
                assert(wf_field(fl[0]));
                lemma_ser_fields_first_byte(fl);
                assert(s[1] == fl[0].key[0]);
                assert(is_ident_byte(fl[0].key[0]));
                assert(s[1] != RBRACE);
                assert(s.skip(1) =~= inner);
                lemma_roundtrip_fields(fl, seq![RBRACE] + rest);
                let r = seq![RBRACE] + rest;
                assert(r[0] == RBRACE);
                assert(r.skip(1) =~= rest);
            }
        },
        ValueS::List(vl) => {
            if vl.len() == 0 {
                assert(vl =~= Seq::<ValueS>::empty());
                assert(spec_ser_values(vl) =~= Seq::<u8>::empty());
                assert(s =~= seq![crate::text::LBRACKET, RBRACKET] + rest);
                assert(s[0] == crate::text::LBRACKET);
                assert(s.len() >= 2 && s[1] == RBRACKET);
                assert(s.skip(2) =~= rest);
            } else {
                let inner = spec_ser_values(vl) + (seq![RBRACKET] + rest);
                assert(s =~= seq![crate::text::LBRACKET] + inner);
                assert(s[0] == crate::text::LBRACKET);
                lemma_ser_values_first_byte(vl);
                assert(s[1] == spec_ser_value(vl[0])[0]);
                assert(wf_value(vl[0]));
                lemma_ser_value_first_byte(vl[0]);
                assert(s[1] != RBRACKET);
                assert(s.skip(1) =~= inner);
                lemma_roundtrip_values(vl, seq![RBRACKET] + rest);
                let r = seq![RBRACKET] + rest;
                assert(r[0] == RBRACKET);
                assert(r.skip(1) =~= rest);
            }
        },
    }
}

/// A serialized value starts with a quote, a brace or a bracket.
pub proof fn lemma_ser_value_first_byte(v: ValueS)
    ensures
        spec_ser_value(v).len() >= 2,
        spec_ser_value(v)[0] == QUOTE || spec_ser_value(v)[0] == crate::text::LBRACE
            || spec_ser_value(v)[0] == crate::text::LBRACKET,
{
    match v {
        ValueS::Scalar(t) => {
            assert(spec_ser_value(v) =~= seq![QUOTE] + spec_escape(t) + seq![QUOTE]);
        },
        ValueS::Tuple(fl) => {},
        ValueS::List(vl) => {},
    }
}

/// A serialized nonempty field list starts with the first key's first byte.
pub proof fn lemma_ser_fields_first_byte(fl: Seq<FieldS>)
    requires
        fl.len() >= 1,
        fl[0].key.len() >= 1,
    ensures
        spec_ser_fields(fl).len() >= 1,
        spec_ser_fields(fl)[0] == fl[0].key[0],
{
    assert(spec_ser_field(fl[0]) == fl[0].key + seq![EQUALS] + spec_ser_value(fl[0].value));
    assert(spec_ser_field(fl[0])[0] == fl[0].key[0]);
}

/// A serialized nonempty value list starts as its first value starts.
pub proof fn lemma_ser_values_first_byte(vl: Seq<ValueS>)
    requires
        vl.len() >= 1,
    ensures
        spec_ser_values(vl).len() >= 1,
        spec_ser_values(vl)[0] == spec_ser_value(vl[0])[0],
{
    lemma_ser_value_first_byte(vl[0]);
}

/// A nonempty field list survives the round trip, provided what follows it
/// does not begin with a comma, which would read as one more field.
pub proof fn lemma_roundtrip_fields(fl: Seq<FieldS>, rest: Seq<u8>)
    requires
        wf_fields(fl),
        fl.len() >= 1,
        rest.len() == 0 || rest[0] != COMMA,
    ensures
        spec_parse_fields(spec_ser_fields(fl) + rest) == Some((fl, rest)),
    decreases fl, 1nat,
{
    let s = spec_ser_fields(fl) + rest;
    assert(wf_field(fl[0]));
    let key = fl[0].key;
    let sv = spec_ser_value(fl[0].value);
    let tail: Seq<u8> = if fl.len() == 1 {
        rest
    } else {
        seq![COMMA] + (spec_ser_fields(fl.drop_first()) + rest)
    };
    assert(spec_ser_field(fl[0]) == key + seq![EQUALS] + sv);
    if fl.len() == 1 {
        assert(spec_ser_fields(fl) == spec_ser_field(fl[0]));
        assert(s =~= key + seq![EQUALS] + sv + tail);
    } else {
        assert(spec_ser_fields(fl) == spec_ser_field(fl[0]) + seq![COMMA] + spec_ser_fields(
            fl.drop_first(),
        ));
        assert(s =~= key + seq![EQUALS] + sv + tail);
    }
    // The scanner reads exactly the key: its bytes are identifier bytes and
    // the equals sign that follows is not.
    assert forall|m: int| 0 <= m < key.len() implies is_ident_byte(#[trigger] s[m]) by {
        assert(s[m] == key[m]);
    }
    assert(s[key.len() as int] == EQUALS);
    assert(!is_ident_byte(EQUALS));
    lemma_scan_ident_take(s, key.len() as int);
    let k = crate::parse::spec_scan_ident(s);
    assert(k =~= key);
    assert(k.len() == key.len());
    assert(s.skip(k.len() + 1 as int) =~= sv + tail);
    lemma_roundtrip_value(fl[0].value, tail);
    assert(spec_parse_value(sv + tail) == Some((fl[0].value, tail)));
    if fl.len() == 1 {
        assert(FieldS { key: k, value: fl[0].value } == fl[0]);
        assert(seq![fl[0]] =~= fl);
    } else {
        assert(tail[0] == COMMA);
        assert(tail.len() < s.len());
        assert(tail.skip(1) =~= spec_ser_fields(fl.drop_first()) + rest);
        assert(wf_fields(fl.drop_first()));
        lemma_roundtrip_fields(fl.drop_first(), rest);
        assert(FieldS { key: k, value: fl[0].value } == fl[0]);
        assert(seq![fl[0]] + fl.drop_first() =~= fl);
    }
}

/// The bytes of a status keyword are identifier bytes, and reading the
/// keyword back gives the status it was written for.
pub proof fn lemma_status_keyword(st: ResultStatus)
    ensures
        status_keyword(st).len() >= 1,
        forall|i: int|
            0 <= i < status_keyword(st).len() ==> is_ident_byte(#[trigger] status_keyword(st)[i]),
        spec_status_of(status_keyword(st)) == Some(st),
{
    match st {
        ResultStatus::Done => {},
        ResultStatus::Running => {
            assert(kw_running() != kw_done()) by {
                assert(kw_running().len() != kw_done().len());
            }
        },
        ResultStatus::Error => {
            assert(kw_error() != kw_done()) by {
                assert(kw_error().len() != kw_done().len());
            }
            assert(kw_error() != kw_running()) by {
                assert(kw_error().len() != kw_running().len());
            }
        },
        ResultStatus::Exit => {
            assert(kw_exit() != kw_done()) by {
                if kw_exit() == kw_done() {
                    assert(kw_exit()[0] == kw_done()[0]);
                }
            }
            assert(kw_exit() != kw_running()) by {
                assert(kw_exit().len() != kw_running().len());
            }
            assert(kw_exit() != kw_error()) by {
                assert(kw_exit().len() != kw_error().len());
            }
        },
    }
}

/// The keyword or class name, followed by the written tail fields, parses
/// back to the name and the fields.
pub proof fn lemma_roundtrip_name_and_tail(name: Seq<u8>, fields: Seq<FieldS>)
    requires
        name.len() >= 1,
        forall|i: int| 0 <= i < name.len() ==> is_ident_byte(#[trigger] name[i]),
        wf_fields(fields),
    ensures
        crate::parse::spec_scan_ident(name + spec_ser_tail_fields(fields)) == name,
        spec_parse_tail_fields(
            (name + spec_ser_tail_fields(fields)).skip(name.len() as int),
        ) == Some(fields),
{
    let tail = spec_ser_tail_fields(fields);
    let s = name + tail;
    assert forall|m: int| 0 <= m < name.len() implies is_ident_byte(#[trigger] s[m]) by {
        assert(s[m] == name[m]);
    }
    if fields.len() == 0 {
        assert(tail =~= Seq::<u8>::empty());
        assert(s =~= name);
        lemma_scan_ident_take(s, name.len() as int);
        assert(s.take(name.len() as int) =~= name);
        assert(s.skip(name.len() as int).len() == 0);
        assert(fields =~= Seq::<FieldS>::empty());
    } else {
        assert(tail == seq![COMMA] + spec_ser_fields(fields));
        assert(s[name.len() as int] == COMMA);
        assert(!is_ident_byte(COMMA));
        lemma_scan_ident_take(s, name.len() as int);
        assert(s.take(name.len() as int) =~= name);
        let t = s.skip(name.len() as int);
        assert(t =~= tail);
        assert(t[0] == COMMA);
        lemma_roundtrip_fields(fields, Seq::empty());
        assert(spec_ser_fields(fields) + Seq::<u8>::empty() =~= spec_ser_fields(fields));
        assert(t.skip(1) =~= spec_ser_fields(fields));
    }
}

/// A whole record survives the round trip: parsing the line written for a
/// well-formed record gives back exactly that record.
pub proof fn lemma_roundtrip_record(r: RecordS)
    requires
        wf_record(r),
    ensures
        spec_parse_record(spec_ser_record(r)) == Some(r),
{
    let s = spec_ser_record(r);
    match r {
        RecordS::CmdResult { token, status, fields } => {
            lemma_status_keyword(status);
            let kw = status_keyword(status);
            let tail = spec_ser_tail_fields(fields);
            let body = kw + tail;
            lemma_roundtrip_name_and_tail(kw, fields);
            match token {
                Some(t) => {
                    lemma_dec_digits(t as nat);
                    let d = dec_digits(t as nat);
                    assert(s =~= d + seq![CARET] + body);
                    assert forall|m: int| 0 <= m < d.len() implies is_digit(#[trigger] s[m]) by {
                        assert(s[m] == d[m]);
                    }
                    assert(s[d.len() as int] == CARET);
                    assert(!is_digit(CARET));
                    crate::parse::lemma_scan_digits_take(s, d.len() as int);
                    assert(s.take(d.len() as int) =~= d);
                    assert(digits_val(d) == t as nat);
                    assert(s.skip(d.len() + 1 as int) =~= body);
                },
                None => {
                    assert(s =~= seq![CARET] + body);
                    assert(s[0] == CARET);
                    assert(!is_digit(CARET));
                    assert(crate::parse::spec_scan_digits(s) =~= Seq::<u8>::empty());
                    assert(s.skip(1) =~= body);
                },
            }
        },
        RecordS::AsyncNotify { kind, class, fields } => {
            let tail = spec_ser_tail_fields(fields);
            let body = class + tail;
            lemma_roundtrip_name_and_tail(class, fields);
            assert(s =~= seq![async_char(kind)] + body);
            assert(s[0] == async_char(kind));
            assert(!is_digit(s[0]));
            assert(crate::parse::spec_scan_digits(s) =~= Seq::<u8>::empty());
            assert(s.skip(1) =~= body);
        },
        RecordS::Stream { kind, text } => {
            let inner = spec_escape(text) + seq![QUOTE] + Seq::<u8>::empty();
            assert(s =~= seq![stream_char(kind), QUOTE] + (spec_escape(text) + seq![QUOTE]));
            assert(s[0] == stream_char(kind));
            assert(!is_digit(s[0]));
            assert(crate::parse::spec_scan_digits(s) =~= Seq::<u8>::empty());
            let b = s.skip(1);
            assert(b[0] == QUOTE);
            lemma_roundtrip_cstring(text, Seq::empty());
            assert(b.skip(1) =~= inner);
            assert(spec_parse_cstring(inner) == Some((text, Seq::<u8>::empty())));
        },
    }
}

/// A nonempty value list survives the round trip, provided what follows it
/// does not begin with a comma.
pub proof fn lemma_roundtrip_values(vl: Seq<ValueS>, rest: Seq<u8>)
    requires
        wf_values(vl),
        vl.len() >= 1,
        rest.len() == 0 || rest[0] != COMMA,
    ensures
        spec_parse_values(spec_ser_values(vl) + rest) == Some((vl, rest)),
    decreases vl, 1nat,
{
    let s = spec_ser_values(vl) + rest;
    assert(wf_value(vl[0]));
    let sv = spec_ser_value(vl[0]);
    let tail: Seq<u8> = if vl.len() == 1 {
        rest
    } else {
        seq![COMMA] + (spec_ser_values(vl.drop_first()) + rest)
    };
    if vl.len() == 1 {
        assert(spec_ser_values(vl) == spec_ser_value(vl[0]));
        assert(s =~= sv + tail);
    } else {
        assert(spec_ser_values(vl) == spec_ser_value(vl[0]) + seq![COMMA] + spec_ser_values(
            vl.drop_first(),
        ));
        assert(s =~= sv + tail);
    }
    lemma_roundtrip_value(vl[0], tail);
    assert(spec_parse_value(s) == Some((vl[0], tail)));
    if vl.len() == 1 {
        assert(seq![vl[0]] =~= vl);
    } else {
        assert(tail[0] == COMMA);
        assert(tail.len() < s.len());
        assert(tail.skip(1) =~= spec_ser_values(vl.drop_first()) + rest);
        assert(wf_values(vl.drop_first()));
        lemma_roundtrip_values(vl.drop_first(), rest);
        assert(seq![vl[0]] + vl.drop_first() =~= vl);
    }
}

} // verus!
