use vstd::prelude::*;

use crate::text::{
    BACKSLASH, COMMA, EQUALS, LBRACE, LBRACKET, NEWLINE, QUOTE, RBRACE, RBRACKET, TAB,
    spec_escape, spec_escape_byte,
};
use crate::value::{
    Field, FieldS, Value, ValueS, lemma_view_fields, lemma_view_values, view_field, view_fields,
    view_value, view_values,
};

verus! {

// ---------------------------------------------------------------------------
// How a field tree is written on the wire
// ---------------------------------------------------------------------------

/// The bytes of one value: a quoted string, a braced field list, or a
/// bracketed value list.
pub open spec fn spec_ser_value(v: ValueS) -> Seq<u8>
    decreases v, 0nat,
{
    match v {
        ValueS::Scalar(s) => seq![QUOTE] + spec_escape(s) + seq![QUOTE],
        ValueS::Tuple(fs) => seq![LBRACE] + spec_ser_fields(fs) + seq![RBRACE],
        ValueS::List(vs) => seq![LBRACKET] + spec_ser_values(vs) + seq![RBRACKET],
    }
}

/// The bytes of a field list: `key=value` pairs separated by commas.
pub open spec fn spec_ser_fields(fs: Seq<FieldS>) -> Seq<u8>
    decreases fs, 1nat,
{
    if fs.len() == 0 {
        Seq::empty()
    } else if fs.len() == 1 {
        spec_ser_field(fs[0])
    } else {
        spec_ser_field(fs[0]) + seq![COMMA] + spec_ser_fields(fs.drop_first())
    }
}

/// The bytes of one `key=value` field.
pub open spec fn spec_ser_field(f: FieldS) -> Seq<u8>
    decreases f, 2nat,
{
    f.key + seq![EQUALS] + spec_ser_value(f.value)
}

/// The bytes of a value list: values separated by commas.
pub open spec fn spec_ser_values(vs: Seq<ValueS>) -> Seq<u8>
    decreases vs, 1nat,
{
    if vs.len() == 0 {
        Seq::empty()
    } else if vs.len() == 1 {
        spec_ser_value(vs[0])
    } else {
        spec_ser_value(vs[0]) + seq![COMMA] + spec_ser_values(vs.drop_first())
    }
}

// ---------------------------------------------------------------------------
// Executable serializer
// ---------------------------------------------------------------------------

/// Appends the escaped form of `s` to `out`.
pub fn write_escaped(out: &mut Vec<u8>, s: &Vec<u8>)
    ensures
        final(out)@ == old(out)@ + spec_escape(s@),
{
    let mut i: usize = 0;
    while i < s.len()
        invariant
            i <= s@.len(),
            out@ == old(out)@ + spec_escape(s@.take(i as int)),
        decreases s@.len() - i,
    {
        let b = s[i];
        if b == QUOTE {
            out.push(BACKSLASH);
            out.push(QUOTE);
        } else if b == BACKSLASH {
            out.push(BACKSLASH);
            out.push(BACKSLASH);
        } else if b == NEWLINE {
            out.push(BACKSLASH);
            out.push(0x6e);
        } else if b == TAB {
            out.push(BACKSLASH);
            out.push(0x74);
        } else {
            out.push(b);
        }
        proof {
            lemma_escape_snoc(s@.take(i as int), s@[i as int]);
            assert(s@.take(i + 1) == s@.take(i as int).push(s@[i as int]));
            assert(out@ =~= old(out)@ + spec_escape(s@.take(i + 1)));
        }
        i = i + 1;
    }
    proof {
        assert(s@.take(s@.len() as int) == s@);
    }
}

/// Escaping a string one byte longer appends that byte's escape.
pub proof fn lemma_escape_snoc(s: Seq<u8>, b: u8)
    ensures
        spec_escape(s.push(b)) == spec_escape(s) + spec_escape_byte(b),
    decreases s.len(),
{
    if s.len() == 0 {
        assert(s.push(b)[0] == b);
        assert(s.push(b).skip(1) =~= Seq::<u8>::empty());
        assert(spec_escape(s.push(b)) == spec_escape_byte(b) + spec_escape(
            Seq::<u8>::empty(),
        ));
        assert(spec_escape(Seq::<u8>::empty()) == Seq::<u8>::empty());
        assert(spec_escape(s.push(b)) =~= spec_escape(s) + spec_escape_byte(b));
    } else {
        assert(s.push(b)[0] == s[0]);
        assert(s.push(b).skip(1) =~= s.skip(1).push(b));
        lemma_escape_snoc(s.skip(1), b);
        assert(spec_escape(s.push(b)) == spec_escape_byte(s[0]) + spec_escape(s.skip(1).push(b)));
        assert(spec_escape(s) == spec_escape_byte(s[0]) + spec_escape(s.skip(1)));
        assert(spec_escape_byte(s[0]) + (spec_escape(s.skip(1)) + spec_escape_byte(b)) =~= (
        spec_escape_byte(s[0]) + spec_escape(s.skip(1))) + spec_escape_byte(b));
    }
}

/// Appends the wire form of `v` to `out`.
pub fn write_value(out: &mut Vec<u8>, v: &Value)
    ensures
        final(out)@ == old(out)@ + spec_ser_value(v@),
    decreases v, 0nat,
{
    match v {
        Value::Scalar(s) => {
            out.push(QUOTE);
            write_escaped(out, s);
            out.push(QUOTE);
            assert(out@ =~= old(out)@ + spec_ser_value(v@));
        },
        Value::Tuple(fs) => {
            out.push(LBRACE);
            proof {
                assert(decreases_to!(*v => *fs));
                assert(decreases_to!(*fs => fs@));
                assert(fs@.skip(0) =~= fs@);
            }
            write_fields_from(out, fs, 0);
            out.push(RBRACE);
            proof {
                assert(fs@.skip(0) =~= fs@);
                lemma_view_fields_skip(fs@, 0);
                assert(out@ =~= old(out)@ + spec_ser_value(v@));
            }
        },
        Value::List(vs) => {
            out.push(LBRACKET);
            proof {
                assert(decreases_to!(*v => *vs));
                assert(decreases_to!(*vs => vs@));
                assert(vs@.skip(0) =~= vs@);
            }
            write_values_from(out, vs, 0);
            out.push(RBRACKET);
            proof {
                assert(vs@.skip(0) =~= vs@);
                lemma_view_values_skip(vs@, 0);
                assert(out@ =~= old(out)@ + spec_ser_value(v@));
            }
        },
    }
}

/// The view of a suffix is the suffix of the view.
pub proof fn lemma_view_fields_skip(fs: Seq<Field>, i: int)
    requires
        0 <= i <= fs.len(),
    ensures
        view_fields(fs.skip(i)) == view_fields(fs).skip(i),
{
    lemma_view_fields(fs);
    lemma_view_fields(fs.skip(i));
    assert forall|j: int| 0 <= j < view_fields(fs.skip(i)).len() implies view_fields(fs.skip(i))[j]
        == view_fields(fs).skip(i)[j] by {
        assert(fs.skip(i)[j] == fs[i + j]);
    }
    assert(view_fields(fs.skip(i)) =~= view_fields(fs).skip(i));
}

/// The view of a suffix is the suffix of the view.
pub proof fn lemma_view_values_skip(vs: Seq<Value>, i: int)
    requires
        0 <= i <= vs.len(),
    ensures
        view_values(vs.skip(i)) == view_values(vs).skip(i),
{
    lemma_view_values(vs);
    lemma_view_values(vs.skip(i));
    assert forall|j: int| 0 <= j < view_values(vs.skip(i)).len() implies view_values(vs.skip(i))[j]
        == view_values(vs).skip(i)[j] by {
        assert(vs.skip(i)[j] == vs[i + j]);
    }
    assert(view_values(vs.skip(i)) =~= view_values(vs).skip(i));
}

/// Appends the wire form of the fields from index `i` on, comma-separated.
pub fn write_fields_from(out: &mut Vec<u8>, fs: &Vec<Field>, i: usize)
    requires
        i <= fs@.len(),
    ensures
        final(out)@ == old(out)@ + spec_ser_fields(view_fields(fs@).skip(i as int)),
    decreases fs@.skip(i as int), 1nat,
{
    proof {
        lemma_view_fields(fs@);
    }
    if i < fs.len() {
        let key = &fs[i].key;
        assert(out@ =~= old(out)@ + key@.take(0));
        let mut j: usize = 0;
        while j < key.len()
            invariant
                j <= key@.len(),
                out@ == old(out)@ + key@.take(j as int),
                key == fs@[i as int].key,
                i < fs@.len(),
            decreases key@.len() - j,
        {
            out.push(key[j]);
            assert(out@ =~= old(out)@ + key@.take(j + 1));
            j = j + 1;
        }
        assert(key@.take(key@.len() as int) == key@);
        out.push(EQUALS);
        proof {
            assert(decreases_to!(fs@.skip(i as int) => fs@.skip(i as int)[0]));
            assert(fs@.skip(i as int)[0] == fs@[i as int]);
            assert(decreases_to!(fs@[i as int] => fs@[i as int].value));
        }
        write_value(out, &fs[i].value);
        if i + 1 < fs.len() {
            out.push(COMMA);
            proof {
                let s = fs@.skip(i as int);
                assert(fs@.skip(i + 1) =~= s.subrange(1, s.len() as int));
                assert(decreases_to!(s => s.subrange(1, s.len() as int)));
            }
            write_fields_from(out, fs, i + 1);
            proof {
                let vf = view_fields(fs@);
                let f0 = vf.skip(i as int)[0];
                assert(vf.skip(i as int).drop_first() =~= vf.skip(i + 1));
                assert(f0 == view_field(fs@[i as int]));
                assert(spec_ser_fields(vf.skip(i as int)) == spec_ser_field(f0) + seq![COMMA]
                    + spec_ser_fields(vf.skip(i + 1)));
                assert(spec_ser_field(f0) == f0.key + seq![EQUALS] + spec_ser_value(f0.value));
                assert(out@ =~= old(out)@ + spec_ser_fields(vf.skip(i as int)));
            }
        } else {
            proof {
                let vf = view_fields(fs@);
                let f0 = vf.skip(i as int)[0];
                assert(vf.skip(i as int).len() == 1);
                assert(f0 == view_field(fs@[i as int]));
                assert(spec_ser_fields(vf.skip(i as int)) == spec_ser_field(f0));
                assert(spec_ser_field(f0) == f0.key + seq![EQUALS] + spec_ser_value(f0.value));
                assert(out@ =~= old(out)@ + spec_ser_fields(vf.skip(i as int)));
            }
        }
    } else {
        proof {
            assert(view_fields(fs@).skip(i as int) =~= Seq::<FieldS>::empty());
            assert(out@ =~= old(out)@ + spec_ser_fields(view_fields(fs@).skip(i as int)));
        }
    }
}

/// Appends the wire form of the values from index `i` on, comma-separated.
pub fn write_values_from(out: &mut Vec<u8>, vs: &Vec<Value>, i: usize)
    requires
        i <= vs@.len(),
    ensures
        final(out)@ == old(out)@ + spec_ser_values(view_values(vs@).skip(i as int)),
    decreases vs@.skip(i as int), 1nat,
{
    proof {
        lemma_view_values(vs@);
    }
    if i < vs.len() {
        proof {
            assert(decreases_to!(vs@.skip(i as int) => vs@.skip(i as int)[0]));
            assert(vs@.skip(i as int)[0] == vs@[i as int]);
        }
        write_value(out, &vs[i]);
        if i + 1 < vs.len() {
            out.push(COMMA);
            proof {
                let s = vs@.skip(i as int);
                assert(vs@.skip(i + 1) =~= s.subrange(1, s.len() as int));
                assert(decreases_to!(s => s.subrange(1, s.len() as int)));
            }
            write_values_from(out, vs, i + 1);
            proof {
                let vv = view_values(vs@);
                assert(vv.skip(i as int).drop_first() =~= vv.skip(i + 1));
                assert(vv.skip(i as int)[0] == view_value(vs@[i as int]));
                assert(out@ =~= old(out)@ + spec_ser_values(vv.skip(i as int)));
            }
        } else {
            proof {
                let vv = view_values(vs@);
                assert(vv.skip(i as int).len() == 1);
                assert(vv.skip(i as int)[0] == view_value(vs@[i as int]));
                assert(out@ =~= old(out)@ + spec_ser_values(vv.skip(i as int)));
            }
        }
    } else {
        proof {
            assert(view_values(vs@).skip(i as int) =~= Seq::<ValueS>::empty());
            assert(out@ =~= old(out)@ + spec_ser_values(view_values(vs@).skip(i as int)));
        }
    }
}

/// The wire form of one value, on its own.
pub fn serialize_value(v: &Value) -> (r: Vec<u8>)
    ensures
        r@ == spec_ser_value(v@),
{
    let mut out: Vec<u8> = Vec::new();
    write_value(&mut out, v);
    out
}

} // verus!
