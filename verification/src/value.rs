use vstd::prelude::*;

verus! {

/// Mathematical shape of a protocol value: a scalar string, a tuple of
/// named fields, or a list of values. These are the wire protocol's only
/// three shapes.
pub enum ValueS {
    Scalar(Seq<u8>),
    Tuple(Seq<FieldS>),
    List(Seq<ValueS>),
}

/// Mathematical shape of one `key=value` field.
pub struct FieldS {
    pub key: Seq<u8>,
    pub value: ValueS,
}

/// Executable protocol value.
#[derive(Debug, PartialEq)]
pub enum Value {
    Scalar(Vec<u8>),
    Tuple(Vec<Field>),
    List(Vec<Value>),
}

/// Executable `key=value` field.
#[derive(Debug, PartialEq)]
pub struct Field {
    pub key: Vec<u8>,
    pub value: Value,
}

pub open spec fn view_value(v: Value) -> ValueS
    decreases v,
{
    match v {
        Value::Scalar(s) => ValueS::Scalar(s@),
        Value::Tuple(fs) => ValueS::Tuple(view_fields(fs@)),
        Value::List(vs) => ValueS::List(view_values(vs@)),
    }
}

pub open spec fn view_fields(fs: Seq<Field>) -> Seq<FieldS>
    decreases fs,
{
    if fs.len() == 0 {
        Seq::empty()
    } else {
        view_fields(fs.drop_last()).push(view_field(fs.last()))
    }
}

pub open spec fn view_field(f: Field) -> FieldS
    decreases f,
{
    FieldS { key: f.key@, value: view_value(f.value) }
}

pub open spec fn view_values(vs: Seq<Value>) -> Seq<ValueS>
    decreases vs,
{
    if vs.len() == 0 {
        Seq::empty()
    } else {
        view_values(vs.drop_last()).push(view_value(vs.last()))
    }
}

/// A value the wire grammar can carry: scalars are arbitrary (escaping
/// covers every byte), keys are nonempty identifier strings.
pub open spec fn wf_value(v: ValueS) -> bool
    decreases v, 0nat,
{
    match v {
        ValueS::Scalar(_) => true,
        ValueS::Tuple(fs) => wf_fields(fs),
        ValueS::List(vs) => wf_values(vs),
    }
}

pub open spec fn wf_fields(fs: Seq<FieldS>) -> bool
    decreases fs, 1nat,
{
    forall|i: int| 0 <= i < fs.len() ==> wf_field(#[trigger] fs[i])
}

pub open spec fn wf_field(f: FieldS) -> bool
    decreases f, 2nat,
{
    f.key.len() > 0 && (forall|i: int|
        0 <= i < f.key.len() ==> crate::text::is_ident_byte(#[trigger] f.key[i])) && wf_value(
        f.value,
    )
}

pub open spec fn wf_values(vs: Seq<ValueS>) -> bool
    decreases vs, 1nat,
{
    forall|i: int| 0 <= i < vs.len() ==> wf_value(#[trigger] vs[i])
}

impl View for Value {
    type V = ValueS;

    open spec fn view(&self) -> ValueS {
        view_value(*self)
    }
}

impl View for Field {
    type V = FieldS;

    open spec fn view(&self) -> FieldS {
        view_field(*self)
    }
}

/// The element-wise reading of `view_fields`: it maps each field to its view.
pub proof fn lemma_view_fields(fs: Seq<Field>)
    ensures
        view_fields(fs).len() == fs.len(),
        forall|i: int| 0 <= i < fs.len() ==> view_fields(fs)[i] == view_field(#[trigger] fs[i]),
    decreases fs,
{
    if fs.len() > 0 {
        lemma_view_fields(fs.drop_last());
        assert forall|i: int| 0 <= i < fs.len() implies view_fields(fs)[i] == view_field(
            #[trigger] fs[i],
        ) by {
            if i < fs.len() - 1 {
                assert(fs.drop_last()[i] == fs[i]);
            } else {
                assert(fs.last() == fs[i]);
            }
        }
    }
}

/// The element-wise reading of `view_values`: it maps each value to its view.
pub proof fn lemma_view_values(vs: Seq<Value>)
    ensures
        view_values(vs).len() == vs.len(),
        forall|i: int| 0 <= i < vs.len() ==> view_values(vs)[i] == view_value(#[trigger] vs[i]),
    decreases vs,
{
    if vs.len() > 0 {
        lemma_view_values(vs.drop_last());
        assert forall|i: int| 0 <= i < vs.len() implies view_values(vs)[i] == view_value(
            #[trigger] vs[i],
        ) by {
            if i < vs.len() - 1 {
                assert(vs.drop_last()[i] == vs[i]);
            } else {
                assert(vs.last() == vs[i]);
            }
        }
    }
}

} // verus!
