use vstd::prelude::*;

use crate::ser::{serialize_value, spec_ser_value};
use crate::text::{digit_of, digits_val, is_digit};
use crate::value::{Field, FieldS, Value, ValueS, view_fields, view_value, view_values};

verus! {

// ---------------------------------------------------------------------------
// Domain objects decoded from record field trees
// ---------------------------------------------------------------------------

/// A breakpoint as the backend reports it; the backend-assigned number is
/// authoritative.
#[derive(Debug, PartialEq)]
pub struct Breakpoint {
    pub number: u64,
    pub file: Vec<u8>,
    pub line: u32,
    pub enabled: bool,
    pub hit_count: u32,
}

pub struct BreakpointS {
    pub number: u64,
    pub file: Seq<u8>,
    pub line: u32,
    pub enabled: bool,
    pub hit_count: u32,
}

impl View for Breakpoint {
    type V = BreakpointS;

    open spec fn view(&self) -> BreakpointS {
        BreakpointS {
            number: self.number,
            file: self.file@,
            line: self.line,
            enabled: self.enabled,
            hit_count: self.hit_count,
        }
    }
}

/// One stack frame; level 0 is the innermost frame.
#[derive(Debug, PartialEq)]
pub struct StackFrame {
    pub level: u32,
    pub func: Vec<u8>,
    pub file: Vec<u8>,
    pub line: u32,
    pub addr: Vec<u8>,
}

pub struct StackFrameS {
    pub level: u32,
    pub func: Seq<u8>,
    pub file: Seq<u8>,
    pub line: u32,
    pub addr: Seq<u8>,
}

impl View for StackFrame {
    type V = StackFrameS;

    open spec fn view(&self) -> StackFrameS {
        StackFrameS {
            level: self.level,
            func: self.func@,
            file: self.file@,
            line: self.line,
            addr: self.addr@,
        }
    }
}

/// A named variable; its type and value are opaque backend text. A nested
/// value is kept in its wire form.
#[derive(Debug, PartialEq)]
pub struct Variable {
    pub name: Vec<u8>,
    pub vtype: Vec<u8>,
    pub value: Vec<u8>,
}

pub struct VariableS {
    pub name: Seq<u8>,
    pub vtype: Seq<u8>,
    pub value: Seq<u8>,
}

impl View for Variable {
    type V = VariableS;

    open spec fn view(&self) -> VariableS {
        VariableS { name: self.name@, vtype: self.vtype@, value: self.value@ }
    }
}

/// A register and its raw value text, format backend-dependent.
#[derive(Debug, PartialEq)]
pub struct Register {
    pub name: Vec<u8>,
    pub value: Vec<u8>,
}

/// A register value as reported: by register index, not yet by name.
#[derive(Debug, PartialEq)]
pub struct RegisterValue {
    pub number: u64,
    pub value: Vec<u8>,
}

/// Memory read back from the target: base address text as reported, the
/// decoded bytes, and the size that was asked for. A partial read returns
/// fewer bytes than requested, never more.
#[derive(Debug, PartialEq)]
pub struct MemoryBlock {
    pub begin: Vec<u8>,
    pub bytes: Vec<u8>,
    pub requested: u32,
}

// ---------------------------------------------------------------------------
// Decode errors
// ---------------------------------------------------------------------------

#[derive(Debug, Clone, Copy, PartialEq, Eq, Structural)]
pub enum DecodeErrorKind {
    /// A required key is absent.
    Missing,
    /// The key is present with the wrong shape of value.
    WrongShape,
    /// A number does not fit its domain type.
    OutOfRange,
}

/// A decode failure naming the offending key.
#[derive(Debug, PartialEq)]
pub struct DecodeError {
    pub key: Vec<u8>,
    pub kind: DecodeErrorKind,
}

pub struct DecodeErrorS {
    pub key: Seq<u8>,
    pub kind: DecodeErrorKind,
}

impl View for DecodeError {
    type V = DecodeErrorS;

    open spec fn view(&self) -> DecodeErrorS {
        DecodeErrorS { key: self.key@, kind: self.kind }
    }
}

// ---------------------------------------------------------------------------
// Field lookup
// ---------------------------------------------------------------------------

/// The first value stored under `key`, if any. Unknown extra keys are
/// thereby ignored: lookups see only the keys they ask for.
pub open spec fn spec_field_lookup(fs: Seq<FieldS>, key: Seq<u8>) -> Option<ValueS>
    decreases fs.len(),
{
    if fs.len() == 0 {
        None
    } else if fs[0].key == key {
        Some(fs[0].value)
    } else {
        spec_field_lookup(fs.drop_first(), key)
    }
}

/// Byte-string equality.
pub fn bytes_eq(a: &Vec<u8>, b: &Vec<u8>) -> (r: bool)
    ensures
        r == (a@ == b@),
{
    if a.len() != b.len() {
        return false;
    }
    let mut i: usize = 0;
    while i < a.len()
        invariant
            i <= a@.len(),
            a@.len() == b@.len(),
            forall|k: int| 0 <= k < i ==> a@[k] == b@[k],
        decreases a@.len() - i,
    {
        if a[i] != b[i] {
            return false;
        }
        i = i + 1;
    }
    proof {
        assert(a@ =~= b@);
    }
    true
}

/// Finds the first field stored under `key`.
pub fn lookup_field<'a>(fields: &'a Vec<Field>, key: &Vec<u8>) -> (r: Option<&'a Value>)
    ensures
        match r {
            Some(v) => spec_field_lookup(view_fields(fields@), key@) == Some(v@),
            None => spec_field_lookup(view_fields(fields@), key@) is None,
        },
{
    proof {
        crate::value::lemma_view_fields(fields@);
        assert(view_fields(fields@).skip(0) =~= view_fields(fields@));
    }
    let ghost vf = view_fields(fields@);
    let mut i: usize = 0;
    while i < fields.len()
        invariant
            i <= fields@.len(),
            vf == view_fields(fields@),
            vf.len() == fields@.len(),
            forall|k: int| 0 <= k < fields@.len() ==> vf[k] == crate::value::view_field(#[trigger] fields@[k]),
            spec_field_lookup(vf.skip(i as int), key@) == spec_field_lookup(vf, key@),
            forall|k: int| 0 <= k < i ==> (#[trigger] vf[k]).key != key@,
        decreases fields@.len() - i,
    {
        proof {
            assert(vf.skip(i as int)[0] == vf[i as int]);
            assert(vf.skip(i as int).drop_first() =~= vf.skip(i + 1));
        }
        if bytes_eq(&fields[i].key, key) {
            return Some(&fields[i].value);
        }
        i = i + 1;
    }
    proof {
        assert(vf.skip(i as int).len() == 0);
    }
    None
}

// ---------------------------------------------------------------------------
// Scalar readings
// ---------------------------------------------------------------------------

/// A nonempty string of decimal digits.
pub open spec fn spec_all_digits(s: Seq<u8>) -> bool {
    s.len() > 0 && forall|i: int| 0 <= i < s.len() ==> is_digit(#[trigger] s[i])
}

/// Reads a decimal scalar, refusing values over `u64::MAX`.
pub fn scalar_u64(s: &Vec<u8>) -> (r: Option<u64>)
    ensures
        match r {
            Some(t) => spec_all_digits(s@) && digits_val(s@) == t as nat,
            None => !spec_all_digits(s@) || digits_val(s@) > u64::MAX,
        },
{
    if s.len() == 0 {
        return None;
    }
    let mut acc: Option<u64> = Some(0);
    let mut m: usize = 0;
    proof {
        assert(s@.subrange(0, 0) =~= Seq::<u8>::empty());
    }
    while m < s.len()
        invariant
            m <= s@.len(),
            forall|k: int| 0 <= k < m ==> is_digit(#[trigger] s@[k]),
            match acc {
                Some(a) => digits_val(s@.subrange(0, m as int)) == a as nat,
                None => digits_val(s@.subrange(0, m as int)) > u64::MAX,
            },
        decreases s@.len() - m,
    {
        let b = s[m];
        if !(0x30 <= b && b <= 0x39) {
            return None;
        }
        let d = b - 0x30;
        proof {
            assert(digit_of(b) == d as nat);
            assert(s@.subrange(0, m + 1) =~= s@.subrange(0, m as int).push(b));
            crate::text::lemma_digits_val_push(s@.subrange(0, m as int), b);
        }
        match acc {
            Some(a) => {
                if a > (u64::MAX - d as u64) / 10 {
                    proof {
                        assert(a as nat * 10 + d as nat > u64::MAX) by (nonlinear_arith)
                            requires
                                a > (u64::MAX - d as u64) / 10,
                                d < 10,
                        ;
                    }
                    acc = None;
                } else {
                    proof {
                        assert(a as nat * 10 + d as nat <= u64::MAX) by (nonlinear_arith)
                            requires
                                a <= (u64::MAX - d as u64) / 10,
                                d < 10,
                        ;
                    }
                    acc = Some(a * 10 + d as u64);
                }
            },
            None => {
                proof {
                    let v = digits_val(s@.subrange(0, m as int));
                    assert(v * 10 + digit_of(b) >= v);
                }
            },
        }
        m = m + 1;
    }
    proof {
        assert(s@.subrange(0, s@.len() as int) =~= s@);
    }
    acc
}

// ---------------------------------------------------------------------------
// Field readings shared by the decoders
// ---------------------------------------------------------------------------

/// An optional text field: absent keys read as empty, a present key must be
/// a scalar.
pub open spec fn spec_text_field(fs: Seq<FieldS>, key: Seq<u8>) -> Result<Seq<u8>, DecodeErrorS> {
    match spec_field_lookup(fs, key) {
        None => Ok(Seq::empty()),
        Some(v) => match v {
            ValueS::Scalar(s) => Ok(s),
            _ => Err(DecodeErrorS { key, kind: DecodeErrorKind::WrongShape }),
        },
    }
}

/// A required text field.
pub open spec fn spec_req_text_field(fs: Seq<FieldS>, key: Seq<u8>) -> Result<
    Seq<u8>,
    DecodeErrorS,
> {
    match spec_field_lookup(fs, key) {
        None => Err(DecodeErrorS { key, kind: DecodeErrorKind::Missing }),
        Some(v) => match v {
            ValueS::Scalar(s) => Ok(s),
            _ => Err(DecodeErrorS { key, kind: DecodeErrorKind::WrongShape }),
        },
    }
}

/// An optional numeric field: absent keys read as zero.
pub open spec fn spec_num_field_u32(fs: Seq<FieldS>, key: Seq<u8>) -> Result<u32, DecodeErrorS> {
    match spec_field_lookup(fs, key) {
        None => Ok(0),
        Some(v) => match v {
            ValueS::Scalar(s) => if !spec_all_digits(s) {
                Err(DecodeErrorS { key, kind: DecodeErrorKind::WrongShape })
            } else if digits_val(s) > u32::MAX {
                Err(DecodeErrorS { key, kind: DecodeErrorKind::OutOfRange })
            } else {
                Ok(digits_val(s) as u32)
            },
            _ => Err(DecodeErrorS { key, kind: DecodeErrorKind::WrongShape }),
        },
    }
}

/// A required numeric field that must fit a `u64`.
pub open spec fn spec_req_num_field_u64(fs: Seq<FieldS>, key: Seq<u8>) -> Result<
    u64,
    DecodeErrorS,
> {
    match spec_field_lookup(fs, key) {
        None => Err(DecodeErrorS { key, kind: DecodeErrorKind::Missing }),
        Some(v) => match v {
            ValueS::Scalar(s) => if !spec_all_digits(s) {
                Err(DecodeErrorS { key, kind: DecodeErrorKind::WrongShape })
            } else if digits_val(s) > u64::MAX {
                Err(DecodeErrorS { key, kind: DecodeErrorKind::OutOfRange })
            } else {
                Ok(digits_val(s) as u64)
            },
            _ => Err(DecodeErrorS { key, kind: DecodeErrorKind::WrongShape }),
        },
    }
}

/// A required numeric field that must fit a `u32`.
pub open spec fn spec_req_num_field_u32(fs: Seq<FieldS>, key: Seq<u8>) -> Result<
    u32,
    DecodeErrorS,
> {
    match spec_req_num_field_u64(fs, key) {
        Err(e) => Err(e),
        Ok(n) => if n > u32::MAX as u64 {
            Err(DecodeErrorS { key, kind: DecodeErrorKind::OutOfRange })
        } else {
            Ok(n as u32)
        },
    }
}

/// A flag field: absent keys read as the given default, `y` means enabled,
/// any other scalar means disabled.
pub open spec fn spec_flag_field(fs: Seq<FieldS>, key: Seq<u8>, default: bool) -> Result<
    bool,
    DecodeErrorS,
> {
    match spec_field_lookup(fs, key) {
        None => Ok(default),
        Some(v) => match v {
            ValueS::Scalar(s) => Ok(s == seq![0x79u8]),
            _ => Err(DecodeErrorS { key, kind: DecodeErrorKind::WrongShape }),
        },
    }
}

fn text_field(fields: &Vec<Field>, key: Vec<u8>) -> (r: Result<Vec<u8>, DecodeError>)
    ensures
        match r {
            Ok(s) => spec_text_field(view_fields(fields@), key@) == Ok::<Seq<u8>, DecodeErrorS>(
                s@,
            ),
            Err(e) => spec_text_field(view_fields(fields@), key@) == Err::<Seq<u8>, DecodeErrorS>(
                e@,
            ),
        },
{
    match lookup_field(fields, &key) {
        None => Ok(Vec::new()),
        Some(v) => match v {
            Value::Scalar(s) => Ok(crate::record::clone_bytes(s)),
            _ => Err(DecodeError { key, kind: DecodeErrorKind::WrongShape }),
        },
    }
}

fn req_text_field(fields: &Vec<Field>, key: Vec<u8>) -> (r: Result<Vec<u8>, DecodeError>)
    ensures
        match r {
            Ok(s) => spec_req_text_field(view_fields(fields@), key@) == Ok::<
                Seq<u8>,
                DecodeErrorS,
            >(s@),
            Err(e) => spec_req_text_field(view_fields(fields@), key@) == Err::<
                Seq<u8>,
                DecodeErrorS,
            >(e@),
        },
{
    match lookup_field(fields, &key) {
        None => Err(DecodeError { key, kind: DecodeErrorKind::Missing }),
        Some(v) => match v {
            Value::Scalar(s) => Ok(crate::record::clone_bytes(s)),
            _ => Err(DecodeError { key, kind: DecodeErrorKind::WrongShape }),
        },
    }
}

fn num_field_u32(fields: &Vec<Field>, key: Vec<u8>) -> (r: Result<u32, DecodeError>)
    ensures
        match r {
            Ok(n) => spec_num_field_u32(view_fields(fields@), key@) == Ok::<u32, DecodeErrorS>(n),
            Err(e) => spec_num_field_u32(view_fields(fields@), key@) == Err::<u32, DecodeErrorS>(
                e@,
            ),
        },
{
    match lookup_field(fields, &key) {
        None => Ok(0),
        Some(v) => match v {
            Value::Scalar(s) => {
                match scalar_u64(s) {
                    Some(t) => {
                        if t > 0xffff_ffffu64 {
                            Err(DecodeError { key, kind: DecodeErrorKind::OutOfRange })
                        } else {
                            Ok(t as u32)
                        }
                    },
                    None => {
                        if s.len() > 0 && all_digits_check(s) {
                            Err(DecodeError { key, kind: DecodeErrorKind::OutOfRange })
                        } else {
                            Err(DecodeError { key, kind: DecodeErrorKind::WrongShape })
                        }
                    },
                }
            },
            _ => Err(DecodeError { key, kind: DecodeErrorKind::WrongShape }),
        },
    }
}

fn req_num_field_u64(fields: &Vec<Field>, key: Vec<u8>) -> (r: Result<u64, DecodeError>)
    ensures
        match r {
            Ok(n) => spec_req_num_field_u64(view_fields(fields@), key@) == Ok::<u64, DecodeErrorS>(
                n,
            ),
            Err(e) => spec_req_num_field_u64(view_fields(fields@), key@) == Err::<
                u64,
                DecodeErrorS,
            >(e@),
        },
{
    match lookup_field(fields, &key) {
        None => Err(DecodeError { key, kind: DecodeErrorKind::Missing }),
        Some(v) => match v {
            Value::Scalar(s) => {
                match scalar_u64(s) {
                    Some(t) => Ok(t),
                    None => {
                        if s.len() > 0 && all_digits_check(s) {
                            Err(DecodeError { key, kind: DecodeErrorKind::OutOfRange })
                        } else {
                            Err(DecodeError { key, kind: DecodeErrorKind::WrongShape })
                        }
                    },
                }
            },
            _ => Err(DecodeError { key, kind: DecodeErrorKind::WrongShape }),
        },
    }
}

fn req_num_field_u32(fields: &Vec<Field>, key: Vec<u8>) -> (r: Result<u32, DecodeError>)
    ensures
        match r {
            Ok(n) => spec_req_num_field_u32(view_fields(fields@), key@) == Ok::<u32, DecodeErrorS>(
                n,
            ),
            Err(e) => spec_req_num_field_u32(view_fields(fields@), key@) == Err::<
                u32,
                DecodeErrorS,
            >(e@),
        },
{
    let key2 = crate::record::clone_bytes(&key);
    match req_num_field_u64(fields, key2) {
        Ok(n) => {
            if n > 0xffff_ffffu64 {
                Err(DecodeError { key, kind: DecodeErrorKind::OutOfRange })
            } else {
                Ok(n as u32)
            }
        },
        Err(e) => Err(e),
    }
}

fn flag_field(fields: &Vec<Field>, key: Vec<u8>, default: bool) -> (r: Result<bool, DecodeError>)
    ensures
        match r {
            Ok(b) => spec_flag_field(view_fields(fields@), key@, default) == Ok::<
                bool,
                DecodeErrorS,
            >(b),
            Err(e) => spec_flag_field(view_fields(fields@), key@, default) == Err::<
                bool,
                DecodeErrorS,
            >(e@),
        },
{
    match lookup_field(fields, &key) {
        None => Ok(default),
        Some(v) => match v {
            Value::Scalar(s) => {
                let yes = s.len() == 1 && s[0] == 0x79;
                proof {
                    if yes {
                        assert(s@ =~= seq![0x79u8]);
                    } else {
                        assert(s@ != seq![0x79u8]) by {
                            if s@ == seq![0x79u8] {
                                assert(s@.len() == 1 && s@[0] == 0x79);
                            }
                        }
                    }
                }
                Ok(yes)
            },
            _ => Err(DecodeError { key, kind: DecodeErrorKind::WrongShape }),
        },
    }
}

/// Whether every byte of a nonempty scalar is a decimal digit.
fn all_digits_check(s: &Vec<u8>) -> (r: bool)
    requires
        s@.len() > 0,
    ensures
        r == spec_all_digits(s@),
{
    let mut i: usize = 0;
    while i < s.len()
        invariant
            i <= s@.len(),
            forall|k: int| 0 <= k < i ==> is_digit(#[trigger] s@[k]),
        decreases s@.len() - i,
    {
        if !(0x30 <= s[i] && s[i] <= 0x39) {
            return false;
        }
        i = i + 1;
    }
    true
}


// ---------------------------------------------------------------------------
// Field keys
// ---------------------------------------------------------------------------

/// The field key `number`.
pub open spec fn k_number() -> Seq<u8> {
    seq![0x6eu8, 0x75u8, 0x6du8, 0x62u8, 0x65u8, 0x72u8]
}

pub fn key_number() -> (r: Vec<u8>)
    ensures
        r@ == k_number(),
{
    let mut v: Vec<u8> = Vec::new();
    v.push(0x6e);
    v.push(0x75);
    v.push(0x6d);
    v.push(0x62);
    v.push(0x65);
    v.push(0x72);
    proof {
        assert(v@ =~= k_number());
    }
    v
}

/// The field key `file`.
pub open spec fn k_file() -> Seq<u8> {
    seq![0x66u8, 0x69u8, 0x6cu8, 0x65u8]
}

pub fn key_file() -> (r: Vec<u8>)
    ensures
        r@ == k_file(),
{
    let mut v: Vec<u8> = Vec::new();
    v.push(0x66);
    v.push(0x69);
    v.push(0x6c);
    v.push(0x65);
    proof {
        assert(v@ =~= k_file());
    }
    v
}

/// The field key `line`.
pub open spec fn k_line() -> Seq<u8> {
    seq![0x6cu8, 0x69u8, 0x6eu8, 0x65u8]
}

pub fn key_line() -> (r: Vec<u8>)
    ensures
        r@ == k_line(),
{
    let mut v: Vec<u8> = Vec::new();
    v.push(0x6c);
    v.push(0x69);
    v.push(0x6e);
    v.push(0x65);
    proof {
        assert(v@ =~= k_line());
    }
    v
}

/// The field key `enabled`.
pub open spec fn k_enabled() -> Seq<u8> {
    seq![0x65u8, 0x6eu8, 0x61u8, 0x62u8, 0x6cu8, 0x65u8, 0x64u8]
}

pub fn key_enabled() -> (r: Vec<u8>)
    ensures
        r@ == k_enabled(),
{
    let mut v: Vec<u8> = Vec::new();
    v.push(0x65);
    v.push(0x6e);
    v.push(0x61);
    v.push(0x62);
    v.push(0x6c);
    v.push(0x65);
    v.push(0x64);
    proof {
        assert(v@ =~= k_enabled());
    }
    v
}

/// The field key `times`.
pub open spec fn k_times() -> Seq<u8> {
    seq![0x74u8, 0x69u8, 0x6du8, 0x65u8, 0x73u8]
}

pub fn key_times() -> (r: Vec<u8>)
    ensures
        r@ == k_times(),
{
    let mut v: Vec<u8> = Vec::new();
    v.push(0x74);
    v.push(0x69);
    v.push(0x6d);
    v.push(0x65);
    v.push(0x73);
    proof {
        assert(v@ =~= k_times());
    }
    v
}

/// The field key `func`.
pub open spec fn k_func() -> Seq<u8> {
    seq![0x66u8, 0x75u8, 0x6eu8, 0x63u8]
}

pub fn key_func() -> (r: Vec<u8>)
    ensures
        r@ == k_func(),
{
    let mut v: Vec<u8> = Vec::new();
    v.push(0x66);
    v.push(0x75);
    v.push(0x6e);
    v.push(0x63);
    proof {
        assert(v@ =~= k_func());
    }
    v
}

/// The field key `addr`.
pub open spec fn k_addr() -> Seq<u8> {
    seq![0x61u8, 0x64u8, 0x64u8, 0x72u8]
}

pub fn key_addr() -> (r: Vec<u8>)
    ensures
        r@ == k_addr(),
{
    let mut v: Vec<u8> = Vec::new();
    v.push(0x61);
    v.push(0x64);
    v.push(0x64);
    v.push(0x72);
    proof {
        assert(v@ =~= k_addr());
    }
    v
}

/// The field key `level`.
pub open spec fn k_level() -> Seq<u8> {
    seq![0x6cu8, 0x65u8, 0x76u8, 0x65u8, 0x6cu8]
}

pub fn key_level() -> (r: Vec<u8>)
    ensures
        r@ == k_level(),
{
    let mut v: Vec<u8> = Vec::new();
    v.push(0x6c);
    v.push(0x65);
    v.push(0x76);
    v.push(0x65);
    v.push(0x6c);
    proof {
        assert(v@ =~= k_level());
    }
    v
}

/// The field key `name`.
pub open spec fn k_name() -> Seq<u8> {
    seq![0x6eu8, 0x61u8, 0x6du8, 0x65u8]
}

pub fn key_name() -> (r: Vec<u8>)
    ensures
        r@ == k_name(),
{
    let mut v: Vec<u8> = Vec::new();
    v.push(0x6e);
    v.push(0x61);
    v.push(0x6d);
    v.push(0x65);
    proof {
        assert(v@ =~= k_name());
    }
    v
}

/// The field key `type`.
pub open spec fn k_vtype() -> Seq<u8> {
    seq![0x74u8, 0x79u8, 0x70u8, 0x65u8]
}

pub fn key_vtype() -> (r: Vec<u8>)
    ensures
        r@ == k_vtype(),
{
    let mut v: Vec<u8> = Vec::new();
    v.push(0x74);
    v.push(0x79);
    v.push(0x70);
    v.push(0x65);
    proof {
        assert(v@ =~= k_vtype());
    }
    v
}

/// The field key `value`.
pub open spec fn k_value() -> Seq<u8> {
    seq![0x76u8, 0x61u8, 0x6cu8, 0x75u8, 0x65u8]
}

pub fn key_value() -> (r: Vec<u8>)
    ensures
        r@ == k_value(),
{
    let mut v: Vec<u8> = Vec::new();
    v.push(0x76);
    v.push(0x61);
    v.push(0x6c);
    v.push(0x75);
    v.push(0x65);
    proof {
        assert(v@ =~= k_value());
    }
    v
}

/// The field key `begin`.
pub open spec fn k_begin() -> Seq<u8> {
    seq![0x62u8, 0x65u8, 0x67u8, 0x69u8, 0x6eu8]
}

pub fn key_begin() -> (r: Vec<u8>)
    ensures
        r@ == k_begin(),
{
    let mut v: Vec<u8> = Vec::new();
    v.push(0x62);
    v.push(0x65);
    v.push(0x67);
    v.push(0x69);
    v.push(0x6e);
    proof {
        assert(v@ =~= k_begin());
    }
    v
}

/// The field key `contents`.
pub open spec fn k_contents() -> Seq<u8> {
    seq![0x63u8, 0x6fu8, 0x6eu8, 0x74u8, 0x65u8, 0x6eu8, 0x74u8, 0x73u8]
}

pub fn key_contents() -> (r: Vec<u8>)
    ensures
        r@ == k_contents(),
{
    let mut v: Vec<u8> = Vec::new();
    v.push(0x63);
    v.push(0x6f);
    v.push(0x6e);
    v.push(0x74);
    v.push(0x65);
    v.push(0x6e);
    v.push(0x74);
    v.push(0x73);
    proof {
        assert(v@ =~= k_contents());
    }
    v
}

/// The field key `reason`.
pub open spec fn k_reason() -> Seq<u8> {
    seq![0x72u8, 0x65u8, 0x61u8, 0x73u8, 0x6fu8, 0x6eu8]
}

pub fn key_reason() -> (r: Vec<u8>)
    ensures
        r@ == k_reason(),
{
    let mut v: Vec<u8> = Vec::new();
    v.push(0x72);
    v.push(0x65);
    v.push(0x61);
    v.push(0x73);
    v.push(0x6f);
    v.push(0x6e);
    proof {
        assert(v@ =~= k_reason());
    }
    v
}

/// The field key `thread-id`.
pub open spec fn k_thread_id() -> Seq<u8> {
    seq![0x74u8, 0x68u8, 0x72u8, 0x65u8, 0x61u8, 0x64u8, 0x2du8, 0x69u8, 0x64u8]
}

pub fn key_thread_id() -> (r: Vec<u8>)
    ensures
        r@ == k_thread_id(),
{
    let mut v: Vec<u8> = Vec::new();
    v.push(0x74);
    v.push(0x68);
    v.push(0x72);
    v.push(0x65);
    v.push(0x61);
    v.push(0x64);
    v.push(0x2d);
    v.push(0x69);
    v.push(0x64);
    proof {
        assert(v@ =~= k_thread_id());
    }
    v
}

/// The field key `frame`.
pub open spec fn k_frame() -> Seq<u8> {
    seq![0x66u8, 0x72u8, 0x61u8, 0x6du8, 0x65u8]
}

pub fn key_frame() -> (r: Vec<u8>)
    ensures
        r@ == k_frame(),
{
    let mut v: Vec<u8> = Vec::new();
    v.push(0x66);
    v.push(0x72);
    v.push(0x61);
    v.push(0x6d);
    v.push(0x65);
    proof {
        assert(v@ =~= k_frame());
    }
    v
}

/// The field key `msg`.
pub open spec fn k_msg() -> Seq<u8> {
    seq![0x6du8, 0x73u8, 0x67u8]
}

pub fn key_msg() -> (r: Vec<u8>)
    ensures
        r@ == k_msg(),
{
    let mut v: Vec<u8> = Vec::new();
    v.push(0x6d);
    v.push(0x73);
    v.push(0x67);
    proof {
        assert(v@ =~= k_msg());
    }
    v
}

/// The field key `bkpt`.
pub open spec fn k_bkpt() -> Seq<u8> {
    seq![0x62u8, 0x6bu8, 0x70u8, 0x74u8]
}

pub fn key_bkpt() -> (r: Vec<u8>)
    ensures
        r@ == k_bkpt(),
{
    let mut v: Vec<u8> = Vec::new();
    v.push(0x62);
    v.push(0x6b);
    v.push(0x70);
    v.push(0x74);
    proof {
        assert(v@ =~= k_bkpt());
    }
    v
}


// ---------------------------------------------------------------------------
// Hex-encoded memory contents
// ---------------------------------------------------------------------------

/// The value of one hex digit.
pub open spec fn spec_hex_val(b: u8) -> Option<u8> {
    if 0x30 <= b <= 0x39 {
        Some((b - 0x30) as u8)
    } else if 0x61 <= b <= 0x66 {
        Some((b - 0x61 + 10) as u8)
    } else if 0x41 <= b <= 0x46 {
        Some((b - 0x41 + 10) as u8)
    } else {
        None
    }
}

/// Decodes a hex string two digits per byte; odd lengths and stray
/// characters are refused.
pub open spec fn spec_hex_bytes(s: Seq<u8>) -> Option<Seq<u8>>
    decreases s.len(),
{
    if s.len() == 0 {
        Some(Seq::empty())
    } else if s.len() == 1 {
        None
    } else {
        match (spec_hex_val(s[0]), spec_hex_val(s[1])) {
            (Some(h), Some(l)) => match spec_hex_bytes(s.skip(2)) {
                Some(t) => Some(seq![(h * 16 + l) as u8] + t),
                None => None,
            },
            _ => None,
        }
    }
}

fn hex_val(b: u8) -> (r: Option<u8>)
    ensures
        r == spec_hex_val(b),
{
    if 0x30 <= b && b <= 0x39 {
        Some(b - 0x30)
    } else if 0x61 <= b && b <= 0x66 {
        Some(b - 0x61 + 10)
    } else if 0x41 <= b && b <= 0x46 {
        Some(b - 0x41 + 10)
    } else {
        None
    }
}

/// Decodes hex text into bytes.
pub fn hex_decode(s: &Vec<u8>) -> (r: Option<Vec<u8>>)
    ensures
        match r {
            Some(out) => spec_hex_bytes(s@) == Some(out@),
            None => spec_hex_bytes(s@) is None,
        },
{
    let mut out: Vec<u8> = Vec::new();
    let mut cur: usize = 0;
    proof {
        assert(s@.skip(0) =~= s@);
        match spec_hex_bytes(s@) {
            Some(t) => {
                assert(out@ + t =~= t);
            },
            None => {},
        }
    }
    loop
        invariant
            cur <= s@.len(),
            match spec_hex_bytes(s@.skip(cur as int)) {
                Some(t) => spec_hex_bytes(s@) == Some(out@ + t),
                None => spec_hex_bytes(s@) is None,
            },
        decreases s@.len() - cur,
    {
        proof {
            let rest = s@.skip(cur as int);
            if cur < s@.len() {
                assert(rest[0] == s@[cur as int]);
                if cur + 1 < s@.len() {
                    assert(rest[1] == s@[cur + 1]);
                    assert(rest.skip(2) =~= s@.skip(cur + 2));
                }
            }
        }
        if cur == s.len() {
            proof {
                assert(out@ + Seq::<u8>::empty() =~= out@);
            }
            return Some(out);
        }
        if cur + 1 == s.len() {
            return None;
        }
        let h = match hex_val(s[cur]) {
            Some(h) => h,
            None => {
                return None;
            },
        };
        let l = match hex_val(s[cur + 1]) {
            Some(l) => l,
            None => {
                return None;
            },
        };
        let ghost out_old = out@;
        out.push(h * 16 + l);
        proof {
            match spec_hex_bytes(s@.skip(cur + 2)) {
                Some(t) => {
                    assert(out_old + (seq![(h * 16 + l) as u8] + t) =~= out@ + t);
                },
                None => {},
            }
        }
        cur = cur + 2;
    }
}

// ---------------------------------------------------------------------------
// The decoders, one per target type
// ---------------------------------------------------------------------------

/// How a breakpoint is read from its field tree: the backend-assigned
/// number is required; file, line, enabled flag and hit count default when
/// absent.
pub open spec fn spec_decode_breakpoint(fs: Seq<FieldS>) -> Result<BreakpointS, DecodeErrorS> {
    match spec_req_num_field_u64(fs, k_number()) {
        Err(e) => Err(e),
        Ok(number) => match spec_text_field(fs, k_file()) {
            Err(e) => Err(e),
            Ok(file) => match spec_num_field_u32(fs, k_line()) {
                Err(e) => Err(e),
                Ok(line) => match spec_flag_field(fs, k_enabled(), true) {
                    Err(e) => Err(e),
                    Ok(enabled) => match spec_num_field_u32(fs, k_times()) {
                        Err(e) => Err(e),
                        Ok(times) => Ok(
                            BreakpointS { number, file, line, enabled, hit_count: times },
                        ),
                    },
                },
            },
        },
    }
}

pub fn decode_breakpoint(fields: &Vec<Field>) -> (r: Result<Breakpoint, DecodeError>)
    ensures
        match r {
            Ok(b) => spec_decode_breakpoint(view_fields(fields@)) == Ok::<
                BreakpointS,
                DecodeErrorS,
            >(b@),
            Err(e) => spec_decode_breakpoint(view_fields(fields@)) == Err::<
                BreakpointS,
                DecodeErrorS,
            >(e@),
        },
{
    let number = match req_num_field_u64(fields, key_number()) {
        Ok(n) => n,
        Err(e) => {
            return Err(e);
        },
    };
    let file = match text_field(fields, key_file()) {
        Ok(s) => s,
        Err(e) => {
            return Err(e);
        },
    };
    let line = match num_field_u32(fields, key_line()) {
        Ok(n) => n,
        Err(e) => {
            return Err(e);
        },
    };
    let enabled = match flag_field(fields, key_enabled(), true) {
        Ok(b) => b,
        Err(e) => {
            return Err(e);
        },
    };
    let hit_count = match num_field_u32(fields, key_times()) {
        Ok(n) => n,
        Err(e) => {
            return Err(e);
        },
    };
    Ok(Breakpoint { number, file, line, enabled, hit_count })
}

/// How a stack frame is read: the level is required; function, file, line
/// and address default when absent.
pub open spec fn spec_decode_frame(fs: Seq<FieldS>) -> Result<StackFrameS, DecodeErrorS> {
    match spec_req_num_field_u32(fs, k_level()) {
        Err(e) => Err(e),
        Ok(level) => match spec_text_field(fs, k_func()) {
            Err(e) => Err(e),
            Ok(func) => match spec_text_field(fs, k_file()) {
                Err(e) => Err(e),
                Ok(file) => match spec_num_field_u32(fs, k_line()) {
                    Err(e) => Err(e),
                    Ok(line) => match spec_text_field(fs, k_addr()) {
                        Err(e) => Err(e),
                        Ok(addr) => Ok(StackFrameS { level, func, file, line, addr }),
                    },
                },
            },
        },
    }
}

pub fn decode_frame(fields: &Vec<Field>) -> (r: Result<StackFrame, DecodeError>)
    ensures
        match r {
            Ok(f) => spec_decode_frame(view_fields(fields@)) == Ok::<StackFrameS, DecodeErrorS>(
                f@,
            ),
            Err(e) => spec_decode_frame(view_fields(fields@)) == Err::<StackFrameS, DecodeErrorS>(
                e@,
            ),
        },
{
    let level = match req_num_field_u32(fields, key_level()) {
        Ok(n) => n,
        Err(e) => {
            return Err(e);
        },
    };
    let func = match text_field(fields, key_func()) {
        Ok(s) => s,
        Err(e) => {
            return Err(e);
        },
    };
    let file = match text_field(fields, key_file()) {
        Ok(s) => s,
        Err(e) => {
            return Err(e);
        },
    };
    let line = match num_field_u32(fields, key_line()) {
        Ok(n) => n,
        Err(e) => {
            return Err(e);
        },
    };
    let addr = match text_field(fields, key_addr()) {
        Ok(s) => s,
        Err(e) => {
            return Err(e);
        },
    };
    Ok(StackFrame { level, func, file, line, addr })
}

/// The wire form a variable value is kept in: a scalar as its text, a
/// nested structure as the bytes it was written with.
pub open spec fn spec_value_text(v: ValueS) -> Seq<u8> {
    match v {
        ValueS::Scalar(s) => s,
        _ => spec_ser_value(v),
    }
}

/// How a variable is read: the name is required; type and value default to
/// empty, and a nested value keeps its wire form.
pub open spec fn spec_decode_variable(fs: Seq<FieldS>) -> Result<VariableS, DecodeErrorS> {
    match spec_req_text_field(fs, k_name()) {
        Err(e) => Err(e),
        Ok(name) => match spec_text_field(fs, k_vtype()) {
            Err(e) => Err(e),
            Ok(vtype) => {
                let value = match spec_field_lookup(fs, k_value()) {
                    None => Seq::empty(),
                    Some(v) => spec_value_text(v),
                };
                Ok(VariableS { name, vtype, value })
            },
        },
    }
}

pub fn decode_variable(fields: &Vec<Field>) -> (r: Result<Variable, DecodeError>)
    ensures
        match r {
            Ok(v) => spec_decode_variable(view_fields(fields@)) == Ok::<VariableS, DecodeErrorS>(
                v@,
            ),
            Err(e) => spec_decode_variable(view_fields(fields@)) == Err::<
                VariableS,
                DecodeErrorS,
            >(e@),
        },
{
    let name = match req_text_field(fields, key_name()) {
        Ok(s) => s,
        Err(e) => {
            return Err(e);
        },
    };
    let vtype = match text_field(fields, key_vtype()) {
        Ok(s) => s,
        Err(e) => {
            return Err(e);
        },
    };
    let kv = key_value();
    let value = match lookup_field(fields, &kv) {
        None => Vec::new(),
        Some(v) => match v {
            Value::Scalar(s) => crate::record::clone_bytes(s),
            other => serialize_value(other),
        },
    };
    Ok(Variable { name, vtype, value })
}

/// How one reported register value is read: its index and its raw text.
pub open spec fn spec_decode_regval(fs: Seq<FieldS>) -> Result<(u64, Seq<u8>), DecodeErrorS> {
    match spec_req_num_field_u64(fs, k_number()) {
        Err(e) => Err(e),
        Ok(number) => match spec_req_text_field(fs, k_value()) {
            Err(e) => Err(e),
            Ok(value) => Ok((number, value)),
        },
    }
}

pub fn decode_regval(fields: &Vec<Field>) -> (r: Result<RegisterValue, DecodeError>)
    ensures
        match r {
            Ok(v) => spec_decode_regval(view_fields(fields@)) == Ok::<(u64, Seq<u8>), DecodeErrorS>(
                (v.number, v.value@),
            ),
            Err(e) => spec_decode_regval(view_fields(fields@)) == Err::<
                (u64, Seq<u8>),
                DecodeErrorS,
            >(e@),
        },
{
    let number = match req_num_field_u64(fields, key_number()) {
        Ok(n) => n,
        Err(e) => {
            return Err(e);
        },
    };
    let value = match req_text_field(fields, key_value()) {
        Ok(s) => s,
        Err(e) => {
            return Err(e);
        },
    };
    Ok(RegisterValue { number, value })
}

/// How a memory block is read: begin address and hex contents are
/// required; the bytes are cut back to the requested size, so the block
/// never reports more than was asked for.
pub open spec fn spec_decode_memory(fs: Seq<FieldS>, requested: u32) -> Result<
    (Seq<u8>, Seq<u8>),
    DecodeErrorS,
> {
    match spec_req_text_field(fs, k_begin()) {
        Err(e) => Err(e),
        Ok(begin) => match spec_req_text_field(fs, k_contents()) {
            Err(e) => Err(e),
            Ok(contents) => match spec_hex_bytes(contents) {
                None => Err(DecodeErrorS { key: k_contents(), kind: DecodeErrorKind::WrongShape }),
                Some(bytes) => Ok(
                    (
                        begin,
                        if bytes.len() > requested {
                            bytes.take(requested as int)
                        } else {
                            bytes
                        },
                    ),
                ),
            },
        },
    }
}

pub fn decode_memory(fields: &Vec<Field>, requested: u32) -> (r: Result<MemoryBlock, DecodeError>)
    ensures
        match r {
            Ok(b) => spec_decode_memory(view_fields(fields@), requested) == Ok::<
                (Seq<u8>, Seq<u8>),
                DecodeErrorS,
            >((b.begin@, b.bytes@)) && b.requested == requested && b.bytes@.len() <= requested,
            Err(e) => spec_decode_memory(view_fields(fields@), requested) == Err::<
                (Seq<u8>, Seq<u8>),
                DecodeErrorS,
            >(e@),
        },
{
    let begin = match req_text_field(fields, key_begin()) {
        Ok(s) => s,
        Err(e) => {
            return Err(e);
        },
    };
    let contents = match req_text_field(fields, key_contents()) {
        Ok(s) => s,
        Err(e) => {
            return Err(e);
        },
    };
    let decoded = match hex_decode(&contents) {
        Some(b) => b,
        None => {
            return Err(DecodeError { key: key_contents(), kind: DecodeErrorKind::WrongShape });
        },
    };
    let bytes = if decoded.len() > requested as usize {
        let b = crate::parse::copy_range(&decoded, 0, requested as usize);
        proof {
            assert(decoded@.subrange(0, requested as int) == decoded@.take(requested as int));
        }
        b
    } else {
        decoded
    };
    Ok(MemoryBlock { begin, bytes, requested })
}


// ---------------------------------------------------------------------------
// List decoding with partial success
// ---------------------------------------------------------------------------

pub open spec fn deep_bps(s: Seq<Breakpoint>) -> Seq<BreakpointS> {
    Seq::new(s.len(), |i: int| s[i]@)
}

pub open spec fn deep_frames(s: Seq<StackFrame>) -> Seq<StackFrameS> {
    Seq::new(s.len(), |i: int| s[i]@)
}

pub open spec fn deep_vars(s: Seq<Variable>) -> Seq<VariableS> {
    Seq::new(s.len(), |i: int| s[i]@)
}

pub open spec fn deep_errs(s: Seq<DecodeError>) -> Seq<DecodeErrorS> {
    Seq::new(s.len(), |i: int| s[i]@)
}

/// How a list of reported breakpoints decodes. A malformed entry is
/// recorded as a warning and its siblings still decode — except an entry
/// that fails on the backend-assigned number, the table's own control
/// field, which fails the list as a whole.
pub open spec fn spec_decode_bp_list(vs: Seq<ValueS>) -> Result<
    (Seq<BreakpointS>, Seq<DecodeErrorS>),
    DecodeErrorS,
>
    decreases vs.len(),
{
    if vs.len() == 0 {
        Ok((Seq::empty(), Seq::empty()))
    } else {
        let first: Result<BreakpointS, DecodeErrorS> = match vs[0] {
            ValueS::Tuple(fs) => spec_decode_breakpoint(fs),
            _ => Err(DecodeErrorS { key: k_bkpt(), kind: DecodeErrorKind::WrongShape }),
        };
        match first {
            Err(e) => if e.key == k_number() {
                Err(e)
            } else {
                match spec_decode_bp_list(vs.drop_first()) {
                    Err(e2) => Err(e2),
                    Ok(rest) => Ok((rest.0, seq![e] + rest.1)),
                }
            },
            Ok(b) => match spec_decode_bp_list(vs.drop_first()) {
                Err(e2) => Err(e2),
                Ok(rest) => Ok((seq![b] + rest.0, rest.1)),
            },
        }
    }
}

pub fn decode_breakpoint_list(values: &Vec<Value>) -> (r: Result<
    (Vec<Breakpoint>, Vec<DecodeError>),
    DecodeError,
>)
    ensures
        match r {
            Ok(p) => spec_decode_bp_list(view_values(values@)) == Ok::<
                (Seq<BreakpointS>, Seq<DecodeErrorS>),
                DecodeErrorS,
            >((deep_bps(p.0@), deep_errs(p.1@))),
            Err(e) => spec_decode_bp_list(view_values(values@)) == Err::<
                (Seq<BreakpointS>, Seq<DecodeErrorS>),
                DecodeErrorS,
            >(e@),
        },
{
    let ghost vv = view_values(values@);
    let mut oks: Vec<Breakpoint> = Vec::new();
    let mut warns: Vec<DecodeError> = Vec::new();
    let mut i: usize = 0;
    proof {
        crate::value::lemma_view_values(values@);
        assert(vv.skip(0) =~= vv);
        match spec_decode_bp_list(vv) {
            Ok(p) => {
                assert(deep_bps(oks@) + p.0 =~= p.0);
                assert(deep_errs(warns@) + p.1 =~= p.1);
            },
            Err(e) => {},
        }
    }
    while i < values.len()
        invariant
            i <= values@.len(),
            vv == view_values(values@),
            vv.len() == values@.len(),
            forall|k: int|
                0 <= k < values@.len() ==> vv[k] == view_value(#[trigger] values@[k]),
            match spec_decode_bp_list(vv.skip(i as int)) {
                Ok(p) => spec_decode_bp_list(vv) == Ok::<
                    (Seq<BreakpointS>, Seq<DecodeErrorS>),
                    DecodeErrorS,
                >((deep_bps(oks@) + p.0, deep_errs(warns@) + p.1)),
                Err(e) => spec_decode_bp_list(vv) == Err::<
                    (Seq<BreakpointS>, Seq<DecodeErrorS>),
                    DecodeErrorS,
                >(e),
            },
        decreases values@.len() - i,
    {
        proof {
            assert(vv.skip(i as int)[0] == vv[i as int]);
            assert(vv.skip(i as int).drop_first() =~= vv.skip(i + 1));
        }
        let item: Result<Breakpoint, DecodeError> = match &values[i] {
            Value::Tuple(fs) => decode_breakpoint(fs),
            _ => Err(DecodeError { key: key_bkpt(), kind: DecodeErrorKind::WrongShape }),
        };
        match item {
            Ok(b) => {
                let ghost oks_old = oks@;
                proof {
                    assert(deep_bps(oks_old.push(b)) =~= deep_bps(oks_old).push(b@));
                }
                oks.push(b);
                proof {
                    match spec_decode_bp_list(vv.skip(i + 1)) {
                        Ok(p) => {
                            assert(deep_bps(oks@) + p.0 =~= deep_bps(oks_old) + (seq![b@] + p.0));
                        },
                        Err(e) => {},
                    }
                }
            },
            Err(e) => {
                let kn = key_number();
                if bytes_eq(&e.key, &kn) {
                    return Err(e);
                }
                let ghost warns_old = warns@;
                proof {
                    assert(deep_errs(warns_old.push(e)) =~= deep_errs(warns_old).push(e@));
                }
                warns.push(e);
                proof {
                    match spec_decode_bp_list(vv.skip(i + 1)) {
                        Ok(p) => {
                            assert(deep_errs(warns@) + p.1 =~= deep_errs(warns_old) + (seq![e@]
                                + p.1));
                        },
                        Err(e2) => {},
                    }
                }
            },
        }
        i = i + 1;
    }
    proof {
        assert(vv.skip(i as int).len() == 0);
        assert(deep_bps(oks@) + Seq::<BreakpointS>::empty() =~= deep_bps(oks@));
        assert(deep_errs(warns@) + Seq::<DecodeErrorS>::empty() =~= deep_errs(warns@));
    }
    Ok((oks, warns))
}

/// How a list of reported frames decodes: a malformed entry becomes a
/// warning, its siblings still decode.
pub open spec fn spec_decode_frame_list(vs: Seq<ValueS>) -> (Seq<StackFrameS>, Seq<DecodeErrorS>)
    decreases vs.len(),
{
    if vs.len() == 0 {
        (Seq::empty(), Seq::empty())
    } else {
        let first: Result<StackFrameS, DecodeErrorS> = match vs[0] {
            ValueS::Tuple(fs) => spec_decode_frame(fs),
            _ => Err(DecodeErrorS { key: k_frame(), kind: DecodeErrorKind::WrongShape }),
        };
        let rest = spec_decode_frame_list(vs.drop_first());
        match first {
            Ok(f) => (seq![f] + rest.0, rest.1),
            Err(e) => (rest.0, seq![e] + rest.1),
        }
    }
}

pub fn decode_frame_list(values: &Vec<Value>) -> (r: (Vec<StackFrame>, Vec<DecodeError>))
    ensures
        spec_decode_frame_list(view_values(values@)) == (deep_frames(r.0@), deep_errs(r.1@)),
{
    let ghost vv = view_values(values@);
    let mut oks: Vec<StackFrame> = Vec::new();
    let mut warns: Vec<DecodeError> = Vec::new();
    let mut i: usize = 0;
    proof {
        crate::value::lemma_view_values(values@);
        assert(vv.skip(0) =~= vv);
        let p = spec_decode_frame_list(vv);
        assert(deep_frames(oks@) + p.0 =~= p.0);
        assert(deep_errs(warns@) + p.1 =~= p.1);
    }
    while i < values.len()
        invariant
            i <= values@.len(),
            vv == view_values(values@),
            vv.len() == values@.len(),
            forall|k: int|
                0 <= k < values@.len() ==> vv[k] == view_value(#[trigger] values@[k]),
            spec_decode_frame_list(vv) == (
                deep_frames(oks@) + spec_decode_frame_list(vv.skip(i as int)).0,
                deep_errs(warns@) + spec_decode_frame_list(vv.skip(i as int)).1,
            ),
        decreases values@.len() - i,
    {
        proof {
            assert(vv.skip(i as int)[0] == vv[i as int]);
            assert(vv.skip(i as int).drop_first() =~= vv.skip(i + 1));
        }
        let item: Result<StackFrame, DecodeError> = match &values[i] {
            Value::Tuple(fs) => decode_frame(fs),
            _ => Err(DecodeError { key: key_frame(), kind: DecodeErrorKind::WrongShape }),
        };
        match item {
            Ok(f) => {
                let ghost oks_old = oks@;
                proof {
                    assert(deep_frames(oks_old.push(f)) =~= deep_frames(oks_old).push(f@));
                }
                oks.push(f);
                proof {
                    let p = spec_decode_frame_list(vv.skip(i + 1));
                    assert(deep_frames(oks@) + p.0 =~= deep_frames(oks_old) + (seq![f@] + p.0));
                }
            },
            Err(e) => {
                let ghost warns_old = warns@;
                proof {
                    assert(deep_errs(warns_old.push(e)) =~= deep_errs(warns_old).push(e@));
                }
                warns.push(e);
                proof {
                    let p = spec_decode_frame_list(vv.skip(i + 1));
                    assert(deep_errs(warns@) + p.1 =~= deep_errs(warns_old) + (seq![e@] + p.1));
                }
            },
        }
        i = i + 1;
    }
    proof {
        assert(vv.skip(i as int).len() == 0);
        assert(deep_frames(oks@) + Seq::<StackFrameS>::empty() =~= deep_frames(oks@));
        assert(deep_errs(warns@) + Seq::<DecodeErrorS>::empty() =~= deep_errs(warns@));
    }
    (oks, warns)
}

/// How a list of reported variables decodes: a malformed entry becomes a
/// warning, its siblings still decode.
pub open spec fn spec_decode_var_list(vs: Seq<ValueS>) -> (Seq<VariableS>, Seq<DecodeErrorS>)
    decreases vs.len(),
{
    if vs.len() == 0 {
        (Seq::empty(), Seq::empty())
    } else {
        let first: Result<VariableS, DecodeErrorS> = match vs[0] {
            ValueS::Tuple(fs) => spec_decode_variable(fs),
            _ => Err(DecodeErrorS { key: k_name(), kind: DecodeErrorKind::WrongShape }),
        };
        let rest = spec_decode_var_list(vs.drop_first());
        match first {
            Ok(v) => (seq![v] + rest.0, rest.1),
            Err(e) => (rest.0, seq![e] + rest.1),
        }
    }
}

pub fn decode_variable_list(values: &Vec<Value>) -> (r: (Vec<Variable>, Vec<DecodeError>))
    ensures
        spec_decode_var_list(view_values(values@)) == (deep_vars(r.0@), deep_errs(r.1@)),
{
    let ghost vv = view_values(values@);
    let mut oks: Vec<Variable> = Vec::new();
    let mut warns: Vec<DecodeError> = Vec::new();
    let mut i: usize = 0;
    proof {
        crate::value::lemma_view_values(values@);
        assert(vv.skip(0) =~= vv);
        let p = spec_decode_var_list(vv);
        assert(deep_vars(oks@) + p.0 =~= p.0);
        assert(deep_errs(warns@) + p.1 =~= p.1);
    }
    while i < values.len()
        invariant
            i <= values@.len(),
            vv == view_values(values@),
            vv.len() == values@.len(),
            forall|k: int|
                0 <= k < values@.len() ==> vv[k] == view_value(#[trigger] values@[k]),
            spec_decode_var_list(vv) == (
                deep_vars(oks@) + spec_decode_var_list(vv.skip(i as int)).0,
                deep_errs(warns@) + spec_decode_var_list(vv.skip(i as int)).1,
            ),
        decreases values@.len() - i,
    {
        proof {
            assert(vv.skip(i as int)[0] == vv[i as int]);
            assert(vv.skip(i as int).drop_first() =~= vv.skip(i + 1));
        }
        let item: Result<Variable, DecodeError> = match &values[i] {
            Value::Tuple(fs) => decode_variable(fs),
            _ => Err(DecodeError { key: key_name(), kind: DecodeErrorKind::WrongShape }),
        };
        match item {
            Ok(v) => {
                let ghost oks_old = oks@;
                proof {
                    assert(deep_vars(oks_old.push(v)) =~= deep_vars(oks_old).push(v@));
                }
                oks.push(v);
                proof {
                    let p = spec_decode_var_list(vv.skip(i + 1));
                    assert(deep_vars(oks@) + p.0 =~= deep_vars(oks_old) + (seq![v@] + p.0));
                }
            },
            Err(e) => {
                let ghost warns_old = warns@;
                proof {
                    assert(deep_errs(warns_old.push(e)) =~= deep_errs(warns_old).push(e@));
                }
                warns.push(e);
                proof {
                    let p = spec_decode_var_list(vv.skip(i + 1));
                    assert(deep_errs(warns@) + p.1 =~= deep_errs(warns_old) + (seq![e@] + p.1));
                }
            },
        }
        i = i + 1;
    }
    proof {
        assert(vv.skip(i as int).len() == 0);
        assert(deep_vars(oks@) + Seq::<VariableS>::empty() =~= deep_vars(oks@));
        assert(deep_errs(warns@) + Seq::<DecodeErrorS>::empty() =~= deep_errs(warns@));
    }
    (oks, warns)
}


/// The backend's error text: what an `error` result's `msg` field says, or
/// empty when it says nothing.
pub open spec fn spec_error_message(fs: Seq<FieldS>) -> Seq<u8> {
    match spec_field_lookup(fs, k_msg()) {
        Some(v) => match v {
            ValueS::Scalar(s) => s,
            _ => Seq::empty(),
        },
        None => Seq::empty(),
    }
}

/// Reads the `msg` field of an `error` result, surfacing the backend's
/// message verbatim rather than discarding it.
pub fn error_message(fields: &Vec<Field>) -> (r: Vec<u8>)
    ensures
        r@ == spec_error_message(view_fields(fields@)),
{
    let km = key_msg();
    match lookup_field(fields, &km) {
        Some(v) => match v {
            Value::Scalar(s) => crate::record::clone_bytes(s),
            _ => Vec::new(),
        },
        None => Vec::new(),
    }
}

} // verus!
