use vstd::prelude::*;

use crate::parse::{
    parse_cstring_body, parse_fields, scan_digits, scan_ident, spec_parse_cstring,
    spec_parse_fields, spec_scan_digits, spec_scan_ident,
};
use crate::ser::{spec_ser_fields, write_escaped, write_fields_from};
use crate::text::{
    AMP, AT, CARET, COMMA, EQUALS, PLUS, QUOTE, STAR, TILDE, dec_digits, digit_of, digits_val,
    format_u64, is_digit, lemma_dec_digits, lemma_digits_val_push, spec_escape,
};
use crate::value::{Field, FieldS, lemma_view_fields, view_fields, wf_fields};

verus! {

// ---------------------------------------------------------------------------
// Records: the three shapes a protocol line can take
// ---------------------------------------------------------------------------

/// The outcome keyword of a result record.
#[derive(Debug, Clone, Copy, PartialEq, Eq, Structural)]
pub enum ResultStatus {
    Done,
    Running,
    Error,
    Exit,
}

/// Which class character introduced an async record.
#[derive(Debug, Clone, Copy, PartialEq, Eq, Structural)]
pub enum AsyncKind {
    Exec,
    Notify,
    Status,
}

/// Which class character introduced a stream record.
#[derive(Debug, Clone, Copy, PartialEq, Eq, Structural)]
pub enum StreamKind {
    Console,
    Target,
    Log,
}

/// One parsed protocol line.
#[derive(Debug, PartialEq)]
pub enum Record {
    /// A token-correlated reply to a command.
    CmdResult { token: Option<u64>, status: ResultStatus, fields: Vec<Field> },
    /// A spontaneous event not tied to a command.
    AsyncNotify { kind: AsyncKind, class: Vec<u8>, fields: Vec<Field> },
    /// Raw console, target or log text.
    Stream { kind: StreamKind, text: Vec<u8> },
}

/// Mathematical shape of a record.
pub enum RecordS {
    CmdResult { token: Option<u64>, status: ResultStatus, fields: Seq<FieldS> },
    AsyncNotify { kind: AsyncKind, class: Seq<u8>, fields: Seq<FieldS> },
    Stream { kind: StreamKind, text: Seq<u8> },
}

pub open spec fn view_record(r: Record) -> RecordS {
    match r {
        Record::CmdResult { token, status, fields } => RecordS::CmdResult {
            token,
            status,
            fields: view_fields(fields@),
        },
        Record::AsyncNotify { kind, class, fields } => RecordS::AsyncNotify {
            kind,
            class: class@,
            fields: view_fields(fields@),
        },
        Record::Stream { kind, text } => RecordS::Stream { kind, text: text@ },
    }
}

impl View for Record {
    type V = RecordS;

    open spec fn view(&self) -> RecordS {
        view_record(*self)
    }
}

/// A line that could not be parsed, kept whole for diagnostics.
#[derive(Debug, PartialEq)]
pub struct MalformedRecord {
    pub line: Vec<u8>,
}

// ---------------------------------------------------------------------------
// The record grammar
// ---------------------------------------------------------------------------

pub open spec fn kw_done() -> Seq<u8> {
    seq![0x64u8, 0x6fu8, 0x6eu8, 0x65u8]
}

pub open spec fn kw_running() -> Seq<u8> {
    seq![0x72u8, 0x75u8, 0x6eu8, 0x6eu8, 0x69u8, 0x6eu8, 0x67u8]
}

pub open spec fn kw_error() -> Seq<u8> {
    seq![0x65u8, 0x72u8, 0x72u8, 0x6fu8, 0x72u8]
}

pub open spec fn kw_exit() -> Seq<u8> {
    seq![0x65u8, 0x78u8, 0x69u8, 0x74u8]
}

/// The keyword written for each result status.
pub open spec fn status_keyword(st: ResultStatus) -> Seq<u8> {
    match st {
        ResultStatus::Done => kw_done(),
        ResultStatus::Running => kw_running(),
        ResultStatus::Error => kw_error(),
        ResultStatus::Exit => kw_exit(),
    }
}

/// The status a keyword denotes, if any.
pub open spec fn spec_status_of(k: Seq<u8>) -> Option<ResultStatus> {
    if k == kw_done() {
        Some(ResultStatus::Done)
    } else if k == kw_running() {
        Some(ResultStatus::Running)
    } else if k == kw_error() {
        Some(ResultStatus::Error)
    } else if k == kw_exit() {
        Some(ResultStatus::Exit)
    } else {
        None
    }
}

/// What may follow a result keyword or an async class name: nothing at all,
/// or a comma and a field list that reaches the end of the line.
pub open spec fn spec_parse_tail_fields(s: Seq<u8>) -> Option<Seq<FieldS>> {
    if s.len() == 0 {
        Some(Seq::empty())
    } else if s[0] == COMMA {
        match spec_parse_fields(s.skip(1)) {
            Some((fl, r)) => if r.len() == 0 {
                Some(fl)
            } else {
                None
            },
            None => None,
        }
    } else {
        None
    }
}

pub open spec fn spec_parse_result_body(s: Seq<u8>, token: Option<u64>) -> Option<RecordS> {
    let k = spec_scan_ident(s);
    match spec_status_of(k) {
        Some(st) => match spec_parse_tail_fields(s.skip(k.len() as int)) {
            Some(fl) => Some(RecordS::CmdResult { token, status: st, fields: fl }),
            None => None,
        },
        None => None,
    }
}

pub open spec fn spec_parse_async_body(s: Seq<u8>, kind: AsyncKind) -> Option<RecordS> {
    let c = spec_scan_ident(s);
    if c.len() == 0 {
        None
    } else {
        match spec_parse_tail_fields(s.skip(c.len() as int)) {
            Some(fl) => Some(RecordS::AsyncNotify { kind, class: c, fields: fl }),
            None => None,
        }
    }
}

pub open spec fn spec_parse_stream_body(s: Seq<u8>, kind: StreamKind) -> Option<RecordS> {
    if s.len() > 0 && s[0] == QUOTE {
        match spec_parse_cstring(s.skip(1)) {
            Some((t, r)) => if r.len() == 0 {
                Some(RecordS::Stream { kind, text: t })
            } else {
                None
            },
            None => None,
        }
    } else {
        None
    }
}

/// One whole line: an optional decimal token (a result record only), a class
/// character, and the class's body.
pub open spec fn spec_parse_record(s: Seq<u8>) -> Option<RecordS> {
    let d = spec_scan_digits(s);
    if d.len() > 0 {
        if d.len() < s.len() && s[d.len() as int] == CARET && digits_val(d) <= u64::MAX {
            spec_parse_result_body(s.skip(d.len() + 1 as int), Some(digits_val(d) as u64))
        } else {
            None
        }
    } else if s.len() == 0 {
        None
    } else if s[0] == CARET {
        spec_parse_result_body(s.skip(1), None)
    } else if s[0] == STAR {
        spec_parse_async_body(s.skip(1), AsyncKind::Exec)
    } else if s[0] == EQUALS {
        spec_parse_async_body(s.skip(1), AsyncKind::Notify)
    } else if s[0] == PLUS {
        spec_parse_async_body(s.skip(1), AsyncKind::Status)
    } else if s[0] == TILDE {
        spec_parse_stream_body(s.skip(1), StreamKind::Console)
    } else if s[0] == AT {
        spec_parse_stream_body(s.skip(1), StreamKind::Target)
    } else if s[0] == AMP {
        spec_parse_stream_body(s.skip(1), StreamKind::Log)
    } else {
        None
    }
}

// ---------------------------------------------------------------------------
// Serialization of records
// ---------------------------------------------------------------------------

pub open spec fn async_char(kind: AsyncKind) -> u8 {
    match kind {
        AsyncKind::Exec => STAR,
        AsyncKind::Notify => EQUALS,
        AsyncKind::Status => PLUS,
    }
}

pub open spec fn stream_char(kind: StreamKind) -> u8 {
    match kind {
        StreamKind::Console => TILDE,
        StreamKind::Target => AT,
        StreamKind::Log => AMP,
    }
}

pub open spec fn spec_ser_tail_fields(fs: Seq<FieldS>) -> Seq<u8> {
    if fs.len() == 0 {
        Seq::empty()
    } else {
        seq![COMMA] + spec_ser_fields(fs)
    }
}

/// The line written for a record.
pub open spec fn spec_ser_record(r: RecordS) -> Seq<u8> {
    match r {
        RecordS::CmdResult { token, status, fields } => (match token {
            Some(t) => dec_digits(t as nat),
            None => Seq::<u8>::empty(),
        }) + seq![CARET] + status_keyword(status) + spec_ser_tail_fields(fields),
        RecordS::AsyncNotify { kind, class, fields } => seq![async_char(kind)] + class
            + spec_ser_tail_fields(fields),
        RecordS::Stream { kind, text } => seq![stream_char(kind), QUOTE] + spec_escape(text) + seq![
            QUOTE,
        ],
    }
}

/// A record the grammar can carry: fields well-formed, an async class a
/// nonempty identifier.
pub open spec fn wf_record(r: RecordS) -> bool {
    match r {
        RecordS::CmdResult { token, status, fields } => wf_fields(fields),
        RecordS::AsyncNotify { kind, class, fields } => class.len() > 0 && (forall|i: int|
            0 <= i < class.len() ==> crate::text::is_ident_byte(#[trigger] class[i])) && wf_fields(
            fields,
        ),
        RecordS::Stream { kind, text } => true,
    }
}

// ---------------------------------------------------------------------------
// Executable record parser
// ---------------------------------------------------------------------------

/// Reads the scanned digit range as a token value, unless it exceeds what a
/// token can hold.
fn digits_to_u64(line: &Vec<u8>, i: usize, j: usize) -> (r: Option<u64>)
    requires
        i <= j <= line@.len(),
        forall|m: int| i <= m < j ==> is_digit(#[trigger] line@[m]),
    ensures
        match r {
            Some(t) => digits_val(line@.subrange(i as int, j as int)) == t as nat,
            None => digits_val(line@.subrange(i as int, j as int)) > u64::MAX,
        },
{
    let mut acc: Option<u64> = Some(0);
    let mut m: usize = i;
    proof {
        assert(line@.subrange(i as int, i as int) =~= Seq::<u8>::empty());
    }
    while m < j
        invariant
            i <= m <= j <= line@.len(),
            forall|k: int| i <= k < j ==> is_digit(#[trigger] line@[k]),
            match acc {
                Some(a) => digits_val(line@.subrange(i as int, m as int)) == a as nat,
                None => digits_val(line@.subrange(i as int, m as int)) > u64::MAX,
            },
        decreases j - m,
    {
        let b = line[m];
        let d = b - 0x30;
        proof {
            assert(is_digit(line@[m as int]));
            assert(digit_of(b) == d as nat);
            assert(line@.subrange(i as int, m + 1) =~= line@.subrange(i as int, m as int).push(b));
            lemma_digits_val_push(line@.subrange(i as int, m as int), b);
        }
        match acc {
            Some(a) => {
                if a > (u64::MAX - d as u64) / 10 {
                    proof {
                        let v = digits_val(line@.subrange(i as int, m as int));
                        assert(v == a as nat);
                        assert(a as nat * 10 + d as nat > u64::MAX) by (nonlinear_arith)
                            requires
                                a > (u64::MAX - d as u64) / 10,
                                d < 10,
                        ;
                    }
                    acc = None;
                } else {
                    proof {
                        assert(a as nat * 10 + d as nat <= u64::MAX) by (nonlinear_arith)
                            requires
                                a <= (u64::MAX - d as u64) / 10,
                                d < 10,
                        ;
                    }
                    acc = Some(a * 10 + d as u64);
                }
            },
            None => {
                proof {
                    let v = digits_val(line@.subrange(i as int, m as int));
                    assert(v * 10 + digit_of(b) >= v);
                }
            },
        }
        m = m + 1;
    }
    acc
}

/// Matches the scanned keyword range against the four result keywords.
fn match_status(line: &Vec<u8>, i: usize, j: usize) -> (r: Option<ResultStatus>)
    requires
        i <= j <= line@.len(),
    ensures
        r == spec_status_of(line@.subrange(i as int, j as int)),
{
    let ghost k = line@.subrange(i as int, j as int);
    let n = j - i;
    if n == 4 && line[i] == 0x64 && line[i + 1] == 0x6f && line[i + 2] == 0x6e && line[i + 3]
        == 0x65 {
        proof {
            assert(k =~= kw_done());
        }
        Some(ResultStatus::Done)
    } else if n == 7 && line[i] == 0x72 && line[i + 1] == 0x75 && line[i + 2] == 0x6e && line[i + 3]
        == 0x6e && line[i + 4] == 0x69 && line[i + 5] == 0x6e && line[i + 6] == 0x67 {
        proof {
            assert(k =~= kw_running());
        }
        Some(ResultStatus::Running)
    } else if n == 5 && line[i] == 0x65 && line[i + 1] == 0x72 && line[i + 2] == 0x72 && line[i + 3]
        == 0x6f && line[i + 4] == 0x72 {
        proof {
            assert(k =~= kw_error());
        }
        Some(ResultStatus::Error)
    } else if n == 4 && line[i] == 0x65 && line[i + 1] == 0x78 && line[i + 2] == 0x69 && line[i + 3]
        == 0x74 {
        proof {
            assert(k =~= kw_exit());
        }
        Some(ResultStatus::Exit)
    } else {
        proof {
            if k == kw_done() {
                assert(k.len() == 4 && k[0] == 0x64 && k[1] == 0x6f && k[2] == 0x6e && k[3]
                    == 0x65);
            }
            if k == kw_running() {
                assert(k.len() == 7 && k[0] == 0x72 && k[1] == 0x75 && k[2] == 0x6e && k[3] == 0x6e
                    && k[4] == 0x69 && k[5] == 0x6e && k[6] == 0x67);
            }
            if k == kw_error() {
                assert(k.len() == 5 && k[0] == 0x65 && k[1] == 0x72 && k[2] == 0x72 && k[3] == 0x6f
                    && k[4] == 0x72);
            }
            if k == kw_exit() {
                assert(k.len() == 4 && k[0] == 0x65 && k[1] == 0x78 && k[2] == 0x69 && k[3]
                    == 0x74);
            }
        }
        None
    }
}

/// Parses what may follow a keyword or class name: end of line, or a comma
/// and fields running to the end of the line.
fn parse_tail_fields(line: &Vec<u8>, i: usize) -> (r: Option<Vec<Field>>)
    requires
        i <= line@.len(),
    ensures
        match r {
            Some(fl) => spec_parse_tail_fields(line@.skip(i as int)) == Some(view_fields(fl@)),
            None => spec_parse_tail_fields(line@.skip(i as int)) is None,
        },
{
    let ghost s = line@.skip(i as int);
    if i == line.len() {
        proof {
            assert(view_fields(Seq::<Field>::empty()) =~= Seq::<FieldS>::empty());
        }
        return Some(Vec::new());
    }
    proof {
        assert(s[0] == line@[i as int]);
        assert(s.skip(1) =~= line@.skip(i + 1));
    }
    if line[i] != COMMA {
        return None;
    }
    match parse_fields(line, i + 1) {
        Some((fl, j)) => {
            if j == line.len() {
                proof {
                    assert(line@.skip(j as int).len() == 0);
                }
                Some(fl)
            } else {
                proof {
                    assert(line@.skip(j as int).len() > 0);
                }
                None
            }
        },
        None => None,
    }
}

/// Parses one whole line into a record. Never panics: a line outside the
/// grammar comes back as `MalformedRecord` carrying the offending line.
pub fn parse_record(line: &Vec<u8>) -> (r: Result<Record, MalformedRecord>)
    ensures
        match r {
            Ok(rec) => spec_parse_record(line@) == Some(rec@),
            Err(e) => spec_parse_record(line@) is None && e.line@ == line@,
        },
{
    let ghost s = line@;
    proof {
        assert(s.skip(0) =~= s);
    }
    let d_end = scan_digits(line, 0);
    if d_end > 0 {
        // A leading token: only a result record may carry one.
        if d_end == line.len() || line[d_end] != CARET {
            return Err(MalformedRecord { line: clone_bytes(line) });
        }
        proof {
            crate::parse::lemma_scan_digits_all(line@);
            assert forall|m: int| 0 <= m < d_end implies is_digit(#[trigger] line@[m]) by {
                assert(line@.subrange(0, d_end as int)[m] == line@[m]);
            }
        }
        let token = match digits_to_u64(line, 0, d_end) {
            Some(t) => t,
            None => {
                return Err(MalformedRecord { line: clone_bytes(line) });
            },
        };
        match parse_result_body(line, d_end + 1, Some(token)) {
            Some(rec) => Ok(rec),
            None => Err(MalformedRecord { line: clone_bytes(line) }),
        }
    } else if line.len() == 0 {
        Err(MalformedRecord { line: clone_bytes(line) })
    } else {
        let c = line[0];
        proof {
            assert(s.skip(1) == line@.skip(1));
        }
        let body: Option<Record> = if c == CARET {
            parse_result_body(line, 1, None)
        } else if c == STAR {
            parse_async_body(line, 1, AsyncKind::Exec)
        } else if c == EQUALS {
            parse_async_body(line, 1, AsyncKind::Notify)
        } else if c == PLUS {
            parse_async_body(line, 1, AsyncKind::Status)
        } else if c == TILDE {
            parse_stream_body(line, 1, StreamKind::Console)
        } else if c == AT {
            parse_stream_body(line, 1, StreamKind::Target)
        } else if c == AMP {
            parse_stream_body(line, 1, StreamKind::Log)
        } else {
            None
        };
        match body {
            Some(rec) => Ok(rec),
            None => Err(MalformedRecord { line: clone_bytes(line) }),
        }
    }
}

/// Copies a line, byte for byte.
pub fn clone_bytes(line: &Vec<u8>) -> (r: Vec<u8>)
    ensures
        r@ == line@,
{
    let r = crate::parse::copy_range(line, 0, line.len());
    proof {
        assert(line@.subrange(0, line@.len() as int) == line@);
    }
    r
}

fn parse_result_body(line: &Vec<u8>, i: usize, token: Option<u64>) -> (r: Option<Record>)
    requires
        i <= line@.len(),
    ensures
        match r {
            Some(rec) => spec_parse_result_body(line@.skip(i as int), token) == Some(rec@),
            None => spec_parse_result_body(line@.skip(i as int), token) is None,
        },
{
    let ghost s = line@.skip(i as int);
    let k_end = scan_ident(line, i);
    proof {
        assert(spec_scan_ident(s).len() == k_end - i);
        assert(s.skip(k_end - i) =~= line@.skip(k_end as int));
    }
    match match_status(line, i, k_end) {
        Some(st) => {
            match parse_tail_fields(line, k_end) {
                Some(fl) => Some(Record::CmdResult { token, status: st, fields: fl }),
                None => None,
            }
        },
        None => None,
    }
}

fn parse_async_body(line: &Vec<u8>, i: usize, kind: AsyncKind) -> (r: Option<Record>)
    requires
        i <= line@.len(),
    ensures
        match r {
            Some(rec) => spec_parse_async_body(line@.skip(i as int), kind) == Some(rec@),
            None => spec_parse_async_body(line@.skip(i as int), kind) is None,
        },
{
    let ghost s = line@.skip(i as int);
    let k_end = scan_ident(line, i);
    proof {
        assert(spec_scan_ident(s).len() == k_end - i);
        assert(s.skip(k_end - i) =~= line@.skip(k_end as int));
    }
    if k_end == i {
        return None;
    }
    let class = crate::parse::copy_range(line, i, k_end);
    match parse_tail_fields(line, k_end) {
        Some(fl) => Some(Record::AsyncNotify { kind, class, fields: fl }),
        None => None,
    }
}

fn parse_stream_body(line: &Vec<u8>, i: usize, kind: StreamKind) -> (r: Option<Record>)
    requires
        i <= line@.len(),
    ensures
        match r {
            Some(rec) => spec_parse_stream_body(line@.skip(i as int), kind) == Some(rec@),
            None => spec_parse_stream_body(line@.skip(i as int), kind) is None,
        },
{
    let ghost s = line@.skip(i as int);
    proof {
        if i < line@.len() {
            assert(s[0] == line@[i as int]);
            assert(s.skip(1) =~= line@.skip(i + 1));
        }
    }
    if i == line.len() || line[i] != QUOTE {
        return None;
    }
    match parse_cstring_body(line, i + 1) {
        Some((t, j)) => {
            if j == line.len() {
                proof {
                    assert(line@.skip(j as int).len() == 0);
                }
                Some(Record::Stream { kind, text: t })
            } else {
                proof {
                    assert(line@.skip(j as int).len() > 0);
                }
                None
            }
        },
        None => None,
    }
}

// ---------------------------------------------------------------------------
// Executable record serializer
// ---------------------------------------------------------------------------

/// Writes the line for a record. Feeding that line back to `parse_record`
/// returns the record: see `lemma_roundtrip_record`.
pub fn serialize_record(rec: &Record) -> (r: Vec<u8>)
    ensures
        r@ == spec_ser_record(rec@),
{
    let mut out: Vec<u8> = Vec::new();
    match rec {
        Record::CmdResult { token, status, fields } => {
            match token {
                Some(t) => {
                    let mut digits = format_u64(*t);
                    out.append(&mut digits);
                },
                None => {},
            }
            out.push(CARET);
            match status {
                ResultStatus::Done => {
                    out.push(0x64);
                    out.push(0x6f);
                    out.push(0x6e);
                    out.push(0x65);
                },
                ResultStatus::Running => {
                    out.push(0x72);
                    out.push(0x75);
                    out.push(0x6e);
                    out.push(0x6e);
                    out.push(0x69);
                    out.push(0x6e);
                    out.push(0x67);
                },
                ResultStatus::Error => {
                    out.push(0x65);
                    out.push(0x72);
                    out.push(0x72);
                    out.push(0x6f);
                    out.push(0x72);
                },
                ResultStatus::Exit => {
                    out.push(0x65);
                    out.push(0x78);
                    out.push(0x69);
                    out.push(0x74);
                },
            }
            write_tail_fields(&mut out, fields);
            proof {
                assert(out@ =~= spec_ser_record(rec@));
            }
        },
        Record::AsyncNotify { kind, class, fields } => {
            let c = match kind {
                AsyncKind::Exec => STAR,
                AsyncKind::Notify => EQUALS,
                AsyncKind::Status => PLUS,
            };
            out.push(c);
            let mut cl = clone_bytes(class);
            out.append(&mut cl);
            write_tail_fields(&mut out, fields);
            proof {
                assert(out@ =~= spec_ser_record(rec@));
            }
        },
        Record::Stream { kind, text } => {
            let c = match kind {
                StreamKind::Console => TILDE,
                StreamKind::Target => AT,
                StreamKind::Log => AMP,
            };
            out.push(c);
            out.push(QUOTE);
            write_escaped(&mut out, text);
            out.push(QUOTE);
            proof {
                assert(out@ =~= spec_ser_record(rec@));
            }
        },
    }
    out
}

/// Writes a comma and the fields, or nothing when there are none.
fn write_tail_fields(out: &mut Vec<u8>, fields: &Vec<Field>)
    ensures
        final(out)@ == old(out)@ + spec_ser_tail_fields(view_fields(fields@)),
{
    proof {
        lemma_view_fields(fields@);
    }
    if fields.len() > 0 {
        out.push(COMMA);
        proof {
            assert(fields@.skip(0) =~= fields@);
        }
        write_fields_from(out, fields, 0);
        proof {
            assert(view_fields(fields@).skip(0) =~= view_fields(fields@));
            assert(out@ =~= old(out)@ + spec_ser_tail_fields(view_fields(fields@)));
        }
    } else {
        proof {
            assert(view_fields(fields@).len() == 0);
            assert(out@ =~= old(out)@ + spec_ser_tail_fields(view_fields(fields@)));
        }
    }
}

} // verus!
