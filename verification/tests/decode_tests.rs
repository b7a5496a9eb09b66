use gdb_mi::decode::{
    DecodeErrorKind, MemoryBlock, decode_breakpoint, decode_breakpoint_list, decode_frame,
    decode_frame_list, decode_memory, decode_regval, decode_variable, hex_decode,
};
use gdb_mi::record::{Record, parse_record};
use gdb_mi::session::{BreakpointStore, classify_result, EngineError};
use gdb_mi::value::{Field, Value};

fn field(key: &[u8], value: Value) -> Field {
    Field { key: key.to_vec(), value }
}

fn scalar(text: &[u8]) -> Value {
    Value::Scalar(text.to_vec())
}

fn bkpt_tuple(number: &[u8], file: &[u8], line: &[u8]) -> Value {
    Value::Tuple(vec![
        field(b"number", scalar(number)),
        field(b"type", scalar(b"breakpoint")),
        field(b"enabled", scalar(b"y")),
        field(b"file", scalar(file)),
        field(b"line", scalar(line)),
        field(b"times", scalar(b"0")),
    ])
}

#[test]
fn breakpoint_decodes_from_a_set_response() {
    // The response to setting a breakpoint at main.c:77.
    let line = b"3^done,bkpt={number=\"1\",type=\"breakpoint\",enabled=\"y\",file=\"main.c\",line=\"77\",times=\"0\"}".to_vec();
    let rec = parse_record(&line).unwrap();
    let fields = match rec {
        Record::CmdResult { fields, .. } => fields,
        other => panic!("expected a result record, got {:?}", other),
    };
    let inner = match &fields[0].value {
        Value::Tuple(inner) => inner,
        other => panic!("expected a tuple, got {:?}", other),
    };
    let bp = decode_breakpoint(inner).unwrap();
    assert_eq!(bp.number, 1);
    assert_eq!(bp.file, b"main.c".to_vec());
    assert_eq!(bp.line, 77);
    assert!(bp.enabled);
    assert_eq!(bp.hit_count, 0);
}

#[test]
fn breakpoint_defaults_and_errors() {
    // Optional keys default; unknown keys are ignored.
    let minimal = vec![field(b"number", scalar(b"9")), field(b"oddity", scalar(b"?"))];
    let bp = decode_breakpoint(&minimal).unwrap();
    assert_eq!(bp.number, 9);
    assert_eq!(bp.file, Vec::<u8>::new());
    assert_eq!(bp.line, 0);
    assert!(bp.enabled);

    // The backend-assigned number is required.
    let missing = vec![field(b"file", scalar(b"main.c"))];
    let err = decode_breakpoint(&missing).unwrap_err();
    assert_eq!(err.key, b"number".to_vec());
    assert_eq!(err.kind, DecodeErrorKind::Missing);

    // A line that is not a number is the wrong shape.
    let bad = vec![field(b"number", scalar(b"1")), field(b"line", scalar(b"abc"))];
    let err = decode_breakpoint(&bad).unwrap_err();
    assert_eq!(err.key, b"line".to_vec());
    assert_eq!(err.kind, DecodeErrorKind::WrongShape);

    // A number past the domain type is out of range.
    let big = vec![field(b"number", scalar(b"2")), field(b"line", scalar(b"4294967296"))];
    let err = decode_breakpoint(&big).unwrap_err();
    assert_eq!(err.kind, DecodeErrorKind::OutOfRange);
}

#[test]
fn set_then_list_includes_then_delete_excludes() {
    // The store mirrors the backend: after a set, listing includes the
    // entry under its backend id; after deleting that id, it is gone.
    let mut store = BreakpointStore::new();
    let set = bkpt_tuple(b"1", b"main.c", b"77");
    let inner = match set {
        Value::Tuple(inner) => inner,
        _ => unreachable!(),
    };
    let bp = decode_breakpoint(&inner).unwrap();
    let id = bp.number;
    store.upsert(bp);
    let listed = store.list();
    assert!(listed.iter().any(|b| b.number == id && b.file == b"main.c".to_vec() && b.line == 77));
    store.remove(id);
    assert!(!store.list().iter().any(|b| b.number == id));
}

#[test]
fn upsert_replaces_under_the_same_backend_number() {
    let mut store = BreakpointStore::new();
    let a = decode_breakpoint(&vec![
        field(b"number", scalar(b"1")),
        field(b"file", scalar(b"a.c")),
        field(b"line", scalar(b"5")),
    ])
    .unwrap();
    store.upsert(a);
    let b = decode_breakpoint(&vec![
        field(b"number", scalar(b"1")),
        field(b"file", scalar(b"a.c")),
        field(b"line", scalar(b"6")),
        field(b"times", scalar(b"2")),
    ])
    .unwrap();
    store.upsert(b);
    assert_eq!(store.list().len(), 1);
    assert_eq!(store.list()[0].line, 6);
    assert_eq!(store.list()[0].hit_count, 2);
}

#[test]
fn breakpoint_list_decodes_partially() {
    // Five reported breakpoints, one with a malformed line number: four
    // decode, one warning is recorded, nothing else is lost.
    let values = vec![
        bkpt_tuple(b"1", b"a.c", b"1"),
        bkpt_tuple(b"2", b"b.c", b"2"),
        bkpt_tuple(b"3", b"c.c", b"not-a-line"),
        bkpt_tuple(b"4", b"d.c", b"4"),
        bkpt_tuple(b"5", b"e.c", b"5"),
    ];
    let (bps, warnings) = decode_breakpoint_list(&values).unwrap();
    assert_eq!(bps.len(), 4);
    assert_eq!(warnings.len(), 1);
    assert_eq!(warnings[0].key, b"line".to_vec());
    let numbers: Vec<u64> = bps.iter().map(|b| b.number).collect();
    assert_eq!(numbers, vec![1, 2, 4, 5]);
}

#[test]
fn breakpoint_list_fails_whole_on_a_missing_control_field() {
    // A missing backend number poisons the table: the whole list fails
    // rather than guessing at identities.
    let values = vec![
        bkpt_tuple(b"1", b"a.c", b"1"),
        Value::Tuple(vec![field(b"file", scalar(b"b.c"))]),
    ];
    let err = decode_breakpoint_list(&values).unwrap_err();
    assert_eq!(err.key, b"number".to_vec());
    assert_eq!(err.kind, DecodeErrorKind::Missing);
}

#[test]
fn frames_decode_with_partial_success() {
    let line = b"7^done,stack=[{level=\"0\",func=\"main\",file=\"main.c\",line=\"10\",addr=\"0x100\"},{func=\"no_level\"},{level=\"1\",func=\"start\"}]".to_vec();
    let rec = parse_record(&line).unwrap();
    let fields = match rec {
        Record::CmdResult { fields, .. } => fields,
        _ => unreachable!(),
    };
    let values = match &fields[0].value {
        Value::List(values) => values,
        other => panic!("expected a list, got {:?}", other),
    };
    let (frames, warnings) = decode_frame_list(values);
    assert_eq!(frames.len(), 2);
    assert_eq!(warnings.len(), 1);
    assert_eq!(frames[0].level, 0);
    assert_eq!(frames[0].func, b"main".to_vec());
    assert_eq!(frames[0].addr, b"0x100".to_vec());
    assert_eq!(frames[1].level, 1);
    // The malformed sibling lost only itself.
    assert_eq!(warnings[0].key, b"level".to_vec());
}

#[test]
fn frame_requires_its_level() {
    let err = decode_frame(&vec![field(b"func", scalar(b"main"))]).unwrap_err();
    assert_eq!(err.key, b"level".to_vec());
    assert_eq!(err.kind, DecodeErrorKind::Missing);
}

#[test]
fn variable_keeps_nested_values_in_wire_form() {
    let v = decode_variable(&vec![
        field(b"name", scalar(b"counter")),
        field(b"type", scalar(b"unsigned int")),
        field(b"value", scalar(b"42")),
    ])
    .unwrap();
    assert_eq!(v.name, b"counter".to_vec());
    assert_eq!(v.vtype, b"unsigned int".to_vec());
    assert_eq!(v.value, b"42".to_vec());

    let nested = decode_variable(&vec![
        field(b"name", scalar(b"s")),
        field(b"value", Value::Tuple(vec![field(b"x", scalar(b"1"))])),
    ])
    .unwrap();
    assert_eq!(nested.value, b"{x=\"1\"}".to_vec());
    assert_eq!(nested.vtype, Vec::<u8>::new());
}

#[test]
fn register_values_decode_by_index() {
    let r = decode_regval(&vec![
        field(b"number", scalar(b"13")),
        field(b"value", scalar(b"0x20001000")),
    ])
    .unwrap();
    assert_eq!(r.number, 13);
    assert_eq!(r.value, b"0x20001000".to_vec());
}

#[test]
fn hex_contents_decode_two_digits_per_byte() {
    assert_eq!(hex_decode(&b"0a1Bff00".to_vec()), Some(vec![0x0a, 0x1b, 0xff, 0x00]));
    assert_eq!(hex_decode(&b"".to_vec()), Some(Vec::new()));
    assert_eq!(hex_decode(&b"abc".to_vec()), None);
    assert_eq!(hex_decode(&b"zz".to_vec()), None);
}

#[test]
fn memory_read_returns_at_most_what_was_asked() {
    // Sixteen bytes requested at 0x08000000: the block's base matches the
    // request and its length never exceeds the request.
    let requested: u32 = 16;
    let contents: Vec<u8> = b"000102030405060708090a0b0c0d0e0f".to_vec();
    let fields = vec![
        field(b"begin", scalar(b"0x08000000")),
        field(b"offset", scalar(b"0")),
        field(b"end", scalar(b"0x08000010")),
        field(b"contents", Value::Scalar(contents)),
    ];
    let block: MemoryBlock = decode_memory(&fields, requested).unwrap();
    assert_eq!(block.begin, b"0x08000000".to_vec());
    assert_eq!(block.requested, 16);
    assert_eq!(block.bytes.len(), 16);
    assert!(block.bytes.len() <= requested as usize);
    assert_eq!(block.bytes[0], 0);
    assert_eq!(block.bytes[15], 15);
}

#[test]
fn partial_memory_reads_return_fewer_bytes_never_more() {
    let short = vec![
        field(b"begin", scalar(b"0x20000000")),
        field(b"contents", scalar(b"aabb")),
    ];
    let block = decode_memory(&short, 16).unwrap();
    assert_eq!(block.bytes, vec![0xaa, 0xbb]);

    let long = vec![
        field(b"begin", scalar(b"0x20000000")),
        field(b"contents", scalar(b"00112233445566778899")),
    ];
    let block = decode_memory(&long, 4).unwrap();
    assert_eq!(block.bytes, vec![0x00, 0x11, 0x22, 0x33]);
}

#[test]
fn unmapped_memory_read_is_a_command_error_not_a_crash() {
    // The backend refuses the address with an error result; the engine
    // surfaces it as a command error carrying the backend's words.
    let line = b"9^error,msg=\"Unable to read memory.\"".to_vec();
    let rec = parse_record(&line).unwrap();
    match rec {
        Record::CmdResult { status, fields, .. } => {
            assert_eq!(classify_result(status), Some(EngineError::CommandError));
            assert_eq!(
                gdb_mi::decode::error_message(&fields),
                b"Unable to read memory.".to_vec(),
            );
        },
        other => panic!("expected a result record, got {:?}", other),
    }
    let fine = parse_record(&b"10^done".to_vec()).unwrap();
    match fine {
        Record::CmdResult { status, .. } => assert_eq!(classify_result(status), None),
        _ => unreachable!(),
    }
}

#[test]
fn memory_decode_names_the_missing_key() {
    let no_contents = vec![field(b"begin", scalar(b"0x0"))];
    let err = decode_memory(&no_contents, 4).unwrap_err();
    assert_eq!(err.key, b"contents".to_vec());
    assert_eq!(err.kind, DecodeErrorKind::Missing);

    let bad_hex = vec![
        field(b"begin", scalar(b"0x0")),
        field(b"contents", scalar(b"xyz")),
    ];
    let err = decode_memory(&bad_hex, 4).unwrap_err();
    assert_eq!(err.key, b"contents".to_vec());
    assert_eq!(err.kind, DecodeErrorKind::WrongShape);
}

#[test]
fn refresh_replaces_the_whole_mirror() {
    let mut store = BreakpointStore::new();
    let stale = decode_breakpoint(&vec![
        field(b"number", scalar(b"1")),
        field(b"file", scalar(b"old.c")),
    ])
    .unwrap();
    store.upsert(stale);
    let fresh = vec![
        decode_breakpoint(&vec![field(b"number", scalar(b"2")), field(b"file", scalar(b"a.c"))])
            .unwrap(),
        decode_breakpoint(&vec![field(b"number", scalar(b"3")), field(b"file", scalar(b"b.c"))])
            .unwrap(),
    ];
    store.set_all(fresh);
    // The stale entry is gone; the queried table is what remains.
    assert!(!store.list().iter().any(|b| b.number == 1));
    assert!(store.list().iter().any(|b| b.number == 2));
    assert!(store.list().iter().any(|b| b.number == 3));
    assert_eq!(store.list().len(), 2);
}
