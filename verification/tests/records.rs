use gdb_mi::decode::error_message;
use gdb_mi::record::{
    AsyncKind, Record, ResultStatus, StreamKind, parse_record, serialize_record,
};
use gdb_mi::value::{Field, Value};

fn field(key: &[u8], value: Value) -> Field {
    Field { key: key.to_vec(), value }
}

fn scalar(text: &[u8]) -> Value {
    Value::Scalar(text.to_vec())
}

#[test]
fn parse_result_with_token_and_fields() {
    let line = b"12^done,bkpt={number=\"1\",file=\"main.c\",line=\"77\"}".to_vec();
    let rec = parse_record(&line).expect("line is well-formed");
    match rec {
        Record::CmdResult { token, status, fields } => {
            assert_eq!(token, Some(12));
            assert_eq!(status, ResultStatus::Done);
            assert_eq!(fields.len(), 1);
            assert_eq!(fields[0].key, b"bkpt".to_vec());
            match &fields[0].value {
                Value::Tuple(inner) => {
                    assert_eq!(inner.len(), 3);
                    assert_eq!(inner[0].key, b"number".to_vec());
                    assert_eq!(inner[0].value, scalar(b"1"));
                    assert_eq!(inner[2].value, scalar(b"77"));
                },
                other => panic!("expected a tuple, got {:?}", other),
            }
        },
        other => panic!("expected a result record, got {:?}", other),
    }
}

#[test]
fn parse_result_without_token_or_fields() {
    let line = b"^running".to_vec();
    let rec = parse_record(&line).expect("line is well-formed");
    assert_eq!(
        rec,
        Record::CmdResult { token: None, status: ResultStatus::Running, fields: Vec::new() },
    );
}

#[test]
fn parse_error_result_keeps_message() {
    let line = b"5^error,msg=\"No symbol table is loaded.\"".to_vec();
    let rec = parse_record(&line).expect("line is well-formed");
    match rec {
        Record::CmdResult { token, status, fields } => {
            assert_eq!(token, Some(5));
            assert_eq!(status, ResultStatus::Error);
            assert_eq!(error_message(&fields), b"No symbol table is loaded.".to_vec());
        },
        other => panic!("expected a result record, got {:?}", other),
    }
}

#[test]
fn parse_exec_async_stopped() {
    let line = b"*stopped,reason=\"breakpoint-hit\",thread-id=\"1\"".to_vec();
    let rec = parse_record(&line).expect("line is well-formed");
    match rec {
        Record::AsyncNotify { kind, class, fields } => {
            assert_eq!(kind, AsyncKind::Exec);
            assert_eq!(class, b"stopped".to_vec());
            assert_eq!(fields.len(), 2);
            assert_eq!(fields[0].value, scalar(b"breakpoint-hit"));
        },
        other => panic!("expected an async record, got {:?}", other),
    }
}

#[test]
fn parse_notify_and_status_async() {
    let rec = parse_record(&b"=breakpoint-created,bkpt={number=\"2\"}".to_vec()).unwrap();
    match rec {
        Record::AsyncNotify { kind, class, .. } => {
            assert_eq!(kind, AsyncKind::Notify);
            assert_eq!(class, b"breakpoint-created".to_vec());
        },
        other => panic!("expected an async record, got {:?}", other),
    }
    let rec = parse_record(&b"+download".to_vec()).unwrap();
    match rec {
        Record::AsyncNotify { kind, class, fields } => {
            assert_eq!(kind, AsyncKind::Status);
            assert_eq!(class, b"download".to_vec());
            assert_eq!(fields.len(), 0);
        },
        other => panic!("expected an async record, got {:?}", other),
    }
}

#[test]
fn parse_stream_records_decode_escapes() {
    let rec = parse_record(&b"~\"Hello\\nworld\\t\\\"quoted\\\"\\\\\"".to_vec()).unwrap();
    assert_eq!(
        rec,
        Record::Stream { kind: StreamKind::Console, text: b"Hello\nworld\t\"quoted\"\\".to_vec() },
    );
    let rec = parse_record(&b"@\"target out\"".to_vec()).unwrap();
    assert_eq!(rec, Record::Stream { kind: StreamKind::Target, text: b"target out".to_vec() });
    let rec = parse_record(&b"&\"log line\"".to_vec()).unwrap();
    assert_eq!(rec, Record::Stream { kind: StreamKind::Log, text: b"log line".to_vec() });
}

#[test]
fn malformed_lines_come_back_whole() {
    let cases: Vec<&[u8]> = vec![
        b"",
        b"^done,",
        b"^done,,",
        b"^done,x=",
        b"^bogus",
        b"123",
        b"123*stopped",
        b"99999999999999999999^done",
        b"~unquoted",
        b"~\"unterminated",
        b"~\"bad\\escape\"",
        b"^done,x=\"v\"trailing",
        b"hello",
        b"*",
    ];
    for case in cases {
        let line = case.to_vec();
        let err = parse_record(&line).expect_err("line is malformed");
        assert_eq!(err.line, line, "the offending line is kept for diagnostics");
    }
}

#[test]
fn empty_field_list_is_legal_but_trailing_comma_is_not() {
    assert!(parse_record(&b"^done".to_vec()).is_ok());
    assert!(parse_record(&b"*stopped".to_vec()).is_ok());
    assert!(parse_record(&b"^done,".to_vec()).is_err());
    assert!(parse_record(&b"*stopped,".to_vec()).is_err());
}

#[test]
fn roundtrip_nested_field_tree() {
    // Scalar, tuple and list shapes, nested, with every escape.
    let rec = Record::CmdResult {
        token: Some(42),
        status: ResultStatus::Done,
        fields: vec![
            field(b"plain", scalar(b"value")),
            field(b"nasty", scalar(b"a\"b\\c\nd\te")),
            field(b"empty-tuple", Value::Tuple(Vec::new())),
            field(b"empty-list", Value::List(Vec::new())),
            field(
                b"tup",
                Value::Tuple(vec![
                    field(b"inner", scalar(b"1")),
                    field(b"deep", Value::List(vec![scalar(b"x"), Value::Tuple(vec![field(
                        b"k",
                        scalar(b"v"),
                    )])])),
                ]),
            ),
            field(b"lst", Value::List(vec![scalar(b""), scalar(b"two")])),
        ],
    };
    let line = serialize_record(&rec);
    let back = parse_record(&line).expect("a serialized record parses");
    assert_eq!(back, rec);
}

#[test]
fn roundtrip_async_and_stream_records() {
    let rec = Record::AsyncNotify {
        kind: AsyncKind::Notify,
        class: b"thread-group-added".to_vec(),
        fields: vec![field(b"id", scalar(b"i1"))],
    };
    let line = serialize_record(&rec);
    assert_eq!(parse_record(&line).unwrap(), rec);

    let rec = Record::Stream { kind: StreamKind::Log, text: b"raw \"text\"\nwith lines".to_vec() };
    let line = serialize_record(&rec);
    assert_eq!(parse_record(&line).unwrap(), rec);
}

#[test]
fn roundtrip_result_without_token() {
    let rec = Record::CmdResult { token: None, status: ResultStatus::Exit, fields: Vec::new() };
    let line = serialize_record(&rec);
    assert_eq!(line, b"^exit".to_vec());
    assert_eq!(parse_record(&line).unwrap(), rec);
}

#[test]
fn well_formedness_check_matches_parser() {
    assert!(gdb_mi::line_is_well_formed(&b"1^done".to_vec()));
    assert!(!gdb_mi::line_is_well_formed(&b"1^done,".to_vec()));
}
