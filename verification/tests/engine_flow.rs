use gdb_mi::linebuf::LineBuffer;
use gdb_mi::record::{Record, parse_record, serialize_record, ResultStatus};
use gdb_mi::registry::Registry;
use gdb_mi::session::RecordOutcome;

#[test]
fn pipelined_commands_resolve_across_the_whole_engine() {
    // One hundred commands sent back to back, none awaited individually.
    // The backend's replies arrive in reverse order, split into arbitrary
    // pipe chunks: every command still resolves to its own token-matched
    // result, exactly once.
    let mut reg = Registry::new();
    let id = reg.create();
    let mut tokens: Vec<u64> = Vec::new();
    for _ in 0..100 {
        let (t, _line) = reg.send_command(id, &b"-exec-next".to_vec(), 0, 60_000).unwrap();
        tokens.push(t);
    }

    // The backend answers each token, newest first.
    let mut wire: Vec<u8> = Vec::new();
    for t in tokens.iter().rev() {
        wire.extend_from_slice(
            &serialize_record(&Record::CmdResult {
                token: Some(*t),
                status: ResultStatus::Done,
                fields: Vec::new(),
            }),
        );
        wire.push(b'\n');
    }

    // The reader sees the stream in uneven chunks.
    let mut lb = LineBuffer::new();
    let mut resolved: Vec<u64> = Vec::new();
    for chunk in wire.chunks(7) {
        for line in lb.push_chunk(&chunk.to_vec()) {
            let rec = parse_record(&line).expect("the backend speaks the grammar");
            match reg.on_record(id, &rec).unwrap() {
                RecordOutcome::Resolved { token, matched } => {
                    assert!(matched, "token {} resolved exactly once", token);
                    resolved.push(token);
                },
                other => panic!("expected a resolution, got {:?}", other),
            }
        }
    }

    let mut expected = tokens.clone();
    expected.reverse();
    assert_eq!(resolved, expected);
    // Nothing is left outstanding, and a stray duplicate reply matches
    // nothing.
    let dup = parse_record(&b"50^done".to_vec()).unwrap();
    assert_eq!(
        reg.on_record(id, &dup).unwrap(),
        RecordOutcome::Resolved { token: 50, matched: false },
    );
}
