use gdb_mi::decode::Breakpoint;
use gdb_mi::record::parse_record;
use gdb_mi::registry::Registry;
use gdb_mi::session::{EngineError, RecordOutcome, SessionState, terminal_error};

#[test]
fn create_registers_a_running_session() {
    let mut reg = Registry::new();
    let id = reg.create();
    assert_eq!(id, 1);
    assert_eq!(reg.session_state(id), Ok(SessionState::Running));
    let listed = reg.list_sessions();
    assert_eq!(listed, vec![(id, SessionState::Running)]);
}

#[test]
fn lookup_of_unknown_id_fails() {
    let reg = Registry::new();
    assert_eq!(reg.session_state(99), Err(EngineError::SessionNotFound));
}

#[test]
fn close_resolves_fifty_outstanding_waiters() {
    // Fifty commands in flight when the session closes: every one of them
    // comes back for terminal resolution, none is left unresolved.
    let mut reg = Registry::new();
    let id = reg.create();
    let mut tokens: Vec<u64> = Vec::new();
    for _ in 0..50 {
        let (t, _line) = reg.send_command(id, &b"-exec-next".to_vec(), 0, 1000).unwrap();
        tokens.push(t);
    }
    let cancelled = reg.close_session(id);
    assert_eq!(cancelled, tokens);
    assert_eq!(terminal_error(SessionState::Closed), EngineError::SessionTerminated);
    // The entry is gone; the id no longer resolves.
    assert_eq!(reg.session_state(id), Err(EngineError::SessionNotFound));
}

#[test]
fn close_is_idempotent() {
    let mut reg = Registry::new();
    let id = reg.create();
    let first = reg.close_session(id);
    assert_eq!(first.len(), 0);
    // Closing an already-closed session is a no-op success.
    let second = reg.close_session(id);
    assert_eq!(second.len(), 0);
    let third = reg.close_session(424242);
    assert_eq!(third.len(), 0);
}

#[test]
fn process_exit_fails_pending_waiters_with_process_exited() {
    let mut reg = Registry::new();
    let id = reg.create();
    let (t1, _) = reg.send_command(id, &b"-exec-continue".to_vec(), 0, 1000).unwrap();
    let (t2, _) = reg.send_command(id, &b"-break-list".to_vec(), 0, 1000).unwrap();
    // The backend dies mid-command: both waiters resolve, with the
    // process-exit error, not by hanging.
    let cancelled = reg.on_exit(id).unwrap();
    assert_eq!(cancelled, vec![t1, t2]);
    assert_eq!(reg.session_state(id), Ok(SessionState::Exited));
    assert_eq!(terminal_error(SessionState::Exited), EngineError::ProcessExited);
    // Further calls on the exited session are refused, not hung.
    assert_eq!(
        reg.send_command(id, &b"-exec-next".to_vec(), 0, 1000),
        Err(EngineError::InvalidState),
    );
}

#[test]
fn execution_calls_need_a_live_session() {
    let mut reg = Registry::new();
    assert_eq!(
        reg.send_command(7, &b"-exec-run".to_vec(), 0, 1000),
        Err(EngineError::SessionNotFound),
    );
}

#[test]
fn result_records_resolve_waiters_through_the_registry() {
    let mut reg = Registry::new();
    let id = reg.create();
    let (t, line) = reg.send_command(id, &b"-exec-run".to_vec(), 0, 1000).unwrap();
    assert_eq!(line, b"1-exec-run\n".to_vec());
    let reply = parse_record(&b"1^running".to_vec()).unwrap();
    let outcome = reg.on_record(id, &reply).unwrap();
    assert_eq!(outcome, RecordOutcome::Resolved { token: t, matched: true });
    // The same result again matches nothing: it is discarded, never
    // delivered twice.
    let outcome = reg.on_record(id, &reply).unwrap();
    assert_eq!(outcome, RecordOutcome::Resolved { token: t, matched: false });
}

#[test]
fn stop_events_update_state_and_snapshot() {
    let mut reg = Registry::new();
    let id = reg.create();
    let stopped = parse_record(
        &b"*stopped,reason=\"breakpoint-hit\",thread-id=\"2\",frame={level=\"0\",func=\"main\",file=\"main.c\",line=\"77\",addr=\"0x08000154\"}"
            .to_vec(),
    )
    .unwrap();
    let outcome = reg.on_record(id, &stopped).unwrap();
    assert_eq!(outcome, RecordOutcome::Event);
    assert_eq!(reg.session_state(id), Ok(SessionState::Stopped));
    let s = &reg.sessions[0];
    assert_eq!(s.stop.running, false);
    assert_eq!(s.stop.reason, Some(b"breakpoint-hit".to_vec()));
    assert_eq!(s.stop.thread, Some(2));
    let frame = s.stop.frame.as_ref().expect("the stop event carried a frame");
    assert_eq!(frame.func, b"main".to_vec());
    assert_eq!(frame.line, 77);

    let running = parse_record(&b"*running,thread-id=\"all\"".to_vec()).unwrap();
    reg.on_record(id, &running).unwrap();
    assert_eq!(reg.session_state(id), Ok(SessionState::Running));
    assert_eq!(reg.sessions[0].stop.running, true);
    assert_eq!(reg.sessions[0].stop.reason, None);
}

#[test]
fn stream_and_untokened_records_touch_nothing() {
    let mut reg = Registry::new();
    let id = reg.create();
    let console = parse_record(&b"~\"Reading symbols...\\n\"".to_vec()).unwrap();
    assert_eq!(reg.on_record(id, &console).unwrap(), RecordOutcome::StreamText);
    let bare = parse_record(&b"^done".to_vec()).unwrap();
    assert_eq!(reg.on_record(id, &bare).unwrap(), RecordOutcome::NoToken);
    assert_eq!(reg.session_state(id), Ok(SessionState::Running));
}

#[test]
fn timed_out_commands_surface_and_late_results_are_discarded() {
    let mut reg = Registry::new();
    let id = reg.create();
    let (t, _) = reg.send_command(id, &b"-exec-run".to_vec(), 0, 50).unwrap();
    let overdue = reg.expire(id, 100).unwrap();
    assert_eq!(overdue.len(), 1);
    assert_eq!(overdue[0].token, t);
    // The result arrives after the deadline: matched by nobody.
    let reply = parse_record(&b"1^done".to_vec()).unwrap();
    assert_eq!(
        reg.on_record(id, &reply).unwrap(),
        RecordOutcome::Resolved { token: t, matched: false },
    );
}

#[test]
fn sessions_do_not_interfere() {
    let mut reg = Registry::new();
    let a = reg.create();
    let b = reg.create();
    assert_ne!(a, b);
    let (ta, _) = reg.send_command(a, &b"-exec-run".to_vec(), 0, 1000).unwrap();
    let (tb, _) = reg.send_command(b, &b"-exec-run".to_vec(), 0, 1000).unwrap();
    // Tokens are per-session: both sessions hand out their own first token.
    assert_eq!(ta, 1);
    assert_eq!(tb, 1);
    // Closing one session leaves the other alone.
    let cancelled = reg.close_session(a);
    assert_eq!(cancelled, vec![ta]);
    assert_eq!(reg.session_state(b), Ok(SessionState::Running));
    let reply = parse_record(&b"1^done".to_vec()).unwrap();
    assert_eq!(
        reg.on_record(b, &reply).unwrap(),
        RecordOutcome::Resolved { token: tb, matched: true },
    );
}

#[test]
fn breakpoints_mirror_through_the_registry() {
    let mut reg = Registry::new();
    let id = reg.create();
    let bp = Breakpoint {
        number: 1,
        file: b"main.c".to_vec(),
        line: 77,
        enabled: true,
        hit_count: 0,
    };
    reg.sync_breakpoint(id, bp).unwrap();
    let listed = reg.list_breakpoints(id).unwrap();
    assert!(listed.iter().any(|b| b.number == 1 && b.file == b"main.c".to_vec() && b.line == 77));
    reg.remove_breakpoints(id, &vec![1]).unwrap();
    assert!(!reg.list_breakpoints(id).unwrap().iter().any(|b| b.number == 1));
    assert_eq!(
        reg.list_breakpoints(9999).unwrap_err(),
        EngineError::SessionNotFound,
    );
}
