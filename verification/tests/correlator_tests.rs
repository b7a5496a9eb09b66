use gdb_mi::correlator::Correlator;

#[test]
fn tokens_rise_from_one_and_frame_the_line() {
    let mut c = Correlator::new();
    let (t1, line1) = c.send(&b"-exec-run".to_vec(), 0, 1000);
    assert_eq!(t1, 1);
    assert_eq!(line1, b"1-exec-run\n".to_vec());
    let (t2, line2) = c.send(&b"-break-list".to_vec(), 5, 1000);
    assert_eq!(t2, 2);
    assert_eq!(line2, b"2-break-list\n".to_vec());
    assert_eq!(c.pending_count(), 2);
}

#[test]
fn each_result_resolves_its_own_waiter_exactly_once() {
    let mut c = Correlator::new();
    let (t1, _) = c.send(&b"-exec-step".to_vec(), 0, 1000);
    let (t2, _) = c.send(&b"-exec-next".to_vec(), 0, 1000);
    // The later command resolves first: order of arrival does not matter.
    assert!(c.on_result(t2));
    assert_eq!(c.pending_count(), 1);
    // A second result for the same token matches nothing and is discarded.
    assert!(!c.on_result(t2));
    assert_eq!(c.pending_count(), 1);
    assert!(c.on_result(t1));
    assert_eq!(c.pending_count(), 0);
    assert!(!c.on_result(t1));
}

#[test]
fn pipelined_commands_resolve_in_any_completion_order() {
    // One hundred commands in flight at once, resolved in reverse order:
    // every token matches exactly its own waiter.
    let mut c = Correlator::new();
    let mut tokens: Vec<u64> = Vec::new();
    for k in 0..100u64 {
        let (t, line) = c.send(&b"-exec-next".to_vec(), k, 1000);
        // Tokens never repeat within the session.
        assert!(!tokens.contains(&t));
        let mut expected = t.to_string().into_bytes();
        expected.extend_from_slice(b"-exec-next\n");
        assert_eq!(line, expected);
        tokens.push(t);
    }
    assert_eq!(c.pending_count(), 100);
    for t in tokens.iter().rev() {
        assert!(c.on_result(*t), "token {} still had its waiter", t);
    }
    assert_eq!(c.pending_count(), 0);
    for t in tokens.iter() {
        assert!(!c.on_result(*t), "token {} was already resolved", t);
    }
}

#[test]
fn expire_removes_only_overdue_waiters() {
    let mut c = Correlator::new();
    let (t1, _) = c.send(&b"-exec-run".to_vec(), 0, 10);
    let (t2, _) = c.send(&b"-exec-run".to_vec(), 0, 10_000);
    let timed_out = c.expire(100);
    assert_eq!(timed_out.len(), 1);
    assert_eq!(timed_out[0].token, t1);
    assert_eq!(c.pending_count(), 1);
    // The timed-out token's eventual result is matched but discarded.
    assert!(!c.on_result(t1));
    assert!(c.on_result(t2));
}

#[test]
fn cancel_all_returns_every_outstanding_token_in_order() {
    let mut c = Correlator::new();
    let mut tokens: Vec<u64> = Vec::new();
    for _ in 0..7 {
        let (t, _) = c.send(&b"-exec-next".to_vec(), 0, 1000);
        tokens.push(t);
    }
    let cancelled = c.cancel_all();
    assert_eq!(cancelled, tokens);
    assert_eq!(c.pending_count(), 0);
    // Cancelling twice finds nothing left.
    assert_eq!(c.cancel_all().len(), 0);
}
