use vstd::prelude::*;

use crate::correlator::{PendingCommand, spec_drop_token, spec_still_waiting, spec_timed_out};
use crate::decode::Breakpoint;
use crate::record::{Record, RecordS};
use crate::session::{
    EngineError, RecordOutcome, Session, SessionState, clone_breakpoint, spec_can_execute,
};
use crate::text::{NEWLINE, dec_digits};

verus! {

// ---------------------------------------------------------------------------
// Session registry: the one process-wide table, id to session
// ---------------------------------------------------------------------------

/// Whether some session carries `id`.
pub open spec fn spec_has_session(s: Seq<Session>, id: u64) -> bool {
    exists|i: int| 0 <= i < s.len() && (#[trigger] s[i]).id == id
}

/// The index of the session carrying `id`; meaningful under distinct ids.
pub open spec fn spec_session_idx(s: Seq<Session>, id: u64) -> int {
    choose|i: int| 0 <= i < s.len() && (#[trigger] s[i]).id == id
}

/// The session carrying `id`.
pub open spec fn spec_session(s: Seq<Session>, id: u64) -> Session {
    s[spec_session_idx(s, id)]
}

/// Pairwise distinct session ids.
pub open spec fn spec_ids_distinct(s: Seq<Session>) -> bool {
    forall|i: int, j: int| 0 <= i < j < s.len() ==> (#[trigger] s[i]).id != (#[trigger] s[j]).id
}

/// Under distinct ids, the chosen index for a position's own id is that
/// position.
pub proof fn lemma_session_at(s: Seq<Session>, k: int)
    requires
        spec_ids_distinct(s),
        0 <= k < s.len(),
    ensures
        spec_has_session(s, s[k].id),
        spec_session_idx(s, s[k].id) == k,
        spec_session(s, s[k].id) == s[k],
{
    assert(spec_has_session(s, s[k].id));
    let i = spec_session_idx(s, s[k].id);
    if i != k {
        if i < k {
            assert(s[i].id != s[k].id);
        } else {
            assert(s[k].id != s[i].id);
        }
    }
}

/// Taking session `i` out and pushing its replacement back keeps every
/// other session exactly where a lookup finds it.
pub proof fn lemma_replace_session(pre: Seq<Session>, i: int, s2: Session)
    requires
        spec_ids_distinct(pre),
        0 <= i < pre.len(),
        s2.id == pre[i].id,
    ensures
        spec_ids_distinct(pre.update(i, pre.last()).drop_last().push(s2)),
        forall|oid: u64|
            spec_has_session(pre.update(i, pre.last()).drop_last().push(s2), oid)
                == spec_has_session(pre, oid),
        spec_session(pre.update(i, pre.last()).drop_last().push(s2), s2.id) == s2,
        forall|oid: u64|
            oid != s2.id && spec_has_session(pre, oid) ==> spec_session(
                pre.update(i, pre.last()).drop_last().push(s2),
                oid,
            ) == spec_session(pre, oid),
{
    let post = pre.update(i, pre.last()).drop_last().push(s2);
    assert(post.len() == pre.len());
    assert forall|oid: u64| spec_has_session(post, oid) == spec_has_session(pre, oid) by {
        if spec_has_session(post, oid) {
            let k = choose|k: int| 0 <= k < post.len() && (#[trigger] post[k]).id == oid;
            if k == post.len() - 1 {
                assert(pre[i].id == oid);
            } else if k == i {
                assert(pre[pre.len() - 1].id == oid);
            } else {
                assert(pre[k].id == oid);
            }
        }
        if spec_has_session(pre, oid) {
            let k = choose|k: int| 0 <= k < pre.len() && (#[trigger] pre[k]).id == oid;
            if k == i {
                assert(post[post.len() - 1].id == oid);
            } else if k == pre.len() - 1 && i < pre.len() - 1 {
                assert(post[i].id == oid);
            } else {
                assert(post[k].id == oid);
            }
        }
    }
    assert forall|a: int, b: int|
        0 <= a < b < post.len() implies (#[trigger] post[a]).id != (#[trigger] post[b]).id by {
        let pa: Session = if a == post.len() - 1 {
            pre[i]
        } else if a == i {
            pre[pre.len() - 1]
        } else {
            pre[a]
        };
        assert(post[a].id == pa.id);
        let pb: Session = if b == post.len() - 1 {
            pre[i]
        } else if b == i {
            pre[pre.len() - 1]
        } else {
            pre[b]
        };
        assert(post[b].id == pb.id);
    }
    lemma_session_at(post, post.len() - 1);
    assert forall|oid: u64|
        oid != s2.id && spec_has_session(pre, oid) implies spec_session(post, oid) == spec_session(
        pre,
        oid,
    ) by {
        let k = choose|k: int| 0 <= k < pre.len() && (#[trigger] pre[k]).id == oid;
        lemma_session_at(pre, k);
        if k == pre.len() - 1 && i < pre.len() - 1 {
            assert(post[i] == pre[k]);
            lemma_session_at(post, i);
        } else {
            assert(k != i);
            assert(post[k] == pre[k]);
            lemma_session_at(post, k);
        }
    }
}

/// Taking session `i` out for good removes exactly that id.
pub proof fn lemma_remove_session(pre: Seq<Session>, i: int)
    requires
        spec_ids_distinct(pre),
        0 <= i < pre.len(),
    ensures
        spec_ids_distinct(pre.update(i, pre.last()).drop_last()),
        !spec_has_session(pre.update(i, pre.last()).drop_last(), pre[i].id),
        forall|oid: u64|
            oid != pre[i].id ==> spec_has_session(pre.update(i, pre.last()).drop_last(), oid)
                == spec_has_session(pre, oid),
        forall|oid: u64|
            oid != pre[i].id && spec_has_session(pre, oid) ==> spec_session(
                pre.update(i, pre.last()).drop_last(),
                oid,
            ) == spec_session(pre, oid),
{
    let post = pre.update(i, pre.last()).drop_last();
    assert(post.len() == pre.len() - 1);
    assert forall|a: int, b: int|
        0 <= a < b < post.len() implies (#[trigger] post[a]).id != (#[trigger] post[b]).id by {
        let pa: Session = if a == i {
            pre[pre.len() - 1]
        } else {
            pre[a]
        };
        assert(post[a].id == pa.id);
        let pb: Session = if b == i {
            pre[pre.len() - 1]
        } else {
            pre[b]
        };
        assert(post[b].id == pb.id);
    }
    assert forall|k: int| 0 <= k < post.len() implies (#[trigger] post[k]).id != pre[i].id by {
        if k == i {
            assert(post[k].id == pre[pre.len() - 1].id);
        }
    }
    assert forall|oid: u64|
        oid != pre[i].id implies spec_has_session(post, oid) == spec_has_session(pre, oid) by {
        if spec_has_session(post, oid) {
            let k = choose|k: int| 0 <= k < post.len() && (#[trigger] post[k]).id == oid;
            if k == i {
                assert(pre[pre.len() - 1].id == oid);
            } else {
                assert(pre[k].id == oid);
            }
        }
        if spec_has_session(pre, oid) {
            let k = choose|k: int| 0 <= k < pre.len() && (#[trigger] pre[k]).id == oid;
            if k == pre.len() - 1 {
                if i < pre.len() - 1 {
                    assert(post[i].id == oid);
                }
            } else {
                assert(post[k].id == oid);
            }
        }
    }
    assert forall|oid: u64|
        oid != pre[i].id && spec_has_session(pre, oid) implies spec_session(post, oid)
            == spec_session(pre, oid) by {
        let k = choose|k: int| 0 <= k < pre.len() && (#[trigger] pre[k]).id == oid;
        lemma_session_at(pre, k);
        if k == pre.len() - 1 {
            assert(post[i] == pre[k]);
            lemma_session_at(post, i);
        } else {
            assert(post[k] == pre[k]);
            lemma_session_at(post, k);
        }
    }
}

/// The deadline a command gets: `now` plus the timeout, capped at the far
/// end of the clock.
pub open spec fn spec_deadline(now: u64, timeout_ms: u64) -> u64 {
    if timeout_ms > u64::MAX - now {
        u64::MAX
    } else {
        (now + timeout_ms) as u64
    }
}

/// The process-wide session table. It owns every session; callers hold
/// only ids.
#[derive(Debug)]
pub struct Registry {
    pub next_id: u64,
    pub sessions: Vec<Session>,
}

impl Registry {
    /// Ids are pairwise distinct, below the next to be issued, and every
    /// session is internally well-formed.
    pub open spec fn wf(self) -> bool {
        spec_ids_distinct(self.sessions@) && (forall|i: int|
            0 <= i < self.sessions@.len() ==> (#[trigger] self.sessions@[i]).id < self.next_id)
            && (forall|i: int| 0 <= i < self.sessions@.len() ==> (#[trigger] self.sessions@[i]).wf())
    }

    pub fn new() -> (r: Registry)
        ensures
            r.wf(),
            r.sessions@.len() == 0,
            r.next_id == 1,
    {
        Registry { next_id: 1, sessions: Vec::new() }
    }

    /// Registers a session around a process that was just spawned, already
    /// running. A failed spawn never reaches this point, so no
    /// half-initialized session is ever registered.
    pub fn create(&mut self) -> (id: u64)
        requires
            old(self).wf(),
            old(self).next_id < u64::MAX,
        ensures
            final(self).wf(),
            id == old(self).next_id,
            final(self).next_id == old(self).next_id + 1,
            !spec_has_session(old(self).sessions@, id),
            spec_has_session(final(self).sessions@, id),
            forall|oid: u64|
                oid != id ==> spec_has_session(final(self).sessions@, oid) == spec_has_session(
                    old(self).sessions@,
                    oid,
                ),
            forall|oid: u64|
                oid != id && spec_has_session(old(self).sessions@, oid) ==> spec_session(
                    final(self).sessions@,
                    oid,
                ) == spec_session(old(self).sessions@, oid),
            spec_session(final(self).sessions@, id).state == SessionState::Running,
            spec_session(final(self).sessions@, id).correlator.pending@.len() == 0,
            spec_session(final(self).sessions@, id).breakpoints.items@.len() == 0,
    {
        let id = self.next_id;
        self.next_id = self.next_id + 1;
        let mut s = Session::new(id);
        s.state = SessionState::Running;
        let ghost pre = self.sessions@;
        self.sessions.push(s);
        proof {
            let post = self.sessions@;
            assert(post[post.len() - 1].id == id);
            assert forall|a: int, b: int|
                0 <= a < b < post.len() implies (#[trigger] post[a]).id != (
            #[trigger] post[b]).id by {
                if b < post.len() - 1 {
                    assert(post[a] == pre[a] && post[b] == pre[b]);
                } else {
                    assert(post[a] == pre[a]);
                    assert(pre[a].id < id);
                }
            }
            lemma_session_at(post, post.len() - 1);
            assert forall|oid: u64|
                oid != id implies spec_has_session(post, oid) == spec_has_session(pre, oid) by {
                if spec_has_session(post, oid) {
                    let k = choose|k: int| 0 <= k < post.len() && (#[trigger] post[k]).id == oid;
                    assert(pre[k].id == oid);
                }
                if spec_has_session(pre, oid) {
                    let k = choose|k: int| 0 <= k < pre.len() && (#[trigger] pre[k]).id == oid;
                    assert(post[k].id == oid);
                }
            }
            assert forall|oid: u64|
                oid != id && spec_has_session(pre, oid) implies spec_session(post, oid)
                    == spec_session(pre, oid) by {
                let k = choose|k: int| 0 <= k < pre.len() && (#[trigger] pre[k]).id == oid;
                lemma_session_at(pre, k);
                assert(post[k] == pre[k]);
                lemma_session_at(post, k);
            }
        }
        id
    }

    /// Finds the position of `id` in the table.
    fn find_index(&self, id: u64) -> (r: Option<usize>)
        requires
            self.wf(),
        ensures
            match r {
                Some(i) => i < self.sessions@.len() && self.sessions@[i as int].id == id
                    && spec_has_session(self.sessions@, id) && spec_session_idx(self.sessions@, id)
                    == i,
                None => !spec_has_session(self.sessions@, id),
            },
    {
        let mut i: usize = 0;
        while i < self.sessions.len()
            invariant
                i <= self.sessions@.len(),
                forall|k: int| 0 <= k < i ==> (#[trigger] self.sessions@[k]).id != id,
                self.wf(),
            decreases self.sessions@.len() - i,
        {
            if self.sessions[i].id == id {
                proof {
                    lemma_session_at(self.sessions@, i as int);
                }
                return Some(i);
            }
            i = i + 1;
        }
        None
    }

    /// The status snapshot of a session: its lifecycle state and how many
    /// commands are in flight. Unknown ids report `SessionNotFound`.
    pub fn session_state(&self, id: u64) -> (r: Result<SessionState, EngineError>)
        requires
            self.wf(),
        ensures
            match r {
                Ok(st) => spec_has_session(self.sessions@, id) && st == spec_session(
                    self.sessions@,
                    id,
                ).state,
                Err(e) => e == EngineError::SessionNotFound && !spec_has_session(
                    self.sessions@,
                    id,
                ),
            },
    {
        match self.find_index(id) {
            Some(i) => Ok(self.sessions[i].state),
            None => Err(EngineError::SessionNotFound),
        }
    }

    /// Every registered session, as id and state pairs, in table order.
    pub fn list_sessions(&self) -> (r: Vec<(u64, SessionState)>)
        ensures
            r@.len() == self.sessions@.len(),
            forall|i: int|
                0 <= i < r@.len() ==> r@[i].0 == (#[trigger] self.sessions@[i]).id && r@[i].1
                    == self.sessions@[i].state,
    {
        let mut out: Vec<(u64, SessionState)> = Vec::new();
        let mut i: usize = 0;
        while i < self.sessions.len()
            invariant
                i <= self.sessions@.len(),
                out@.len() == i,
                forall|k: int|
                    0 <= k < i ==> out@[k].0 == (#[trigger] self.sessions@[k]).id && out@[k].1
                        == self.sessions@[k].state,
            decreases self.sessions@.len() - i,
        {
            out.push((self.sessions[i].id, self.sessions[i].state));
            i = i + 1;
        }
        out
    }
}


impl Registry {
    /// Formats and records one command for the session: allocates the
    /// token, stores the waiter with its capped deadline, and returns the
    /// exact line for the transport to write. Execution needs a session in
    /// `Running` or `Stopped`; a session whose token space is spent (a
    /// machine bound, not a protocol one) reports `InvalidState` too.
    pub fn send_command(&mut self, id: u64, text: &Vec<u8>, now: u64, timeout_ms: u64) -> (r:
        Result<(u64, Vec<u8>), EngineError>)
        requires
            old(self).wf(),
        ensures
            final(self).wf(),
            final(self).next_id == old(self).next_id,
            match r {
                Ok(p) => {
                    let pre = spec_session(old(self).sessions@, id);
                    let post = spec_session(final(self).sessions@, id);
                    spec_has_session(old(self).sessions@, id) && spec_can_execute(pre.state)
                        && p.0 == pre.correlator.next_token && p.1@ == dec_digits(p.0 as nat)
                        + text@ + seq![NEWLINE] && post.correlator.next_token
                        == pre.correlator.next_token + 1 && post.correlator.pending@
                        == pre.correlator.pending@.push(
                        PendingCommand { token: p.0, deadline: spec_deadline(now, timeout_ms) },
                    ) && post.correlator.spec_is_pending(p.0) && !pre.correlator.spec_is_pending(
                        p.0,
                    ) && post.id == id && post.state == pre.state && post.stop@ == pre.stop@
                        && post.breakpoints.items@ == pre.breakpoints.items@ && (forall|oid: u64|
                        spec_has_session(final(self).sessions@, oid) == spec_has_session(
                            old(self).sessions@,
                            oid,
                        )) && (forall|oid: u64|
                        oid != id && spec_has_session(old(self).sessions@, oid) ==> spec_session(
                            final(self).sessions@,
                            oid,
                        ) == spec_session(old(self).sessions@, oid))
                },
                Err(e) => *final(self) == *old(self) && (e == EngineError::SessionNotFound
                    <==> !spec_has_session(old(self).sessions@, id)) && (e
                    == EngineError::InvalidState ==> spec_has_session(old(self).sessions@, id) && (
                    !spec_can_execute(spec_session(old(self).sessions@, id).state) || spec_session(
                        old(self).sessions@,
                        id,
                    ).correlator.next_token == u64::MAX)) && (e == EngineError::SessionNotFound
                    || e == EngineError::InvalidState),
            },
    {
        let i = match self.find_index(id) {
            Some(i) => i,
            None => {
                return Err(EngineError::SessionNotFound);
            },
        };
        let st = self.sessions[i].state;
        if !(st == SessionState::Running || st == SessionState::Stopped) {
            return Err(EngineError::InvalidState);
        }
        if self.sessions[i].correlator.next_token == u64::MAX {
            return Err(EngineError::InvalidState);
        }
        let capped = if timeout_ms > u64::MAX - now {
            u64::MAX - now
        } else {
            timeout_ms
        };
        let ghost pre = self.sessions@;
        let mut s = self.sessions.swap_remove(i);
        let (token, line) = s.correlator.send(text, now, capped);
        proof {
            lemma_session_at(pre, i as int);
        }
        self.sessions.push(s);
        proof {
            lemma_replace_session(pre, i as int, self.sessions@.last());
            assert(self.sessions@ =~= pre.update(i as int, pre.last()).drop_last().push(
                self.sessions@.last(),
            ));
        }
        Ok((token, line))
    }

    /// Routes one parsed record to the session: a tokened result resolves
    /// exactly its waiter, an exec-async event updates the stop snapshot
    /// and lifecycle, stream text touches nothing.
    pub fn on_record(&mut self, id: u64, rec: &Record) -> (r: Result<RecordOutcome, EngineError>)
        requires
            old(self).wf(),
        ensures
            final(self).wf(),
            final(self).next_id == old(self).next_id,
            match r {
                Ok(outcome) => {
                    let pre = spec_session(old(self).sessions@, id);
                    let post = spec_session(final(self).sessions@, id);
                    spec_has_session(old(self).sessions@, id) && post.id == id
                        && post.breakpoints.items@ == pre.breakpoints.items@ && (forall|oid: u64|
                        spec_has_session(final(self).sessions@, oid) == spec_has_session(
                            old(self).sessions@,
                            oid,
                        )) && (forall|oid: u64|
                        oid != id && spec_has_session(old(self).sessions@, oid) ==> spec_session(
                            final(self).sessions@,
                            oid,
                        ) == spec_session(old(self).sessions@, oid)) && (match rec@ {
                        RecordS::CmdResult { token: Some(t), .. } => outcome == (
                        RecordOutcome::Resolved {
                            token: t,
                            matched: pre.correlator.spec_is_pending(t),
                        }) && post.correlator.pending@ == spec_drop_token(
                            pre.correlator.pending@,
                            t,
                        ) && !post.correlator.spec_is_pending(t),
                        RecordS::CmdResult { token: None, .. } => outcome
                            == RecordOutcome::NoToken && post == pre,
                        RecordS::AsyncNotify { .. } => outcome == RecordOutcome::Event
                            && post.correlator.pending@ == pre.correlator.pending@,
                        RecordS::Stream { .. } => outcome == RecordOutcome::StreamText && post
                            == pre,
                    })
                },
                Err(e) => *final(self) == *old(self) && e == EngineError::SessionNotFound
                    && !spec_has_session(old(self).sessions@, id),
            },
    {
        let i = match self.find_index(id) {
            Some(i) => i,
            None => {
                return Err(EngineError::SessionNotFound);
            },
        };
        let ghost pre = self.sessions@;
        let mut s = self.sessions.swap_remove(i);
        let outcome = s.on_record(rec);
        proof {
            lemma_session_at(pre, i as int);
        }
        self.sessions.push(s);
        proof {
            lemma_replace_session(pre, i as int, self.sessions@.last());
            assert(self.sessions@ =~= pre.update(i as int, pre.last()).drop_last().push(
                self.sessions@.last(),
            ));
        }
        Ok(outcome)
    }

    /// Removes and returns the session's timed-out waiters, each owed a
    /// `CommandTimeout` resolution; the rest keep waiting.
    pub fn expire(&mut self, id: u64, now: u64) -> (r: Result<Vec<PendingCommand>, EngineError>)
        requires
            old(self).wf(),
        ensures
            final(self).wf(),
            final(self).next_id == old(self).next_id,
            match r {
                Ok(timed_out) => {
                    let pre = spec_session(old(self).sessions@, id);
                    let post = spec_session(final(self).sessions@, id);
                    spec_has_session(old(self).sessions@, id) && post.id == id
                        && post.correlator.pending@ == spec_still_waiting(
                        pre.correlator.pending@,
                        now,
                    ) && timed_out@ == spec_timed_out(pre.correlator.pending@, now) && post.state
                        == pre.state && (forall|oid: u64|
                        spec_has_session(final(self).sessions@, oid) == spec_has_session(
                            old(self).sessions@,
                            oid,
                        )) && (forall|oid: u64|
                        oid != id && spec_has_session(old(self).sessions@, oid) ==> spec_session(
                            final(self).sessions@,
                            oid,
                        ) == spec_session(old(self).sessions@, oid))
                },
                Err(e) => *final(self) == *old(self) && e == EngineError::SessionNotFound
                    && !spec_has_session(old(self).sessions@, id),
            },
    {
        let i = match self.find_index(id) {
            Some(i) => i,
            None => {
                return Err(EngineError::SessionNotFound);
            },
        };
        let ghost pre = self.sessions@;
        let mut s = self.sessions.swap_remove(i);
        let ghost pending_pre = s.correlator.pending@;
        let timed_out = s.correlator.expire(now);
        proof {
            lemma_session_at(pre, i as int);
            if s.state == SessionState::Closed {
                assert(pending_pre.len() == 0);
                assert(spec_still_waiting(pending_pre, now) == pending_pre);
            }
        }
        self.sessions.push(s);
        proof {
            lemma_replace_session(pre, i as int, self.sessions@.last());
            assert(self.sessions@ =~= pre.update(i as int, pre.last()).drop_last().push(
                self.sessions@.last(),
            ));
        }
        Ok(timed_out)
    }

    /// The backend process of `id` ended: the session is marked `Exited`
    /// and every outstanding waiter comes back for resolution with
    /// `ProcessExited` — within this one call, no waiter is left behind.
    pub fn on_exit(&mut self, id: u64) -> (r: Result<Vec<u64>, EngineError>)
        requires
            old(self).wf(),
        ensures
            final(self).wf(),
            final(self).next_id == old(self).next_id,
            match r {
                Ok(cancelled) => {
                    let pre = spec_session(old(self).sessions@, id);
                    let post = spec_session(final(self).sessions@, id);
                    spec_has_session(old(self).sessions@, id) && post.id == id && post.state
                        == SessionState::Exited && post.correlator.pending@.len() == 0
                        && cancelled@.len() == pre.correlator.pending@.len() && (forall|k: int|
                        0 <= k < cancelled@.len() ==> cancelled@[k]
                            == (#[trigger] pre.correlator.pending@[k]).token) && (forall|t: u64|
                        !post.correlator.spec_is_pending(t)) && (forall|oid: u64|
                        spec_has_session(final(self).sessions@, oid) == spec_has_session(
                            old(self).sessions@,
                            oid,
                        )) && (forall|oid: u64|
                        oid != id && spec_has_session(old(self).sessions@, oid) ==> spec_session(
                            final(self).sessions@,
                            oid,
                        ) == spec_session(old(self).sessions@, oid))
                },
                Err(e) => *final(self) == *old(self) && e == EngineError::SessionNotFound
                    && !spec_has_session(old(self).sessions@, id),
            },
    {
        let i = match self.find_index(id) {
            Some(i) => i,
            None => {
                return Err(EngineError::SessionNotFound);
            },
        };
        let ghost pre = self.sessions@;
        let mut s = self.sessions.swap_remove(i);
        let cancelled = s.on_exit();
        proof {
            lemma_session_at(pre, i as int);
        }
        self.sessions.push(s);
        proof {
            lemma_replace_session(pre, i as int, self.sessions@.last());
            assert(self.sessions@ =~= pre.update(i as int, pre.last()).drop_last().push(
                self.sessions@.last(),
            ));
        }
        Ok(cancelled)
    }

    /// Closes and removes a session. Closing is idempotent: an unknown or
    /// already-removed id is a successful no-op. The first close hands
    /// back every outstanding waiter for resolution with
    /// `SessionTerminated`, so none is left unresolved.
    pub fn close_session(&mut self, id: u64) -> (cancelled: Vec<u64>)
        requires
            old(self).wf(),
        ensures
            final(self).wf(),
            final(self).next_id == old(self).next_id,
            !spec_has_session(final(self).sessions@, id),
            !spec_has_session(old(self).sessions@, id) ==> *final(self) == *old(self)
                && cancelled@.len() == 0,
            spec_has_session(old(self).sessions@, id) ==> {
                let pre = spec_session(old(self).sessions@, id);
                cancelled@.len() == pre.correlator.pending@.len() && (forall|k: int|
                    0 <= k < cancelled@.len() ==> cancelled@[k]
                        == (#[trigger] pre.correlator.pending@[k]).token)
            },
            forall|oid: u64|
                oid != id ==> spec_has_session(final(self).sessions@, oid) == spec_has_session(
                    old(self).sessions@,
                    oid,
                ),
            forall|oid: u64|
                oid != id && spec_has_session(old(self).sessions@, oid) ==> spec_session(
                    final(self).sessions@,
                    oid,
                ) == spec_session(old(self).sessions@, oid),
    {
        let i = match self.find_index(id) {
            Some(i) => i,
            None => {
                return Vec::new();
            },
        };
        let ghost pre = self.sessions@;
        let mut s = self.sessions.swap_remove(i);
        let cancelled = s.close();
        proof {
            lemma_session_at(pre, i as int);
            lemma_remove_session(pre, i as int);
            assert(self.sessions@ =~= pre.update(i as int, pre.last()).drop_last());
        }
        cancelled
    }
}


impl Registry {
    /// Mirrors one breakpoint the backend reported after a set or change:
    /// the store entry under its number now reads exactly as reported.
    pub fn sync_breakpoint(&mut self, id: u64, bp: Breakpoint) -> (r: Result<(), EngineError>)
        requires
            old(self).wf(),
        ensures
            final(self).wf(),
            final(self).next_id == old(self).next_id,
            match r {
                Ok(u) => {
                    let pre = spec_session(old(self).sessions@, id);
                    let post = spec_session(final(self).sessions@, id);
                    spec_has_session(old(self).sessions@, id) && post.id == id
                        && crate::session::spec_has_bp(
                        crate::decode::deep_bps(post.breakpoints.items@),
                        bp@.number,
                    ) && crate::decode::deep_bps(post.breakpoints.items@).contains(bp@) && (
                    forall|x: crate::decode::BreakpointS|
                        x.number != bp@.number ==> (crate::decode::deep_bps(
                            post.breakpoints.items@,
                        ).contains(x) <==> crate::decode::deep_bps(
                            pre.breakpoints.items@,
                        ).contains(x))) && post.state == pre.state && post.correlator
                        == pre.correlator && (forall|oid: u64|
                        spec_has_session(final(self).sessions@, oid) == spec_has_session(
                            old(self).sessions@,
                            oid,
                        )) && (forall|oid: u64|
                        oid != id && spec_has_session(old(self).sessions@, oid) ==> spec_session(
                            final(self).sessions@,
                            oid,
                        ) == spec_session(old(self).sessions@, oid))
                },
                Err(e) => *final(self) == *old(self) && e == EngineError::SessionNotFound
                    && !spec_has_session(old(self).sessions@, id),
            },
    {
        let i = match self.find_index(id) {
            Some(i) => i,
            None => {
                return Err(EngineError::SessionNotFound);
            },
        };
        let ghost pre = self.sessions@;
        let mut s = self.sessions.swap_remove(i);
        s.breakpoints.upsert(bp);
        proof {
            lemma_session_at(pre, i as int);
        }
        self.sessions.push(s);
        proof {
            lemma_replace_session(pre, i as int, self.sessions@.last());
            assert(self.sessions@ =~= pre.update(i as int, pre.last()).drop_last().push(
                self.sessions@.last(),
            ));
        }
        Ok(())
    }

    /// Mirrors a deletion: the entries under the given backend numbers
    /// leave the store; every other entry stays.
    pub fn remove_breakpoints(&mut self, id: u64, numbers: &Vec<u64>) -> (r: Result<
        (),
        EngineError,
    >)
        requires
            old(self).wf(),
        ensures
            final(self).wf(),
            final(self).next_id == old(self).next_id,
            match r {
                Ok(u) => {
                    let pre = spec_session(old(self).sessions@, id);
                    let post = spec_session(final(self).sessions@, id);
                    spec_has_session(old(self).sessions@, id) && post.id == id && (forall|k: int|
                        0 <= k < numbers@.len() ==> !crate::session::spec_has_bp(
                            crate::decode::deep_bps(post.breakpoints.items@),
                            #[trigger] numbers@[k],
                        )) && (forall|x: crate::decode::BreakpointS|
                        !numbers@.contains(x.number) ==> (crate::decode::deep_bps(
                            post.breakpoints.items@,
                        ).contains(x) <==> crate::decode::deep_bps(
                            pre.breakpoints.items@,
                        ).contains(x))) && post.state == pre.state && post.correlator
                        == pre.correlator && (forall|oid: u64|
                        spec_has_session(final(self).sessions@, oid) == spec_has_session(
                            old(self).sessions@,
                            oid,
                        )) && (forall|oid: u64|
                        oid != id && spec_has_session(old(self).sessions@, oid) ==> spec_session(
                            final(self).sessions@,
                            oid,
                        ) == spec_session(old(self).sessions@, oid))
                },
                Err(e) => *final(self) == *old(self) && e == EngineError::SessionNotFound
                    && !spec_has_session(old(self).sessions@, id),
            },
    {
        let i = match self.find_index(id) {
            Some(i) => i,
            None => {
                return Err(EngineError::SessionNotFound);
            },
        };
        let ghost pre = self.sessions@;
        let mut s = self.sessions.swap_remove(i);
        s.breakpoints.remove_many(numbers);
        proof {
            lemma_session_at(pre, i as int);
        }
        self.sessions.push(s);
        proof {
            lemma_replace_session(pre, i as int, self.sessions@.last());
            assert(self.sessions@ =~= pre.update(i as int, pre.last()).drop_last().push(
                self.sessions@.last(),
            ));
        }
        Ok(())
    }

    /// The mirrored breakpoint table of a session, copied out in store
    /// order.
    pub fn list_breakpoints(&self, id: u64) -> (r: Result<Vec<Breakpoint>, EngineError>)
        requires
            self.wf(),
        ensures
            match r {
                Ok(items) => spec_has_session(self.sessions@, id) && crate::decode::deep_bps(
                    items@,
                ) == crate::decode::deep_bps(
                    spec_session(self.sessions@, id).breakpoints.items@,
                ),
                Err(e) => e == EngineError::SessionNotFound && !spec_has_session(
                    self.sessions@,
                    id,
                ),
            },
    {
        let i = match self.find_index(id) {
            Some(i) => i,
            None => {
                return Err(EngineError::SessionNotFound);
            },
        };
        let src = &self.sessions[i].breakpoints.items;
        let mut out: Vec<Breakpoint> = Vec::new();
        let mut k: usize = 0;
        while k < src.len()
            invariant
                k <= src@.len(),
                out@.len() == k,
                forall|m: int| 0 <= m < k ==> out@[m]@ == (#[trigger] src@[m])@,
            decreases src@.len() - k,
        {
            out.push(clone_breakpoint(&src[k]));
            k = k + 1;
        }
        proof {
            assert(crate::decode::deep_bps(out@) =~= crate::decode::deep_bps(src@));
        }
        Ok(out)
    }
}


impl Registry {
    /// Refreshes a session's breakpoint mirror from a freshly queried
    /// table, replacing it whole: the authoritative set, not a guess.
    pub fn replace_breakpoints(&mut self, id: u64, items: Vec<Breakpoint>) -> (r: Result<
        (),
        EngineError,
    >)
        requires
            old(self).wf(),
        ensures
            final(self).wf(),
            final(self).next_id == old(self).next_id,
            match r {
                Ok(u) => {
                    let post = spec_session(final(self).sessions@, id);
                    spec_has_session(old(self).sessions@, id) && post.id == id && (forall|k: int|
                        0 <= k < items@.len() ==> crate::session::spec_has_bp(
                            crate::decode::deep_bps(post.breakpoints.items@),
                            (#[trigger] items@[k])@.number,
                        )) && (forall|x: crate::decode::BreakpointS|
                        crate::decode::deep_bps(post.breakpoints.items@).contains(x) ==> exists|
                            k: int,
                        |
                            0 <= k < items@.len() && (#[trigger] items@[k])@ == x) && post.state
                        == spec_session(old(self).sessions@, id).state && post.correlator
                        == spec_session(old(self).sessions@, id).correlator && (forall|oid: u64|
                        spec_has_session(final(self).sessions@, oid) == spec_has_session(
                            old(self).sessions@,
                            oid,
                        )) && (forall|oid: u64|
                        oid != id && spec_has_session(old(self).sessions@, oid) ==> spec_session(
                            final(self).sessions@,
                            oid,
                        ) == spec_session(old(self).sessions@, oid))
                },
                Err(e) => *final(self) == *old(self) && e == EngineError::SessionNotFound
                    && !spec_has_session(old(self).sessions@, id),
            },
    {
        let i = match self.find_index(id) {
            Some(i) => i,
            None => {
                return Err(EngineError::SessionNotFound);
            },
        };
        let ghost pre = self.sessions@;
        let mut s = self.sessions.swap_remove(i);
        s.breakpoints.set_all(items);
        proof {
            lemma_session_at(pre, i as int);
        }
        self.sessions.push(s);
        proof {
            lemma_replace_session(pre, i as int, self.sessions@.last());
            assert(self.sessions@ =~= pre.update(i as int, pre.last()).drop_last().push(
                self.sessions@.last(),
            ));
        }
        Ok(())
    }
}

} // verus!
