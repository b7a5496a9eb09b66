use vstd::prelude::*;

use crate::correlator::Correlator;
use crate::decode::{
    Breakpoint, BreakpointS, StackFrame, StackFrameS, bytes_eq, deep_bps,
    k_frame, k_reason, k_thread_id, key_frame, key_reason, key_thread_id, scalar_u64,
    spec_all_digits, spec_decode_frame, spec_field_lookup, decode_frame, lookup_field,
};
use crate::record::{AsyncKind, Record, RecordS, kw_running};
use crate::text::digits_val;
use crate::value::{Field, FieldS, Value, ValueS, view_fields};

verus! {

// ---------------------------------------------------------------------------
// Session lifecycle
// ---------------------------------------------------------------------------

/// Where a session stands in its life. `Closed` is terminal.
#[derive(Debug, Clone, Copy, PartialEq, Eq, Structural)]
pub enum SessionState {
    Created,
    Running,
    Stopped,
    Exited,
    Closed,
}

/// The engine's error taxonomy for callers.
#[derive(Debug, Clone, Copy, PartialEq, Eq, Structural)]
pub enum EngineError {
    /// No session is registered under the id.
    SessionNotFound,
    /// The session is in no state for this call.
    InvalidState,
    /// No result arrived within the command's deadline.
    CommandTimeout,
    /// The backend answered with error status; its message is the payload.
    CommandError,
    /// The backend process ended.
    ProcessExited,
    /// The session was closed.
    SessionTerminated,
}

/// A session past `Exited` or `Closed` accepts no further work.
pub open spec fn spec_is_terminal(st: SessionState) -> bool {
    st == SessionState::Exited || st == SessionState::Closed
}

/// Execution-control calls need a live, started session.
pub open spec fn spec_can_execute(st: SessionState) -> bool {
    st == SessionState::Running || st == SessionState::Stopped
}

/// The terminal error that waiters of a dead session resolve with.
pub fn terminal_error(st: SessionState) -> (e: EngineError)
    ensures
        st == SessionState::Closed ==> e == EngineError::SessionTerminated,
        st != SessionState::Closed ==> e == EngineError::ProcessExited,
{
    if st == SessionState::Closed {
        EngineError::SessionTerminated
    } else {
        EngineError::ProcessExited
    }
}

// ---------------------------------------------------------------------------
// The event dispatcher's stop snapshot
// ---------------------------------------------------------------------------

/// The latest execution snapshot: whether the target runs, and on a stop,
/// the reason, thread and innermost frame as reported.
#[derive(Debug, PartialEq)]
pub struct StopState {
    pub running: bool,
    pub reason: Option<Vec<u8>>,
    pub thread: Option<u64>,
    pub frame: Option<StackFrame>,
}

pub struct StopStateS {
    pub running: bool,
    pub reason: Option<Seq<u8>>,
    pub thread: Option<u64>,
    pub frame: Option<StackFrameS>,
}

impl View for StopState {
    type V = StopStateS;

    open spec fn view(&self) -> StopStateS {
        StopStateS {
            running: self.running,
            reason: match self.reason {
                Some(r) => Some(r@),
                None => None,
            },
            thread: self.thread,
            frame: match self.frame {
                Some(f) => Some(f@),
                None => None,
            },
        }
    }
}

/// The event class `stopped`.
pub open spec fn k_stopped() -> Seq<u8> {
    seq![0x73u8, 0x74u8, 0x6fu8, 0x70u8, 0x70u8, 0x65u8, 0x64u8]
}

pub fn key_stopped() -> (r: Vec<u8>)
    ensures
        r@ == k_stopped(),
{
    let mut v: Vec<u8> = Vec::new();
    v.push(0x73);
    v.push(0x74);
    v.push(0x6f);
    v.push(0x70);
    v.push(0x70);
    v.push(0x65);
    v.push(0x64);
    proof {
        assert(v@ =~= k_stopped());
    }
    v
}

/// The event class `running`; it reads as the result keyword does.
pub fn key_running_event() -> (r: Vec<u8>)
    ensures
        r@ == kw_running(),
{
    let mut v: Vec<u8> = Vec::new();
    v.push(0x72);
    v.push(0x75);
    v.push(0x6e);
    v.push(0x6e);
    v.push(0x69);
    v.push(0x6e);
    v.push(0x67);
    proof {
        assert(v@ =~= kw_running());
    }
    v
}

/// The stop reason an event carries, if it is a scalar.
pub open spec fn spec_event_reason(fs: Seq<FieldS>) -> Option<Seq<u8>> {
    match spec_field_lookup(fs, k_reason()) {
        Some(v) => match v {
            ValueS::Scalar(s) => Some(s),
            _ => None,
        },
        None => None,
    }
}

/// The stopped thread an event names, if it is a decimal scalar in range.
pub open spec fn spec_event_thread(fs: Seq<FieldS>) -> Option<u64> {
    match spec_field_lookup(fs, k_thread_id()) {
        Some(v) => match v {
            ValueS::Scalar(s) => if spec_all_digits(s) && digits_val(s) <= u64::MAX {
                Some(digits_val(s) as u64)
            } else {
                None
            },
            _ => None,
        },
        None => None,
    }
}

/// The frame an event carries, if it decodes.
pub open spec fn spec_event_frame(fs: Seq<FieldS>) -> Option<StackFrameS> {
    match spec_field_lookup(fs, k_frame()) {
        Some(v) => match v {
            ValueS::Tuple(inner) => match spec_decode_frame(inner) {
                Ok(f) => Some(f),
                Err(_) => None,
            },
            _ => None,
        },
        None => None,
    }
}

/// How an exec-async event updates the stop snapshot: `stopped` records the
/// reported reason, thread and frame; `running` clears them; any other
/// event leaves the snapshot alone.
pub open spec fn spec_apply_async(st: StopStateS, class: Seq<u8>, fs: Seq<FieldS>) -> StopStateS {
    if class == k_stopped() {
        StopStateS {
            running: false,
            reason: spec_event_reason(fs),
            thread: spec_event_thread(fs),
            frame: spec_event_frame(fs),
        }
    } else if class == kw_running() {
        StopStateS { running: true, reason: None, thread: st.thread, frame: None }
    } else {
        st
    }
}

/// How an exec-async event moves the lifecycle: nothing moves a terminal
/// session; otherwise `stopped` and `running` set the matching state.
pub open spec fn spec_state_after_event(st: SessionState, class: Seq<u8>) -> SessionState {
    if spec_is_terminal(st) {
        st
    } else if class == k_stopped() {
        SessionState::Stopped
    } else if class == kw_running() {
        SessionState::Running
    } else {
        st
    }
}

/// Applies one exec-async event to the stop snapshot.
pub fn apply_async(st: &mut StopState, class: &Vec<u8>, fields: &Vec<Field>)
    ensures
        final(st)@ == spec_apply_async(old(st)@, class@, view_fields(fields@)),
{
    let stopped = key_stopped();
    let running = key_running_event();
    if bytes_eq(class, &stopped) {
        st.running = false;
        let kr = key_reason();
        st.reason = match lookup_field(fields, &kr) {
            Some(v) => match v {
                Value::Scalar(s) => Some(crate::record::clone_bytes(s)),
                _ => None,
            },
            None => None,
        };
        let kt = key_thread_id();
        st.thread = match lookup_field(fields, &kt) {
            Some(v) => match v {
                Value::Scalar(s) => scalar_u64(s),
                _ => None,
            },
            None => None,
        };
        let kf = key_frame();
        st.frame = match lookup_field(fields, &kf) {
            Some(v) => match v {
                Value::Tuple(inner) => match decode_frame(inner) {
                    Ok(f) => Some(f),
                    Err(_) => None,
                },
                _ => None,
            },
            None => None,
        };
    } else if bytes_eq(class, &running) {
        st.running = true;
        st.reason = None;
        st.frame = None;
    }
}

// ---------------------------------------------------------------------------
// The local breakpoint store, mirroring the backend's table
// ---------------------------------------------------------------------------

/// Whether some entry carries the backend number `n`.
pub open spec fn spec_has_bp(s: Seq<BreakpointS>, n: u64) -> bool {
    exists|i: int| 0 <= i < s.len() && (#[trigger] s[i]).number == n
}

/// The store with every entry numbered `n` removed, order kept.
pub open spec fn spec_drop_bp(s: Seq<BreakpointS>, n: u64) -> Seq<BreakpointS>
    decreases s.len(),
{
    if s.len() == 0 {
        s
    } else {
        let rest = spec_drop_bp(s.drop_last(), n);
        if s.last().number == n {
            rest
        } else {
            rest.push(s.last())
        }
    }
}

/// Removing one number keeps the rest of the store intact: every other
/// entry survives, nothing is invented, and distinct numbers stay distinct.
pub proof fn lemma_drop_bp(s: Seq<BreakpointS>, n: u64)
    requires
        forall|i: int, j: int|
            0 <= i < j < s.len() ==> (#[trigger] s[i]).number != (#[trigger] s[j]).number,
    ensures
        forall|i: int, j: int|
            0 <= i < j < spec_drop_bp(s, n).len() ==> (#[trigger] spec_drop_bp(s, n)[i]).number
                != (#[trigger] spec_drop_bp(s, n)[j]).number,
        forall|i: int|
            0 <= i < spec_drop_bp(s, n).len() ==> (#[trigger] spec_drop_bp(s, n)[i]).number != n,
        forall|i: int|
            0 <= i < spec_drop_bp(s, n).len() ==> exists|k: int|
                0 <= k < s.len() && #[trigger] s[k] == #[trigger] spec_drop_bp(s, n)[i],
        forall|i: int|
            0 <= i < s.len() && (#[trigger] s[i]).number != n ==> exists|k: int|
                0 <= k < spec_drop_bp(s, n).len() && #[trigger] spec_drop_bp(s, n)[k] == s[i],
    decreases s.len(),
{
    if s.len() > 0 {
        let dl = s.drop_last();
        lemma_drop_bp(dl, n);
        let f = spec_drop_bp(s, n);
        let fd = spec_drop_bp(dl, n);
        assert forall|i: int|
            0 <= i < f.len() implies exists|k: int| 0 <= k < s.len() && #[trigger] s[k]
            == #[trigger] f[i] by {
            if s.last().number != n && i == f.len() - 1 {
                assert(s[s.len() - 1] == f[i]);
            } else {
                assert(f[i] == fd[i]);
                let k = choose|k: int| 0 <= k < dl.len() && #[trigger] dl[k] == fd[i];
                assert(s[k] == f[i]);
            }
        }
        assert forall|i: int|
            0 <= i < s.len() && (#[trigger] s[i]).number != n implies exists|k: int|
            0 <= k < f.len() && #[trigger] f[k] == s[i] by {
            if i == s.len() - 1 {
                assert(f[f.len() - 1] == s[i]);
            } else {
                assert(dl[i] == s[i]);
                let k = choose|k: int| 0 <= k < fd.len() && #[trigger] fd[k] == dl[i];
                assert(f[k] == s[i]);
            }
        }
        assert forall|i: int, j: int|
            0 <= i < j < f.len() implies (#[trigger] f[i]).number != (#[trigger] f[j]).number by {
            if s.last().number != n && j == f.len() - 1 {
                assert(f[i] == fd[i]);
                let k = choose|k: int| 0 <= k < dl.len() && #[trigger] dl[k] == fd[i];
                assert(s[k].number != s[s.len() - 1].number);
            } else {
                assert(f[i] == fd[i] && f[j] == fd[j]);
            }
        }
    }
}

/// The local mirror of the backend's breakpoint table. The backend's
/// numbers are authoritative; the store never holds a number twice.
#[derive(Debug)]
pub struct BreakpointStore {
    pub items: Vec<Breakpoint>,
}

impl BreakpointStore {
    pub open spec fn wf(self) -> bool {
        forall|i: int, j: int|
            0 <= i < j < self.items@.len() ==> (#[trigger] self.items@[i]).number != (
            #[trigger] self.items@[j]).number
    }

    pub fn new() -> (s: BreakpointStore)
        ensures
            s.wf(),
            s.items@.len() == 0,
    {
        BreakpointStore { items: Vec::new() }
    }

    /// Mirrors a set or changed breakpoint: the entry under its number is
    /// replaced by what the backend reported; every other entry stays.
    pub fn upsert(&mut self, bp: Breakpoint)
        requires
            old(self).wf(),
        ensures
            final(self).wf(),
            deep_bps(final(self).items@).contains(bp@),
            spec_has_bp(deep_bps(final(self).items@), bp@.number),
            forall|x: BreakpointS|
                x.number != bp@.number ==> (deep_bps(final(self).items@).contains(x) <==> deep_bps(
                    old(self).items@,
                ).contains(x)),
            forall|m: u64|
                m != bp@.number ==> (spec_has_bp(deep_bps(final(self).items@), m) <==> spec_has_bp(
                    deep_bps(old(self).items@),
                    m,
                )),
    {
        let number = bp.number;
        self.remove(number);
        let ghost mid = deep_bps(self.items@);
        self.items.push(bp);
        proof {
            let now_ = deep_bps(self.items@);
            assert(now_ =~= mid.push(bp@));
            assert(now_[now_.len() - 1] == bp@);
            let its = self.items@;
            assert forall|i: int, j: int|
                0 <= i < j < its.len() implies (#[trigger] its[i]).number != (
            #[trigger] its[j]).number by {
                if j == its.len() - 1 {
                    assert(mid[i] == its[i]@);
                    assert(mid[i].number != bp@.number);
                }
            }
            assert forall|x: BreakpointS|
                x.number != bp@.number implies (now_.contains(x) <==> deep_bps(
                old(self).items@,
            ).contains(x)) by {
                if now_.contains(x) {
                    let i = choose|i: int| 0 <= i < now_.len() && now_[i] == x;
                    assert(mid[i] == x);
                }
                if deep_bps(old(self).items@).contains(x) {
                    let i = choose|i: int|
                        0 <= i < deep_bps(old(self).items@).len() && deep_bps(old(self).items@)[i]
                            == x;
                    assert(mid.contains(x));
                    let k = choose|k: int| 0 <= k < mid.len() && mid[k] == x;
                    assert(now_[k] == x);
                }
            }
            assert forall|m: u64|
                m != bp@.number implies (spec_has_bp(now_, m) <==> spec_has_bp(
                deep_bps(old(self).items@),
                m,
            )) by {
                if spec_has_bp(now_, m) {
                    let i = choose|i: int| 0 <= i < now_.len() && (#[trigger] now_[i]).number == m;
                    assert(deep_bps(old(self).items@).contains(now_[i]));
                    let k = choose|k: int|
                        0 <= k < deep_bps(old(self).items@).len() && deep_bps(old(self).items@)[k]
                            == now_[i];
                }
                if spec_has_bp(deep_bps(old(self).items@), m) {
                    let i = choose|i: int|
                        0 <= i < deep_bps(old(self).items@).len() && (#[trigger] deep_bps(
                            old(self).items@,
                        )[i]).number == m;
                    assert(now_.contains(deep_bps(old(self).items@)[i]));
                    let k = choose|k: int|
                        0 <= k < now_.len() && now_[k] == deep_bps(old(self).items@)[i];
                }
            }
        }
    }

    /// Removes every entry under `number`; every other entry stays.
    #[verifier::rlimit(50)]
    pub fn remove(&mut self, number: u64)
        requires
            old(self).wf(),
        ensures
            final(self).wf(),
            deep_bps(final(self).items@) == spec_drop_bp(deep_bps(old(self).items@), number),
            !spec_has_bp(deep_bps(final(self).items@), number),
            forall|x: BreakpointS|
                x.number != number ==> (deep_bps(final(self).items@).contains(x) <==> deep_bps(
                    old(self).items@,
                ).contains(x)),
    {
        let ghost s = deep_bps(self.items@);
        let mut kept: Vec<Breakpoint> = Vec::new();
        let mut i: usize = 0;
        proof {
            assert(s.take(0) =~= Seq::<BreakpointS>::empty());
            assert(deep_bps(kept@) =~= spec_drop_bp(s.take(0), number));
        }
        while i < self.items.len()
            invariant
                i <= self.items@.len(),
                s == deep_bps(self.items@),
                s.len() == self.items@.len(),
                deep_bps(kept@) == spec_drop_bp(s.take(i as int), number),
            decreases self.items@.len() - i,
        {
            let ghost kept_old = kept@;
            proof {
                assert(s.take(i + 1).drop_last() =~= s.take(i as int));
                assert(s.take(i + 1).last() == s[i as int]);
                assert(s[i as int] == self.items@[i as int]@);
            }
            let bp = clone_breakpoint(&self.items[i]);
            if bp.number != number {
                kept.push(bp);
                proof {
                    assert(deep_bps(kept@) =~= deep_bps(kept_old).push(s[i as int]));
                }
            } else {
                proof {
                    assert(s[i as int].number == number);
                }
            }
            i = i + 1;
        }
        proof {
            assert(s.take(s.len() as int) =~= s);
        }
        self.items = kept;
        proof {
            assert forall|i: int, j: int|
                0 <= i < j < s.len() implies (#[trigger] s[i]).number != (
            #[trigger] s[j]).number by {
                assert(s[i] == old(self).items@[i]@);
                assert(s[j] == old(self).items@[j]@);
            }
            lemma_drop_bp(s, number);
            let f = spec_drop_bp(s, number);
            let its = self.items@;
            assert(deep_bps(its) == f);
            assert forall|i: int, j: int|
                0 <= i < j < its.len() implies (#[trigger] its[i]).number != (
            #[trigger] its[j]).number by {
                assert(f[i] == its[i]@);
                assert(f[j] == its[j]@);
            }
        }
    }

    /// Replaces the whole mirror after a fresh query of the backend.
    pub fn replace_all(&mut self, items: Vec<Breakpoint>)
        requires
            forall|i: int, j: int|
                0 <= i < j < items@.len() ==> (#[trigger] items@[i]).number != (
                #[trigger] items@[j]).number,
        ensures
            final(self).wf(),
            final(self).items@ == items@,
    {
        proof {
            assert forall|i: int, j: int|
                0 <= i < j < items@.len() implies (#[trigger] deep_bps(items@)[i]).number != (
            #[trigger] deep_bps(items@)[j]).number by {
                assert(items@[i]@.number == deep_bps(items@)[i].number);
                assert(items@[j]@.number == deep_bps(items@)[j].number);
            }
        }
        self.items = items;
    }

    /// The mirrored table, in store order.
    pub fn list(&self) -> (r: &Vec<Breakpoint>)
        ensures
            r@ == self.items@,
    {
        &self.items
    }
}

/// Copies a breakpoint field for field.
pub fn clone_breakpoint(bp: &Breakpoint) -> (r: Breakpoint)
    ensures
        r@ == bp@,
{
    Breakpoint {
        number: bp.number,
        file: crate::record::clone_bytes(&bp.file),
        line: bp.line,
        enabled: bp.enabled,
        hit_count: bp.hit_count,
    }
}

// ---------------------------------------------------------------------------
// One session: process state, correlator, stop snapshot, breakpoints
// ---------------------------------------------------------------------------

/// What a delivered record meant to the session.
#[derive(Debug, Clone, Copy, PartialEq, Eq, Structural)]
pub enum RecordOutcome {
    /// A tokened result: whether a waiter matched, and which token.
    Resolved { token: u64, matched: bool },
    /// A result without a token: no waiter can match it.
    NoToken,
    /// An async event, applied to the stop snapshot.
    Event,
    /// Stream text, for display only.
    StreamText,
}

/// One supervised backend process's engine state, addressed by id.
#[derive(Debug)]
pub struct Session {
    pub id: u64,
    pub state: SessionState,
    pub correlator: Correlator,
    pub stop: StopState,
    pub breakpoints: BreakpointStore,
}

impl Session {
    pub open spec fn wf(self) -> bool {
        self.correlator.wf() && self.breakpoints.wf() && (self.state == SessionState::Closed
            ==> self.correlator.pending@.len() == 0)
    }

    /// A fresh session around a just-spawned process.
    pub fn new(id: u64) -> (s: Session)
        ensures
            s.wf(),
            s.id == id,
            s.state == SessionState::Created,
            s.correlator.pending@.len() == 0,
            s.correlator.next_token == 1,
            s.breakpoints.items@.len() == 0,
            s.stop@.running == false,
    {
        Session {
            id,
            state: SessionState::Created,
            correlator: Correlator::new(),
            stop: StopState { running: false, reason: None, thread: None, frame: None },
            breakpoints: BreakpointStore::new(),
        }
    }

    /// Routes one parsed record: a tokened result resolves its waiter and
    /// no other; an exec-async event moves the stop snapshot and the
    /// lifecycle; stream text touches nothing.
    pub fn on_record(&mut self, rec: &Record) -> (outcome: RecordOutcome)
        requires
            old(self).wf(),
        ensures
            final(self).wf(),
            final(self).id == old(self).id,
            final(self).breakpoints.items@ == old(self).breakpoints.items@,
            final(self).correlator.next_token == old(self).correlator.next_token,
            match rec@ {
                RecordS::CmdResult { token, status, fields } => match token {
                    Some(t) => outcome == (RecordOutcome::Resolved {
                        token: t,
                        matched: old(self).correlator.spec_is_pending(t),
                    }) && final(self).correlator.pending@ == crate::correlator::spec_drop_token(
                        old(self).correlator.pending@,
                        t,
                    ) && !final(self).correlator.spec_is_pending(t)
                        && final(self).state == old(self).state
                        && final(self).stop@ == old(self).stop@,
                    None => outcome == RecordOutcome::NoToken && *final(self) == *old(self),
                },
                RecordS::AsyncNotify { kind, class, fields } => outcome == RecordOutcome::Event
                    && final(self).correlator.pending@ == old(self).correlator.pending@ && (kind
                    == AsyncKind::Exec ==> final(self).stop@ == spec_apply_async(
                    old(self).stop@,
                    class,
                    fields,
                ) && final(self).state == spec_state_after_event(old(self).state, class)) && (kind
                    != AsyncKind::Exec ==> final(self).stop@ == old(self).stop@ && final(self).state
                    == old(self).state),
                RecordS::Stream { kind, text } => outcome == RecordOutcome::StreamText
                    && *final(self) == *old(self),
            },
    {
        match rec {
            Record::CmdResult { token, status, fields } => {
                match token {
                    Some(t) => {
                        let matched = self.correlator.on_result(*t);
                        RecordOutcome::Resolved { token: *t, matched }
                    },
                    None => RecordOutcome::NoToken,
                }
            },
            Record::AsyncNotify { kind, class, fields } => {
                if *kind == AsyncKind::Exec {
                    apply_async(&mut self.stop, class, fields);
                    let stopped = key_stopped();
                    let running = key_running_event();
                    if !(self.state == SessionState::Exited || self.state
                        == SessionState::Closed) {
                        if bytes_eq(class, &stopped) {
                            self.state = SessionState::Stopped;
                        } else if bytes_eq(class, &running) {
                            self.state = SessionState::Running;
                        }
                    }
                }
                RecordOutcome::Event
            },
            Record::Stream { kind, text } => RecordOutcome::StreamText,
        }
    }

    /// The backend process ended: the session is `Exited` and every
    /// outstanding waiter is handed back for resolution with
    /// `ProcessExited` — none is left hanging.
    pub fn on_exit(&mut self) -> (cancelled: Vec<u64>)
        requires
            old(self).wf(),
        ensures
            final(self).wf(),
            final(self).id == old(self).id,
            final(self).state == SessionState::Exited,
            final(self).correlator.pending@.len() == 0,
            cancelled@.len() == old(self).correlator.pending@.len(),
            forall|i: int|
                0 <= i < cancelled@.len() ==> cancelled@[i]
                    == (#[trigger] old(self).correlator.pending@[i]).token,
            forall|t: u64| !final(self).correlator.spec_is_pending(t),
    {
        self.state = SessionState::Exited;
        self.correlator.cancel_all()
    }

    /// Closes the session. Closing is idempotent: the first close cancels
    /// every outstanding waiter, a later close finds nothing to do.
    pub fn close(&mut self) -> (cancelled: Vec<u64>)
        requires
            old(self).wf(),
        ensures
            final(self).wf(),
            final(self).id == old(self).id,
            final(self).state == SessionState::Closed,
            final(self).correlator.pending@.len() == 0,
            old(self).state == SessionState::Closed ==> cancelled@.len() == 0
                && *final(self) == *old(self),
            old(self).state != SessionState::Closed ==> cancelled@.len()
                == old(self).correlator.pending@.len() && (forall|i: int|
                0 <= i < cancelled@.len() ==> cancelled@[i]
                    == (#[trigger] old(self).correlator.pending@[i]).token),
            forall|t: u64| !final(self).correlator.spec_is_pending(t),
    {
        if self.state == SessionState::Closed {
            return Vec::new();
        }
        self.state = SessionState::Closed;
        self.correlator.cancel_all()
    }
}


impl BreakpointStore {
    /// Empties the mirror.
    pub fn clear(&mut self)
        ensures
            final(self).wf(),
            final(self).items@.len() == 0,
    {
        self.items = Vec::new();
    }

    /// Removes every entry under any of `numbers`; all others stay.
    pub fn remove_many(&mut self, numbers: &Vec<u64>)
        requires
            old(self).wf(),
        ensures
            final(self).wf(),
            forall|k: int|
                0 <= k < numbers@.len() ==> !spec_has_bp(
                    deep_bps(final(self).items@),
                    #[trigger] numbers@[k],
                ),
            forall|x: BreakpointS|
                !numbers@.contains(x.number) ==> (deep_bps(final(self).items@).contains(x)
                    <==> deep_bps(old(self).items@).contains(x)),
    {
        let mut i: usize = 0;
        while i < numbers.len()
            invariant
                i <= numbers@.len(),
                self.wf(),
                forall|k: int|
                    0 <= k < i ==> !spec_has_bp(deep_bps(self.items@), #[trigger] numbers@[k]),
                forall|x: BreakpointS|
                    !numbers@.contains(x.number) ==> (deep_bps(self.items@).contains(x)
                        <==> deep_bps(old(self).items@).contains(x)),
            decreases numbers@.len() - i,
        {
            let ghost mid = deep_bps(self.items@);
            let n = numbers[i];
            self.remove(n);
            proof {
                let now_ = deep_bps(self.items@);
                assert forall|k: int|
                    0 <= k < i + 1 implies !spec_has_bp(now_, #[trigger] numbers@[k]) by {
                    if k < i && numbers@[k] != n {
                        if spec_has_bp(now_, numbers@[k]) {
                            let w = choose|w: int|
                                0 <= w < now_.len() && (#[trigger] now_[w]).number == numbers@[k];
                            assert(mid.contains(now_[w]));
                        }
                    }
                }
                assert forall|x: BreakpointS|
                    !numbers@.contains(x.number) implies (now_.contains(x) <==> deep_bps(
                    old(self).items@,
                ).contains(x)) by {
                    assert(numbers@[i as int] == n);
                    assert(x.number != n);
                }
            }
            i = i + 1;
        }
    }
}


/// How a result status reads for the caller: `error` is a command error to
/// surface with the backend's message; every other status is not an error
/// of the engine's.
pub fn classify_result(status: crate::record::ResultStatus) -> (r: Option<EngineError>)
    ensures
        (status == crate::record::ResultStatus::Error) == (r == Some(EngineError::CommandError)),
        status != crate::record::ResultStatus::Error ==> r is None,
{
    if status == crate::record::ResultStatus::Error {
        Some(EngineError::CommandError)
    } else {
        None
    }
}


impl BreakpointStore {
    /// Replaces the whole mirror with a freshly queried table: afterwards
    /// the store holds exactly what the query reported — every reported
    /// number is present, and nothing else survives. On duplicate numbers
    /// the last report wins.
    pub fn set_all(&mut self, items: Vec<Breakpoint>)
        ensures
            final(self).wf(),
            forall|k: int|
                0 <= k < items@.len() ==> spec_has_bp(
                    deep_bps(final(self).items@),
                    (#[trigger] items@[k])@.number,
                ),
            forall|x: BreakpointS|
                deep_bps(final(self).items@).contains(x) ==> exists|k: int|
                    0 <= k < items@.len() && (#[trigger] items@[k])@ == x,
    {
        self.items = Vec::new();
        let mut rest = items;
        let ghost all = rest@;
        let mut i: usize = 0;
        proof {
            assert(deep_bps(self.items@).len() == 0);
        }
        while i < rest.len()
            invariant
                i <= rest@.len(),
                rest@ == all,
                self.wf(),
                forall|k: int|
                    0 <= k < i ==> spec_has_bp(deep_bps(self.items@), (#[trigger] all[k])@.number),
                forall|x: BreakpointS|
                    deep_bps(self.items@).contains(x) ==> exists|k: int|
                        0 <= k < i && (#[trigger] all[k])@ == x,
            decreases rest@.len() - i,
        {
            let ghost mid = deep_bps(self.items@);
            let bp = clone_breakpoint(&rest[i]);
            let ghost bps = bp@;
            self.upsert(bp);
            proof {
                let now_ = deep_bps(self.items@);
                assert(bps == all[i as int]@);
                assert forall|k: int|
                    0 <= k < i + 1 implies spec_has_bp(now_, (#[trigger] all[k])@.number) by {
                    if k < i && all[k]@.number != bps.number {
                        let w = choose|w: int|
                            0 <= w < mid.len() && (#[trigger] mid[w]).number == all[k]@.number;
                        assert(mid.contains(mid[w]));
                        assert(now_.contains(mid[w]));
                        let u = choose|u: int| 0 <= u < now_.len() && now_[u] == mid[w];
                    }
                }
                assert forall|x: BreakpointS|
                    now_.contains(x) implies exists|k: int| 0 <= k < i + 1 && (#[trigger] all[k])@
                    == x by {
                    if x.number != bps.number {
                        assert(mid.contains(x));
                    } else {
                        // The store never holds a number twice, so the one
                        // entry under this number is the one just written.
                        let u = choose|u: int| 0 <= u < now_.len() && now_[u] == x;
                        assert(now_.contains(bps));
                        let w = choose|w: int| 0 <= w < now_.len() && now_[w] == bps;
                        if u != w {
                            if u < w {
                                assert(self.items@[u].number != self.items@[w].number);
                                assert(now_[u].number != now_[w].number);
                            } else {
                                assert(self.items@[w].number != self.items@[u].number);
                                assert(now_[w].number != now_[u].number);
                            }
                        }
                        assert(x == bps);
                        assert(all[i as int]@ == x);
                    }
                }
            }
            i = i + 1;
        }
    }
}

} // verus!
