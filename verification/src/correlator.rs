use vstd::prelude::*;

use crate::text::{NEWLINE, dec_digits, format_u64};

verus! {

// ---------------------------------------------------------------------------
// Command correlator: tokens out, results matched back, in any order
// ---------------------------------------------------------------------------

/// One command in flight: its token and the instant its wait expires.
#[derive(Debug, Clone, Copy, PartialEq, Eq, Structural)]
pub struct PendingCommand {
    pub token: u64,
    pub deadline: u64,
}

/// The table with every entry for `t` removed, order kept.
pub open spec fn spec_drop_token(s: Seq<PendingCommand>, t: u64) -> Seq<PendingCommand>
    decreases s.len(),
{
    if s.len() == 0 {
        s
    } else {
        let rest = spec_drop_token(s.drop_last(), t);
        if s.last().token == t {
            rest
        } else {
            rest.push(s.last())
        }
    }
}

/// The entries whose deadline is still ahead at `now`, order kept.
pub open spec fn spec_still_waiting(s: Seq<PendingCommand>, now: u64) -> Seq<PendingCommand>
    decreases s.len(),
{
    if s.len() == 0 {
        s
    } else {
        let rest = spec_still_waiting(s.drop_last(), now);
        if s.last().deadline < now {
            rest
        } else {
            rest.push(s.last())
        }
    }
}

/// The entries whose deadline has passed at `now`, order kept.
pub open spec fn spec_timed_out(s: Seq<PendingCommand>, now: u64) -> Seq<PendingCommand>
    decreases s.len(),
{
    if s.len() == 0 {
        s
    } else {
        let rest = spec_timed_out(s.drop_last(), now);
        if s.last().deadline < now {
            rest.push(s.last())
        } else {
            rest
        }
    }
}

/// Per-session correlator. It hands out strictly increasing tokens, keeps
/// one entry per command in flight, and resolves each entry exactly once:
/// by the matching result, by its deadline, or by session teardown.
#[derive(Debug)]
pub struct Correlator {
    pub next_token: u64,
    pub pending: Vec<PendingCommand>,
}

impl Correlator {
    /// Tokens in the table rise strictly with their position — so they are
    /// pairwise distinct — and every one is below the next to be issued.
    pub open spec fn wf(self) -> bool {
        (forall|i: int, j: int|
            0 <= i < j < self.pending@.len() ==> (#[trigger] self.pending@[i]).token < (
            #[trigger] self.pending@[j]).token) && (forall|i: int|
            0 <= i < self.pending@.len() ==> (#[trigger] self.pending@[i]).token
                < self.next_token)
    }

    /// Whether a waiter for `t` is outstanding.
    pub open spec fn spec_is_pending(self, t: u64) -> bool {
        exists|i: int| 0 <= i < self.pending@.len() && (#[trigger] self.pending@[i]).token == t
    }

    pub fn new() -> (c: Correlator)
        ensures
            c.wf(),
            c.pending@.len() == 0,
            c.next_token == 1,
    {
        Correlator { next_token: 1, pending: Vec::new() }
    }

    /// Allocates the next token, records the waiter with its deadline, and
    /// returns the exact line to write: the token's digits, the command
    /// text, and a newline.
    pub fn send(&mut self, text: &Vec<u8>, now: u64, timeout_ms: u64) -> (r: (u64, Vec<u8>))
        requires
            old(self).wf(),
            old(self).next_token < u64::MAX,
            now + timeout_ms <= u64::MAX,
        ensures
            final(self).wf(),
            r.0 == old(self).next_token,
            !old(self).spec_is_pending(r.0),
            final(self).next_token == old(self).next_token + 1,
            final(self).pending@ == old(self).pending@.push(
                PendingCommand { token: r.0, deadline: (now + timeout_ms) as u64 },
            ),
            final(self).spec_is_pending(r.0),
            r.1@ == dec_digits(r.0 as nat) + text@ + seq![NEWLINE],
    {
        let token = self.next_token;
        self.next_token = self.next_token + 1;
        let entry = PendingCommand { token, deadline: now + timeout_ms };
        self.pending.push(entry);
        let mut line = format_u64(token);
        let mut body = crate::record::clone_bytes(text);
        line.append(&mut body);
        line.push(NEWLINE);
        proof {
            assert(line@ =~= dec_digits(token as nat) + text@ + seq![NEWLINE]);
            let p = self.pending@;
            assert(p[p.len() - 1].token == token);
        }
        (token, line)
    }

    /// A result record arrived for `token`. Resolves the matching waiter if
    /// one is outstanding; a result for an unknown or already-resolved token
    /// matches nothing and is reported back for discarding. No other waiter
    /// is touched.
    pub fn on_result(&mut self, token: u64) -> (matched: bool)
        requires
            old(self).wf(),
        ensures
            final(self).wf(),
            matched == old(self).spec_is_pending(token),
            final(self).next_token == old(self).next_token,
            final(self).pending@ == spec_drop_token(old(self).pending@, token),
            !final(self).spec_is_pending(token),
    {
        let ghost s = self.pending@;
        let mut kept: Vec<PendingCommand> = Vec::new();
        let mut matched = false;
        let mut i: usize = 0;
        proof {
            assert(s.take(0) =~= Seq::<PendingCommand>::empty());
            assert(kept@ =~= spec_drop_token(s.take(0), token));
        }
        while i < self.pending.len()
            invariant
                i <= s.len(),
                self.pending@ == s,
                kept@ == spec_drop_token(s.take(i as int), token),
                matched == exists|k: int| 0 <= k < i && (#[trigger] s[k]).token == token,
            decreases s.len() - i,
        {
            let p = self.pending[i];
            proof {
                assert(s.take(i + 1).drop_last() =~= s.take(i as int));
                assert(s.take(i + 1).last() == s[i as int]);
            }
            if p.token == token {
                matched = true;
            } else {
                kept.push(p);
            }
            i = i + 1;
        }
        proof {
            assert(s.take(s.len() as int) =~= s);
        }
        self.pending = kept;
        proof {
            lemma_drop_token_ordered(s, token, self.next_token);
        }
        matched
    }

    /// Removes and returns every waiter whose deadline has passed, in table
    /// order; the rest stay untouched.
    pub fn expire(&mut self, now: u64) -> (timed_out: Vec<PendingCommand>)
        requires
            old(self).wf(),
        ensures
            final(self).wf(),
            final(self).next_token == old(self).next_token,
            final(self).pending@ == spec_still_waiting(old(self).pending@, now),
            timed_out@ == spec_timed_out(old(self).pending@, now),
    {
        let ghost s = self.pending@;
        let mut kept: Vec<PendingCommand> = Vec::new();
        let mut timed_out: Vec<PendingCommand> = Vec::new();
        let mut i: usize = 0;
        proof {
            assert(s.take(0) =~= Seq::<PendingCommand>::empty());
            assert(kept@ =~= spec_still_waiting(s.take(0), now));
            assert(timed_out@ =~= spec_timed_out(s.take(0), now));
        }
        while i < self.pending.len()
            invariant
                i <= s.len(),
                self.pending@ == s,
                kept@ == spec_still_waiting(s.take(i as int), now),
                timed_out@ == spec_timed_out(s.take(i as int), now),
            decreases s.len() - i,
        {
            let p = self.pending[i];
            proof {
                assert(s.take(i + 1).drop_last() =~= s.take(i as int));
                assert(s.take(i + 1).last() == s[i as int]);
            }
            if p.deadline < now {
                timed_out.push(p);
            } else {
                kept.push(p);
            }
            i = i + 1;
        }
        proof {
            assert(s.take(s.len() as int) =~= s);
        }
        self.pending = kept;
        proof {
            lemma_still_waiting_ordered(s, now, self.next_token);
        }
        timed_out
    }

    /// Tears the table down: every outstanding waiter is removed and its
    /// token returned, in table order, so the caller can resolve each one
    /// with a terminal error. Afterwards nothing is pending.
    pub fn cancel_all(&mut self) -> (cancelled: Vec<u64>)
        requires
            old(self).wf(),
        ensures
            final(self).wf(),
            final(self).next_token == old(self).next_token,
            final(self).pending@.len() == 0,
            cancelled@.len() == old(self).pending@.len(),
            forall|i: int|
                0 <= i < cancelled@.len() ==> cancelled@[i] == (#[trigger] old(
                    self,
                ).pending@[i]).token,
            forall|t: u64| !final(self).spec_is_pending(t),
    {
        let ghost s = self.pending@;
        let mut cancelled: Vec<u64> = Vec::new();
        let mut i: usize = 0;
        while i < self.pending.len()
            invariant
                i <= s.len(),
                self.pending@ == s,
                cancelled@.len() == i,
                forall|k: int| 0 <= k < i ==> cancelled@[k] == (#[trigger] s[k]).token,
            decreases s.len() - i,
        {
            cancelled.push(self.pending[i].token);
            i = i + 1;
        }
        self.pending = Vec::new();
        cancelled
    }

    /// How many commands are in flight.
    pub fn pending_count(&self) -> (n: usize)
        ensures
            n == self.pending@.len(),
    {
        self.pending.len()
    }
}

/// Dropping one token keeps the table ordered, keeps every other entry
/// exactly as it was, and leaves no entry for the dropped token.
pub proof fn lemma_drop_token_ordered(s: Seq<PendingCommand>, t: u64, bound: u64)
    requires
        forall|i: int, j: int|
            0 <= i < j < s.len() ==> (#[trigger] s[i]).token < (#[trigger] s[j]).token,
        forall|i: int| 0 <= i < s.len() ==> (#[trigger] s[i]).token < bound,
    ensures
        forall|i: int, j: int|
            0 <= i < j < spec_drop_token(s, t).len() ==> (#[trigger] spec_drop_token(s, t)[i]).token
                < (#[trigger] spec_drop_token(s, t)[j]).token,
        forall|i: int|
            0 <= i < spec_drop_token(s, t).len() ==> (#[trigger] spec_drop_token(s, t)[i]).token
                < bound,
        forall|i: int|
            0 <= i < spec_drop_token(s, t).len() ==> (#[trigger] spec_drop_token(s, t)[i]).token
                != t,
        forall|i: int|
            0 <= i < s.len() && (#[trigger] s[i]).token != t ==> exists|k: int|
                0 <= k < spec_drop_token(s, t).len() && #[trigger] spec_drop_token(s, t)[k] == s[i],
    decreases s.len(),
{
    if s.len() > 0 {
        let dl = s.drop_last();
        lemma_drop_token_ordered(dl, t, bound);
        let f = spec_drop_token(s, t);
        let fd = spec_drop_token(dl, t);
        assert forall|i: int|
            0 <= i < s.len() && (#[trigger] s[i]).token != t implies exists|k: int|
            0 <= k < f.len() && #[trigger] f[k] == s[i] by {
            if i == s.len() - 1 {
                assert(f[f.len() - 1] == s[i]);
            } else {
                assert(dl[i] == s[i]);
                let k = choose|k: int| 0 <= k < fd.len() && #[trigger] fd[k] == dl[i];
                assert(f[k] == s[i]);
            }
        }
        assert forall|i: int, j: int|
            0 <= i < j < f.len() implies (#[trigger] f[i]).token < (#[trigger] f[j]).token by {
            if s.last().token != t && j == f.len() - 1 {
                lemma_drop_token_element(dl, t, i);
            } else {
                assert(f[i] == fd[i] && f[j] == fd[j]);
            }
        }
    }
}

/// Every entry of the dropped-token table stands somewhere in the original.
pub proof fn lemma_drop_token_element(s: Seq<PendingCommand>, t: u64, i: int)
    requires
        0 <= i < spec_drop_token(s, t).len(),
    ensures
        exists|k: int| 0 <= k < s.len() && #[trigger] s[k] == spec_drop_token(s, t)[i],
    decreases s.len(),
{
    if s.len() > 0 {
        let f = spec_drop_token(s, t);
        let fd = spec_drop_token(s.drop_last(), t);
        if s.last().token != t && i == f.len() - 1 {
            assert(s[s.len() - 1] == f[i]);
        } else {
            lemma_drop_token_element(s.drop_last(), t, i);
            let k = choose|k: int|
                0 <= k < s.drop_last().len() && #[trigger] s.drop_last()[k] == fd[i];
            assert(s[k] == f[i]);
        }
    }
}

/// Keeping only the waiters still inside their deadline keeps the table
/// ordered and bounded.
pub proof fn lemma_still_waiting_ordered(s: Seq<PendingCommand>, now: u64, bound: u64)
    requires
        forall|i: int, j: int|
            0 <= i < j < s.len() ==> (#[trigger] s[i]).token < (#[trigger] s[j]).token,
        forall|i: int| 0 <= i < s.len() ==> (#[trigger] s[i]).token < bound,
    ensures
        forall|i: int, j: int|
            0 <= i < j < spec_still_waiting(s, now).len() ==> (#[trigger] spec_still_waiting(
                s,
                now,
            )[i]).token < (#[trigger] spec_still_waiting(s, now)[j]).token,
        forall|i: int|
            0 <= i < spec_still_waiting(s, now).len() ==> (#[trigger] spec_still_waiting(
                s,
                now,
            )[i]).token < bound,
        forall|i: int|
            0 <= i < spec_still_waiting(s, now).len() ==> exists|k: int|
                0 <= k < s.len() && #[trigger] s[k] == #[trigger] spec_still_waiting(s, now)[i],
    decreases s.len(),
{
    if s.len() > 0 {
        let dl = s.drop_last();
        lemma_still_waiting_ordered(dl, now, bound);
        let f = spec_still_waiting(s, now);
        let fd = spec_still_waiting(dl, now);
        assert forall|i: int|
            0 <= i < f.len() implies exists|k: int| 0 <= k < s.len() && #[trigger] s[k]
            == #[trigger] f[i] by {
            if s.last().deadline >= now && i == f.len() - 1 {
                assert(s[s.len() - 1] == f[i]);
            } else {
                assert(f[i] == fd[i]);
                let k = choose|k: int| 0 <= k < dl.len() && #[trigger] dl[k] == fd[i];
                assert(s[k] == f[i]);
            }
        }
        assert forall|i: int, j: int|
            0 <= i < j < f.len() implies (#[trigger] f[i]).token < (#[trigger] f[j]).token by {
            if s.last().deadline >= now && j == f.len() - 1 {
                assert(f[i] == fd[i]);
                let k = choose|k: int| 0 <= k < dl.len() && #[trigger] dl[k] == fd[i];
                assert(s[k].token < s[s.len() - 1].token);
            } else {
                assert(f[i] == fd[i] && f[j] == fd[j]);
            }
        }
    }
}

/// Resolving one token resolves it alone, and resolves it for good: the
/// matching entry leaves the table, every other entry stays, and a second
/// result for the same token finds nothing to match and is discarded.
pub proof fn lemma_resolution_exclusive(s: Seq<PendingCommand>, t: u64)
    ensures
        forall|i: int|
            0 <= i < spec_drop_token(s, t).len() ==> (#[trigger] spec_drop_token(s, t)[i]).token
                != t,
        forall|i: int|
            0 <= i < s.len() && (#[trigger] s[i]).token != t ==> exists|k: int|
                0 <= k < spec_drop_token(s, t).len() && #[trigger] spec_drop_token(s, t)[k] == s[i],
        spec_drop_token(spec_drop_token(s, t), t) == spec_drop_token(s, t),
{
    lemma_drop_token_ordered_weak(s, t);
    lemma_drop_token_noop(spec_drop_token(s, t), t);
}

/// As `lemma_drop_token_ordered`, without the bound on token values.
proof fn lemma_drop_token_ordered_weak(s: Seq<PendingCommand>, t: u64)
    ensures
        forall|i: int|
            0 <= i < spec_drop_token(s, t).len() ==> (#[trigger] spec_drop_token(s, t)[i]).token
                != t,
        forall|i: int|
            0 <= i < s.len() && (#[trigger] s[i]).token != t ==> exists|k: int|
                0 <= k < spec_drop_token(s, t).len() && #[trigger] spec_drop_token(s, t)[k] == s[i],
    decreases s.len(),
{
    if s.len() > 0 {
        let dl = s.drop_last();
        lemma_drop_token_ordered_weak(dl, t);
        let f = spec_drop_token(s, t);
        let fd = spec_drop_token(dl, t);
        assert forall|i: int|
            0 <= i < s.len() && (#[trigger] s[i]).token != t implies exists|k: int|
            0 <= k < f.len() && #[trigger] f[k] == s[i] by {
            if i == s.len() - 1 {
                assert(f[f.len() - 1] == s[i]);
            } else {
                assert(dl[i] == s[i]);
                let k = choose|k: int| 0 <= k < fd.len() && #[trigger] fd[k] == dl[i];
                assert(f[k] == s[i]);
            }
        }
    }
}

/// Dropping a token from a table that holds no entry for it is a no-op.
proof fn lemma_drop_token_noop(s: Seq<PendingCommand>, t: u64)
    requires
        forall|i: int| 0 <= i < s.len() ==> (#[trigger] s[i]).token != t,
    ensures
        spec_drop_token(s, t) == s,
    decreases s.len(),
{
    if s.len() > 0 {
        lemma_drop_token_noop(s.drop_last(), t);
        assert(spec_drop_token(s, t) =~= s);
    }
}

/// Commands sent while others are in flight keep their identities: a
/// well-formed table never holds the same token twice, so each result line
/// can match at most one waiter, whatever order results arrive in.
pub proof fn lemma_pipelined_tokens_distinct(c: Correlator)
    requires
        c.wf(),
    ensures
        forall|i: int, j: int|
            0 <= i < c.pending@.len() && 0 <= j < c.pending@.len() && i != j ==> (
            #[trigger] c.pending@[i]).token != (#[trigger] c.pending@[j]).token,
{
    assert forall|i: int, j: int|
        0 <= i < c.pending@.len() && 0 <= j < c.pending@.len() && i != j implies (
    #[trigger] c.pending@[i]).token != (#[trigger] c.pending@[j]).token by {
        if i < j {
            assert(c.pending@[i].token < c.pending@[j].token);
        } else {
            assert(c.pending@[j].token < c.pending@[i].token);
        }
    }
}


/// A deadline check resolves every waiter one way or the other: each entry
/// either keeps waiting or times out — never both, never neither.
pub proof fn lemma_deadline_partitions(s: Seq<PendingCommand>, now: u64)
    ensures
        spec_still_waiting(s, now).len() + spec_timed_out(s, now).len() == s.len(),
        forall|i: int|
            0 <= i < s.len() && (#[trigger] s[i]).deadline < now ==> exists|k: int|
                0 <= k < spec_timed_out(s, now).len() && #[trigger] spec_timed_out(s, now)[k]
                    == s[i],
        forall|i: int|
            0 <= i < s.len() && (#[trigger] s[i]).deadline >= now ==> exists|k: int|
                0 <= k < spec_still_waiting(s, now).len() && #[trigger] spec_still_waiting(
                    s,
                    now,
                )[k] == s[i],
        forall|k: int|
            0 <= k < spec_timed_out(s, now).len() ==> (#[trigger] spec_timed_out(s, now)[k]).deadline
                < now,
        forall|k: int|
            0 <= k < spec_still_waiting(s, now).len() ==> (#[trigger] spec_still_waiting(
                s,
                now,
            )[k]).deadline >= now,
    decreases s.len(),
{
    if s.len() > 0 {
        let dl = s.drop_last();
        lemma_deadline_partitions(dl, now);
        let sw = spec_still_waiting(s, now);
        let to = spec_timed_out(s, now);
        let swd = spec_still_waiting(dl, now);
        let tod = spec_timed_out(dl, now);
        assert forall|i: int|
            0 <= i < s.len() && (#[trigger] s[i]).deadline < now implies exists|k: int|
            0 <= k < to.len() && #[trigger] to[k] == s[i] by {
            if i == s.len() - 1 {
                assert(to[to.len() - 1] == s[i]);
            } else {
                assert(dl[i] == s[i]);
                let k = choose|k: int| 0 <= k < tod.len() && #[trigger] tod[k] == dl[i];
                assert(to[k] == s[i]);
            }
        }
        assert forall|i: int|
            0 <= i < s.len() && (#[trigger] s[i]).deadline >= now implies exists|k: int|
            0 <= k < sw.len() && #[trigger] sw[k] == s[i] by {
            if i == s.len() - 1 {
                assert(sw[sw.len() - 1] == s[i]);
            } else {
                assert(dl[i] == s[i]);
                let k = choose|k: int| 0 <= k < swd.len() && #[trigger] swd[k] == dl[i];
                assert(sw[k] == s[i]);
            }
        }
    }
}

} // verus!
