use vstd::prelude::*;

use crate::text::NEWLINE;

verus! {

// ---------------------------------------------------------------------------
// Line assembly: the transport reads chunks, records are whole lines
// ---------------------------------------------------------------------------

/// The bytes that a line split stands for: each line, its newline, then
/// what is still buffered.
pub open spec fn spec_join_lines(lines: Seq<Seq<u8>>, rem: Seq<u8>) -> Seq<u8>
    decreases lines.len(),
{
    if lines.len() == 0 {
        rem
    } else {
        lines[0] + seq![NEWLINE] + spec_join_lines(lines.drop_first(), rem)
    }
}

/// No byte of `s` is a newline.
pub open spec fn spec_no_newline(s: Seq<u8>) -> bool {
    forall|i: int| 0 <= i < s.len() ==> s[i] != NEWLINE
}

pub open spec fn deep_lines(s: Seq<Vec<u8>>) -> Seq<Seq<u8>> {
    Seq::new(s.len(), |i: int| s[i]@)
}

/// Appending one complete line at the end folds into the join.
pub proof fn lemma_join_push(lines: Seq<Seq<u8>>, l: Seq<u8>, rem: Seq<u8>)
    ensures
        spec_join_lines(lines.push(l), rem) == spec_join_lines(lines, l + seq![NEWLINE] + rem),
    decreases lines.len(),
{
    if lines.len() == 0 {
        assert(lines.push(l)[0] == l);
        assert(lines.push(l).drop_first() =~= Seq::<Seq<u8>>::empty());
        assert(spec_join_lines(Seq::<Seq<u8>>::empty(), rem) == rem);
        assert(spec_join_lines(lines.push(l), rem) == l + seq![NEWLINE] + rem);
    } else {
        assert(lines.push(l)[0] == lines[0]);
        assert(lines.push(l).drop_first() =~= lines.drop_first().push(l));
        lemma_join_push(lines.drop_first(), l, rem);
        assert(spec_join_lines(lines.push(l), rem) == lines[0] + seq![NEWLINE] + spec_join_lines(
            lines.drop_first().push(l),
            rem,
        ));
        assert(spec_join_lines(lines, l + seq![NEWLINE] + rem) == lines[0] + seq![NEWLINE]
            + spec_join_lines(lines.drop_first(), l + seq![NEWLINE] + rem));
    }
}

/// Buffers incoming bytes until newlines arrive. A partial line stays
/// buffered however many reads it is spread over; no byte is dropped and
/// none is invented.
#[derive(Debug)]
pub struct LineBuffer {
    pub buf: Vec<u8>,
}

impl LineBuffer {
    /// The buffer never holds a complete line.
    pub open spec fn wf(self) -> bool {
        spec_no_newline(self.buf@)
    }

    pub fn new() -> (r: LineBuffer)
        ensures
            r.wf(),
            r.buf@.len() == 0,
    {
        LineBuffer { buf: Vec::new() }
    }

    /// Feeds one chunk as it came off the pipe and returns every line that
    /// is now complete, newline-stripped, in arrival order. Joining the
    /// returned lines with their newlines and the bytes that stay buffered
    /// gives back exactly the buffered bytes plus the chunk.
    pub fn push_chunk(&mut self, chunk: &Vec<u8>) -> (lines: Vec<Vec<u8>>)
        requires
            old(self).wf(),
        ensures
            final(self).wf(),
            forall|i: int| 0 <= i < lines@.len() ==> spec_no_newline(#[trigger] lines@[i]@),
            spec_join_lines(deep_lines(lines@), final(self).buf@) == old(self).buf@ + chunk@,
    {
        let ghost total = self.buf@ + chunk@;
        let mut work = crate::record::clone_bytes(&self.buf);
        let mut rest = crate::record::clone_bytes(chunk);
        work.append(&mut rest);
        let mut lines: Vec<Vec<u8>> = Vec::new();
        let mut start: usize = 0;
        let mut j: usize = 0;
        proof {
            assert(work@ == total);
            assert(deep_lines(lines@) =~= Seq::<Seq<u8>>::empty());
            assert(spec_join_lines(deep_lines(lines@), total.skip(0)) == total.skip(0));
            assert(total.skip(0) =~= total);
        }
        while j < work.len()
            invariant
                start <= j <= work@.len(),
                work@ == total,
                spec_join_lines(deep_lines(lines@), total.skip(start as int)) == total,
                forall|i: int| 0 <= i < lines@.len() ==> spec_no_newline(#[trigger] lines@[i]@),
                forall|k: int| start <= k < j ==> total[k] != NEWLINE,
            decreases work@.len() - j,
        {
            if work[j] == NEWLINE {
                let line = crate::parse::copy_range(&work, start, j);
                let ghost lines_old = deep_lines(lines@);
                proof {
                    assert(spec_no_newline(line@));
                }
                lines.push(line);
                proof {
                    assert(deep_lines(lines@) =~= lines_old.push(total.subrange(
                        start as int,
                        j as int,
                    )));
                    lemma_join_push(lines_old, total.subrange(start as int, j as int), total.skip(
                        j + 1,
                    ));
                    assert(total.subrange(start as int, j as int) + seq![NEWLINE] + total.skip(
                        j + 1,
                    ) =~= total.skip(start as int));
                }
                start = j + 1;
            }
            j = j + 1;
        }
        let tail = crate::parse::copy_range(&work, start, work.len());
        proof {
            assert(tail@ =~= total.skip(start as int));
        }
        self.buf = tail;
        lines
    }
}

} // verus!
