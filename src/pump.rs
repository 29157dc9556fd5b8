//! One direction of a relay session as a state machine: each read of at most
//! one chunk goes in, and a segment to forward may come out.

use vstd::prelude::*;
use vstd::string::StringSliceAdditionalSpecFns;
use crate::bytes::push_all;
use crate::bytes::contains;
use crate::segment::{
    Segment, forwarded, notes_view, segment_notes, inspect, starttls_reply, lemma_contains_concat,
    lemma_forwarded_unchanged,
};

verus! {

/// The capacity of one read.
pub const CHUNK_SIZE: usize = 1024;

/// A read that returns fewer bytes than a chunk holds, none included, ends a
/// segment.
pub open spec fn ends_segment(chunk: Seq<u8>) -> bool {
    chunk.len() < CHUNK_SIZE
}

/// The segment that a read closes, given what was pending before it.
pub open spec fn segment_of_read(pending: Seq<u8>, chunk: Seq<u8>) -> Option<Seq<u8>> {
    if ends_segment(chunk) && (pending + chunk).len() > 0 {
        Some(pending + chunk)
    } else {
        None
    }
}

/// What is pending after a read.
pub open spec fn pending_after_read(pending: Seq<u8>, chunk: Seq<u8>) -> Seq<u8> {
    if ends_segment(chunk) {
        Seq::empty()
    } else {
        pending + chunk
    }
}

/// All the chunks one after the other.
pub open spec fn concat_all(chunks: Seq<Seq<u8>>) -> Seq<u8>
    decreases chunks.len(),
{
    if chunks.len() == 0 {
        Seq::empty()
    } else {
        chunks[0] + concat_all(chunks.drop_first())
    }
}

/// The bytes forwarded over a run of reads that starts with `pending`.
pub open spec fn run_output(pending: Seq<u8>, chunks: Seq<Seq<u8>>) -> Seq<u8>
    decreases chunks.len(),
{
    if chunks.len() == 0 {
        Seq::empty()
    } else {
        let out = match segment_of_read(pending, chunks[0]) {
            Some(s) => forwarded(s),
            None => Seq::empty(),
        };
        out + run_output(pending_after_read(pending, chunks[0]), chunks.drop_first())
    }
}

/// What is still pending after a run of reads that starts with `pending`.
pub open spec fn run_pending(pending: Seq<u8>, chunks: Seq<Seq<u8>>) -> Seq<u8>
    decreases chunks.len(),
{
    if chunks.len() == 0 {
        pending
    } else {
        run_pending(pending_after_read(pending, chunks[0]), chunks.drop_first())
    }
}

/// Over any run of reads in which `250 STARTTLS\r\n` never appears, the
/// bytes forwarded followed by those still pending are exactly the bytes
/// read, unchanged and in order.
pub proof fn lemma_run_unchanged(pending: Seq<u8>, chunks: Seq<Seq<u8>>)
    requires
        !contains(pending + concat_all(chunks), starttls_reply()),
    ensures
        run_output(pending, chunks) + run_pending(pending, chunks) == pending + concat_all(chunks),
    decreases chunks.len(),
{
    if chunks.len() == 0 {
        assert(pending + concat_all(chunks) =~= pending);
        assert(run_output(pending, chunks) + run_pending(pending, chunks) =~= pending);
    } else {
        let c = chunks[0];
        let rest = chunks.drop_first();
        let whole = pending + concat_all(chunks);
        assert(whole =~= (pending + c) + concat_all(rest));
        lemma_contains_concat(pending + c, concat_all(rest), starttls_reply());
        if ends_segment(c) {
            assert(Seq::<u8>::empty() + concat_all(rest) =~= concat_all(rest));
            lemma_run_unchanged(Seq::empty(), rest);
            if (pending + c).len() > 0 {
                lemma_forwarded_unchanged(pending + c);
            } else {
                assert(pending + c =~= Seq::<u8>::empty());
            }
            assert(run_output(pending, chunks) + run_pending(pending, chunks) =~= whole);
        } else {
            lemma_run_unchanged(pending + c, rest);
            assert(run_output(pending, chunks) + run_pending(pending, chunks) =~= whole);
        }
    }
}

/// A run whose last read is empty, the end of the source, leaves nothing
/// pending: every byte read has been forwarded.
pub proof fn lemma_end_flushes(pending: Seq<u8>, chunks: Seq<Seq<u8>>)
    requires
        chunks.len() > 0,
        chunks.last().len() == 0,
    ensures
        run_pending(pending, chunks) == Seq::<u8>::empty(),
    decreases chunks.len(),
{
    if chunks.len() > 1 {
        assert(chunks.drop_first().last() == chunks.last());
        lemma_end_flushes(pending_after_read(pending, chunks[0]), chunks.drop_first());
    } else {
        assert(chunks[0] == chunks.last());
        assert(ends_segment(chunks[0]));
        assert(run_pending(pending, chunks) == run_pending(Seq::<u8>::empty(), chunks.drop_first()));
    }
}

/// What one read gives: a segment to forward, if the read closed one, and
/// whether the source has ended.
pub struct Step {
    pub segment: Option<Segment>,
    pub done: bool,
}

/// The state of one direction: its label and the bytes read since the last
/// segment was closed.
pub struct Pump {
    label: Vec<u8>,
    pending: Vec<u8>,
}

impl Pump {
    pub closed spec fn label_bytes(&self) -> Seq<u8> {
        self.label@
    }

    pub closed spec fn pending_bytes(&self) -> Seq<u8> {
        self.pending@
    }

    /// A pump with nothing pending, whose log lines carry `label`.
    pub fn new(label: &str) -> (r: Pump)
        ensures
            r.label_bytes() == label.spec_bytes(),
            r.pending_bytes() == Seq::<u8>::empty(),
    {
        let mut l: Vec<u8> = Vec::new();
        push_all(&mut l, label.as_bytes());
        Pump { label: l, pending: Vec::new() }
    }

    /// Takes the bytes of one read. A short read closes a segment of all that
    /// is pending with it, which comes back inspected; a full chunk is kept
    /// pending; an empty read ends the source, after what was pending.
    pub fn on_read(&mut self, chunk: &[u8]) -> (r: Step)
        requires
            chunk@.len() <= CHUNK_SIZE,
        ensures
            final(self).label_bytes() == old(self).label_bytes(),
            final(self).pending_bytes() == pending_after_read(old(self).pending_bytes(), chunk@),
            r.done == (chunk@.len() == 0),
            match segment_of_read(old(self).pending_bytes(), chunk@) {
                None => r.segment is None,
                Some(s) => r.segment matches Some(seg) && seg.data@ == forwarded(s) && notes_view(
                    seg.notes@,
                ) == segment_notes(old(self).label_bytes(), s),
            },
    {
        push_all(&mut self.pending, chunk);
        if chunk.len() == CHUNK_SIZE {
            return Step { segment: None, done: false };
        }
        let done = chunk.len() == 0;
        if self.pending.len() == 0 {
            return Step { segment: None, done };
        }
        let mut buf: Vec<u8> = Vec::new();
        std::mem::swap(&mut buf, &mut self.pending);
        let seg = inspect(self.label.as_slice(), buf);
        Step { segment: Some(seg), done }
    }
}

} // verus!
