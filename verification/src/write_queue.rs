//! The PTY input write queue: chunks queued for the PTY, written in order
//! in bounded passes. A chunk that was written in part stays current, so
//! the next pass resumes it where the last one stopped.

use vstd::prelude::*;

verus! {

/// Bound one write pass so a writer that keeps accepting cannot monopolize
/// the owner ahead of output reads and queued commands.
pub const MAX_WRITE_BATCH: usize = 65536;

/// A chunk being written, and how much of it has been.
pub struct Writing {
    source: Vec<u8>,
    written: usize,
}

impl Writing {
    pub closed spec fn wf(&self) -> bool {
        self.written <= self.source@.len()
    }

    /// The bytes of the chunk not yet written.
    pub closed spec fn remaining(&self) -> Seq<u8> {
        self.source@.skip(self.written as int)
    }

    fn new(source: Vec<u8>) -> (w: Writing)
        ensures
            w.wf(),
            w.remaining() == source@,
    {
        let w = Writing { source, written: 0 };
        assert(w.source@.skip(0) =~= w.source@);
        w
    }

    fn finished(&self) -> (r: bool)
        requires
            self.wf(),
        ensures
            r == (self.remaining().len() == 0),
    {
        self.written >= self.source.len()
    }
}

/// The queue: the chunk being written, and the chunks queued behind it.
pub struct PtyState {
    write_list: std::collections::VecDeque<Vec<u8>>,
    writing: Option<Writing>,
}

/// The bytes still to be written, in the order they will be.
pub open spec fn pending_bytes(current: Option<Seq<u8>>, queued: Seq<Seq<u8>>) -> Seq<u8> {
    match current {
        Some(c) => c + queued.flatten(),
        None => queued.flatten(),
    }
}

impl PtyState {
    pub closed spec fn wf(&self) -> bool {
        self.writing matches Some(w) ==> w.wf()
    }

    /// The unwritten part of the current chunk, if one is current.
    pub closed spec fn current(&self) -> Option<Seq<u8>> {
        match self.writing {
            Some(w) => Some(w.remaining()),
            None => None,
        }
    }

    /// The chunks queued behind the current one.
    pub closed spec fn queued(&self) -> Seq<Seq<u8>> {
        self.write_list@.map_values(|v: Vec<u8>| v@)
    }

    /// Everything still to be written, in order.
    pub open spec fn pending(&self) -> Seq<u8> {
        pending_bytes(self.current(), self.queued())
    }

    pub fn new() -> (s: Self)
        ensures
            s.wf(),
            s.current() is None,
            s.queued() == Seq::<Seq<u8>>::empty(),
    {
        PtyState { write_list: std::collections::VecDeque::new(), writing: None }
    }

    /// Queue `bytes` behind everything already queued.
    pub fn push(&mut self, bytes: Vec<u8>)
        requires
            old(self).wf(),
        ensures
            final(self).wf(),
            final(self).current() == old(self).current(),
            final(self).queued() == old(self).queued().push(bytes@),
            final(self).pending() == old(self).pending() + bytes@,
    {
        let ghost b = bytes@;
        self.write_list.push_back(bytes);
        proof {
            assert(self.queued() =~= old(self).queued().push(b));
            lemma_flatten_push(old(self).queued(), b);
        }
    }

    /// Whether anything (even an empty chunk) is left to write.
    pub fn needs_write(&self) -> (r: bool)
        ensures
            r == (self.current() is Some || self.queued().len() > 0),
    {
        self.writing.is_some() || self.write_list.len() > 0
    }

    /// Make the next queued chunk current.
    fn goto_next(&mut self)
        ensures
            final(self).wf(),
            old(self).queued().len() == 0 ==> final(self).current() is None && final(self).queued()
                == old(self).queued(),
            old(self).queued().len() > 0 ==> final(self).current() == Some(old(self).queued()[0])
                && final(self).queued() == old(self).queued().skip(1),
    {
        self.writing = match self.write_list.pop_front() {
            Some(c) => Some(Writing::new(c)),
            None => None,
        };
        proof {
            if old(self).queued().len() > 0 {
                assert(old(self).queued().subrange(1, old(self).queued().len() as int)
                    =~= old(self).queued().skip(1));
            }
        }
    }

    /// Get ready for the next write of a pass that has written `written`
    /// bytes so far: chunks that are done give way to the next queued one.
    /// Returns whether to write: not when nothing is left, nor once the
    /// pass has written a full batch.
    pub fn prepare(&mut self, written: usize) -> (go: bool)
        requires
            old(self).wf(),
        ensures
            final(self).wf(),
            final(self).pending() == old(self).pending(),
            final(self).queued().len() <= old(self).queued().len(),
            final(self).queued() == old(self).queued().skip(
                old(self).queued().len() - final(self).queued().len(),
            ),
            final(self).current() matches Some(c) ==> c.len() > 0,
            final(self).current() is None ==> final(self).queued().len() == 0,
            go == (written < MAX_WRITE_BATCH && final(self).current() is Some),
    {
        if self.writing.is_none() {
            self.goto_next();
            proof {
                if old(self).queued().len() > 0 {
                    lemma_flatten_first(old(self).queued());
                }
            }
        }
        loop
            invariant
                self.wf(),
                self.pending() == old(self).pending(),
                self.current() is None ==> self.queued().len() == 0,
                self.queued().len() <= old(self).queued().len(),
                self.queued() == old(self).queued().skip(
                    old(self).queued().len() - self.queued().len(),
                ),
            decreases self.queued().len(), if self.current() is Some { 1int } else { 0int },
        {
            let finished = match &self.writing {
                None => {
                    assert(self.pending() =~= Seq::<u8>::empty());
                    return false;
                },
                Some(w) => w.finished(),
            };
            if !finished {
                return written < MAX_WRITE_BATCH;
            }
            let ghost q = self.queued();
            self.goto_next();
            proof {
                if q.len() > 0 {
                    lemma_flatten_first(q);
                    let o = old(self).queued();
                    assert(q.skip(1) =~= o.skip(o.len() - self.queued().len()));
                }
                assert(Seq::<u8>::empty() + q.flatten() =~= q.flatten());
            }
        }
    }

    /// The bytes to hand to the writer next: the unwritten part of the
    /// current chunk, cut to what is left of the batch.
    pub fn chunk(&self, written: usize) -> (r: &[u8])
        requires
            self.wf(),
            self.current() is Some,
            written < MAX_WRITE_BATCH,
        ensures
            r@ == self.current().unwrap().take(
                if self.current().unwrap().len() < MAX_WRITE_BATCH - written {
                    self.current().unwrap().len() as int
                } else {
                    MAX_WRITE_BATCH - written
                },
            ),
    {
        let w = self.writing.as_ref().unwrap();
        let remaining = w.source.len() - w.written;
        let room = MAX_WRITE_BATCH - written;
        let n = if remaining < room {
            remaining
        } else {
            room
        };
        let r = &w.source.as_slice()[w.written..w.written + n];
        assert(r@ =~= w.source@.skip(w.written as int).take(n as int));
        r
    }

    /// Record that the writer took `n` bytes of the current chunk; a chunk
    /// that is done gives way to the next.
    pub fn advance(&mut self, n: usize)
        requires
            old(self).wf(),
            old(self).current() is Some,
            n <= old(self).current().unwrap().len(),
        ensures
            final(self).wf(),
            final(self).pending() == old(self).pending().skip(n as int),
    {
        let ghost q = self.queued();
        let ghost c = self.current().unwrap();
        let mut w = self.writing.take().unwrap();
        let len = w.source.len();
        assert(w.written + n <= len);
        w.written = w.written + n;
        assert(w.source@.skip(w.written as int) =~= c.skip(n as int));
        if w.finished() {
            self.writing = None;
            self.goto_next();
            proof {
                if q.len() > 0 {
                    lemma_flatten_first(q);
                }
                assert(c.skip(n as int).len() == 0);
                assert((c + q.flatten()).skip(n as int) =~= q.flatten());
            }
        } else {
            self.writing = Some(w);
            assert((c + q.flatten()).skip(n as int) =~= c.skip(n as int) + q.flatten());
        }
    }
}

proof fn lemma_flatten_push(q: Seq<Seq<u8>>, b: Seq<u8>)
    ensures
        q.push(b).flatten() == q.flatten() + b,
    decreases q.len(),
{
    if q.len() == 0 {
        assert(q.push(b).drop_first() =~= q);
        assert(q.push(b).flatten() == b + q.flatten());
        assert(b + Seq::<u8>::empty() =~= b);
        assert(Seq::<u8>::empty() + b =~= b);
    } else {
        lemma_flatten_push(q.drop_first(), b);
        assert(q.push(b).drop_first() =~= q.drop_first().push(b));
        assert(q.push(b).flatten() == q[0] + q.drop_first().push(b).flatten());
        assert(q[0] + (q.drop_first().flatten() + b) =~= (q[0] + q.drop_first().flatten()) + b);
    }
}

proof fn lemma_flatten_first(q: Seq<Seq<u8>>)
    requires
        q.len() > 0,
    ensures
        q.flatten() == q[0] + q.skip(1).flatten(),
{
    assert(q.drop_first() =~= q.skip(1));
}

/// Queued bytes are written in order, each exactly once: whatever the
/// writer takes comes off the front of what is pending, and what is pushed
/// goes to the back.
pub proof fn lemma_pending_order(pending: Seq<u8>, taken: int, pushed: Seq<u8>)
    requires
        0 <= taken <= pending.len(),
    ensures
        (pending + pushed).skip(taken) == pending.skip(taken) + pushed,
        pending.take(taken) + pending.skip(taken) == pending,
{
    assert((pending + pushed).skip(taken) =~= pending.skip(taken) + pushed);
    assert(pending.take(taken) + pending.skip(taken) =~= pending);
}

} // verus!
