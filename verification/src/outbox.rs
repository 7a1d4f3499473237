//! The output of a connection: chunks of bytes that leave in the order in
//! which they were queued, however few bytes the socket takes at a time.

use vstd::prelude::*;

verus! {

/// The chunks one after the other.
pub open spec fn joined(chunks: Seq<Seq<u8>>) -> Seq<u8>
    decreases chunks.len(),
{
    if chunks.len() == 0 {
        Seq::empty()
    } else {
        chunks[0] + joined(chunks.drop_first())
    }
}

/// Whether `sent` can be the number of bytes that have left of the oldest
/// of `chunks`.
pub open spec fn queue_wf(chunks: Seq<Seq<u8>>, sent: nat) -> bool {
    if chunks.len() == 0 {
        sent == 0
    } else {
        sent <= chunks[0].len()
    }
}

/// The bytes that are still to leave, in their order.
pub open spec fn pending(chunks: Seq<Seq<u8>>, sent: nat) -> Seq<u8> {
    joined(chunks).skip(sent as int)
}

/// The queue after `n` more bytes of the oldest chunk have left: the chunk
/// is dropped once all of it has left. A number beyond the end of the chunk
/// changes nothing.
pub open spec fn advanced(chunks: Seq<Seq<u8>>, sent: nat, n: nat) -> (Seq<Seq<u8>>, nat) {
    if chunks.len() == 0 || sent + n > chunks[0].len() {
        (chunks, sent)
    } else if sent + n == chunks[0].len() {
        (chunks.drop_first(), 0)
    } else {
        (chunks, sent + n)
    }
}

proof fn lemma_joined_push(chunks: Seq<Seq<u8>>, chunk: Seq<u8>)
    ensures
        joined(chunks.push(chunk)) == joined(chunks) + chunk,
    decreases chunks.len(),
{
    if chunks.len() == 0 {
        let one = chunks.push(chunk);
        assert(one.drop_first() =~= Seq::<Seq<u8>>::empty());
        assert(joined(one.drop_first()) == Seq::<u8>::empty());
        assert(one[0] == chunk);
        assert(joined(one) == one[0] + joined(one.drop_first()));
        assert(joined(one) =~= chunk);
        assert(joined(chunks) + chunk =~= chunk);
    } else {
        assert(chunks.push(chunk).drop_first() =~= chunks.drop_first().push(chunk));
        lemma_joined_push(chunks.drop_first(), chunk);
        assert(joined(chunks.push(chunk)) =~= joined(chunks) + chunk);
    }
}

/// What is queued leaves after all that was queued before it.
pub proof fn lemma_push_appends(chunks: Seq<Seq<u8>>, sent: nat, chunk: Seq<u8>)
    requires
        queue_wf(chunks, sent),
    ensures
        queue_wf(chunks.push(chunk), sent),
        pending(chunks.push(chunk), sent) == pending(chunks, sent) + chunk,
{
    lemma_joined_push(chunks, chunk);
    assert(pending(chunks.push(chunk), sent) =~= pending(chunks, sent) + chunk);
}

/// The bytes that leave are the first of those that were to leave, and the
/// rest stays as it was.
pub proof fn lemma_advance_consumes(chunks: Seq<Seq<u8>>, sent: nat, n: nat)
    requires
        queue_wf(chunks, sent),
        chunks.len() > 0,
        sent + n <= chunks[0].len(),
    ensures
        queue_wf(advanced(chunks, sent, n).0, advanced(chunks, sent, n).1),
        pending(advanced(chunks, sent, n).0, advanced(chunks, sent, n).1) == pending(
            chunks,
            sent,
        ).skip(n as int),
        pending(chunks, sent).subrange(0, n as int) == chunks[0].subrange(
            sent as int,
            (sent + n) as int,
        ),
{
    let (after, left) = advanced(chunks, sent, n);
    assert(pending(after, left) =~= pending(chunks, sent).skip(n as int));
    assert(pending(chunks, sent).subrange(0, n as int) =~= chunks[0].subrange(
        sent as int,
        (sent + n) as int,
    ));
}

/// Whether `queue` starts with the chunks of `earlier`, in their order.
pub open spec fn starts_with(queue: Seq<Seq<u8>>, earlier: Seq<Seq<u8>>) -> bool {
    earlier.len() <= queue.len() && queue.subrange(0, earlier.len() as int) == earlier
}

proof fn lemma_joined_concat(first: Seq<Seq<u8>>, second: Seq<Seq<u8>>)
    ensures
        joined(first + second) == joined(first) + joined(second),
    decreases first.len(),
{
    if first.len() == 0 {
        assert(first + second =~= second);
        assert(joined(first) + joined(second) =~= joined(second));
    } else {
        assert((first + second).drop_first() =~= first.drop_first() + second);
        lemma_joined_concat(first.drop_first(), second);
        assert(joined(first + second) =~= joined(first) + joined(second));
    }
}

/// A queue that has only grown writes what it was to write before, and the
/// new chunks after it.
pub proof fn lemma_queue_grows(earlier: Seq<Seq<u8>>, queue: Seq<Seq<u8>>, sent: nat)
    requires
        queue_wf(earlier, sent),
        starts_with(queue, earlier),
    ensures
        queue_wf(queue, sent),
        pending(queue, sent) == pending(earlier, sent) + joined(
            queue.skip(earlier.len() as int),
        ),
{
    let more = queue.skip(earlier.len() as int);
    assert(queue =~= earlier + more);
    lemma_joined_concat(earlier, more);
    if earlier.len() > 0 {
        assert(queue[0] == queue.subrange(0, earlier.len() as int)[0]);
    }
    assert(pending(queue, sent) =~= pending(earlier, sent) + joined(more));
}

/// The chunks of a queue.
pub open spec fn chunk_views(chunks: Seq<Vec<u8>>) -> Seq<Seq<u8>> {
    Seq::new(chunks.len(), |i: int| chunks[i]@)
}

/// A queue of output.
pub struct Outbox {
    chunks: Vec<Vec<u8>>,
    sent: usize,
}

impl Outbox {
    #[verifier::type_invariant]
    closed spec fn inv(self) -> bool {
        queue_wf(chunk_views(self.chunks@), self.sent as nat)
    }

    /// The chunks that wait, oldest first.
    pub closed spec fn chunks(self) -> Seq<Seq<u8>> {
        chunk_views(self.chunks@)
    }

    /// How many bytes of the oldest chunk have left.
    pub closed spec fn sent(self) -> nat {
        self.sent as nat
    }

    /// An empty queue.
    pub fn new() -> (r: Outbox)
        ensures
            r.chunks() == Seq::<Seq<u8>>::empty(),
            r.sent() == 0,
    {
        let r = Outbox { chunks: Vec::new(), sent: 0 };
        assert(r.chunks() =~= Seq::empty());
        r
    }

    /// Every queue in a running program is well formed.
    pub fn check_wf(&self)
        ensures
            queue_wf(self.chunks(), self.sent()),
    {
        proof {
            use_type_invariant(self);
        }
    }

    /// Whether nothing waits.
    pub fn is_empty(&self) -> (r: bool)
        ensures
            r == (self.chunks().len() == 0),
    {
        self.chunks.len() == 0
    }

    /// Queues a chunk behind those that wait.
    pub fn push(&mut self, chunk: Vec<u8>)
        ensures
            final(self).chunks() == old(self).chunks().push(chunk@),
            final(self).sent() == old(self).sent(),
    {
        proof {
            use_type_invariant(&*self);
        }
        let mut taken = Outbox { chunks: Vec::new(), sent: 0 };
        core::mem::swap(self, &mut taken);
        let Outbox { chunks, sent } = taken;
        let mut chunks = chunks;
        chunks.push(chunk);
        assert(chunk_views(chunks@) =~= old(self).chunks().push(chunk@));
        *self = Outbox { chunks, sent };
    }

    /// The bytes of the oldest chunk that have not left yet.
    pub fn next(&self) -> (r: Option<&[u8]>)
        ensures
            self.chunks().len() > 0 ==> (r matches Some(rest) && rest@ == self.chunks()[0].skip(
                self.sent() as int,
            )),
            self.chunks().len() == 0 ==> r is None,
    {
        proof {
            use_type_invariant(self);
        }
        if self.chunks.len() > 0 {
            let chunk: &Vec<u8> = &self.chunks[0];
            Some(vstd::slice::slice_subrange(chunk.as_slice(), self.sent, chunk.len()))
        } else {
            None
        }
    }

    /// Takes note that `n` more bytes of the oldest chunk have left.
    pub fn advance(&mut self, n: usize)
        ensures
            (final(self).chunks(), final(self).sent()) == advanced(
                old(self).chunks(),
                old(self).sent(),
                n as nat,
            ),
    {
        proof {
            use_type_invariant(&*self);
        }
        if self.chunks.len() == 0 {
            return ;
        }
        let len: usize = self.chunks[0].len();
        if n > len - self.sent {
            return ;
        }
        let mut taken = Outbox { chunks: Vec::new(), sent: 0 };
        core::mem::swap(self, &mut taken);
        let Outbox { chunks, sent } = taken;
        if n == len - sent {
            let mut chunks = chunks;
            let _ = chunks.remove(0);
            assert(chunk_views(chunks@) =~= old(self).chunks().drop_first());
            *self = Outbox { chunks, sent: 0 };
        } else {
            *self = Outbox { chunks, sent: sent + n };
        }
    }
}

} // verus!
