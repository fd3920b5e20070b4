//! The pipeline: a stream is split into fixed-size chunks, each chunk is
//! transformed on its own, and the outputs are written back in exactly
//! the order the chunks were read.
//!
//! The concurrent protocol's decisions live here, verified: a monotonic
//! ticket counter hands out chunk indices, and a write gate admits
//! exactly one ticket at a time, in increasing order. The threads, locks
//! and parking that drive these decisions are unverified plumbing around
//! this module.

use vstd::prelude::*;

use crate::passes::{spec_transform, uwuify};
use crate::{lemma_round_up16_bounds, lemma_round_up16_le, round_up16, spec_round_up16};

verus! {

/// The output of the pipeline: the stream is cut into `chunk`-sized
/// pieces (the last one shorter), and each piece is transformed on its
/// own — every chunk's transform starts from the fixed seed.
pub open spec fn spec_pipeline(s: Seq<u8>, chunk: int) -> Seq<u8>
    decreases s.len(),
{
    if chunk <= 0 || s.len() <= chunk {
        spec_transform(s)
    } else {
        spec_transform(s.take(chunk)) + spec_pipeline(s.skip(chunk), chunk)
    }
}

// ---------------------------------------------------------------------
// Tickets and the write gate.
// ---------------------------------------------------------------------
/// Hands out chunk indices: each claim returns the next index exactly
/// once, in increasing order.
pub struct TicketCounter {
    next: usize,
}

impl TicketCounter {
    /// The next index that will be claimed.
    pub closed spec fn next_ticket(&self) -> int {
        self.next as int
    }

    /// A fresh counter, starting at index zero.
    pub fn new() -> (r: Self)
        ensures
            r.next_ticket() == 0,
    {
        TicketCounter { next: 0 }
    }

    /// Claim the next chunk index.
    pub fn claim(&mut self) -> (t: usize)
        requires
            old(self).next_ticket() + 1 <= usize::MAX,
        ensures
            t == old(self).next_ticket(),
            final(self).next_ticket() == old(self).next_ticket() + 1,
    {
        let t = self.next;
        self.next = self.next + 1;
        t
    }
}

/// The write gate: the next ticket eligible to write, and, as ghost
/// state, the order in which tickets have written so far.
pub struct WriteGate {
    next: usize,
    log: Ghost<Seq<int>>,
}

impl WriteGate {
    /// The next ticket that may write.
    pub closed spec fn next_ticket(&self) -> int {
        self.next as int
    }

    /// The tickets that have written, in write order.
    pub closed spec fn write_log(&self) -> Seq<int> {
        self.log@
    }

    /// The write gate's invariant: the write log holds every ticket below
    /// `next`, in increasing order.
    pub closed spec fn wf(&self) -> bool {
        self.log@ == Seq::new(self.next as nat, |i: int| i)
    }

    /// A fresh gate: ticket 0 writes first, nothing written yet.
    pub fn new() -> (r: Self)
        ensures
            r.wf(),
            r.next_ticket() == 0,
            r.write_log() == Seq::<int>::empty(),
    {
        let r = WriteGate { next: 0, log: Ghost(Seq::empty()) };
        proof {
            assert(r.log@ =~= Seq::new(0, |i: int| i));
        }
        r
    }

    /// The decision a waiting worker asks for: may this ticket write
    /// now? Exactly one ticket is admitted at a time. A worker that is
    /// refused suspends until the previous writer wakes it.
    pub fn may_write(&self, ticket: usize) -> (r: bool)
        ensures
            r == (ticket == self.next_ticket()),
    {
        self.next == ticket
    }

    /// Record that the admitted ticket finished its write and hand the
    /// gate to the next ticket: the write index advances by exactly one
    /// per completed write.
    pub fn finish_write(&mut self, ticket: usize)
        requires
            old(self).wf(),
            ticket == old(self).next_ticket(),
            old(self).next_ticket() + 1 <= usize::MAX,
        ensures
            final(self).wf(),
            final(self).next_ticket() == ticket + 1,
            final(self).write_log() == old(self).write_log().push(ticket as int),
    {
        self.next = self.next + 1;
        proof {
            let l2 = self.log@.push(ticket as int);
            assert(l2 =~= Seq::new(self.next as nat, |i: int| i));
            self.log = Ghost(l2);
        }
    }

    /// Chunks are written in strictly increasing ticket order, with no
    /// ticket skipped, however the workers' transform times interleave,
    /// because the write gate admits only the one ticket that equals the
    /// write index.
    pub proof fn lemma_write_order(&self)
        requires
            self.wf(),
        ensures
            self.write_log().len() == self.next_ticket(),
            forall|a: int| 0 <= a < self.write_log().len() ==> self.write_log()[a] == a,
            forall|a: int, b: int|
                0 <= a < b < self.write_log().len() ==> self.write_log()[a] < self.write_log()[b],
    {
    }
}

// ---------------------------------------------------------------------
// The read loop's decision.
// ---------------------------------------------------------------------
/// What one call of the underlying reader gave back, as the read loop
/// sees it: some bytes (zero meaning end of stream), or a transient
/// interruption that is retried.
pub enum ReadEvent {
    Bytes(usize),
    Interrupted,
}

/// One step of the chunk-filling loop: add what was read and decide
/// whether the chunk is finished. The chunk is finished when the reader
/// returned nothing (end of stream) or the buffer is full — so the only
/// chunk that is not full-length is the last one.
pub fn read_step(filled: usize, cap: usize, ev: ReadEvent) -> (r: (usize, bool))
    requires
        filled <= cap,
        ev matches ReadEvent::Bytes(n) ==> n <= cap - filled,
    ensures
        match ev {
            ReadEvent::Bytes(n) => r.0 == filled + n && r.1 == (n == 0 || filled + n == cap),
            ReadEvent::Interrupted => r.0 == filled && r.1 == false,
        },
        r.0 <= cap,
{
    match ev {
        ReadEvent::Bytes(n) => (filled + n, n == 0 || filled + n == cap),
        ReadEvent::Interrupted => (filled, false),
    }
}

// ---------------------------------------------------------------------
// The sequential reference pipeline.
// ---------------------------------------------------------------------
/// Run the pipeline over an in-memory stream: cut it into `chunk_len`-
/// sized chunks, transform each, and emit the outputs in chunk order.
/// The concurrent pipeline must behave the same way; its write gate
/// forces the same output order.
#[verifier::rlimit(60)]
pub fn run_pipeline(input: &Vec<u8>, chunk_len: usize) -> (out: Vec<u8>)
    requires
        1 <= chunk_len,
        16 * spec_round_up16(chunk_len as int) <= usize::MAX,
    ensures
        out@ == spec_pipeline(input@, chunk_len as int),
{
    proof {
        lemma_round_up16_bounds(chunk_len as int);
    }
    let scratch_len = 16 * round_up16(chunk_len);
    let mut chunk: Vec<u8> = vec![0u8; chunk_len];
    let mut temp1: Vec<u8> = vec![0u8; scratch_len];
    let mut temp2: Vec<u8> = vec![0u8; scratch_len];
    let mut out: Vec<u8> = Vec::new();
    let mut offset: usize = 0;
    let mut done = false;
    proof {
        assert(input@.skip(0) =~= input@);
        assert(Seq::<u8>::empty() + spec_pipeline(input@, chunk_len as int) =~= spec_pipeline(
            input@,
            chunk_len as int,
        ));
    }
    while !done
        invariant
            1 <= chunk_len,
            16 * spec_round_up16(chunk_len as int) <= usize::MAX,
            chunk.len() == chunk_len,
            temp1.len() == scratch_len,
            temp2.len() == scratch_len,
            scratch_len == 16 * spec_round_up16(chunk_len as int),
            offset <= input.len(),
            !done ==> spec_pipeline(input@, chunk_len as int) == out@ + spec_pipeline(
                input@.skip(offset as int),
                chunk_len as int,
            ),
            done ==> out@ == spec_pipeline(input@, chunk_len as int),
        decreases input.len() - offset + (if done {
            0int
        } else {
            1int
        }),
    {
        let remaining = input.len() - offset;
        let clen = if remaining < chunk_len {
            remaining
        } else {
            chunk_len
        };
        // Claim this chunk's bytes.
        let mut j: usize = 0;
        while j < clen
            invariant
                j <= clen,
                clen <= remaining,
                remaining == input.len() - offset,
                chunk.len() == chunk_len,
                clen <= chunk_len,
                forall|q: int| 0 <= q < j ==> chunk@[q] == input@[offset + q],
            decreases clen - j,
        {
            let b = input[offset + j];
            chunk[j] = b;
            j += 1;
        }
        proof {
            lemma_round_up16_bounds(clen as int);
            lemma_round_up16_le(clen as int, spec_round_up16(chunk_len as int));
            assert(chunk@.take(clen as int) =~= input@.subrange(
                offset as int,
                offset as int + clen as int,
            ));
        }
        let ret = uwuify(&chunk, clen, &mut temp1, &mut temp2);
        // Write this chunk's output; tickets are claimed and written in
        // the same, sequential order here.
        let ghost out_prev = out@;
        let mut j: usize = 0;
        while j < ret
            invariant
                j <= ret,
                ret <= temp2.len(),
                out@ == out_prev + temp2@.take(ret as int).take(j as int),
            decreases ret - j,
        {
            let b = temp2[j];
            out.push(b);
            proof {
                assert(out@ =~= out_prev + temp2@.take(ret as int).take(j as int + 1));
            }
            j += 1;
        }
        proof {
            assert(out@ == out_prev + spec_transform(
                input@.subrange(offset as int, offset as int + clen as int),
            )) by {
                assert(temp2@.take(ret as int).take(ret as int) =~= temp2@.take(ret as int));
            }
        }
        if clen < chunk_len {
            done = true;
            proof {
                let rem = input@.skip(offset as int);
                assert(rem =~= input@.subrange(offset as int, offset as int + clen as int));
                assert(spec_pipeline(rem, chunk_len as int) == spec_transform(rem));
            }
        } else {
            proof {
                let rem = input@.skip(offset as int);
                assert(rem.len() >= chunk_len);
                if rem.len() == chunk_len {
                    assert(spec_pipeline(rem, chunk_len as int) == spec_transform(rem));
                    assert(rem.take(chunk_len as int) =~= rem);
                    assert(rem.skip(chunk_len as int).len() == 0);
                } else {
                    assert(spec_pipeline(rem, chunk_len as int) == spec_transform(rem.take(
                        chunk_len as int,
                    )) + spec_pipeline(rem.skip(chunk_len as int), chunk_len as int));
                }
                assert(rem.take(chunk_len as int) =~= input@.subrange(
                    offset as int,
                    offset as int + chunk_len as int,
                ));
                assert(rem.skip(chunk_len as int) =~= input@.skip(
                    offset as int + chunk_len as int,
                ));
            }
            offset = offset + chunk_len;
            if offset == input.len() {
                // The stream ends exactly on a chunk boundary: one more
                // (empty) chunk would be read and transformed to
                // nothing, so the run is complete.
                done = true;
                proof {
                    let rem = input@.skip(offset as int);
                    assert(rem.len() == 0);
                    assert(spec_pipeline(rem, chunk_len as int) == spec_transform(rem));
                    crate::laws::lemma_transform_empty();
                    assert(rem =~= Seq::<u8>::empty());
                    assert(out@ + spec_transform(rem) =~= out@);
                }
            }
        }
    }
    out
}

} // verus!
