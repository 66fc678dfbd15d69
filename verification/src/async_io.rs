//! Asynchronous, ordered, closable byte-stream channels.
//!
//! An [`AsyncBuffer`] is one channel: a FIFO queue of byte chunks, a
//! monotonic closed flag, at most one outstanding waiter, and an optional
//! target descriptor for the copy-into-buffer read path.  An [`AsyncIo`] is
//! the fd-indexed table of channels owned by one process.
//!
//! Every operation here is a synchronous step of the channel state machine.
//! The host-facing plumbing performs the actual suspension: whenever a step
//! returns a pending outcome it parks the caller, and whenever a step returns
//! a [`Wake`] it resolves the parked completion with it.

use vstd::prelude::*;
use std::collections::VecDeque;

use crate::errors::OsError;
use crate::table::Table;

verus! {

/// A fixed-capacity byte range in the caller's buffer, as an offset and a
/// length.  The copy-into-buffer read path fills at most `length` bytes.
#[derive(Clone, Copy, Debug, PartialEq, Eq, Structural)]
pub struct ReadTarget {
    pub offset: usize,
    pub length: usize,
}

/// The mathematical state of one channel.
#[verifier::ext_equal]
pub struct ChannelView {
    /// The queued chunks, oldest first.  Order is significant.
    pub queue: Seq<Seq<u8>>,
    /// The target range of the pending copy-into-buffer read, if any.
    pub target: Option<ReadTarget>,
    /// Whether a waiter is attached.  At most one can be outstanding.
    pub waiter: bool,
    /// Whether the channel has been closed.  The flag is monotonic.
    pub closed: bool,
}

/// The state of a channel that has just been opened.
pub open spec fn empty_channel() -> ChannelView {
    ChannelView { queue: Seq::empty(), target: None, waiter: false, closed: false }
}

/// What the pending completion of a parked consumer is resolved with.
#[derive(Debug, PartialEq, Eq)]
pub enum Wake {
    /// A copy-into-buffer read was parked: the bytes below were drained from
    /// the queue and belong at the given target range.
    Drained(ReadTarget, Vec<u8>),
    /// A drain-everything read was parked: it should now re-check the queue.
    Notify,
}

/// The mathematical value of a [`Wake`].
pub enum WakeModel {
    Drained(ReadTarget, Seq<u8>),
    Notify,
}

impl View for Wake {
    type V = WakeModel;

    open spec fn view(&self) -> WakeModel {
        match self {
            Wake::Drained(t, bytes) => WakeModel::Drained(*t, bytes@),
            Wake::Notify => WakeModel::Notify,
        }
    }
}

/// The view of an optional [`Wake`].
pub open spec fn wake_opt_view(w: Option<Wake>) -> Option<WakeModel> {
    match w {
        Some(x) => Some(x@),
        None => None,
    }
}

/// The copy-into-buffer algorithm on the mathematical queue: popping chunks
/// into a flat byte sequence of at most `cap` bytes.  A chunk that does not
/// fit in the remaining capacity is split, and its unconsumed remainder is
/// pushed back to the head of the queue.  Returns the copied bytes and the
/// remaining queue.
pub open spec fn copy_spec(q: Seq<Seq<u8>>, cap: nat) -> (Seq<u8>, Seq<Seq<u8>>)
    decreases q.len(),
{
    if q.len() == 0 || cap == 0 {
        (Seq::empty(), q)
    } else if q.first().len() <= cap {
        let rest = copy_spec(q.drop_first(), (cap - q.first().len()) as nat);
        (q.first() + rest.0, rest.1)
    } else {
        (q.first().take(cap as int), seq![q.first().skip(cap as int)] + q.drop_first())
    }
}

/// The number of bytes the copy delivers: all of them, capped at `cap`.
pub open spec fn copy_len(q: Seq<Seq<u8>>, cap: nat) -> int {
    if cap <= q.flatten().len() {
        cap as int
    } else {
        q.flatten().len() as int
    }
}

/// The copy delivers exactly the first `copy_len` bytes of the flattened
/// queue and leaves exactly the rest, in order: nothing is duplicated,
/// dropped or reordered.
pub proof fn lemma_copy_spec_bytes(q: Seq<Seq<u8>>, cap: nat)
    ensures
        copy_spec(q, cap).0 == q.flatten().take(copy_len(q, cap)),
        copy_spec(q, cap).1.flatten() == q.flatten().skip(copy_len(q, cap)),
    decreases q.len(),
{
    if q.len() == 0 {
        assert(q.flatten() =~= Seq::<u8>::empty());
        assert(copy_spec(q, cap).0 =~= q.flatten().take(copy_len(q, cap)));
        assert(copy_spec(q, cap).1.flatten() =~= q.flatten().skip(copy_len(q, cap)));
    } else {
        let c = q.first();
        let rest = q.drop_first();
        assert(q.flatten() == c + rest.flatten());
        if cap == 0 {
            assert(copy_spec(q, cap).0 =~= q.flatten().take(0));
            assert(q.flatten().skip(0) =~= q.flatten());
        } else if c.len() <= cap {
            let cap2 = (cap - c.len()) as nat;
            lemma_copy_spec_bytes(rest, cap2);
            assert(copy_spec(q, cap).0 =~= q.flatten().take(copy_len(q, cap)));
            assert(copy_spec(q, cap).1.flatten() =~= q.flatten().skip(copy_len(q, cap)));
        } else {
            let kept = seq![c.skip(cap as int)] + rest;
            assert(kept.first() == c.skip(cap as int));
            assert(kept.drop_first() =~= rest);
            assert(kept.flatten() == c.skip(cap as int) + rest.flatten());
            assert(copy_spec(q, cap).0 =~= q.flatten().take(copy_len(q, cap)));
            assert(copy_spec(q, cap).1.flatten() =~= q.flatten().skip(copy_len(q, cap)));
        }
    }
}

/// Appending a chunk to the queue.
pub open spec fn push_chunk(m: ChannelView, data: Seq<u8>) -> ChannelView {
    ChannelView { queue: m.queue.push(data), ..m }
}

/// The state after waking an attached waiter, if any.  A parked
/// copy-into-buffer read consumes queued bytes up to its capacity; a parked
/// drain-everything read is merely notified and re-checks the queue itself.
pub open spec fn signal_next(m: ChannelView) -> ChannelView {
    if !m.waiter {
        m
    } else {
        match m.target {
            Some(t) => ChannelView {
                queue: copy_spec(m.queue, t.length as nat).1,
                waiter: false,
                ..m
            },
            None => ChannelView { waiter: false, ..m },
        }
    }
}

/// What the waiter, if any, is woken with.
pub open spec fn signal_wake(m: ChannelView) -> Option<WakeModel> {
    if !m.waiter {
        None
    } else {
        match m.target {
            Some(t) => Some(WakeModel::Drained(t, copy_spec(m.queue, t.length as nat).0)),
            None => Some(WakeModel::Notify),
        }
    }
}

/// The state after a successful write of `data`.
pub open spec fn write_next(m: ChannelView, data: Seq<u8>) -> ChannelView {
    signal_next(push_chunk(m, data))
}

/// What a successful write of `data` wakes the waiter with, if anything.
pub open spec fn write_wake(m: ChannelView, data: Seq<u8>) -> Option<WakeModel> {
    signal_wake(push_chunk(m, data))
}

/// Marking the channel closed, before the close-signal is flushed.
pub open spec fn mark_closed(m: ChannelView) -> ChannelView {
    ChannelView { closed: true, ..m }
}

/// The state after a close: the closed flag is set and any waiter is woken.
pub open spec fn close_next(m: ChannelView) -> ChannelView {
    signal_next(mark_closed(m))
}

/// What a close wakes the waiter with, if anything.
pub open spec fn close_wake(m: ChannelView) -> Option<WakeModel> {
    signal_wake(mark_closed(m))
}

/// One channel: a FIFO queue of byte chunks with a close flag, at most one
/// outstanding waiter, and an optional copy target.
pub struct AsyncBuffer {
    buffer: VecDeque<Vec<u8>>,
    target: Option<ReadTarget>,
    waiter: bool,
    closed: bool,
}

impl View for AsyncBuffer {
    type V = ChannelView;

    closed spec fn view(&self) -> ChannelView {
        ChannelView {
            queue: self.buffer.deep_view(),
            target: self.target,
            waiter: self.waiter,
            closed: self.closed,
        }
    }
}

impl AsyncBuffer {
    /// A fresh channel: open, empty, with no waiter and no target.
    pub fn new() -> (r: Self)
        ensures
            r@ == empty_channel(),
    {
        let r = AsyncBuffer {
            buffer: VecDeque::new(),
            target: None,
            waiter: false,
            closed: false,
        };
        proof {
            assert(r@ =~= empty_channel());
        }
        r
    }

    /// Copies bytes from the queue towards the target range, if one is set:
    /// whole chunks as long as they fit, then a split chunk whose unconsumed
    /// remainder goes back to the head of the queue.  Returns the copied
    /// bytes; the host-facing plumbing places them at the target range.
    pub fn copy_to_target(&mut self) -> (r: Vec<u8>)
        ensures
            old(self)@.target is None ==> final(self)@ == old(self)@ && r@ == Seq::<u8>::empty(),
            old(self)@.target matches Some(t) ==> {
                &&& r@ == copy_spec(old(self)@.queue, t.length as nat).0
                &&& final(self)@ == (ChannelView {
                    queue: copy_spec(old(self)@.queue, t.length as nat).1,
                    ..old(self)@
                })
            },
    {
        let mut copied: Vec<u8> = Vec::new();
        let target = self.target;
        if let Some(t) = target {
            let cap = t.length;
            let ghost orig = self.buffer.deep_view();
            loop
                invariant
                    self.target == old(self).target,
                    self.waiter == old(self).waiter,
                    self.closed == old(self).closed,
                    orig == old(self)@.queue,
                    cap == t.length,
                    copied@.len() <= cap,
                    copy_spec(orig, cap as nat).0 == copied@ + copy_spec(
                        self.buffer.deep_view(),
                        (cap - copied@.len()) as nat,
                    ).0,
                    copy_spec(orig, cap as nat).1 == copy_spec(
                        self.buffer.deep_view(),
                        (cap - copied@.len()) as nat,
                    ).1,
                ensures
                    self.target == old(self).target,
                    self.waiter == old(self).waiter,
                    self.closed == old(self).closed,
                    copied@ == copy_spec(orig, cap as nat).0,
                    self.buffer.deep_view() == copy_spec(orig, cap as nat).1,
                decreases self.buffer@.len(), cap - copied@.len(),
            {
                if copied.len() == cap {
                    proof {
                        assert(copy_spec(self.buffer.deep_view(), 0nat).0 =~= Seq::<u8>::empty());
                        assert(copied@ =~= copy_spec(orig, cap as nat).0);
                    }
                    break ;
                }
                let ghost pre = self.buffer.deep_view();
                let ghost room = (cap - copied@.len()) as nat;
                match self.buffer.pop_front() {
                    None => {
                        proof {
                            assert(pre =~= Seq::<Seq<u8>>::empty());
                            assert(copy_spec(pre, room).0 =~= Seq::<u8>::empty());
                            assert(copied@ =~= copy_spec(orig, cap as nat).0);
                        }
                        break ;
                    },
                    Some(mut chunk) => {
                        proof {
                            assert(pre.first() == chunk@);
                            assert(self.buffer.deep_view() =~= pre.drop_first());
                        }
                        let room_now = cap - copied.len();
                        if chunk.len() <= room_now {
                            let ghost copied_pre = copied@;
                            copied.append(&mut chunk);
                            proof {
                                assert(copied@ == copied_pre + pre.first());
                                assert(copy_spec(pre, room).0 == pre.first() + copy_spec(
                                    pre.drop_first(),
                                    (room - pre.first().len()) as nat,
                                ).0);
                                assert(copied@ + copy_spec(
                                    self.buffer.deep_view(),
                                    (cap - copied@.len()) as nat,
                                ).0 =~= copied_pre + copy_spec(pre, room).0);
                            }
                        } else {
                            // Not enough room: consume what fits and push the
                            // remainder back to the head of the queue.
                            let mut kept: Vec<u8> = Vec::new();
                            let mut j: usize = room_now;
                            while j < chunk.len()
                                invariant
                                    room_now <= j <= chunk@.len(),
                                    kept@ == chunk@.subrange(room_now as int, j as int),
                                decreases chunk@.len() - j,
                            {
                                kept.push(chunk[j]);
                                proof {
                                    assert(kept@ =~= chunk@.subrange(room_now as int, j + 1));
                                }
                                j += 1;
                            }
                            let ghost copied_pre = copied@;
                            let mut j2: usize = 0;
                            while j2 < room_now
                                invariant
                                    0 <= j2 <= room_now,
                                    room_now <= chunk@.len(),
                                    copied@ == copied_pre + chunk@.take(j2 as int),
                                decreases room_now - j2,
                            {
                                copied.push(chunk[j2]);
                                proof {
                                    assert(copied@ =~= copied_pre + chunk@.take(j2 + 1));
                                }
                                j2 += 1;
                            }
                            self.buffer.push_front(kept);
                            proof {
                                assert(kept@ == chunk@.skip(room_now as int));
                                assert(self.buffer.deep_view() =~~= seq![chunk@.skip(
                                    room_now as int,
                                )] + pre.drop_first());
                                assert(copy_spec(pre, room).0 == chunk@.take(room_now as int));
                                assert(copy_spec(pre, room).1 == seq![chunk@.skip(room_now as int)]
                                    + pre.drop_first());
                                assert(copied@ =~= copied_pre + copy_spec(pre, room).0);
                                assert((cap - copied@.len()) as nat == 0nat);
                                assert(copy_spec(self.buffer.deep_view(), 0nat).0
                                    =~= Seq::<u8>::empty());
                            }
                        }
                    },
                }
            }
            proof {
                assert(final(self)@ =~= (ChannelView {
                    queue: copy_spec(old(self)@.queue, t.length as nat).1,
                    ..old(self)@
                }));
            }
        } else {
            proof {
                assert(final(self)@ =~= old(self)@);
            }
        }
        copied
    }

    /// Wakes the attached waiter, if any: a parked copy-into-buffer read is
    /// handed the drained bytes, a parked drain-everything read is notified.
    /// Returns what the host-facing plumbing must resolve the parked
    /// completion with.
    pub fn signal_write(&mut self) -> (r: Option<Wake>)
        ensures
            final(self)@ == signal_next(old(self)@),
            wake_opt_view(r) == signal_wake(old(self)@),
    {
        if self.waiter {
            self.waiter = false;
            match self.target {
                Some(t) => {
                    let bytes = self.copy_to_target();
                    proof {
                        assert(final(self)@ =~= signal_next(old(self)@));
                    }
                    Some(Wake::Drained(t, bytes))
                },
                None => {
                    proof {
                        assert(final(self)@ =~= signal_next(old(self)@));
                    }
                    Some(Wake::Notify)
                },
            }
        } else {
            None
        }
    }

    /// Appends `data` to the queue, all or nothing: a closed channel rejects
    /// the write and is left unchanged.  On success the byte count of this
    /// write is returned, together with the wake for any attached waiter.
    pub fn write(&mut self, data: Vec<u8>) -> (r: Result<(usize, Option<Wake>), OsError>)
        ensures
            old(self)@.closed ==> {
                &&& r == Err::<(usize, Option<Wake>), OsError>(OsError::ChannelClosed)
                &&& final(self)@ == old(self)@
            },
            !old(self)@.closed ==> {
                &&& r matches Ok((count, wake)) && count == data@.len() && wake_opt_view(wake)
                    == write_wake(old(self)@, data@)
                &&& final(self)@ == write_next(old(self)@, data@)
            },
    {
        if self.closed {
            return Err(OsError::ChannelClosed);
        }
        let count = data.len();
        self.buffer.push_back(data);
        proof {
            assert(self@ =~~= push_chunk(old(self)@, data@));
        }
        let wake = self.signal_write();
        Ok((count, wake))
    }

    /// Marks the channel permanently closed and wakes any waiter.  Closing is
    /// idempotent; buffered data stays readable.
    pub fn close(&mut self) -> (r: Option<Wake>)
        ensures
            final(self)@ == close_next(old(self)@),
            wake_opt_view(r) == close_wake(old(self)@),
    {
        self.closed = true;
        proof {
            assert(self@ =~= mark_closed(old(self)@));
        }
        self.signal_write()
    }
}

/// The outcome of one drain-everything read step.
#[derive(Debug, PartialEq, Eq)]
pub enum ConsumeStep {
    /// The queued chunks, drained in FIFO order.
    Data(Vec<Vec<u8>>),
    /// The channel is closed and drained: no more data will ever arrive.
    EndOfStream,
    /// Nothing is available yet: a waiter was attached and the caller must
    /// suspend until it is woken.
    Pending,
}

/// The mathematical outcome of one drain-everything read step.
pub enum ConsumeOutcome {
    Data(Seq<Seq<u8>>),
    EndOfStream,
    Pending,
    Busy,
}

/// What a drain-everything read step on state `m` produces.
pub open spec fn consume_outcome(m: ChannelView) -> ConsumeOutcome {
    if m.waiter {
        ConsumeOutcome::Busy
    } else if m.queue.len() > 0 {
        ConsumeOutcome::Data(m.queue)
    } else if m.closed {
        ConsumeOutcome::EndOfStream
    } else {
        ConsumeOutcome::Pending
    }
}

/// The channel state after a drain-everything read step on state `m`.
pub open spec fn consume_next(m: ChannelView) -> ChannelView {
    if m.waiter {
        m
    } else if m.queue.len() > 0 {
        ChannelView { queue: Seq::empty(), ..m }
    } else if m.closed {
        m
    } else {
        ChannelView { waiter: true, ..m }
    }
}

/// Whether the executable result `r` reports exactly the outcome `o`.
pub open spec fn consume_matches(r: Result<ConsumeStep, OsError>, o: ConsumeOutcome) -> bool {
    match o {
        ConsumeOutcome::Data(q) => r matches Ok(ConsumeStep::Data(chunks)) && chunks.deep_view()
            == q,
        ConsumeOutcome::EndOfStream => r == Ok::<ConsumeStep, OsError>(ConsumeStep::EndOfStream),
        ConsumeOutcome::Pending => r == Ok::<ConsumeStep, OsError>(ConsumeStep::Pending),
        ConsumeOutcome::Busy => r == Err::<ConsumeStep, OsError>(OsError::ChannelBusy),
    }
}

/// The outcome of one copy-into-buffer read step.
#[derive(Debug, PartialEq, Eq)]
pub enum ReadStep {
    /// Data was already queued: these bytes were drained and belong at the
    /// given target range; the read completes at once.
    Ready(ReadTarget, Vec<u8>),
    /// The channel is closed and drained: the read completes with zero bytes.
    Closed,
    /// Nothing is available yet: a waiter was attached and the caller must
    /// suspend; a later write or close delivers the bytes as a [`Wake`].
    Pending,
}

/// The mathematical outcome of one copy-into-buffer read step.
pub enum ReadOutcome {
    Ready(ReadTarget, Seq<u8>),
    Closed,
    Pending,
    Busy,
}

/// What a copy-into-buffer read step on state `m` with target `t` produces.
pub open spec fn read_outcome(m: ChannelView, t: ReadTarget) -> ReadOutcome {
    if m.waiter {
        ReadOutcome::Busy
    } else if m.queue.len() > 0 {
        ReadOutcome::Ready(t, copy_spec(m.queue, t.length as nat).0)
    } else if m.closed {
        ReadOutcome::Closed
    } else {
        ReadOutcome::Pending
    }
}

/// The channel state after a copy-into-buffer read step on state `m` with
/// target `t`.
pub open spec fn read_next(m: ChannelView, t: ReadTarget) -> ChannelView {
    if m.waiter {
        m
    } else if m.queue.len() > 0 {
        ChannelView { queue: copy_spec(m.queue, t.length as nat).1, target: Some(t), ..m }
    } else if m.closed {
        ChannelView { target: Some(t), ..m }
    } else {
        ChannelView { target: Some(t), waiter: true, ..m }
    }
}

/// Whether the executable result `r` reports exactly the outcome `o`.
pub open spec fn read_matches(r: Result<ReadStep, OsError>, o: ReadOutcome) -> bool {
    match o {
        ReadOutcome::Ready(t, bytes) => r matches Ok(ReadStep::Ready(rt, b)) && rt == t && b@
            == bytes,
        ReadOutcome::Closed => r == Ok::<ReadStep, OsError>(ReadStep::Closed),
        ReadOutcome::Pending => r == Ok::<ReadStep, OsError>(ReadStep::Pending),
        ReadOutcome::Busy => r == Err::<ReadStep, OsError>(OsError::ChannelBusy),
    }
}

impl AsyncBuffer {
    /// Drains all queued chunks into a vector, oldest first.
    fn drain_chunks(&mut self) -> (r: Vec<Vec<u8>>)
        ensures
            r.deep_view() == old(self)@.queue,
            final(self)@ == (ChannelView { queue: Seq::empty(), ..old(self)@ }),
    {
        let ghost orig = self.buffer.deep_view();
        let mut chunks: Vec<Vec<u8>> = Vec::new();
        loop
            invariant
                self.target == old(self).target,
                self.waiter == old(self).waiter,
                self.closed == old(self).closed,
                orig == old(self)@.queue,
                orig == chunks.deep_view() + self.buffer.deep_view(),
            ensures
                self.target == old(self).target,
                self.waiter == old(self).waiter,
                self.closed == old(self).closed,
                chunks.deep_view() == orig,
                self.buffer.deep_view() == Seq::<Seq<u8>>::empty(),
            decreases self.buffer@.len(),
        {
            let ghost pre = self.buffer.deep_view();
            match self.buffer.pop_front() {
                None => {
                    proof {
                        assert(pre =~= Seq::<Seq<u8>>::empty());
                        assert(chunks.deep_view() =~= orig);
                    }
                    break ;
                },
                Some(chunk) => {
                    chunks.push(chunk);
                    proof {
                        assert(chunks.deep_view() + self.buffer.deep_view() =~= orig);
                    }
                },
            }
        }
        proof {
            assert(final(self)@ =~= (ChannelView { queue: Seq::empty(), ..old(self)@ }));
        }
        chunks
    }

    /// One step of a drain-everything read.  If data is queued it is drained
    /// and returned at once; if the channel is drained and closed the end of
    /// the stream is reported; otherwise a waiter is attached and the caller
    /// must suspend until a write or close wakes it, then resume with
    /// [`AsyncBuffer::consume_resume`].  Attaching a second waiter while one
    /// is outstanding is a contract violation and is rejected.
    pub fn consume_all(&mut self) -> (r: Result<ConsumeStep, OsError>)
        ensures
            final(self)@ == consume_next(old(self)@),
            consume_matches(r, consume_outcome(old(self)@)),
    {
        if self.waiter {
            return Err(OsError::ChannelBusy);
        }
        if self.buffer.len() > 0 {
            let chunks = self.drain_chunks();
            return Ok(ConsumeStep::Data(chunks));
        }
        if self.closed {
            return Ok(ConsumeStep::EndOfStream);
        }
        self.waiter = true;
        proof {
            assert(final(self)@ =~= consume_next(old(self)@));
        }
        Ok(ConsumeStep::Pending)
    }

    /// Re-checks the queue after a wake: a woken drain-everything read takes
    /// whatever is queued, and an empty queue after a wake means the channel
    /// was closed, so the end of the stream is reported.
    pub fn consume_resume(&mut self) -> (r: ConsumeStep)
        ensures
            old(self)@.queue.len() > 0 ==> {
                &&& r matches ConsumeStep::Data(chunks) && chunks.deep_view() == old(self)@.queue
                &&& final(self)@ == (ChannelView { queue: Seq::empty(), ..old(self)@ })
            },
            old(self)@.queue.len() == 0 ==> r is EndOfStream && final(self)@ == old(self)@,
    {
        if self.buffer.len() > 0 {
            let chunks = self.drain_chunks();
            ConsumeStep::Data(chunks)
        } else {
            ConsumeStep::EndOfStream
        }
    }

    /// One step of a copy-into-buffer read towards the byte range
    /// `offset..offset + length`.  If data is queued, up to `length` bytes
    /// are drained and handed back at once; if the channel is drained and
    /// closed, the read completes with zero bytes; otherwise a waiter is
    /// attached and the caller must suspend until a write or close delivers
    /// the bytes as a [`Wake`].  Attaching a second waiter while one is
    /// outstanding is a contract violation and is rejected.
    pub fn read_promise(&mut self, offset: usize, length: usize) -> (r: Result<ReadStep, OsError>)
        ensures
            final(self)@ == read_next(old(self)@, ReadTarget { offset, length }),
            read_matches(r, read_outcome(old(self)@, ReadTarget { offset, length })),
    {
        if self.waiter {
            return Err(OsError::ChannelBusy);
        }
        let t = ReadTarget { offset, length };
        self.target = Some(t);
        if self.buffer.len() > 0 {
            let bytes = self.copy_to_target();
            proof {
                assert(final(self)@ =~= read_next(old(self)@, t));
            }
            return Ok(ReadStep::Ready(t, bytes));
        }
        if self.closed {
            proof {
                assert(final(self)@ =~= read_next(old(self)@, t));
            }
            return Ok(ReadStep::Closed);
        }
        self.waiter = true;
        proof {
            assert(final(self)@ =~= read_next(old(self)@, t));
        }
        Ok(ReadStep::Pending)
    }
}

/// The fd set a channel table is seeded with: stdin, stdout and stderr, all
/// freshly opened.
pub open spec fn seeded_channels() -> Map<u32, ChannelView> {
    Map::empty().insert(crate::STDIN, empty_channel()).insert(crate::STDOUT, empty_channel()).insert(
        crate::STDERR,
        empty_channel(),
    )
}

/// Asynchronous I/O with an infinite buffer: one channel per file
/// descriptor, with multiple producers and a single consumer per channel.
/// Once a producer closes a channel no more data can be sent on it.
pub struct AsyncIo {
    buffers: Table<AsyncBuffer>,
}

impl View for AsyncIo {
    type V = Map<u32, ChannelView>;

    closed spec fn view(&self) -> Map<u32, ChannelView> {
        self.buffers@
    }
}

impl AsyncIo {
    /// A channel table seeded with the conventional descriptors 0, 1 and 2.
    pub fn new() -> (r: Result<Self, OsError>)
        ensures
            r matches Ok(io) && io@ == seeded_channels(),
    {
        let mut buffers: Table<AsyncBuffer> = Table::new();
        buffers.insert(crate::STDIN, AsyncBuffer::new());
        buffers.insert(crate::STDOUT, AsyncBuffer::new());
        buffers.insert(crate::STDERR, AsyncBuffer::new());
        Ok(AsyncIo { buffers })
    }

    /// Opens a file descriptor.  The descriptor must not already be open; a
    /// descriptor that was closed and removed can be opened again.
    pub fn open(&mut self, fd: u32) -> (r: Result<(), OsError>)
        ensures
            old(self)@.contains_key(fd) ==> {
                &&& r == Err::<(), OsError>(OsError::AlreadyOpen)
                &&& final(self)@ == old(self)@
            },
            !old(self)@.contains_key(fd) ==> {
                &&& r == Ok::<(), OsError>(())
                &&& final(self)@ == old(self)@.insert(fd, empty_channel())
            },
    {
        if self.buffers.contains(fd) {
            return Err(OsError::AlreadyOpen);
        }
        self.buffers.insert(fd, AsyncBuffer::new());
        Ok(())
    }

    /// Writes `data` to the channel of `fd`, all or nothing, waking any
    /// attached consumer.  The descriptor must be open and the channel not
    /// yet closed.
    pub fn write(&mut self, fd: u32, data: Vec<u8>) -> (r: Result<
        (usize, Option<Wake>),
        OsError,
    >)
        ensures
            !old(self)@.contains_key(fd) ==> {
                &&& r == Err::<(usize, Option<Wake>), OsError>(OsError::NotOpen)
                &&& final(self)@ == old(self)@
            },
            old(self)@.contains_key(fd) && old(self)@[fd].closed ==> {
                &&& r == Err::<(usize, Option<Wake>), OsError>(OsError::ChannelClosed)
                &&& final(self)@ == old(self)@
            },
            old(self)@.contains_key(fd) && !old(self)@[fd].closed ==> {
                &&& r matches Ok((count, wake)) && count == data@.len() && wake_opt_view(wake)
                    == write_wake(old(self)@[fd], data@)
                &&& final(self)@ == old(self)@.insert(fd, write_next(old(self)@[fd], data@))
            },
    {
        match self.buffers.take(fd) {
            None => {
                proof {
                    assert(old(self)@.remove(fd) =~= old(self)@);
                }
                Err(OsError::NotOpen)
            },
            Some(mut buf) => {
                let res = buf.write(data);
                self.buffers.insert(fd, buf);
                proof {
                    assert(old(self)@.remove(fd).insert(fd, buf@) =~= old(self)@.insert(
                        fd,
                        buf@,
                    ));
                    if old(self)@[fd].closed {
                        assert(old(self)@.insert(fd, old(self)@[fd]) =~= old(self)@);
                    }
                }
                match res {
                    Ok((count, wake)) => Ok((count, wake)),
                    Err(e) => Err(e),
                }
            },
        }
    }

    /// Closes the channel of `fd`, waking any attached consumer with the
    /// end-of-stream signal, and removes the descriptor from the table.
    pub fn close(&mut self, fd: u32) -> (r: Result<Option<Wake>, OsError>)
        ensures
            !old(self)@.contains_key(fd) ==> {
                &&& r == Err::<Option<Wake>, OsError>(OsError::NotOpen)
                &&& final(self)@ == old(self)@
            },
            old(self)@.contains_key(fd) ==> {
                &&& r matches Ok(w) && wake_opt_view(w) == close_wake(old(self)@[fd])
                &&& final(self)@ == old(self)@.remove(fd)
            },
    {
        match self.buffers.take(fd) {
            None => {
                proof {
                    assert(old(self)@.remove(fd) =~= old(self)@);
                }
                Err(OsError::NotOpen)
            },
            Some(mut buf) => {
                let w = buf.close();
                Ok(w)
            },
        }
    }

    /// Closes every channel in place, waking each attached consumer.  The
    /// descriptors stay in the table so that consumers can still drain
    /// buffered data and then observe the end of the stream.  Returns, per
    /// woken descriptor, what its parked completion must be resolved with;
    /// the order of the pairs is not significant.
    pub fn close_all(&mut self) -> (r: Vec<(u32, Wake)>)
        ensures
            final(self)@.dom() == old(self)@.dom(),
            forall|fd: u32|
                old(self)@.contains_key(fd) ==> final(self)@[fd] == close_next(old(self)@[fd]),
            forall|i: int|
                0 <= i < r@.len() ==> old(self)@.contains_key(r@[i].0) && Some(r@[i].1@)
                    == close_wake(old(self)@[r@[i].0]),
            forall|fd: u32|
                old(self)@.contains_key(fd) && close_wake(old(self)@[fd]) is Some ==> exists|i: int|
                    0 <= i < r@.len() && r@[i].0 == fd,
            forall|i: int, j: int| 0 <= i < j < r@.len() ==> r@[i].0 != r@[j].0,
    {
        let ks = self.buffers.keys();
        let n = ks.len();
        let mut wakes: Vec<(u32, Wake)> = Vec::new();
        let mut i: usize = 0;
        while i < n
            invariant
                n == ks@.len(),
                0 <= i <= n,
                forall|k: u32| ks@.contains(k) <==> old(self)@.contains_key(k),
                forall|a: int, b: int| 0 <= a < b < ks@.len() ==> ks@[a] != ks@[b],
                self@.dom() == old(self)@.dom(),
                forall|j: int| 0 <= j < i ==> self@[ks@[j]] == close_next(old(self)@[ks@[j]]),
                forall|j: int| i <= j < n ==> self@[ks@[j]] == old(self)@[ks@[j]],
                forall|w: int|
                    0 <= w < wakes@.len() ==> old(self)@.contains_key(wakes@[w].0) && Some(
                        wakes@[w].1@,
                    ) == close_wake(old(self)@[wakes@[w].0]),
                forall|w: int| #![trigger wakes@[w]]
                    0 <= w < wakes@.len() ==> exists|j: int|
                        0 <= j < i && #[trigger] ks@[j] == wakes@[w].0,
                forall|j: int|
                    0 <= j < i && close_wake(old(self)@[ks@[j]]) is Some ==> exists|w: int|
                        0 <= w < wakes@.len() && wakes@[w].0 == ks@[j],
                forall|w1: int, w2: int|
                    0 <= w1 < w2 < wakes@.len() ==> wakes@[w1].0 != wakes@[w2].0,
            decreases n - i,
        {
            let ghost pre_map = self@;
            let ghost pre_wakes = wakes@;
            let fd = ks[i];
            proof {
                assert(ks@[i as int] == fd);
                assert(ks@.contains(fd));
            }
            match self.buffers.take(fd) {
                Some(mut buf) => {
                    proof {
                        assert(buf@ == old(self)@[ks@[i as int]]);
                    }
                    let w = buf.close();
                    self.buffers.insert(fd, buf);
                    proof {
                        assert(self@ == pre_map.remove(fd).insert(fd, buf@));
                        assert(self@.dom() =~= pre_map.dom());
                    }
                    if let Some(wake) = w {
                        wakes.push((fd, wake));
                    }
                    proof {
                        assert forall|j: int|
                            0 <= j <= i && close_wake(old(self)@[ks@[j]]) is Some implies exists|
                        w2: int,
                        | 0 <= w2 < wakes@.len() && wakes@[w2].0 == ks@[j] by {
                            if j < i {
                                let w2 = choose|w2: int|
                                    0 <= w2 < pre_wakes.len() && pre_wakes[w2].0 == ks@[j];
                                assert(wakes@[w2] == pre_wakes[w2]);
                                assert(0 <= w2 < wakes@.len() && wakes@[w2].0 == ks@[j]);
                            } else {
                                assert(wakes@.len() == pre_wakes.len() + 1);
                                assert(wakes@[wakes@.len() - 1].0 == ks@[j]);
                            }
                        }
                        assert forall|w2: int| #![trigger wakes@[w2]] 0 <= w2 < wakes@.len()
                            implies exists|j: int|
                            0 <= j < i + 1 && #[trigger] ks@[j] == wakes@[w2].0 by {
                            if w2 < pre_wakes.len() {
                                assert(wakes@[w2] == pre_wakes[w2]);
                                let j = choose|j: int| 0 <= j < i && ks@[j] == pre_wakes[w2].0;
                                assert(0 <= j < i + 1 && ks@[j] == wakes@[w2].0);
                            } else {
                                assert(0 <= i < i + 1 && ks@[i as int] == wakes@[w2].0);
                            }
                        }
                        assert forall|w1: int, w2: int|
                            0 <= w1 < w2 < wakes@.len() implies wakes@[w1].0 != wakes@[w2].0 by {
                            if w2 == wakes@.len() - 1 && wakes@.len() > pre_wakes.len() {
                                let j = choose|j: int| 0 <= j < i && ks@[j] == pre_wakes[w1].0;
                                assert(ks@[j] != ks@[i as int]);
                            }
                        }
                    }
                },
                None => {
                    proof {
                        assert(self@.contains_key(ks@[i as int]));
                        assert(false);
                    }
                },
            }
            i += 1;
        }
        proof {
            assert forall|fd: u32| old(self)@.contains_key(fd) implies self@[fd] == close_next(
                old(self)@[fd],
            ) by {
                assert(ks@.contains(fd));
                let j = choose|j: int| 0 <= j < ks@.len() && ks@[j] == fd;
                assert(self@[ks@[j]] == close_next(old(self)@[ks@[j]]));
            }
            assert forall|fd: u32|
                old(self)@.contains_key(fd) && close_wake(old(self)@[fd]) is Some implies exists|
                w: int,
            | 0 <= w < wakes@.len() && wakes@[w].0 == fd by {
                assert(ks@.contains(fd));
                let j = choose|j: int| 0 <= j < ks@.len() && ks@[j] == fd;
                assert(close_wake(old(self)@[ks@[j]]) is Some);
            }
        }
        wakes
    }

    /// One step of a drain-everything read on the channel of `fd`; see
    /// [`AsyncBuffer::consume_all`].
    pub fn consume_all(&mut self, fd: u32) -> (r: Result<ConsumeStep, OsError>)
        ensures
            !old(self)@.contains_key(fd) ==> {
                &&& r == Err::<ConsumeStep, OsError>(OsError::NotOpen)
                &&& final(self)@ == old(self)@
            },
            old(self)@.contains_key(fd) ==> {
                &&& consume_matches(r, consume_outcome(old(self)@[fd]))
                &&& final(self)@ == old(self)@.insert(fd, consume_next(old(self)@[fd]))
            },
    {
        match self.buffers.take(fd) {
            None => {
                proof {
                    assert(old(self)@.remove(fd) =~= old(self)@);
                }
                Err(OsError::NotOpen)
            },
            Some(mut buf) => {
                let r = buf.consume_all();
                self.buffers.insert(fd, buf);
                proof {
                    assert(old(self)@.remove(fd).insert(fd, buf@) =~= old(self)@.insert(
                        fd,
                        buf@,
                    ));
                }
                r
            },
        }
    }

    /// Re-checks the channel of `fd` after a wake; see
    /// [`AsyncBuffer::consume_resume`].
    pub fn consume_resume(&mut self, fd: u32) -> (r: Result<ConsumeStep, OsError>)
        ensures
            !old(self)@.contains_key(fd) ==> {
                &&& r == Err::<ConsumeStep, OsError>(OsError::NotOpen)
                &&& final(self)@ == old(self)@
            },
            old(self)@.contains_key(fd) && old(self)@[fd].queue.len() > 0 ==> {
                &&& r matches Ok(ConsumeStep::Data(chunks)) && chunks.deep_view()
                    == old(self)@[fd].queue
                &&& final(self)@ == old(self)@.insert(
                    fd,
                    ChannelView { queue: Seq::empty(), ..old(self)@[fd] },
                )
            },
            old(self)@.contains_key(fd) && old(self)@[fd].queue.len() == 0 ==> {
                &&& r == Ok::<ConsumeStep, OsError>(ConsumeStep::EndOfStream)
                &&& final(self)@ == old(self)@
            },
    {
        match self.buffers.take(fd) {
            None => {
                proof {
                    assert(old(self)@.remove(fd) =~= old(self)@);
                }
                Err(OsError::NotOpen)
            },
            Some(mut buf) => {
                let r = buf.consume_resume();
                self.buffers.insert(fd, buf);
                proof {
                    assert(old(self)@.remove(fd).insert(fd, buf@) =~= old(self)@.insert(
                        fd,
                        buf@,
                    ));
                    if old(self)@[fd].queue.len() == 0 {
                        assert(old(self)@.insert(fd, old(self)@[fd]) =~= old(self)@);
                    }
                }
                Ok(r)
            },
        }
    }

    /// One step of a copy-into-buffer read on the channel of `fd` towards
    /// the byte range `offset..offset + length`; see
    /// [`AsyncBuffer::read_promise`].
    pub fn read_promise(&mut self, fd: u32, offset: usize, length: usize) -> (r: Result<
        ReadStep,
        OsError,
    >)
        ensures
            !old(self)@.contains_key(fd) ==> {
                &&& r == Err::<ReadStep, OsError>(OsError::NotOpen)
                &&& final(self)@ == old(self)@
            },
            old(self)@.contains_key(fd) ==> {
                &&& read_matches(r, read_outcome(old(self)@[fd], ReadTarget { offset, length }))
                &&& final(self)@ == old(self)@.insert(
                    fd,
                    read_next(old(self)@[fd], ReadTarget { offset, length }),
                )
            },
    {
        match self.buffers.take(fd) {
            None => {
                proof {
                    assert(old(self)@.remove(fd) =~= old(self)@);
                }
                Err(OsError::NotOpen)
            },
            Some(mut buf) => {
                let r = buf.read_promise(offset, length);
                self.buffers.insert(fd, buf);
                proof {
                    assert(old(self)@.remove(fd).insert(fd, buf@) =~= old(self)@.insert(
                        fd,
                        buf@,
                    ));
                }
                r
            },
        }
    }
}

/// FIFO delivery: two writes to an idle channel (no waiter attached) queue
/// their payloads as two whole chunks in call order, and the
/// drain-everything read that follows returns exactly those chunks.  At the
/// byte level the payloads appear concatenated in call order, never
/// interleaved, split or reordered, whichever producer issued them.
pub proof fn lemma_writes_preserve_order(m: ChannelView, a: Seq<u8>, b: Seq<u8>)
    requires
        !m.closed,
        !m.waiter,
    ensures
        ({
            let after = write_next(write_next(m, a), b);
            &&& after.queue == m.queue.push(a).push(b)
            &&& consume_outcome(after) == ConsumeOutcome::Data(m.queue.push(a).push(b))
            &&& consume_next(after) == (ChannelView { queue: Seq::empty(), ..after })
            &&& after.queue.flatten() == m.queue.flatten() + a + b
        }),
{
    let m1 = write_next(m, a);
    assert(m1 == push_chunk(m, a));
    let after = write_next(m1, b);
    assert(after == push_chunk(m1, b));
    m.queue.lemma_flatten_push(a);
    m.queue.push(a).lemma_flatten_push(b);
    assert(after.queue.flatten() =~= m.queue.flatten() + a + b);
}

/// Closing an empty, unattached channel turns every following
/// drain-everything read into an immediate end-of-stream report: the first
/// read returns it without blocking and leaves the channel unchanged, and so
/// does every read after it.
pub proof fn lemma_close_then_consume(m: ChannelView)
    requires
        !m.waiter,
        m.queue.len() == 0,
    ensures
        consume_outcome(close_next(m)) == ConsumeOutcome::EndOfStream,
        consume_next(close_next(m)) == close_next(m),
        consume_outcome(consume_next(close_next(m))) == ConsumeOutcome::EndOfStream,
{
    assert(close_next(m) == mark_closed(m));
}

/// A copy-into-buffer read of capacity `cap` against one queued chunk longer
/// than `cap` copies exactly the first `cap` bytes and queues the unconsumed
/// remainder as the new head; a following read with enough capacity returns
/// exactly the remaining bytes, in order, none duplicated and none dropped.
pub proof fn lemma_read_into_split(c: Seq<u8>, cap: nat, cap2: nat)
    requires
        0 < cap < c.len(),
        c.len() - cap <= cap2,
    ensures
        copy_spec(seq![c], cap).0 == c.take(cap as int),
        copy_spec(seq![c], cap).1 == seq![c.skip(cap as int)],
        copy_spec(seq![c.skip(cap as int)], cap2).0 == c.skip(cap as int),
        copy_spec(seq![c.skip(cap as int)], cap2).1 == Seq::<Seq<u8>>::empty(),
        c.take(cap as int) + c.skip(cap as int) == c,
{
    let q = seq![c];
    assert(q.first() == c);
    assert(q.drop_first() =~= Seq::<Seq<u8>>::empty());
    assert(copy_spec(q, cap).1 =~= seq![c.skip(cap as int)]);
    let r = c.skip(cap as int);
    let q2 = seq![r];
    assert(q2.first() == r);
    assert(q2.drop_first() =~= Seq::<Seq<u8>>::empty());
    let rest_cap = (cap2 - r.len()) as nat;
    assert(copy_spec(Seq::<Seq<u8>>::empty(), rest_cap).0 == Seq::<u8>::empty());
    assert(copy_spec(Seq::<Seq<u8>>::empty(), rest_cap).1 == Seq::<Seq<u8>>::empty());
    assert(copy_spec(q2, cap2).0 =~= r);
    assert(copy_spec(q2, cap2).1 =~= Seq::<Seq<u8>>::empty());
    assert(c.take(cap as int) + c.skip(cap as int) =~= c);
}

/// The closed flag is monotonic: no read, wake or further close ever
/// reopens a closed channel.
pub proof fn lemma_closed_is_monotonic(m: ChannelView, t: ReadTarget)
    requires
        m.closed,
    ensures
        signal_next(m).closed,
        consume_next(m).closed,
        read_next(m, t).closed,
        close_next(m).closed,
{
}

} // verus!