use vstd::prelude::*;
use crate::error::{LockPoisonError, StdioError};
use crate::model::{splice, StreamView};
use crate::protocol::{Event, Op, Pending, Request, Slot, Step};
use crate::unvec::UnVec;

verus! {

/// The size of the buffers of the streams that `stdin`, `stdout` and
/// `stderr` make.
pub const STDIO_NBUF: usize = 1024;

/// A caller's own buffered view of one standard stream.
///
/// The stream decides; its embedding acts. An operation that needs the
/// mutex or the resource of the slot returns `Step::Need` with a request, and
/// goes on when the embedding resumes it with the outcome.
pub struct StdioBuf {
    in_buf: UnVec,
    out_buf: Vec<u8>,
    cap: usize,
    slot: Slot,
    locked: bool,
    in_closed: bool,
    pending: Option<Pending>,
}

impl View for StdioBuf {
    type V = StreamView;

    closed spec fn view(&self) -> StreamView {
        StreamView {
            slot: self.slot,
            capacity: self.cap,
            output: self.out_buf@,
            input: self.in_buf@,
            locked: self.locked,
            in_closed: self.in_closed,
            pending: self.pending,
        }
    }
}

impl StdioBuf {
    /// Whether the input store is sound and as large as the stream says.
    pub closed spec fn store_ok(&self) -> bool {
        self.in_buf.wf() && self.in_buf.spec_capacity() == self.cap
    }

    /// What holds of a stream between any two calls.
    pub open spec fn wf(&self) -> bool {
        self.store_ok() && self@.wf()
    }

    /// A stream bound to `slot`, with two empty buffers of `nbuf` bytes and
    /// no lock held.
    pub fn new(nbuf: usize, slot: Slot) -> (s: StdioBuf)
        ensures
            s.wf(),
            s@ == StreamView::fresh(nbuf, slot),
    {
        StdioBuf {
            in_buf: UnVec::with_capacity(nbuf),
            out_buf: Vec::with_capacity(nbuf),
            cap: nbuf,
            slot,
            locked: false,
            in_closed: false,
            pending: None,
        }
    }

    /// Begins to pin the lock of the slot.
    pub fn lock_buf<E>(&mut self) -> (step: Step<(), E>)
        requires
            old(self).wf(),
        ensures
            final(self).wf(),
            (final(self)@, step) == old(self)@.lock_begin::<E>(),
    {
        if self.locked {
            self.pending = None;
            Step::Done(Ok(()))
        } else {
            self.pending = Some(
                Pending { op: Op::Pin, request: Request::Lock, transient: false, len: 0, done: 0 },
            );
            Step::Need(Request::Lock)
        }
    }

    /// Goes on with `lock_buf` once the mutex has answered.
    pub fn resume_lock<E>(&mut self, event: Event<E>) -> (step: Step<(), E>)
        requires
            old(self).wf(),
            old(self)@.resumes(Op::Pin, event@),
        ensures
            final(self).wf(),
            (final(self)@, step) == old(self)@.lock_resume(event@),
    {
        self.pending = None;
        match event {
            Event::Locked => {
                self.locked = true;
                Step::Done(Ok(()))
            },
            _ => Step::Done(Err(StdioError::LockUnavailable(LockPoisonError))),
        }
    }

    /// Begins to pin the lock of the slot and hands the stream back, for a
    /// caller that makes and locks its stream in one expression. Where the
    /// lock was not held, `pending` then shows the request for it.
    #[must_use]
    pub fn lock(self) -> (s: StdioBuf)
        requires
            self.wf(),
        ensures
            s.wf(),
            s@ == self@.pinning(),
    {
        let mut stream = self;
        if stream.locked {
            stream.pending = None;
        } else {
            stream.pending = Some(
                Pending { op: Op::Pin, request: Request::Lock, transient: false, len: 0, done: 0 },
            );
        }
        stream
    }

    /// Whether the stream holds the lock of its slot.
    pub fn is_locked(&self) -> (b: bool)
        ensures
            b == self@.locked,
    {
        self.locked
    }

    /// Gives the lock back if it is held. An operation that was waiting is
    /// given up.
    pub fn unlock_buf(&mut self)
        requires
            old(self).wf(),
        ensures
            final(self).wf(),
            final(self)@ == old(self)@.unlocked(),
    {
        self.locked = false;
        self.pending = None;
    }

    /// The operation that waits for the embedding, if there is one.
    pub fn pending(&self) -> (p: Option<Pending>)
        ensures
            p == self@.pending,
    {
        self.pending
    }

    /// The slot that the stream is bound to.
    pub fn slot(&self) -> (slot: Slot)
        ensures
            slot == self@.slot,
    {
        self.slot
    }

    /// The size of each of the two buffers.
    pub fn capacity(&self) -> (n: usize)
        ensures
            n == self@.capacity,
    {
        self.cap
    }

    /// The output that is buffered: what `Request::WriteBuffered` asks the
    /// embedding to write.
    pub fn buffered(&self) -> (bytes: &[u8])
        ensures
            bytes@ == self@.output,
    {
        self.out_buf.as_slice()
    }

    /// Hands out the memory of the input buffer, as zeros up to the
    /// capacity, while no input is buffered. An embedding that serves
    /// `Request::Fill` can read into it and hand it back in `Event::Filled`,
    /// cut to what was read, so that filling the buffer allocates nothing.
    pub fn fill_store(&mut self) -> (room: Vec<u8>)
        requires
            old(self).wf(),
            old(self)@.input.len() == 0,
        ensures
            final(self).wf(),
            final(self)@ == old(self)@,
            room@ == Seq::new(old(self)@.capacity as nat, |i: int| 0u8),
    {
        let room = self.in_buf.lend();
        assert(self.in_buf@ =~= old(self).in_buf@);
        room
    }

    /// How many bytes of input are buffered.
    pub fn available(&self) -> (n: usize)
        requires
            self.wf(),
        ensures
            n == self@.input.len(),
    {
        self.in_buf.len()
    }

    /// Whether operation `op` waits for an outcome that `event` can be:
    /// what resuming `op` with `event` asks of the stream and the event.
    pub fn awaits<E>(&self, op: Op, event: &Event<E>) -> (b: bool)
        ensures
            b == self@.resumes(op, event@),
    {
        match self.pending {
            None => false,
            Some(p) => {
                let same = match (p.op, op) {
                    (Op::Pin, Op::Pin) => true,
                    (Op::Flush, Op::Flush) => true,
                    (Op::Write, Op::Write) => true,
                    (Op::Read, Op::Read) => true,
                    _ => false,
                };
                let fits = match (p.request, event) {
                    (Request::Lock, Event::Locked) => true,
                    (Request::Lock, Event::Poisoned) => true,
                    (Request::WriteBuffered, Event::Wrote(_)) => true,
                    (Request::WriteBuffered, Event::Failed(_)) => true,
                    (Request::WriteDirect, Event::Wrote(_)) => true,
                    (Request::WriteDirect, Event::Failed(_)) => true,
                    (Request::Fill { max }, Event::Filled(data)) => data.len() <= max,
                    (Request::Fill { .. }, Event::Failed(_)) => true,
                    (Request::ReadDirect { from }, Event::Read(n)) => from <= p.len && *n <= p.len
                        - from,
                    (Request::ReadDirect { .. }, Event::Failed(_)) => true,
                    _ => false,
                };
                same && fits
            },
        }
    }

    /// Whether the resource has signalled the end of the input.
    pub fn is_closed(&self) -> (b: bool)
        ensures
            b == self@.in_closed,
    {
        self.in_closed
    }

    /// Begins a write of `bytes`.
    ///
    /// Bytes that fit beside the buffered output are buffered, and the write
    /// is over without a request. Otherwise the stream asks for the lock
    /// unless it holds it, then has its buffered output written, and then
    /// either buffers the bytes or, where they are larger than the buffer,
    /// has them written as they are.
    pub fn write<E>(&mut self, bytes: &[u8]) -> (step: Step<usize, E>)
        requires
            old(self).wf(),
        ensures
            final(self).wf(),
            (final(self)@, step) == old(self)@.write_begin::<E>(bytes@),
    {
        self.pending = None;
        if bytes.len() <= self.cap - self.out_buf.len() {
            self.out_buf.extend_from_slice(bytes);
            assert(self.out_buf@ =~= old(self).out_buf@ + bytes@);
            Step::Done(Ok(bytes.len()))
        } else if !self.locked {
            self.pending = Some(
                Pending {
                    op: Op::Write,
                    request: Request::Lock,
                    transient: true,
                    len: bytes.len(),
                    done: 0,
                },
            );
            Step::Need(Request::Lock)
        } else {
            self.write_locked(bytes, false)
        }
    }

    /// Goes on with a write of `bytes` once its request has been answered.
    ///
    /// A write that took the lock itself gives it back when it ends well. A
    /// failure of the resource ends the write and leaves the lock held.
    pub fn resume_write<E>(&mut self, bytes: &[u8], event: Event<E>) -> (step: Step<usize, E>)
        requires
            old(self).wf(),
            old(self)@.resumes(Op::Write, event@),
            old(self)@.pending.unwrap().len == bytes@.len(),
        ensures
            final(self).wf(),
            (final(self)@, step) == old(self)@.write_resume(bytes@, event@),
    {
        let p = self.pending.unwrap();
        self.pending = None;
        match event {
            Event::Locked => {
                self.locked = true;
                self.write_locked(bytes, true)
            },
            Event::Wrote(n) => match p.request {
                Request::WriteDirect => {
                    if p.transient {
                        self.locked = false;
                    }
                    Step::Done(Ok(n))
                },
                _ => if n == self.out_buf.len() {
                    self.out_buf.clear();
                    self.write_flushed(bytes, p.transient)
                } else {
                    Step::Done(
                        Err(StdioError::ShortWrite { requested: self.out_buf.len(), written: n }),
                    )
                },
            },
            Event::Failed(e) => Step::Done(Err(StdioError::Io(e))),
            _ => Step::Done(Err(StdioError::LockUnavailable(LockPoisonError))),
        }
    }

    fn write_locked<E>(&mut self, bytes: &[u8], transient: bool) -> (step: Step<usize, E>)
        requires
            old(self).wf(),
            old(self)@.is_idle(),
            old(self)@.locked,
            old(self)@.output.len() + bytes@.len() > old(self)@.capacity,
        ensures
            final(self).wf(),
            (final(self)@, step) == old(self)@.write_locked::<E>(bytes@, transient),
    {
        if self.out_buf.len() > 0 {
            self.pending = Some(
                Pending {
                    op: Op::Write,
                    request: Request::WriteBuffered,
                    transient,
                    len: bytes.len(),
                    done: 0,
                },
            );
            Step::Need(Request::WriteBuffered)
        } else {
            self.write_flushed(bytes, transient)
        }
    }

    fn write_flushed<E>(&mut self, bytes: &[u8], transient: bool) -> (step: Step<usize, E>)
        requires
            old(self).wf(),
            old(self)@.is_idle(),
            old(self)@.locked,
            old(self)@.output.len() == 0,
        ensures
            final(self).wf(),
            (final(self)@, step) == old(self)@.write_flushed::<E>(bytes@, transient),
    {
        if bytes.len() > self.cap {
            self.pending = Some(
                Pending {
                    op: Op::Write,
                    request: Request::WriteDirect,
                    transient,
                    len: bytes.len(),
                    done: 0,
                },
            );
            Step::Need(Request::WriteDirect)
        } else {
            self.out_buf.extend_from_slice(bytes);
            assert(self.out_buf@ =~= bytes@);
            if transient {
                self.locked = false;
            }
            Step::Done(Ok(bytes.len()))
        }
    }

    /// Begins a flush of the buffered output.
    ///
    /// With nothing buffered the flush is over at once. Otherwise the stream
    /// asks for the lock unless it holds it, and then has all of the buffered
    /// output written in one piece.
    pub fn flush<E>(&mut self) -> (step: Step<(), E>)
        requires
            old(self).wf(),
        ensures
            final(self).wf(),
            (final(self)@, step) == old(self)@.flush_begin::<E>(),
    {
        if self.out_buf.len() == 0 {
            self.pending = None;
            Step::Done(Ok(()))
        } else {
            let request = if self.locked {
                Request::WriteBuffered
            } else {
                Request::Lock
            };
            self.pending = Some(
                Pending { op: Op::Flush, request, transient: !self.locked, len: 0, done: 0 },
            );
            Step::Need(request)
        }
    }

    /// Goes on with a flush once its request has been answered.
    ///
    /// The buffer is emptied if the resource took all of it. If it took
    /// another number of bytes the flush fails with `ShortWrite` and the
    /// buffer stays as it was. Either way a lock that the flush took itself
    /// is given back. A failure of the resource leaves the lock held.
    pub fn resume_flush<E>(&mut self, event: Event<E>) -> (step: Step<(), E>)
        requires
            old(self).wf(),
            old(self)@.resumes(Op::Flush, event@),
        ensures
            final(self).wf(),
            (final(self)@, step) == old(self)@.flush_resume(event@),
    {
        let p = self.pending.unwrap();
        self.pending = None;
        match event {
            Event::Locked => {
                self.locked = true;
                self.pending = Some(
                    Pending {
                        op: p.op,
                        request: Request::WriteBuffered,
                        transient: p.transient,
                        len: p.len,
                        done: p.done,
                    },
                );
                Step::Need(Request::WriteBuffered)
            },
            Event::Wrote(n) => {
                if p.transient {
                    self.locked = false;
                }
                if n == self.out_buf.len() {
                    self.out_buf.clear();
                    Step::Done(Ok(()))
                } else {
                    Step::Done(
                        Err(StdioError::ShortWrite { requested: self.out_buf.len(), written: n }),
                    )
                }
            },
            Event::Failed(e) => Step::Done(Err(StdioError::Io(e))),
            _ => Step::Done(Err(StdioError::LockUnavailable(LockPoisonError))),
        }
    }

    /// Begins a read into `dest`.
    ///
    /// After the end of the input the read delivers nothing and asks for
    /// nothing. A destination that the buffered input can fill is filled
    /// from it, without a request. Otherwise the buffered input is delivered
    /// and the stream asks for the lock unless it holds it, and then for
    /// bytes: into the destination if what is missing is larger than the
    /// buffer, into the buffer otherwise.
    pub fn read<E>(&mut self, dest: &mut [u8]) -> (step: Step<usize, E>)
        requires
            old(self).wf(),
        ensures
            final(self).wf(),
            (final(self)@, final(dest)@, step) == old(self)@.read_begin::<E>(old(dest)@),
    {
        self.pending = None;
        if self.in_closed {
            Step::Done(Ok(0))
        } else {
            self.read_serve(dest, 0, false)
        }
    }

    /// Goes on with a read into `dest` once its request has been answered.
    ///
    /// A read straight into the destination goes on until the destination is
    /// full or the resource delivers nothing. A read into the buffer is
    /// served from the buffer again. The first read of the resource that
    /// delivers nothing closes the input, and the read ends with what it has
    /// delivered so far. A read that took the lock itself gives it back when
    /// it ends well; a failure of the resource leaves the lock held.
    pub fn resume_read<E>(&mut self, dest: &mut [u8], event: Event<E>) -> (step: Step<usize, E>)
        requires
            old(self).wf(),
            old(self)@.resumes(Op::Read, event@),
            old(self)@.pending.unwrap().len == old(dest)@.len(),
        ensures
            final(self).wf(),
            (final(self)@, final(dest)@, step) == old(self)@.read_resume(old(dest)@, event@),
    {
        let p = self.pending.unwrap();
        self.pending = None;
        match event {
            Event::Locked => {
                self.locked = true;
                self.read_fetch(p.len, p.done, true)
            },
            Event::Read(n) => {
                if n == 0 {
                    self.in_closed = true;
                    if p.transient {
                        self.locked = false;
                    }
                    Step::Done(Ok(p.done))
                } else if p.done + n == p.len {
                    if p.transient {
                        self.locked = false;
                    }
                    Step::Done(Ok(p.len))
                } else {
                    let request = Request::ReadDirect { from: p.done + n };
                    self.pending = Some(
                        Pending {
                            op: p.op,
                            request,
                            transient: p.transient,
                            len: p.len,
                            done: p.done + n,
                        },
                    );
                    Step::Need(request)
                }
            },
            Event::Filled(data) => {
                if data.len() == 0 {
                    self.in_closed = true;
                    if p.transient {
                        self.locked = false;
                    }
                    Step::Done(Ok(p.done))
                } else {
                    self.in_buf.refill(data);
                    self.read_serve(dest, p.done, p.transient)
                }
            },
            Event::Failed(e) => Step::Done(Err(StdioError::Io(e))),
            _ => Step::Done(Err(StdioError::LockUnavailable(LockPoisonError))),
        }
    }

    fn read_serve<E>(&mut self, dest: &mut [u8], done: usize, transient: bool) -> (step: Step<
        usize,
        E,
    >)
        requires
            old(self).wf(),
            old(self)@.is_idle(),
            !old(self)@.in_closed,
            done <= old(dest)@.len(),
            transient ==> old(self)@.locked,
        ensures
            final(self).wf(),
            (final(self)@, final(dest)@, step) == old(self)@.read_serve::<E>(
                old(dest)@,
                done,
                transient,
            ),
    {
        let want: usize = dest.len() - done;
        let have: usize = self.in_buf.len();
        let (_, rest) = dest.split_at_mut(done);
        if want <= have {
            self.in_buf.extract(rest);
            if transient {
                self.locked = false;
            }
            assert(dest@ =~= splice(
                old(dest)@,
                done as int,
                old(self)@.input.subrange(0, want as int),
            ));
            Step::Done(Ok(dest.len()))
        } else {
            let (head, _) = rest.split_at_mut(have);
            self.in_buf.extract(head);
            assert(dest@ =~= splice(old(dest)@, done as int, old(self)@.input));
            assert(self.in_buf@ =~= Seq::<u8>::empty());
            self.read_fetch(dest.len(), done + have, transient)
        }
    }

    fn read_fetch<E>(&mut self, len: usize, done: usize, transient: bool) -> (step: Step<usize, E>)
        requires
            old(self).wf(),
            old(self)@.is_idle(),
            !old(self)@.in_closed,
            old(self)@.input.len() == 0,
            done < len,
        ensures
            final(self).wf(),
            (final(self)@, step) == old(self)@.read_fetch::<E>(len, done, transient),
    {
        let request = if !self.locked {
            Request::Lock
        } else if len - done > self.cap {
            Request::ReadDirect { from: done }
        } else {
            Request::Fill { max: self.cap }
        };
        self.pending = Some(
            Pending { op: Op::Read, request, transient: transient || !self.locked, len, done },
        );
        Step::Need(request)
    }
}

/// A stream on the standard input with buffers of `nbuf` bytes.
pub fn stdin_with_nbuf(nbuf: usize) -> (s: StdioBuf)
    ensures
        s.wf(),
        s@ == StreamView::fresh(nbuf, Slot::Input),
{
    StdioBuf::new(nbuf, Slot::Input)
}

/// A stream on the standard output with buffers of `nbuf` bytes.
pub fn stdout_with_nbuf(nbuf: usize) -> (s: StdioBuf)
    ensures
        s.wf(),
        s@ == StreamView::fresh(nbuf, Slot::Output),
{
    StdioBuf::new(nbuf, Slot::Output)
}

/// A stream on the standard error with buffers of `nbuf` bytes.
pub fn stderr_with_nbuf(nbuf: usize) -> (s: StdioBuf)
    ensures
        s.wf(),
        s@ == StreamView::fresh(nbuf, Slot::Error),
{
    StdioBuf::new(nbuf, Slot::Error)
}

/// A stream on the standard input with buffers of the usual size.
pub fn stdin() -> (s: StdioBuf)
    ensures
        s.wf(),
        s@ == StreamView::fresh(STDIO_NBUF, Slot::Input),
{
    stdin_with_nbuf(STDIO_NBUF)
}

/// A stream on the standard output with buffers of the usual size.
pub fn stdout() -> (s: StdioBuf)
    ensures
        s.wf(),
        s@ == StreamView::fresh(STDIO_NBUF, Slot::Output),
{
    stdout_with_nbuf(STDIO_NBUF)
}

/// A stream on the standard error with buffers of the usual size.
pub fn stderr() -> (s: StdioBuf)
    ensures
        s.wf(),
        s@ == StreamView::fresh(STDIO_NBUF, Slot::Error),
{
    stderr_with_nbuf(STDIO_NBUF)
}

} // verus!
