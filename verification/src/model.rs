use vstd::prelude::*;
use crate::error::{LockPoisonError, StdioError};
use crate::protocol::{Op, Pending, Reply, Request, Slot, Step};

verus! {

/// `dest` with the bytes of `src` laid over it from position `at` on.
pub open spec fn splice(dest: Seq<u8>, at: int, src: Seq<u8>) -> Seq<u8> {
    Seq::new(
        dest.len(),
        |i: int|
            if at <= i < at + src.len() {
                src[i - at]
            } else {
                dest[i]
            },
    )
}

/// Whether `reply` is an outcome that the request of `p` can have.
pub open spec fn answers<E>(p: Pending, reply: Reply<E>) -> bool {
    match p.request {
        Request::Lock => reply is Locked || reply is Poisoned,
        Request::WriteBuffered | Request::WriteDirect => reply is Wrote || reply is Failed,
        Request::Fill { max } => (reply matches Reply::Filled(data) && data.len() <= max)
            || reply is Failed,
        Request::ReadDirect { from } => (reply matches Reply::Read(n) && from + n <= p.len)
            || reply is Failed,
    }
}

/// The state of a buffered stream: what its view is, and what the contracts
/// of its operations speak of.
pub ghost struct StreamView {
    /// The slot that the stream is bound to.
    pub slot: Slot,
    /// The size of each of the two buffers, fixed when the stream is made.
    pub capacity: usize,
    /// The bytes that were accepted and have not reached the resource yet.
    pub output: Seq<u8>,
    /// The bytes that came from the resource and were not handed out yet.
    pub input: Seq<u8>,
    /// Whether the stream holds the mutex of its slot.
    pub locked: bool,
    /// Whether the resource has signalled the end of the input.
    pub in_closed: bool,
    /// The operation that waits for the embedding, if there is one.
    pub pending: Option<Pending>,
}

impl StreamView {
    /// A stream as `new` makes it.
    pub open spec fn fresh(capacity: usize, slot: Slot) -> StreamView {
        StreamView {
            slot,
            capacity,
            output: Seq::empty(),
            input: Seq::empty(),
            locked: false,
            in_closed: false,
            pending: None,
        }
    }

    /// Whether `p` can be waiting in this state: the operation and its
    /// request belong together, the resource is asked for nothing while the
    /// mutex is free, and the request is one that the buffers call for.
    pub open spec fn admits(self, p: Pending) -> bool {
        match (p.op, p.request) {
            (Op::Pin, Request::Lock) => !self.locked && !p.transient,
            (Op::Flush, Request::Lock) => !self.locked && p.transient && self.output.len() > 0,
            (Op::Flush, Request::WriteBuffered) => self.locked && self.output.len() > 0,
            (Op::Write, Request::Lock) => {
                &&& !self.locked
                &&& p.transient
                &&& self.output.len() + p.len > self.capacity
            },
            (Op::Write, Request::WriteBuffered) => {
                &&& self.locked
                &&& self.output.len() > 0
                &&& self.output.len() + p.len > self.capacity
            },
            (Op::Write, Request::WriteDirect) => {
                &&& self.locked
                &&& self.output.len() == 0
                &&& p.len > self.capacity
            },
            (Op::Read, Request::Lock) => {
                &&& !self.locked
                &&& p.transient
                &&& !self.in_closed
                &&& self.input.len() == 0
                &&& p.done < p.len
            },
            (Op::Read, Request::Fill { max }) => {
                &&& self.locked
                &&& !self.in_closed
                &&& self.input.len() == 0
                &&& max == self.capacity
                &&& p.done < p.len <= p.done + self.capacity
            },
            (Op::Read, Request::ReadDirect { from }) => {
                &&& self.locked
                &&& !self.in_closed
                &&& self.input.len() == 0
                &&& from == p.done
                &&& p.done < p.len
            },
            _ => false,
        }
    }

    /// What holds of a stream between any two calls.
    pub open spec fn wf(self) -> bool {
        &&& self.output.len() <= self.capacity
        &&& self.input.len() <= self.capacity
        &&& self.in_closed ==> self.input.len() == 0
        &&& self.pending matches Some(p) ==> self.admits(p)
    }

    /// Whether no operation waits for the embedding.
    pub open spec fn is_idle(self) -> bool {
        self.pending is None
    }

    /// Whether operation `op` waits for an outcome that `reply` can be.
    pub open spec fn resumes<E>(self, op: Op, reply: Reply<E>) -> bool {
        self.pending matches Some(p) && p.op == op && answers(p, reply)
    }

    /// Whether the lock is held for the caller, and not only for the
    /// operation that waits.
    pub open spec fn pinned(self) -> bool {
        self.locked && (self.pending matches Some(p) ==> !p.transient)
    }

    /// The state with nothing waiting.
    pub open spec fn settled(self) -> StreamView {
        StreamView { pending: None, ..self }
    }

    /// The state at the end of an operation that went well: nothing waits,
    /// and a lock that the operation took for itself is given back.
    pub open spec fn finished(self, transient: bool) -> StreamView {
        StreamView { pending: None, locked: self.locked && !transient, ..self }
    }

    /// The state in which `p` waits.
    pub open spec fn waiting(self, p: Pending) -> StreamView {
        StreamView { pending: Some(p), ..self }
    }

    // ------------------------------------------------------------------
    // Locking
    // ------------------------------------------------------------------
    /// Pinning the lock: nothing to do where it is held, else the mutex is
    /// asked for.
    pub open spec fn lock_begin<E>(self) -> (StreamView, Step<(), E>) {
        (
            self.pinning(),
            if self.locked {
                Step::Done(Ok(()))
            } else {
                Step::Need(Request::Lock)
            },
        )
    }

    /// The state in which pinning the lock has begun: settled where the
    /// lock is held, else waiting for the mutex.
    pub open spec fn pinning(self) -> StreamView {
        if self.locked {
            self.settled()
        } else {
            self.waiting(
                Pending {
                    op: Op::Pin,
                    request: Request::Lock,
                    transient: false,
                    len: 0,
                    done: 0,
                },
            )
        }
    }

    /// Pinning the lock, once the mutex has answered.
    pub open spec fn lock_resume<E>(self, reply: Reply<E>) -> (StreamView, Step<(), E>) {
        match reply {
            Reply::Locked => (StreamView { locked: true, ..self }.settled(), Step::Done(Ok(()))),
            _ => (
                self.settled(),
                Step::Done(Err(StdioError::LockUnavailable(LockPoisonError))),
            ),
        }
    }

    /// Giving the lock back.
    pub open spec fn unlocked(self) -> StreamView {
        StreamView { locked: false, ..self }.settled()
    }

    // ------------------------------------------------------------------
    // Writing
    // ------------------------------------------------------------------
    /// The first decision of a write. Bytes that fit beside the buffered
    /// output join it, and the resource is left alone. Otherwise room has
    /// to be made, under the lock.
    pub open spec fn write_begin<E>(self, bytes: Seq<u8>) -> (StreamView, Step<usize, E>) {
        if self.output.len() + bytes.len() <= self.capacity {
            (
                StreamView { output: self.output + bytes, ..self }.settled(),
                Step::Done(Ok(bytes.len() as usize)),
            )
        } else if !self.locked {
            let p = Pending {
                op: Op::Write,
                request: Request::Lock,
                transient: true,
                len: bytes.len() as usize,
                done: 0,
            };
            (self.waiting(p), Step::Need(Request::Lock))
        } else {
            self.write_locked(bytes, false)
        }
    }

    /// A write that does not fit, with the lock held: buffered output goes
    /// out first.
    pub open spec fn write_locked<E>(self, bytes: Seq<u8>, transient: bool) -> (
        StreamView,
        Step<usize, E>,
    ) {
        if self.output.len() > 0 {
            let p = Pending {
                op: Op::Write,
                request: Request::WriteBuffered,
                transient,
                len: bytes.len() as usize,
                done: 0,
            };
            (self.waiting(p), Step::Need(Request::WriteBuffered))
        } else {
            self.write_flushed(bytes, transient)
        }
    }

    /// A write with the lock held and the buffer empty: bytes that are
    /// larger than the buffer go to the resource as they are, others are
    /// buffered.
    pub open spec fn write_flushed<E>(self, bytes: Seq<u8>, transient: bool) -> (
        StreamView,
        Step<usize, E>,
    ) {
        if bytes.len() > self.capacity {
            let p = Pending {
                op: Op::Write,
                request: Request::WriteDirect,
                transient,
                len: bytes.len() as usize,
                done: 0,
            };
            (self.waiting(p), Step::Need(Request::WriteDirect))
        } else {
            (
                StreamView { output: bytes, ..self }.finished(transient),
                Step::Done(Ok(bytes.len() as usize)),
            )
        }
    }

    /// A write, once the request it waited for has been answered.
    pub open spec fn write_resume<E>(self, bytes: Seq<u8>, reply: Reply<E>) -> (
        StreamView,
        Step<usize, E>,
    ) {
        let p = self.pending.unwrap();
        match reply {
            Reply::Locked => StreamView { locked: true, ..self }.write_locked(bytes, true),
            Reply::Wrote(n) => if p.request == Request::WriteDirect {
                (self.finished(p.transient), Step::Done(Ok(n)))
            } else if n == self.output.len() {
                StreamView { output: Seq::empty(), ..self }.write_flushed(bytes, p.transient)
            } else {
                (
                    self.settled(),
                    Step::Done(
                        Err(
                            StdioError::ShortWrite {
                                requested: self.output.len() as usize,
                                written: n,
                            },
                        ),
                    ),
                )
            },
            Reply::Failed(e) => (self.settled(), Step::Done(Err(StdioError::Io(e)))),
            _ => (
                self.settled(),
                Step::Done(Err(StdioError::LockUnavailable(LockPoisonError))),
            ),
        }
    }

    // ------------------------------------------------------------------
    // Flushing
    // ------------------------------------------------------------------
    /// The first decision of a flush: nothing to do for an empty buffer,
    /// else the buffered output goes out under the lock.
    pub open spec fn flush_begin<E>(self) -> (StreamView, Step<(), E>) {
        if self.output.len() == 0 {
            (self.settled(), Step::Done(Ok(())))
        } else {
            let p = Pending {
                op: Op::Flush,
                request: if self.locked {
                    Request::WriteBuffered
                } else {
                    Request::Lock
                },
                transient: !self.locked,
                len: 0,
                done: 0,
            };
            (self.waiting(p), Step::Need(p.request))
        }
    }

    /// A flush, once the request it waited for has been answered. The
    /// buffer is emptied only if the resource took all of it.
    pub open spec fn flush_resume<E>(self, reply: Reply<E>) -> (StreamView, Step<(), E>) {
        let p = self.pending.unwrap();
        match reply {
            Reply::Locked => {
                let q = Pending { request: Request::WriteBuffered, ..p };
                (StreamView { locked: true, ..self }.waiting(q), Step::Need(q.request))
            },
            Reply::Wrote(n) => if n == self.output.len() {
                (
                    StreamView { output: Seq::empty(), ..self }.finished(p.transient),
                    Step::Done(Ok(())),
                )
            } else {
                (
                    self.finished(p.transient),
                    Step::Done(
                        Err(
                            StdioError::ShortWrite {
                                requested: self.output.len() as usize,
                                written: n,
                            },
                        ),
                    ),
                )
            },
            Reply::Failed(e) => (self.settled(), Step::Done(Err(StdioError::Io(e)))),
            _ => (
                self.settled(),
                Step::Done(Err(StdioError::LockUnavailable(LockPoisonError))),
            ),
        }
    }

    // ------------------------------------------------------------------
    // Reading
    // ------------------------------------------------------------------
    /// The first decision of a read into `dest`. After the end of the input
    /// nothing is delivered and nothing is asked of the resource.
    pub open spec fn read_begin<E>(self, dest: Seq<u8>) -> (StreamView, Seq<u8>, Step<usize, E>) {
        if self.in_closed {
            (self.settled(), dest, Step::Done(Ok(0)))
        } else {
            self.settled().read_serve(dest, 0, false)
        }
    }

    /// A read that has filled `dest` up to `done`, served from the buffered
    /// input. If it holds all that is wanted, the read is over. Otherwise
    /// what it holds is delivered and the resource is asked for more.
    pub open spec fn read_serve<E>(self, dest: Seq<u8>, done: usize, transient: bool) -> (
        StreamView,
        Seq<u8>,
        Step<usize, E>,
    ) {
        let want = dest.len() - done;
        let have = self.input.len() as int;
        if want <= have {
            (
                StreamView { input: self.input.subrange(want, have), ..self }.finished(transient),
                splice(dest, done as int, self.input.subrange(0, want)),
                Step::Done(Ok(dest.len() as usize)),
            )
        } else {
            let (next, step) = StreamView { input: Seq::empty(), ..self }.read_fetch(
                dest.len() as usize,
                (done + have) as usize,
                transient,
            );
            (next, splice(dest, done as int, self.input), step)
        }
    }

    /// A read of `len` bytes that has delivered `done` of them and found
    /// the buffer empty. The resource is asked under the lock: straight
    /// into the destination if what is missing is larger than the buffer,
    /// into the buffer otherwise.
    pub open spec fn read_fetch<E>(self, len: usize, done: usize, transient: bool) -> (
        StreamView,
        Step<usize, E>,
    ) {
        let request = if !self.locked {
            Request::Lock
        } else if len - done > self.capacity {
            Request::ReadDirect { from: done }
        } else {
            Request::Fill { max: self.capacity }
        };
        let p = Pending {
            op: Op::Read,
            request,
            transient: transient || !self.locked,
            len,
            done,
        };
        (self.waiting(p), Step::Need(request))
    }

    /// A read, once the request it waited for has been answered. `dest` is
    /// the destination as the embedding left it.
    pub open spec fn read_resume<E>(self, dest: Seq<u8>, reply: Reply<E>) -> (
        StreamView,
        Seq<u8>,
        Step<usize, E>,
    ) {
        let p = self.pending.unwrap();
        match reply {
            Reply::Locked => {
                let (next, step) = StreamView { locked: true, ..self }.read_fetch(
                    p.len,
                    p.done,
                    true,
                );
                (next, dest, step)
            },
            Reply::Read(n) => if n == 0 {
                (
                    StreamView { in_closed: true, ..self }.finished(p.transient),
                    dest,
                    Step::Done(Ok(p.done)),
                )
            } else if p.done + n == p.len {
                (self.finished(p.transient), dest, Step::Done(Ok(p.len)))
            } else {
                let from = (p.done + n) as usize;
                let q = Pending { request: Request::ReadDirect { from }, done: from, ..p };
                (self.waiting(q), dest, Step::Need(q.request))
            },
            Reply::Filled(data) => if data.len() == 0 {
                (
                    StreamView { in_closed: true, ..self }.finished(p.transient),
                    dest,
                    Step::Done(Ok(p.done)),
                )
            } else {
                StreamView { input: data, ..self }.read_serve(dest, p.done, p.transient)
            },
            Reply::Failed(e) => (self.settled(), dest, Step::Done(Err(StdioError::Io(e)))),
            _ => (
                self.settled(),
                dest,
                Step::Done(Err(StdioError::LockUnavailable(LockPoisonError))),
            ),
        }
    }
}

} // verus!
