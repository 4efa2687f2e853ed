use vstd::prelude::*;
use crate::error::StdioError;
use crate::model::{splice, StreamView};
use crate::protocol::{Reply, Request, Step};

verus! {

/// The smaller of two numbers.
pub open spec fn least(a: int, b: int) -> int {
    if a <= b {
        a
    } else {
        b
    }
}

/// The sum of the numbers in `sizes`.
pub open spec fn total(sizes: Seq<usize>) -> int
    decreases sizes.len(),
{
    if sizes.len() == 0 {
        0
    } else {
        total(sizes.drop_last()) + sizes.last()
    }
}

/// An embedding in which nothing goes wrong: the mutex is always granted,
/// the resource takes every write whole, and it delivers its input in order,
/// in pieces of whatever size it likes.
pub ghost struct World {
    /// The writes that have reached the resource, one entry for each.
    pub sink: Seq<Seq<u8>>,
    /// The input that the resource has not delivered yet.
    pub source: Seq<u8>,
    /// The most that each of the coming reads of the resource delivers, in
    /// their order. A read delivers at least one byte while input is left,
    /// and reads past the end of this list deliver all they can.
    pub bites: Seq<nat>,
    /// How often the mutex has been granted.
    pub locks: nat,
}

impl World {
    /// All bytes that have reached the resource, in the order of arrival.
    pub open spec fn received(self) -> Seq<u8> {
        self.sink.flatten()
    }

    /// The world of a reader at the other end: what this resource has
    /// received is the input there, delivered in pieces of `bites`.
    pub open spec fn looped(self, bites: Seq<nat>) -> World {
        World { sink: Seq::empty(), source: self.received(), bites, locks: 0 }
    }

    /// How many bytes a read delivers that has room for `room` bytes.
    pub open spec fn portion(self, room: int) -> int {
        let most = least(room, self.source.len() as int);
        if self.bites.len() == 0 {
            most
        } else if self.bites[0] == 0 {
            least(most, 1)
        } else {
            least(most, self.bites[0] as int)
        }
    }

    /// The world after one read that delivered the first `k` bytes of the
    /// input.
    pub open spec fn fed(self, k: int) -> World {
        World {
            source: self.source.subrange(k, self.source.len() as int),
            bites: if self.bites.len() == 0 {
                self.bites
            } else {
                self.bites.drop_first()
            },
            ..self
        }
    }

    /// Serves `request` for a stream in state `m`, on behalf of a caller with
    /// `bytes` to write or `dest` to read into. Gives the world and the
    /// destination after it, and the outcome to report.
    pub open spec fn serve<E>(
        self,
        m: StreamView,
        request: Request,
        bytes: Seq<u8>,
        dest: Seq<u8>,
    ) -> (World, Seq<u8>, Reply<E>) {
        match request {
            Request::Lock => (World { locks: self.locks + 1, ..self }, dest, Reply::Locked),
            Request::WriteBuffered => (
                World { sink: self.sink.push(m.output), ..self },
                dest,
                Reply::Wrote(m.output.len() as usize),
            ),
            Request::WriteDirect => (
                World { sink: self.sink.push(bytes), ..self },
                dest,
                Reply::Wrote(bytes.len() as usize),
            ),
            Request::Fill { max } => {
                let k = self.portion(max as int);
                (self.fed(k), dest, Reply::Filled(self.source.subrange(0, k)))
            },
            Request::ReadDirect { from } => {
                let k = self.portion(dest.len() - from);
                (
                    self.fed(k),
                    splice(dest, from as int, self.source.subrange(0, k)),
                    Reply::Read(k as usize),
                )
            },
        }
    }

    /// Pins the lock of a stream in this world.
    pub open spec fn run_lock<E>(self, m: StreamView) -> (
        StreamView,
        World,
        Result<(), StdioError<E>>,
    ) {
        match m.lock_begin::<E>() {
            (next, Step::Done(r)) => (next, self, r),
            (next, Step::Need(request)) => {
                let (world, _, reply) = self.serve::<E>(next, request, Seq::empty(), Seq::empty());
                match next.lock_resume(reply) {
                    (last, Step::Done(r)) => (last, world, r),
                    (last, _) => (last, world, Ok(())),
                }
            },
        }
    }

    /// Carries a flush on from `step` until it is over or `fuel` requests
    /// have been served.
    pub open spec fn flush_on<E>(self, m: StreamView, step: Step<(), E>, fuel: nat) -> (
        StreamView,
        World,
        Result<(), StdioError<E>>,
    )
        decreases fuel,
    {
        match step {
            Step::Done(r) => (m, self, r),
            Step::Need(request) => if fuel == 0 {
                (m, self, Ok(()))
            } else {
                let (world, _, reply) = self.serve::<E>(m, request, Seq::empty(), Seq::empty());
                let (next, then) = m.flush_resume(reply);
                world.flush_on(next, then, (fuel - 1) as nat)
            },
        }
    }

    /// Flushes a stream in this world: the lock and one write at most.
    pub open spec fn run_flush<E>(self, m: StreamView) -> (
        StreamView,
        World,
        Result<(), StdioError<E>>,
    ) {
        let (next, step) = m.flush_begin::<E>();
        self.flush_on(next, step, 2)
    }

    /// Carries a write of `bytes` on from `step` until it is over or `fuel`
    /// requests have been served.
    pub open spec fn write_on<E>(
        self,
        m: StreamView,
        bytes: Seq<u8>,
        step: Step<usize, E>,
        fuel: nat,
    ) -> (StreamView, World, Result<usize, StdioError<E>>)
        decreases fuel,
    {
        match step {
            Step::Done(r) => (m, self, r),
            Step::Need(request) => if fuel == 0 {
                (m, self, Ok(0))
            } else {
                let (world, _, reply) = self.serve::<E>(m, request, bytes, Seq::empty());
                let (next, then) = m.write_resume(bytes, reply);
                world.write_on(next, bytes, then, (fuel - 1) as nat)
            },
        }
    }

    /// Writes `bytes` to a stream in this world: the lock and two writes of
    /// the resource at most.
    pub open spec fn run_write<E>(self, m: StreamView, bytes: Seq<u8>) -> (
        StreamView,
        World,
        Result<usize, StdioError<E>>,
    ) {
        let (next, step) = m.write_begin::<E>(bytes);
        self.write_on(next, bytes, step, 3)
    }

    /// Writes the pieces of `chunks` to a stream in this world, one after
    /// the other.
    pub open spec fn run_writes<E>(self, m: StreamView, chunks: Seq<Seq<u8>>) -> (
        StreamView,
        World,
    )
        decreases chunks.len(),
    {
        if chunks.len() == 0 {
            (m, self)
        } else {
            let (before, world) = self.run_writes::<E>(m, chunks.drop_last());
            let (after, last, _) = world.run_write::<E>(before, chunks.last());
            (after, last)
        }
    }

    /// Carries a read into `dest` on from `step` until it is over or `fuel`
    /// requests have been served.
    pub open spec fn read_on<E>(
        self,
        m: StreamView,
        dest: Seq<u8>,
        step: Step<usize, E>,
        fuel: nat,
    ) -> (StreamView, World, Seq<u8>, Result<usize, StdioError<E>>)
        decreases fuel,
    {
        match step {
            Step::Done(r) => (m, self, dest, r),
            Step::Need(request) => if fuel == 0 {
                (m, self, dest, Ok(0))
            } else {
                let (world, filled, reply) = self.serve::<E>(m, request, Seq::empty(), dest);
                let (next, served, then) = m.read_resume(filled, reply);
                world.read_on(next, served, then, (fuel - 1) as nat)
            },
        }
    }

    /// Reads into `dest` from a stream in this world. Every read of the
    /// resource but the last delivers something, so the input that is left
    /// bounds their number.
    pub open spec fn run_read<E>(self, m: StreamView, dest: Seq<u8>) -> (
        StreamView,
        World,
        Seq<u8>,
        Result<usize, StdioError<E>>,
    ) {
        let (next, served, step) = m.read_begin::<E>(dest);
        self.read_on(next, served, step, self.source.len() + 2)
    }

    /// Reads from a stream in this world once for each entry of `sizes`,
    /// into a destination of that size, and gives the bytes that the reads
    /// delivered, in order.
    pub open spec fn run_reads<E>(self, m: StreamView, sizes: Seq<usize>) -> (
        StreamView,
        World,
        Seq<u8>,
    )
        decreases sizes.len(),
    {
        if sizes.len() == 0 {
            (m, self, Seq::empty())
        } else {
            let (before, world, got) = self.run_reads::<E>(m, sizes.drop_last());
            let blank = Seq::new(sizes.last() as nat, |i: int| 0u8);
            let (after, last, filled, r) = world.run_read::<E>(before, blank);
            let n = match r {
                Ok(n) => n,
                Err(_) => 0,
            };
            (after, last, got + filled.subrange(0, n as int))
        }
    }
}

} // verus!
