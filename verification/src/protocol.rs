use vstd::prelude::*;
use crate::error::StdioError;

verus! {

/// One of the three process-wide standard streams.
#[derive(Debug, Clone, Copy, PartialEq, Eq)]
pub enum Slot {
    /// The standard input.
    Input,
    /// The standard output.
    Output,
    /// The standard error.
    Error,
}

impl Slot {
    /// The position of the slot in the registry of standard streams.
    pub open spec fn spec_index(self) -> usize {
        match self {
            Slot::Input => 0,
            Slot::Output => 1,
            Slot::Error => 2,
        }
    }

    /// The position of the slot in the registry of standard streams.
    #[verifier::when_used_as_spec(spec_index)]
    pub fn index(self) -> (i: usize)
        ensures
            i == self.spec_index(),
    {
        match self {
            Slot::Input => 0,
            Slot::Output => 1,
            Slot::Error => 2,
        }
    }

    /// The slot at position `i`, if there is one.
    pub fn from_index(i: usize) -> (slot: Option<Slot>)
        ensures
            i < 3 <==> slot is Some,
            slot matches Some(s) ==> s.spec_index() == i,
    {
        if i == 0 {
            Some(Slot::Input)
        } else if i == 1 {
            Some(Slot::Output)
        } else if i == 2 {
            Some(Slot::Error)
        } else {
            None
        }
    }
}

/// What a stream asks its embedding to do with the slot it is bound to.
#[derive(Debug, Clone, Copy, PartialEq, Eq)]
pub enum Request {
    /// Block until the mutex of the slot is held, and keep it.
    Lock,
    /// Hand the whole buffered output to the resource in one write.
    WriteBuffered,
    /// Hand the caller's bytes to the resource in one write.
    WriteDirect,
    /// Read once from the resource, at most `max` bytes.
    Fill { max: usize },
    /// Read once from the resource into the caller's destination, starting
    /// at position `from`.
    ReadDirect { from: usize },
}

/// Where an operation stands after a call.
#[derive(Debug, PartialEq, Eq)]
pub enum Step<T, E> {
    /// The embedding has to serve the request and resume the operation with
    /// the outcome.
    Need(Request),
    /// The operation is over.
    Done(Result<T, StdioError<E>>),
}

/// The outcome of a request, as the embedding reports it.
#[derive(Debug, PartialEq, Eq)]
pub enum Event<E> {
    /// The mutex is held now.
    Locked,
    /// The mutex is poisoned.
    Poisoned,
    /// The resource reported that it took this many bytes.
    Wrote(usize),
    /// The bytes that one read for `Request::Fill` produced; none at the end
    /// of the input.
    Filled(Vec<u8>),
    /// The resource put this many bytes into the destination; zero at the
    /// end of the input.
    Read(usize),
    /// The resource reported a failure.
    Failed(E),
}

/// The view of an [`Event`]: the same outcome, with the bytes of a fill as a
/// sequence.
pub ghost enum Reply<E> {
    Locked,
    Poisoned,
    Wrote(usize),
    Filled(Seq<u8>),
    Read(usize),
    Failed(E),
}

impl<E> View for Event<E> {
    type V = Reply<E>;

    open spec fn view(&self) -> Reply<E> {
        match *self {
            Event::Locked => Reply::Locked,
            Event::Poisoned => Reply::Poisoned,
            Event::Wrote(n) => Reply::Wrote(n),
            Event::Filled(data) => Reply::Filled(data@),
            Event::Read(n) => Reply::Read(n),
            Event::Failed(e) => Reply::Failed(e),
        }
    }
}

/// The operations that may wait for the embedding.
#[derive(Debug, Clone, Copy, PartialEq, Eq)]
pub enum Op {
    /// Taking the lock, to keep it.
    Pin,
    /// Writing the buffered output out.
    Flush,
    /// Accepting bytes.
    Write,
    /// Delivering bytes.
    Read,
}

/// An operation that waits for the outcome of a request.
#[derive(Debug, Clone, Copy, PartialEq, Eq)]
pub struct Pending {
    /// The operation that was begun.
    pub op: Op,
    /// What it waits for.
    pub request: Request,
    /// Whether the operation took the lock itself and gives it back at its
    /// end.
    pub transient: bool,
    /// The length of the caller's bytes or destination.
    pub len: usize,
    /// How much of the destination a read has filled so far.
    pub done: usize,
}

} // verus!
