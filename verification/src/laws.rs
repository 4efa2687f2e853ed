use vstd::prelude::*;
use crate::error::{LockPoisonError, StdioError};
use crate::model::{splice, StreamView};
use crate::protocol::{Op, Reply, Request, Step};
use crate::world::{least, total, World};

verus! {

/// What every call keeps of the state `m` it found, in the state `next` it
/// leaves and the step it returns: the state is well formed, slot and
/// capacity are what they were, and a closed input stays closed. A request
/// is the one that the state waits for, and the resource is asked for
/// nothing unless the lock is held. Where the call found the lock held by
/// its caller, it does not ask for it and does not give it back.
pub open spec fn follows<T, E>(m: StreamView, next: StreamView, step: Step<T, E>) -> bool {
    &&& next.wf()
    &&& next.slot == m.slot
    &&& next.capacity == m.capacity
    &&& m.in_closed ==> next.in_closed
    &&& match step {
        Step::Need(request) => {
            &&& next.pending matches Some(p) && p.request == request
            &&& request is Lock || next.locked
        },
        Step::Done(_) => next.is_idle(),
    }
    &&& m.pinned() ==> next.pinned() && step != Step::<T, E>::Need(Request::Lock)
}

/// Whatever the embedding reports, every call leaves the stream as
/// `follows` says.
pub proof fn lemma_calls_keep_the_stream<E>(
    m: StreamView,
    bytes: Seq<u8>,
    dest: Seq<u8>,
    reply: Reply<E>,
)
    requires
        m.wf(),
        bytes.len() <= usize::MAX,
        dest.len() <= usize::MAX,
    ensures
        follows(m.settled(), m.lock_begin::<E>().0, m.lock_begin::<E>().1),
        follows(m.settled(), m.flush_begin::<E>().0, m.flush_begin::<E>().1),
        follows(m.settled(), m.write_begin::<E>(bytes).0, m.write_begin::<E>(bytes).1),
        follows(m.settled(), m.read_begin::<E>(dest).0, m.read_begin::<E>(dest).2),
        m.resumes(Op::Pin, reply) ==> follows(m, m.lock_resume(reply).0, m.lock_resume(reply).1),
        m.resumes(Op::Flush, reply) ==> follows(
            m,
            m.flush_resume(reply).0,
            m.flush_resume(reply).1,
        ),
        m.resumes(Op::Write, reply) && m.pending.unwrap().len == bytes.len() ==> follows(
            m,
            m.write_resume(bytes, reply).0,
            m.write_resume(bytes, reply).1,
        ),
        m.resumes(Op::Read, reply) && m.pending.unwrap().len == dest.len() ==> follows(
            m,
            m.read_resume(dest, reply).0,
            m.read_resume(dest, reply).2,
        ),
{
}

/// A write of bytes that fit beside the buffered output is over at once:
/// the bytes are buffered behind it and nothing is asked of the embedding.
pub proof fn lemma_fitting_write_is_buffered<E>(m: StreamView, bytes: Seq<u8>)
    requires
        m.wf(),
        m.output.len() + bytes.len() <= m.capacity,
    ensures
        m.write_begin::<E>(bytes) == (
            StreamView { output: m.output + bytes, pending: None, ..m },
            Step::<usize, E>::Done(Ok(bytes.len() as usize)),
        ),
{
}

/// Bytes that are larger than the buffer are never buffered. Whatever the
/// embedding reports, no call of such a write puts anything into the
/// buffer, and the write ends well only when the resource has answered the
/// request to take the bytes as they are, with the count that it reported.
pub proof fn lemma_large_write_is_not_buffered<E>(m: StreamView, bytes: Seq<u8>, reply: Reply<E>)
    requires
        m.wf(),
        m.capacity < bytes.len() <= usize::MAX,
    ensures
        ({
            let (next, step) = m.write_begin::<E>(bytes);
            &&& step is Need
            &&& next.output == m.output
        }),
        m.resumes(Op::Write, reply) && m.pending.unwrap().len == bytes.len() ==> ({
            let (next, step) = m.write_resume(bytes, reply);
            &&& next.output == m.output || next.output.len() == 0
            &&& step matches Step::Done(Ok(n)) ==> m.pending.unwrap().request
                == Request::WriteDirect && reply == Reply::<E>::Wrote(n)
        }),
{
}

/// A read that the buffered input can satisfy is over at once, and nothing
/// is asked of the embedding: the destination holds the front of the
/// buffered input, and the rest stays buffered.
pub proof fn lemma_read_from_buffer<E>(m: StreamView, dest: Seq<u8>)
    requires
        m.wf(),
        !m.in_closed,
        dest.len() <= m.input.len(),
    ensures
        m.read_begin::<E>(dest) == (
            StreamView {
                input: m.input.subrange(dest.len() as int, m.input.len() as int),
                pending: None,
                ..m
            },
            m.input.subrange(0, dest.len() as int),
            Step::<usize, E>::Done(Ok(dest.len() as usize)),
        ),
{
}

/// A read that ends with fewer bytes than its destination holds has seen
/// the end of the input, whatever the embedding reported: the input is
/// closed after it.
pub proof fn lemma_short_read_closes<E>(m: StreamView, dest: Seq<u8>, reply: Reply<E>)
    requires
        m.wf(),
        dest.len() <= usize::MAX,
    ensures
        ({
            let (next, _, step) = m.read_begin::<E>(dest);
            step matches Step::Done(Ok(n)) && n < dest.len() ==> next.in_closed
        }),
        m.resumes(Op::Read, reply) && m.pending.unwrap().len == dest.len() ==> ({
            let (next, _, step) = m.read_resume(dest, reply);
            step matches Step::Done(Ok(n)) && n < dest.len() ==> next.in_closed
        }),
{
}

/// After the end of the input every read is over at once: it delivers
/// nothing, asks nothing of the embedding, and leaves the destination and
/// the stream as they are.
pub proof fn lemma_closed_read_is_empty<E>(m: StreamView, dest: Seq<u8>)
    requires
        m.wf(),
        m.in_closed,
    ensures
        m.read_begin::<E>(dest) == (m.settled(), dest, Step::<usize, E>::Done(Ok(0))),
{
}

/// A failure of the resource ends the operation that asked, and reaches the
/// caller as it is. The buffers are what they were, and so is the lock: one
/// that the operation took stays held.
pub proof fn lemma_failure_is_handed_on<E>(m: StreamView, bytes: Seq<u8>, dest: Seq<u8>, e: E)
    requires
        m.wf(),
        m.pending is Some,
        !(m.pending.unwrap().request is Lock),
    ensures
        m.flush_resume(Reply::Failed(e)) == (
            m.settled(),
            Step::<(), E>::Done(Err(StdioError::Io(e))),
        ),
        m.write_resume(bytes, Reply::Failed(e)) == (
            m.settled(),
            Step::<usize, E>::Done(Err(StdioError::Io(e))),
        ),
        m.read_resume(dest, Reply::Failed(e)) == (
            m.settled(),
            dest,
            Step::<usize, E>::Done(Err(StdioError::Io(e))),
        ),
        m.settled().locked,
{
}

/// A poisoned mutex ends the operation that asked for it with
/// `LockUnavailable`. Nothing is buffered, written or read on the way, and
/// the stream does not hold the lock.
pub proof fn lemma_poison_stops_the_operation<E>(m: StreamView, bytes: Seq<u8>, dest: Seq<u8>)
    requires
        m.wf(),
        m.pending matches Some(p) && p.request is Lock,
    ensures
        ({
            let stop = StdioError::<E>::LockUnavailable(LockPoisonError);
            &&& m.lock_resume::<E>(Reply::Poisoned) == (m.settled(), Step::<(), E>::Done(Err(stop)))
            &&& m.flush_resume::<E>(Reply::Poisoned) == (
                m.settled(),
                Step::<(), E>::Done(Err(stop)),
            )
            &&& m.write_resume::<E>(bytes, Reply::Poisoned) == (
                m.settled(),
                Step::<usize, E>::Done(Err(stop)),
            )
            &&& m.read_resume::<E>(dest, Reply::Poisoned) == (
                m.settled(),
                dest,
                Step::<usize, E>::Done(Err(stop)),
            )
            &&& !m.settled().locked
        }),
{
}

/// A resource that does not take the whole buffer when it is flushed stops
/// the operation with `ShortWrite`, for a flush of its own and for the flush
/// within a write alike. The buffered output stays as it was: nothing is
/// dropped and nothing is tried again.
pub proof fn lemma_short_write_keeps_the_buffer<E>(m: StreamView, bytes: Seq<u8>, n: usize)
    requires
        m.wf(),
        m.pending matches Some(p) && p.request == Request::WriteBuffered,
        n != m.output.len(),
    ensures
        ({
            let short = StdioError::<E>::ShortWrite {
                requested: m.output.len() as usize,
                written: n,
            };
            let (flushed, step) = m.flush_resume::<E>(Reply::Wrote(n));
            let (written, then) = m.write_resume::<E>(bytes, Reply::Wrote(n));
            &&& step == Step::<(), E>::Done(Err(short))
            &&& then == Step::<usize, E>::Done(Err(short))
            &&& flushed.output == m.output
            &&& written.output == m.output
            &&& flushed.is_idle() && written.is_idle()
        }),
{
}

/// One write in a world where nothing goes wrong.
///
/// The write accepts all of `bytes` and leaves the lock as it found it.
/// Nothing is lost or reordered: what has reached the resource, followed by
/// what is buffered, is the same sequence as before with `bytes` at its end.
/// Bytes that fit into the buffer cause no write of the resource. Bytes that
/// are larger than the buffer reach the resource whole, in a write of their
/// own, after the output that was buffered before them. Other bytes that do
/// not fit push the buffered output out in one write and take its place.
pub proof fn lemma_run_write<E>(w: World, m: StreamView, bytes: Seq<u8>)
    requires
        m.wf(),
        bytes.len() <= usize::MAX,
    ensures
        ({
            let (next, world, r) = w.run_write::<E>(m, bytes);
            let fits = m.output.len() + bytes.len() <= m.capacity;
            let flushed = if m.output.len() > 0 {
                w.sink.push(m.output)
            } else {
                w.sink
            };
            &&& r == Ok::<usize, StdioError<E>>(bytes.len() as usize)
            &&& next.wf()
            &&& next.is_idle()
            &&& next.locked == m.locked
            &&& next.slot == m.slot
            &&& next.capacity == m.capacity
            &&& next.input == m.input
            &&& next.in_closed == m.in_closed
            &&& world.source == w.source
            &&& world.bites == w.bites
            &&& world.locks == w.locks + if fits || m.locked {
                0nat
            } else {
                1nat
            }
            &&& world.received() + next.output == w.received() + m.output + bytes
            &&& fits ==> world.sink == w.sink && next.output == m.output + bytes
            &&& !fits && bytes.len() <= m.capacity ==> world.sink == flushed && next.output
                == bytes
            &&& bytes.len() > m.capacity ==> world.sink == flushed.push(bytes)
                && next.output.len() == 0
        }),
{
    broadcast use Seq::lemma_flatten_push;

    reveal_with_fuel(World::write_on, 4);
}

/// One flush in a world where nothing goes wrong.
///
/// The flush ends well, leaves the buffer empty and the lock as it found
/// it. Buffered output reaches the resource in one write; with nothing
/// buffered the resource is not written to.
pub proof fn lemma_run_flush<E>(w: World, m: StreamView)
    requires
        m.wf(),
    ensures
        ({
            let (next, world, r) = w.run_flush::<E>(m);
            &&& r == Ok::<(), StdioError<E>>(())
            &&& next.wf()
            &&& next.is_idle()
            &&& next == StreamView { output: Seq::empty(), pending: None, ..m }
            &&& world.source == w.source
            &&& world.bites == w.bites
            &&& world.locks == w.locks + if m.output.len() == 0 || m.locked {
                0nat
            } else {
                1nat
            }
            &&& world.sink == if m.output.len() > 0 {
                w.sink.push(m.output)
            } else {
                w.sink
            }
            &&& world.received() == w.received() + m.output
        }),
{
    broadcast use Seq::lemma_flatten_push;

    reveal_with_fuel(World::flush_on, 3);
    let next = w.run_flush::<E>(m).0;
    assert(next.output =~= Seq::<u8>::empty());
}

/// A flush that follows a flush writes nothing: after the first one the
/// second ends at once, asks for nothing and changes nothing.
pub proof fn lemma_flush_twice<E>(w: World, m: StreamView)
    requires
        m.wf(),
    ensures
        ({
            let (next, world, _) = w.run_flush::<E>(m);
            &&& next.flush_begin::<E>() == (next, Step::<(), E>::Done(Ok(())))
            &&& world.run_flush::<E>(next) == (next, world, Ok::<(), StdioError<E>>(()))
        }),
{
    lemma_run_flush::<E>(w, m);
    reveal_with_fuel(World::flush_on, 3);
}

/// A flush that ends well, whatever the embedding reported, leaves nothing
/// buffered, so that the next flush ends at once without a request.
pub proof fn lemma_flush_after_flush<E>(m: StreamView, reply: Reply<E>)
    requires
        m.wf(),
        m.resumes(Op::Flush, reply),
        m.flush_resume(reply).1 == Step::<(), E>::Done(Ok(())),
    ensures
        ({
            let next = m.flush_resume(reply).0;
            &&& next.output.len() == 0
            &&& next.flush_begin::<E>() == (next, Step::<(), E>::Done(Ok(())))
        }),
{
}

/// A sequence of writes in a world where nothing goes wrong.
///
/// Nothing is lost or reordered: what has reached the resource, followed by
/// what is buffered, is the same sequence as before with all the pieces at
/// its end. While the pieces fit into the buffer together with what it held,
/// the resource is not written to.
pub proof fn lemma_run_writes<E>(w: World, m: StreamView, chunks: Seq<Seq<u8>>)
    requires
        m.wf(),
        forall|i: int| 0 <= i < chunks.len() ==> (#[trigger] chunks[i]).len() <= usize::MAX,
    ensures
        ({
            let (next, world) = w.run_writes::<E>(m, chunks);
            &&& next.wf()
            &&& next.is_idle() || chunks.len() == 0
            &&& next.locked == m.locked
            &&& next.slot == m.slot
            &&& next.capacity == m.capacity
            &&& next.input == m.input
            &&& next.in_closed == m.in_closed
            &&& world.source == w.source
            &&& world.bites == w.bites
            &&& m.locked ==> world.locks == w.locks
            &&& world.received() + next.output == w.received() + m.output + chunks.flatten()
            &&& m.output.len() + chunks.flatten().len() <= m.capacity ==> world.sink == w.sink
                && world.locks == w.locks && next.output == m.output + chunks.flatten()
        }),
    decreases chunks.len(),
{
    broadcast use Seq::lemma_flatten_push;

    if chunks.len() > 0 {
        let front = chunks.drop_last();
        let (before, mid) = w.run_writes::<E>(m, front);
        lemma_run_writes::<E>(w, m, front);
        lemma_run_write::<E>(mid, before, chunks.last());
        assert(chunks =~= front.push(chunks.last()));
    }
}

/// Writes followed by a flush deliver everything: in a world where nothing
/// goes wrong, the resource has then received what it had received before,
/// then what was buffered, then all the pieces, in order, and the buffer is
/// empty.
pub proof fn lemma_writes_then_flush<E>(w: World, m: StreamView, chunks: Seq<Seq<u8>>)
    requires
        m.wf(),
        forall|i: int| 0 <= i < chunks.len() ==> (#[trigger] chunks[i]).len() <= usize::MAX,
    ensures
        ({
            let (mid, world) = w.run_writes::<E>(m, chunks);
            let (next, last, r) = world.run_flush::<E>(mid);
            &&& r == Ok::<(), StdioError<E>>(())
            &&& next.output.len() == 0
            &&& last.received() == w.received() + m.output + chunks.flatten()
        }),
{
    let (mid, world) = w.run_writes::<E>(m, chunks);
    lemma_run_writes::<E>(w, m, chunks);
    lemma_run_flush::<E>(world, mid);
}

/// What a read leaves behind that began in state `m` and world `w` with
/// destination `dest`, where nothing goes wrong: the next bytes of the
/// input, buffered input first, are at the front of the destination, as
/// many as it can hold and as there are; the rest of the input is still to
/// come, in order; the input is closed if it was, or if it could not fill
/// the destination; and nothing else has changed.
pub open spec fn read_outcome<E>(
    m: StreamView,
    w: World,
    dest: Seq<u8>,
    out: (StreamView, World, Seq<u8>, Result<usize, StdioError<E>>),
) -> bool {
    let all = m.input + w.source;
    let n = if m.in_closed {
        0
    } else {
        least(dest.len() as int, all.len() as int)
    };
    &&& out.3 == Ok::<usize, StdioError<E>>(n as usize)
    &&& out.2 == splice(dest, 0, all.subrange(0, n))
    &&& out.0.input + out.1.source == all.subrange(n, all.len() as int)
    &&& out.0.in_closed == (m.in_closed || n < dest.len())
    &&& out.0.wf()
    &&& out.0.is_idle()
    &&& out.0.locked == m.locked
    &&& out.0.slot == m.slot
    &&& out.0.capacity == m.capacity
    &&& out.0.output == m.output
    &&& out.1.sink == w.sink
    &&& out.1.locks == w.locks + if m.in_closed || dest.len() <= m.input.len() || m.locked {
        0nat
    } else {
        1nat
    }
}

/// What holds while a read waits for `request` in state `m` and world `w`
/// with destination `dest`, seen from the state `m0`, world `w0` and
/// destination `dest0` in which it began: what was delivered so far is the
/// front of the input, and what the resource has left is the rest of it.
pub open spec fn reading(
    m: StreamView,
    w: World,
    dest: Seq<u8>,
    request: Request,
    m0: StreamView,
    w0: World,
    dest0: Seq<u8>,
) -> bool {
    let all = m0.input + w0.source;
    &&& m.wf()
    &&& !m0.in_closed
    &&& m.pending matches Some(p) && {
        &&& p.op == Op::Read
        &&& p.request == request
        &&& p.len == dest.len()
        &&& p.done <= all.len()
        &&& dest == splice(dest0, 0, all.subrange(0, p.done as int))
        &&& w.source == all.subrange(p.done as int, all.len() as int)
        &&& m0.locked == (m.locked && !p.transient)
    }
    &&& dest0.len() == dest.len()
    &&& m.slot == m0.slot
    &&& m.capacity == m0.capacity
    &&& m.output == m0.output
    &&& w.sink == w0.sink
    &&& dest0.len() > m0.input.len()
    &&& w.locks == w0.locks + if m.locked && !m0.locked {
        1nat
    } else {
        0nat
    }
}

/// Whether a read that stands at `step` is over as `read_outcome` says, or
/// waits for another request with `reading` intact.
pub open spec fn read_goes_on<E>(
    m: StreamView,
    w: World,
    dest: Seq<u8>,
    step: Step<usize, E>,
    m0: StreamView,
    w0: World,
    dest0: Seq<u8>,
) -> bool {
    match step {
        Step::Done(r) => read_outcome::<E>(m0, w0, dest0, (m, w, dest, r)),
        Step::Need(request) => reading(m, w, dest, request, m0, w0, dest0) && !(request is Lock),
    }
}

/// The lock is granted to a read that waits for it.
proof fn lemma_read_step_lock<E>(
    w: World,
    m: StreamView,
    dest: Seq<u8>,
    m0: StreamView,
    w0: World,
    dest0: Seq<u8>,
)
    requires
        reading(m, w, dest, Request::Lock, m0, w0, dest0),
    ensures
        ({
            let (world, filled, reply) = w.serve::<E>(m, Request::Lock, Seq::empty(), dest);
            let (next, served, then) = m.read_resume(filled, reply);
            &&& world.source == w.source
            &&& read_goes_on(next, world, served, then, m0, w0, dest0)
        }),
{
}

/// The buffer is filled for a read that waits for it.
proof fn lemma_read_step_fill<E>(
    w: World,
    m: StreamView,
    dest: Seq<u8>,
    max: usize,
    m0: StreamView,
    w0: World,
    dest0: Seq<u8>,
)
    requires
        reading(m, w, dest, Request::Fill { max }, m0, w0, dest0),
    ensures
        ({
            let (world, filled, reply) = w.serve::<E>(m, Request::Fill { max }, Seq::empty(), dest);
            let (next, served, then) = m.read_resume(filled, reply);
            &&& then is Need ==> world.source.len() < w.source.len()
            &&& read_goes_on(next, world, served, then, m0, w0, dest0)
        }),
{
    let p = m.pending.unwrap();
    let all = m0.input + w0.source;
    let done = p.done as int;
    let len = dest.len() as int;
    let (world, filled, reply) = w.serve::<E>(m, Request::Fill { max }, Seq::empty(), dest);
    let (next, served, then) = m.read_resume(filled, reply);
    let k = w.portion(max as int);
    if k == 0 {
        assert(next.input + world.source =~= all.subrange(done, all.len() as int));
    } else if len - done <= k {
        assert(served =~= splice(dest0, 0, all.subrange(0, len)));
        assert(next.input + world.source =~= all.subrange(len, all.len() as int));
    } else {
        assert(served =~= splice(dest0, 0, all.subrange(0, done + k)));
        assert(world.source =~= all.subrange(done + k, all.len() as int));
    }
}

/// The resource reads into the destination of a read that waits for it.
proof fn lemma_read_step_direct<E>(
    w: World,
    m: StreamView,
    dest: Seq<u8>,
    from: usize,
    m0: StreamView,
    w0: World,
    dest0: Seq<u8>,
)
    requires
        reading(m, w, dest, Request::ReadDirect { from }, m0, w0, dest0),
    ensures
        ({
            let (world, filled, reply) = w.serve::<E>(
                m,
                Request::ReadDirect { from },
                Seq::empty(),
                dest,
            );
            let (next, served, then) = m.read_resume(filled, reply);
            &&& then is Need ==> world.source.len() < w.source.len()
            &&& read_goes_on(next, world, served, then, m0, w0, dest0)
        }),
{
    let p = m.pending.unwrap();
    let all = m0.input + w0.source;
    let done = p.done as int;
    let len = dest.len() as int;
    let (world, filled, reply) = w.serve::<E>(
        m,
        Request::ReadDirect { from },
        Seq::empty(),
        dest,
    );
    let (next, served, then) = m.read_resume(filled, reply);
    let k = w.portion(len - done);
    if k == 0 {
        assert(filled =~= dest);
        assert(next.input + world.source =~= all.subrange(done, all.len() as int));
    } else if done + k == len {
        assert(served =~= splice(dest0, 0, all.subrange(0, len)));
        assert(next.input + world.source =~= all.subrange(len, all.len() as int));
    } else {
        assert(served =~= splice(dest0, 0, all.subrange(0, done + k)));
        assert(world.source =~= all.subrange(done + k, all.len() as int));
    }
}

/// The rest of a read that waits for `request`: it ends as `read_outcome`
/// says, if there is fuel for the input that is left.
proof fn lemma_read_on<E>(
    w: World,
    m: StreamView,
    dest: Seq<u8>,
    request: Request,
    fuel: nat,
    m0: StreamView,
    w0: World,
    dest0: Seq<u8>,
)
    requires
        reading(m, w, dest, request, m0, w0, dest0),
        fuel >= w.source.len() + if request is Lock {
            2nat
        } else {
            1nat
        },
    ensures
        read_outcome::<E>(m0, w0, dest0, w.read_on::<E>(m, dest, Step::Need(request), fuel)),
    decreases fuel,
{
    let (world, filled, reply) = w.serve::<E>(m, request, Seq::empty(), dest);
    let (next, served, then) = m.read_resume(filled, reply);
    let rest = (fuel - 1) as nat;
    match request {
        Request::Lock => lemma_read_step_lock::<E>(w, m, dest, m0, w0, dest0),
        Request::Fill { max } => lemma_read_step_fill::<E>(w, m, dest, max, m0, w0, dest0),
        Request::ReadDirect { from } => lemma_read_step_direct::<E>(
            w,
            m,
            dest,
            from,
            m0,
            w0,
            dest0,
        ),
        _ => {},
    }
    match then {
        Step::Done(r) => {
            assert(world.read_on(next, served, then, rest) == (next, world, served, r));
        },
        Step::Need(again) => {
            lemma_read_on::<E>(world, next, served, again, rest, m0, w0, dest0);
        },
    }
}

/// One read in a world where nothing goes wrong.
///
/// The read delivers the next bytes of the input in order, buffered input
/// first: as many as the destination holds, or all that are left if they
/// are fewer. It closes the input exactly if it could not fill the
/// destination. After the end of the input it delivers nothing. The lock
/// is left as it was found and the output is not touched.
pub proof fn lemma_run_read<E>(w: World, m: StreamView, dest: Seq<u8>)
    requires
        m.wf(),
        dest.len() <= usize::MAX,
    ensures
        read_outcome::<E>(m, w, dest, w.run_read::<E>(m, dest)),
{
    let all = m.input + w.source;
    let (next, served, step) = m.read_begin::<E>(dest);
    let fuel = w.source.len() + 2;
    reveal_with_fuel(World::read_on, 1);
    if m.in_closed {
        assert(served =~= splice(dest, 0, all.subrange(0, 0)));
        assert(next.input + w.source =~= all.subrange(0, all.len() as int));
    } else if dest.len() <= m.input.len() {
        let n = dest.len() as int;
        assert(served =~= splice(dest, 0, all.subrange(0, n)));
        assert(next.input + w.source =~= all.subrange(n, all.len() as int));
    } else {
        let have = m.input.len() as int;
        assert(served =~= splice(dest, 0, all.subrange(0, have)));
        assert(w.source =~= all.subrange(have, all.len() as int));
        lemma_read_on::<E>(w, next, served, step->Need_0, fuel, m, w, dest);
    }
}

/// The end of the input is final. In a world where nothing goes wrong, let
/// a read end with fewer bytes than its destination holds. Then every later
/// read delivers nothing and leaves the stream, the world and its
/// destination as they are: the resource is not asked again.
pub proof fn lemma_end_of_input_is_final<E>(
    w: World,
    m: StreamView,
    dest: Seq<u8>,
    later: Seq<u8>,
)
    requires
        m.wf(),
        dest.len() <= usize::MAX,
        w.run_read::<E>(m, dest).3 matches Ok(n) && n < dest.len(),
    ensures
        ({
            let (next, world, _, _) = w.run_read::<E>(m, dest);
            &&& next.in_closed
            &&& next.read_begin::<E>(later) == (next, later, Step::<usize, E>::Done(Ok(0)))
            &&& world.run_read::<E>(next, later) == (
                next,
                world,
                later,
                Ok::<usize, StdioError<E>>(0),
            )
        }),
{
    lemma_run_read::<E>(w, m, dest);
    reveal_with_fuel(World::read_on, 1);
}

/// A sequence of reads in a world where nothing goes wrong.
///
/// However the reads are sized, and in whatever pieces the resource
/// delivers its input, together they deliver the front of the input in
/// order, buffered input first: as many bytes as they ask for in all, or all
/// that are left if they are fewer. The rest of the input is still to come.
pub proof fn lemma_run_reads<E>(w: World, m: StreamView, sizes: Seq<usize>)
    requires
        m.wf(),
        m.in_closed ==> w.source.len() == 0,
    ensures
        ({
            let (next, world, got) = w.run_reads::<E>(m, sizes);
            let all = m.input + w.source;
            let n = least(total(sizes), all.len() as int);
            &&& 0 <= n
            &&& got == all.subrange(0, n)
            &&& next.input + world.source == all.subrange(n, all.len() as int)
            &&& next.in_closed ==> world.source.len() == 0
            &&& next.wf()
            &&& next.locked == m.locked
            &&& next.output == m.output
            &&& world.sink == w.sink
            &&& m.locked ==> world.locks == w.locks
        }),
    decreases sizes.len(),
{
    if sizes.len() > 0 {
        let front = sizes.drop_last();
        let (before, mid, _) = w.run_reads::<E>(m, front);
        lemma_run_reads::<E>(w, m, front);
        let blank = Seq::new(sizes.last() as nat, |i: int| 0u8);
        lemma_run_read::<E>(mid, before, blank);
    }
}

/// What is written can be read back. In a world where nothing goes wrong,
/// let a stream with nothing buffered write the pieces of `chunks` to a
/// resource that has received nothing yet, and flush. Let another stream,
/// with nothing buffered and its input open, read from what that resource
/// received, in whatever pieces the resource delivers it. Then the reads
/// deliver the written bytes in order, however the writes and the reads are
/// sized: all of them if the reads ask for as many.
pub proof fn lemma_round_trip<E>(
    w: World,
    writer: StreamView,
    chunks: Seq<Seq<u8>>,
    bites: Seq<nat>,
    reader: StreamView,
    sizes: Seq<usize>,
)
    requires
        writer.wf(),
        writer.output.len() == 0,
        w.received().len() == 0,
        forall|i: int| 0 <= i < chunks.len() ==> (#[trigger] chunks[i]).len() <= usize::MAX,
        reader.wf(),
        reader.input.len() == 0,
        !reader.in_closed,
    ensures
        ({
            let (mid, world) = w.run_writes::<E>(writer, chunks);
            let (_, last, _) = world.run_flush::<E>(mid);
            let (_, _, got) = last.looped(bites).run_reads::<E>(reader, sizes);
            let written = chunks.flatten();
            &&& got == written.subrange(0, least(total(sizes), written.len() as int))
            &&& total(sizes) >= written.len() ==> got == written
        }),
{
    let (mid, world) = w.run_writes::<E>(writer, chunks);
    let (_, last, _) = world.run_flush::<E>(mid);
    lemma_writes_then_flush::<E>(w, writer, chunks);
    lemma_run_reads::<E>(last.looped(bites), reader, sizes);
}

/// Pinning the lock in a world where nothing goes wrong: the stream holds
/// the lock afterwards, and the mutex was asked for only if the stream did
/// not hold it before.
pub proof fn lemma_run_lock<E>(w: World, m: StreamView)
    requires
        m.wf(),
    ensures
        ({
            let (next, world, r) = w.run_lock::<E>(m);
            &&& r == Ok::<(), StdioError<E>>(())
            &&& next == StreamView { locked: true, pending: None, ..m }
            &&& next.wf()
            &&& world == World { locks: w.locks + if m.locked {
                0nat
            } else {
                1nat
            }, ..w }
        }),
{
}

/// One lock for a whole sequence. In a world where nothing goes wrong, a
/// stream that pins the lock and then writes the pieces of `chunks` and
/// flushes holds the lock to the end, and the mutex is granted to it once at
/// most: the resource receives what was buffered and all the pieces, in
/// order, under that one lock.
pub proof fn lemma_locked_sequence<E>(w: World, m: StreamView, chunks: Seq<Seq<u8>>)
    requires
        m.wf(),
        forall|i: int| 0 <= i < chunks.len() ==> (#[trigger] chunks[i]).len() <= usize::MAX,
    ensures
        ({
            let (held, first, _) = w.run_lock::<E>(m);
            let (mid, world) = first.run_writes::<E>(held, chunks);
            let (next, last, _) = world.run_flush::<E>(mid);
            &&& held.locked && mid.locked && next.locked
            &&& last.locks == first.locks
            &&& last.locks <= w.locks + 1
            &&& last.received() == w.received() + m.output + chunks.flatten()
        }),
{
    let (held, first, _) = w.run_lock::<E>(m);
    let (mid, world) = first.run_writes::<E>(held, chunks);
    lemma_run_lock::<E>(w, m);
    lemma_run_writes::<E>(first, held, chunks);
    lemma_run_flush::<E>(world, mid);
}

} // verus!
