use vstd::prelude::*;
use crate::laws::lemma_calls_keep_the_stream;
use crate::model::StreamView;
use crate::protocol::{Op, Reply, Request};

verus! {

/// What a thread may do next with its stream.
pub ghost enum Move {
    /// Begin to pin the lock.
    Lock,
    /// Give the lock back.
    Unlock,
    /// Begin a write of these bytes.
    Write(Seq<u8>),
    /// Begin a flush.
    Flush,
    /// Have the request served that the stream waits for, and resume. For a
    /// write these are its bytes.
    Serve(Seq<u8>),
}

/// Several threads, each with a stream of its own, on one slot: one mutex
/// and one resource for all of them, and nothing goes wrong.
pub ghost struct Shared {
    /// The stream of each thread.
    pub streams: Seq<StreamView>,
    /// The thread that holds the mutex, if one does.
    pub holder: Option<int>,
    /// The writes that have reached the resource, each with the thread that
    /// made it.
    pub sink: Seq<(int, Seq<u8>)>,
}

impl Shared {
    /// The mutex is held by the thread whose stream says so, and by no
    /// other.
    pub open spec fn wf(self) -> bool {
        forall|i: int|
            0 <= i < self.streams.len() ==> {
                &&& (#[trigger] self.streams[i]).wf()
                &&& self.streams[i].locked <==> self.holder == Some(i)
            }
    }

    /// Whether thread `who` can make move `mv` now. A thread that waits for
    /// the mutex cannot go on while another one holds it; reading is left
    /// out.
    pub open spec fn enabled(self, who: int, mv: Move) -> bool {
        &&& 0 <= who < self.streams.len()
        &&& match mv {
            Move::Write(bytes) => bytes.len() <= usize::MAX,
            Move::Serve(bytes) => self.streams[who].pending matches Some(p) && {
                &&& p.op != Op::Read
                &&& p.op == Op::Write ==> bytes.len() == p.len
                &&& p.request is Lock ==> self.holder is None
            },
            _ => true,
        }
    }

    /// The stream of thread `who` after move `mv`.
    pub open spec fn moved(self, who: int, mv: Move) -> StreamView {
        let m = self.streams[who];
        match mv {
            Move::Lock => m.lock_begin::<()>().0,
            Move::Unlock => m.unlocked(),
            Move::Write(bytes) => m.write_begin::<()>(bytes).0,
            Move::Flush => m.flush_begin::<()>().0,
            Move::Serve(bytes) => {
                let p = m.pending.unwrap();
                let reply = match p.request {
                    Request::WriteBuffered => Reply::<()>::Wrote(m.output.len() as usize),
                    Request::WriteDirect => Reply::<()>::Wrote(bytes.len() as usize),
                    _ => Reply::<()>::Locked,
                };
                match p.op {
                    Op::Pin => m.lock_resume(reply).0,
                    Op::Flush => m.flush_resume(reply).0,
                    _ => m.write_resume(bytes, reply).0,
                }
            },
        }
    }

    /// What move `mv` of thread `who` hands to the resource, if anything.
    pub open spec fn handed(self, who: int, mv: Move) -> Option<Seq<u8>> {
        match (mv, self.streams[who].pending) {
            (Move::Serve(bytes), Some(p)) => match p.request {
                Request::WriteBuffered => Some(self.streams[who].output),
                Request::WriteDirect => Some(bytes),
                _ => None,
            },
            _ => None,
        }
    }

    /// The system after thread `who` has tried move `mv`. A move that the
    /// thread cannot make changes nothing. The mutex goes to a stream when
    /// its request for it is served, and is free again as soon as the stream
    /// does not hold the lock any more.
    pub open spec fn step(self, who: int, mv: Move) -> Shared {
        if !self.enabled(who, mv) {
            self
        } else {
            let next = self.moved(who, mv);
            Shared {
                streams: self.streams.update(who, next),
                holder: if next.locked {
                    Some(who)
                } else if self.holder == Some(who) {
                    None
                } else {
                    self.holder
                },
                sink: match self.handed(who, mv) {
                    Some(bytes) => self.sink.push((who, bytes)),
                    None => self.sink,
                },
            }
        }
    }

    /// The system after the threads have tried `moves`, in this order.
    pub open spec fn run(self, moves: Seq<(int, Move)>) -> Shared
        decreases moves.len(),
    {
        if moves.len() == 0 {
            self
        } else {
            self.run(moves.drop_last()).step(moves.last().0, moves.last().1)
        }
    }
}

/// One move under the mutex. Whatever a thread tries, the mutex stays with
/// the one stream that holds the lock, and the streams of the other threads
/// are not touched. Nothing reaches the resource but from the thread that
/// holds the mutex, one write at most.
pub proof fn lemma_step_keeps_the_mutex(s: Shared, who: int, mv: Move)
    requires
        s.wf(),
    ensures
        ({
            let t = s.step(who, mv);
            &&& t.wf()
            &&& t.streams.len() == s.streams.len()
            &&& forall|j: int| 0 <= j < s.streams.len() && j != who ==> t.streams[j] == s.streams[j]
            &&& t.sink == s.sink || (s.holder == Some(who) && exists|bytes: Seq<u8>|
                t.sink == s.sink.push((who, bytes)))
            &&& 0 <= who < s.streams.len() && s.streams[who].pinned() && !(mv is Unlock)
                ==> t.streams[who].pinned()
        }),
{
    if s.enabled(who, mv) {
        let m = s.streams[who];
        match mv {
            Move::Write(bytes) => {
                lemma_calls_keep_the_stream::<()>(m, bytes, Seq::empty(), Reply::Locked);
            },
            Move::Serve(bytes) => {
                let p = m.pending.unwrap();
                let reply = match p.request {
                    Request::WriteBuffered => Reply::<()>::Wrote(m.output.len() as usize),
                    Request::WriteDirect => Reply::<()>::Wrote(bytes.len() as usize),
                    _ => Reply::<()>::Locked,
                };
                let given = if p.op == Op::Write {
                    bytes
                } else {
                    Seq::empty()
                };
                lemma_calls_keep_the_stream::<()>(m, given, Seq::empty(), reply);
            },
            _ => {
                lemma_calls_keep_the_stream::<()>(m, Seq::empty(), Seq::empty(), Reply::Locked);
            },
        }
        assert(s.moved(who, mv).wf());
    }
}

/// While a thread keeps the lock, nothing but its own writes reaches the
/// resource. Let the stream of thread `keeper` hold the lock for its caller,
/// and let the threads try any moves in any order, `keeper` all but giving
/// the lock back. Then its stream still holds the lock, what had reached the
/// resource before is still its beginning, and every write that has come
/// after it is one of `keeper`.
pub proof fn lemma_the_lock_keeps_others_out(s: Shared, keeper: int, moves: Seq<(int, Move)>)
    requires
        s.wf(),
        0 <= keeper < s.streams.len(),
        s.streams[keeper].pinned(),
        forall|k: int|
            0 <= k < moves.len() ==> !((#[trigger] moves[k]).0 == keeper && moves[k].1 is Unlock),
    ensures
        ({
            let t = s.run(moves);
            &&& t.wf()
            &&& t.streams.len() == s.streams.len()
            &&& t.streams[keeper].pinned()
            &&& t.holder == Some(keeper)
            &&& s.sink.len() <= t.sink.len()
            &&& t.sink.subrange(0, s.sink.len() as int) == s.sink
            &&& forall|k: int|
                s.sink.len() <= k < t.sink.len() ==> (#[trigger] t.sink[k]).0 == keeper
        }),
    decreases moves.len(),
{
    if moves.len() > 0 {
        let front = moves.drop_last();
        let (who, mv) = moves.last();
        let mid = s.run(front);
        lemma_the_lock_keeps_others_out(s, keeper, front);
        lemma_step_keeps_the_mutex(mid, who, mv);
        assert(mid.holder == Some(keeper));
    }
}

/// The bytes that have reached the resource, in the order of arrival.
pub open spec fn wire(sink: Seq<(int, Seq<u8>)>) -> Seq<u8>
    decreases sink.len(),
{
    if sink.len() == 0 {
        Seq::empty()
    } else {
        wire(sink.drop_last()) + sink.last().1
    }
}

/// The bytes that have reached the resource from thread `who`, in the order
/// of arrival.
pub open spec fn sent(sink: Seq<(int, Seq<u8>)>, who: int) -> Seq<u8>
    decreases sink.len(),
{
    if sink.len() == 0 {
        Seq::empty()
    } else if sink.last().0 == who {
        sent(sink.drop_last(), who) + sink.last().1
    } else {
        sent(sink.drop_last(), who)
    }
}

/// What a thread does that wants `pieces` to reach the resource in one
/// piece: it pins the lock, writes them one after the other, flushes, and
/// gives the lock back.
pub open spec fn session(pieces: Seq<Seq<u8>>) -> Seq<Move> {
    Seq::new(
        pieces.len() + 3,
        |k: int|
            if k == 0 {
                Move::Lock
            } else if k <= pieces.len() {
                Move::Write(pieces[k - 1])
            } else if k == pieces.len() + 1 {
                Move::Flush
            } else {
                Move::Unlock
            },
    )
}

/// Threads that race: each has a list of operations to carry out on its
/// stream, and whenever it gets a turn it goes one call further.
pub ghost struct Race {
    /// The streams, the mutex and the resource.
    pub shared: Shared,
    /// What each thread has to do.
    pub jobs: Seq<Seq<Move>>,
    /// How many of its operations each thread has begun.
    pub at: Seq<nat>,
}

impl Race {
    /// The race in which two threads, with streams that hold and await
    /// nothing, are about to begin the sessions for `one` and `other`.
    pub open spec fn starts(self, one: Seq<Seq<u8>>, other: Seq<Seq<u8>>) -> bool {
        &&& self.shared.wf()
        &&& self.shared.streams.len() == 2
        &&& self.shared.holder is None
        &&& self.shared.sink.len() == 0
        &&& forall|i: int|
            0 <= i < 2 ==> {
                &&& (#[trigger] self.shared.streams[i]).is_idle()
                &&& self.shared.streams[i].output.len() == 0
            }
        &&& self.jobs == seq![session(one), session(other)]
        &&& self.at == seq![0nat, 0nat]
    }

    /// Whether every thread has carried out all its operations.
    pub open spec fn over(self) -> bool {
        forall|i: int|
            0 <= i < self.at.len() ==> (#[trigger] self.at[i]) == self.jobs[i].len()
                && self.shared.streams[i].is_idle()
    }

    /// What thread `who` tries at its next turn. A thread whose stream
    /// waits has its request served and resumes. Else it begins its next
    /// operation, if it has one.
    pub open spec fn next_move(self, who: int) -> Option<Move> {
        let at = self.at[who] as int;
        let jobs = self.jobs[who];
        if self.shared.streams[who].pending is Some {
            Some(
                Move::Serve(
                    if 1 <= at <= jobs.len() && jobs[at - 1] is Write {
                        jobs[at - 1]->Write_0
                    } else {
                        Seq::empty()
                    },
                ),
            )
        } else if at < jobs.len() {
            Some(jobs[at])
        } else {
            None
        }
    }

    /// The race after thread `who` has had a turn.
    pub open spec fn turn(self, who: int) -> Race {
        if !(0 <= who < self.at.len()) {
            self
        } else {
            match self.next_move(who) {
                None => self,
                Some(mv) => Race {
                    shared: self.shared.step(who, mv),
                    at: if mv is Serve {
                        self.at
                    } else {
                        self.at.update(who, self.at[who] + 1)
                    },
                    ..self
                },
            }
        }
    }

    /// The race after the threads have had their turns in the order of
    /// `schedule`.
    pub open spec fn play(self, schedule: Seq<int>) -> Race
        decreases schedule.len(),
    {
        if schedule.len() == 0 {
            self
        } else {
            self.play(schedule.drop_last()).turn(schedule.last())
        }
    }

    /// Whether thread `who` has not got the lock yet.
    pub open spec fn before(self, who: int) -> bool {
        let m = self.shared.streams[who];
        &&& !m.locked
        &&& m.output.len() == 0
        &&& sent(self.shared.sink, who).len() == 0
        &&& if self.at[who] == 0 {
            m.is_idle()
        } else {
            self.at[who] == 1 && m.pending is Some && m.pending.unwrap().op == Op::Pin
        }
    }

    /// Whether thread `who` has given the lock back, with all of `pieces`
    /// handed to the resource.
    pub open spec fn after(self, who: int, pieces: Seq<Seq<u8>>) -> bool {
        let m = self.shared.streams[who];
        &&& !m.locked
        &&& m.is_idle()
        &&& m.output.len() == 0
        &&& self.at[who] == pieces.len() + 3
        &&& sent(self.shared.sink, who) == pieces.flatten()
    }

    /// Whether thread `who` holds the lock, with the pieces that it has
    /// written so far either handed to the resource or buffered.
    pub open spec fn inside(self, who: int, pieces: Seq<Seq<u8>>) -> bool {
        let m = self.shared.streams[who];
        let at = self.at[who] as int;
        let n = pieces.len() as int;
        let written = if m.pending is Some && at <= n + 1 {
            at - 2
        } else if at - 1 <= n {
            at - 1
        } else {
            n
        };
        &&& m.pinned()
        &&& 1 <= at <= n + 2
        &&& m.pending matches Some(p) ==> {
            ||| p.op == Op::Write && 2 <= at <= n + 1 && p.len == pieces[at - 2].len()
            ||| p.op == Op::Flush && at == n + 2
        }
        &&& sent(self.shared.sink, who) + m.output == pieces.subrange(0, written).flatten()
        &&& at == n + 2 && m.is_idle() ==> m.output.len() == 0
    }

    /// Whether thread `who` is where a session for `pieces` can be.
    pub open spec fn on_track(self, who: int, pieces: Seq<Seq<u8>>) -> bool {
        &&& self.jobs[who] == session(pieces)
        &&& forall|k: int| 0 <= k < pieces.len() ==> (#[trigger] pieces[k]).len() <= usize::MAX
        &&& self.before(who) || self.inside(who, pieces) || self.after(who, pieces)
    }

    /// Whether what has reached the resource is all that thread `lead` has
    /// sent, followed by all that thread `tail` has sent, where `tail` has
    /// sent nothing before `lead` was through.
    pub open spec fn in_order(self, lead: int, tail: int, led: Seq<Seq<u8>>) -> bool {
        &&& wire(self.shared.sink) == sent(self.shared.sink, lead) + sent(self.shared.sink, tail)
        &&& self.before(tail) || self.after(lead, led)
    }

    /// What holds throughout a race of two sessions.
    pub open spec fn fair(self, one: Seq<Seq<u8>>, other: Seq<Seq<u8>>) -> bool {
        &&& self.shared.wf()
        &&& self.shared.streams.len() == 2
        &&& self.jobs.len() == 2
        &&& self.at.len() == 2
        &&& self.on_track(0, one)
        &&& self.on_track(1, other)
        &&& self.in_order(0, 1, one) || self.in_order(1, 0, other)
    }
}

/// What one more write adds to the bytes on the wire and to those of each
/// thread.
proof fn lemma_sink_push(sink: Seq<(int, Seq<u8>)>, who: int, bytes: Seq<u8>, other: int)
    ensures
        wire(sink.push((who, bytes))) == wire(sink) + bytes,
        sent(sink.push((who, bytes)), who) == sent(sink, who) + bytes,
        other != who ==> sent(sink.push((who, bytes)), other) == sent(sink, other),
{
    assert(sink.push((who, bytes)).drop_last() =~= sink);
}

/// The first `k + 1` pieces, joined, are the first `k` joined and then the
/// next one.
proof fn lemma_pieces_grow(pieces: Seq<Seq<u8>>, k: int)
    requires
        0 <= k < pieces.len(),
    ensures
        pieces.subrange(0, k + 1).flatten() == pieces.subrange(0, k).flatten() + pieces[k],
{
    broadcast use Seq::lemma_flatten_push;

    assert(pieces.subrange(0, k + 1) =~= pieces.subrange(0, k).push(pieces[k]));
}

/// No pieces joined are no bytes, and all pieces are all of them.
proof fn lemma_pieces_ends(pieces: Seq<Seq<u8>>)
    ensures
        pieces.subrange(0, 0).flatten() == Seq::<u8>::empty(),
        pieces.subrange(0, pieces.len() as int) == pieces,
{
    assert(pieces.subrange(0, 0) =~= Seq::<Seq<u8>>::empty());
    assert(pieces.subrange(0, pieces.len() as int) =~= pieces);
}

/// A turn of one thread leaves the other thread where it was.
proof fn lemma_turn_spares_the_other(r: Race, who: int, idle: int, pieces: Seq<Seq<u8>>)
    requires
        r.shared.wf(),
        r.shared.streams.len() == 2,
        r.jobs.len() == 2,
        r.at.len() == 2,
        0 <= idle < 2,
        idle != who,
        r.on_track(idle, pieces),
    ensures
        r.turn(who).on_track(idle, pieces),
        r.before(idle) ==> r.turn(who).before(idle),
        r.inside(idle, pieces) ==> r.turn(who).inside(idle, pieces),
        r.after(idle, pieces) ==> r.turn(who).after(idle, pieces),
        sent(r.turn(who).shared.sink, idle) == sent(r.shared.sink, idle),
{
    if 0 <= who < 2 {
        match r.next_move(who) {
            Some(mv) => {
                lemma_step_keeps_the_mutex(r.shared, who, mv);
                match r.shared.handed(who, mv) {
                    Some(bytes) => lemma_sink_push(r.shared.sink, who, bytes, idle),
                    None => {},
                }
            },
            None => {},
        }
    }
}

/// A thread inside its session that begins its next operation: it stays
/// inside, or is through when the operation was to give the lock back.
/// Nothing reaches the resource.
proof fn lemma_inside_begin(r: Race, who: int, pieces: Seq<Seq<u8>>)
    requires
        r.shared.wf(),
        r.shared.streams.len() == 2,
        r.jobs.len() == 2,
        r.at.len() == 2,
        0 <= who < 2,
        r.jobs[who] == session(pieces),
        forall|k: int| 0 <= k < pieces.len() ==> (#[trigger] pieces[k]).len() <= usize::MAX,
        r.inside(who, pieces),
        r.shared.streams[who].is_idle(),
    ensures
        ({
            let t = r.turn(who);
            &&& t.shared.sink == r.shared.sink
            &&& t.inside(who, pieces) || t.after(who, pieces)
        }),
{
    let m = r.shared.streams[who];
    let at = r.at[who] as int;
    let mine = sent(r.shared.sink, who);
    lemma_step_keeps_the_mutex(r.shared, who, r.jobs[who][at]);
    lemma_pieces_ends(pieces);
    if at <= pieces.len() {
        let bytes = pieces[at - 1];
        lemma_pieces_grow(pieces, at - 1);
        assert(mine + (m.output + bytes) =~= mine + m.output + bytes);
    }
}

/// A thread inside its session whose stream has its request served: what
/// the resource takes was buffered or is the piece being written, and the
/// thread stays inside.
proof fn lemma_inside_serve(r: Race, who: int, pieces: Seq<Seq<u8>>)
    requires
        r.shared.wf(),
        r.shared.streams.len() == 2,
        r.jobs.len() == 2,
        r.at.len() == 2,
        0 <= who < 2,
        r.jobs[who] == session(pieces),
        forall|k: int| 0 <= k < pieces.len() ==> (#[trigger] pieces[k]).len() <= usize::MAX,
        r.inside(who, pieces),
        r.shared.streams[who].pending is Some,
    ensures
        r.turn(who).inside(who, pieces),
{
    let m = r.shared.streams[who];
    let at = r.at[who] as int;
    let mv = r.next_move(who).unwrap();
    lemma_step_keeps_the_mutex(r.shared, who, mv);
    lemma_sink_push(r.shared.sink, who, r.shared.handed(who, mv).unwrap(), 1 - who);
    if m.pending.unwrap().op == Op::Write {
        lemma_pieces_grow(pieces, at - 2);
    }
}

/// A turn takes a thread along its session: from before the lock to inside
/// it, only while the mutex is free; from inside to after; and nothing
/// reaches the resource from it but while it is inside.
proof fn lemma_turn_moves_along(r: Race, who: int, pieces: Seq<Seq<u8>>)
    requires
        r.shared.wf(),
        r.shared.streams.len() == 2,
        r.jobs.len() == 2,
        r.at.len() == 2,
        0 <= who < 2,
        r.on_track(who, pieces),
    ensures
        ({
            let t = r.turn(who);
            &&& t.on_track(who, pieces)
            &&& r.before(who) ==> t.shared.sink == r.shared.sink && (t.before(who) || (t.inside(
                who,
                pieces,
            ) && r.shared.holder is None))
            &&& r.inside(who, pieces) ==> t.inside(who, pieces) || t.after(who, pieces)
            &&& r.after(who, pieces) ==> t.shared.sink == r.shared.sink && t.after(who, pieces)
            &&& t.shared.sink == r.shared.sink || exists|bytes: Seq<u8>|
                t.shared.sink == r.shared.sink.push((who, bytes))
        }),
{
    let t = r.turn(who);
    if r.after(who, pieces) {
        assert(t == r);
    } else if r.before(who) {
        lemma_step_keeps_the_mutex(r.shared, who, r.next_move(who).unwrap());
        lemma_pieces_ends(pieces);
        if r.at[who] == 1 && r.shared.holder is None {
            assert(sent(t.shared.sink, who) + t.shared.streams[who].output =~= Seq::<u8>::empty());
        }
    } else {
        lemma_step_keeps_the_mutex(r.shared, who, r.next_move(who).unwrap());
        if r.shared.streams[who].pending is Some {
            lemma_inside_serve(r, who, pieces);
        } else {
            lemma_inside_begin(r, who, pieces);
        }
    }
}

/// A turn keeps the order on the wire: the thread that sent first has
/// sent everything before the other one sends anything.
proof fn lemma_turn_keeps_order(
    r: Race,
    who: int,
    lead: int,
    tail: int,
    led: Seq<Seq<u8>>,
    tailed: Seq<Seq<u8>>,
)
    requires
        r.shared.wf(),
        r.shared.streams.len() == 2,
        r.jobs.len() == 2,
        r.at.len() == 2,
        0 <= who < 2,
        0 <= lead < 2,
        tail == 1 - lead,
        r.on_track(lead, led),
        r.on_track(tail, tailed),
        r.in_order(lead, tail, led),
    ensures
        r.turn(who).in_order(lead, tail, led) || r.turn(who).in_order(tail, lead, tailed),
{
    let t = r.turn(who);
    let sink = r.shared.sink;
    let first = sent(sink, lead);
    let second = sent(sink, tail);
    lemma_turn_moves_along(r, who, if who == lead { led } else { tailed });
    lemma_turn_spares_the_other(r, who, 1 - who, if who == lead { tailed } else { led });
    if t.shared.sink != sink {
        let bytes = choose|bytes: Seq<u8>| t.shared.sink == sink.push((who, bytes));
        lemma_sink_push(sink, who, bytes, 1 - who);
        if who == lead {
            // The leader is still inside, so the other one has sent nothing.
            assert(r.before(tail));
            assert(first + second + bytes =~= first + bytes + second);
        } else {
            assert(first + second + bytes =~= first + (second + bytes));
        }
    } else if who == tail && r.before(tail) && !t.before(tail) && !r.after(lead, led) {
        // The mutex was free and goes to a thread while the other one has
        // not had it yet: from now on this thread leads.
        assert(r.before(lead));
        assert(first + second =~= second + first);
    }
}

/// A turn keeps a race of two sessions fair.
proof fn lemma_turn_is_fair(r: Race, who: int, one: Seq<Seq<u8>>, other: Seq<Seq<u8>>)
    requires
        r.fair(one, other),
    ensures
        r.turn(who).fair(one, other),
{
    if 0 <= who < 2 {
        match r.next_move(who) {
            Some(mv) => lemma_step_keeps_the_mutex(r.shared, who, mv),
            None => {},
        }
        if who == 0 {
            lemma_turn_moves_along(r, 0, one);
            lemma_turn_spares_the_other(r, 0, 1, other);
        } else {
            lemma_turn_moves_along(r, 1, other);
            lemma_turn_spares_the_other(r, 1, 0, one);
        }
        if r.in_order(0, 1, one) {
            lemma_turn_keeps_order(r, who, 0, 1, one, other);
        } else {
            lemma_turn_keeps_order(r, who, 1, 0, other, one);
        }
    }
}

/// Any play keeps a race of two sessions fair.
proof fn lemma_play_is_fair(r: Race, schedule: Seq<int>, one: Seq<Seq<u8>>, other: Seq<Seq<u8>>)
    requires
        r.fair(one, other),
    ensures
        r.play(schedule).fair(one, other),
    decreases schedule.len(),
{
    if schedule.len() > 0 {
        lemma_play_is_fair(r, schedule.drop_last(), one, other);
        lemma_turn_is_fair(r.play(schedule.drop_last()), schedule.last(), one, other);
    }
}

/// Sessions under the lock do not interleave. Let two threads race on one
/// slot, each with a stream of its own: each pins the lock, writes its
/// pieces one after the other, flushes, and gives the lock back. Whatever
/// the sizes of the buffers and of the pieces, and in whatever order the
/// threads get their turns, what has reached the resource at any moment is
/// what one thread has sent and then what the other one has sent. Once both
/// are through, it is all the pieces of one thread in order and then all the
/// pieces of the other.
pub proof fn lemma_sessions_do_not_interleave(
    r: Race,
    one: Seq<Seq<u8>>,
    other: Seq<Seq<u8>>,
    schedule: Seq<int>,
)
    requires
        r.starts(one, other),
        forall|k: int| 0 <= k < one.len() ==> (#[trigger] one[k]).len() <= usize::MAX,
        forall|k: int| 0 <= k < other.len() ==> (#[trigger] other[k]).len() <= usize::MAX,
    ensures
        ({
            let sink = r.play(schedule).shared.sink;
            &&& wire(sink) == sent(sink, 0) + sent(sink, 1) || wire(sink) == sent(sink, 1) + sent(
                sink,
                0,
            )
            &&& r.play(schedule).over() ==> {
                ||| wire(sink) == one.flatten() + other.flatten()
                ||| wire(sink) == other.flatten() + one.flatten()
            }
        }),
{
    assert(r.before(0) && r.before(1));
    assert(r.fair(one, other));
    lemma_play_is_fair(r, schedule, one, other);
    let t = r.play(schedule);
    if t.over() {
        assert(t.after(0, one) && t.after(1, other));
    }
}

} // verus!
