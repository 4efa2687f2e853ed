use nonstdio::{
    exactly, stderr, stderr_with_nbuf, stdin, stdin_with_nbuf, stdout, stdout_with_nbuf, Event,
    LockPoisonError, Op, Request, Slot, StdioBuf, StdioError, Step, STDIO_NBUF,
};

type Failure = &'static str;
type Outcome<T> = Result<T, StdioError<Failure>>;

/// A mutex and a resource that record what is asked of them.
struct Fake {
    /// The writes that arrived, one entry for each call.
    sink: Vec<Vec<u8>>,
    /// The input that is left.
    source: Vec<u8>,
    /// The most that one read delivers.
    grain: usize,
    /// The most that each of the coming reads delivers, in their order.
    bites: Vec<usize>,
    /// How often the resource was read.
    reads: usize,
    /// How often the mutex was granted.
    locks: usize,
    poisoned: bool,
    fail_writes: Option<Failure>,
    fail_reads: Option<Failure>,
    /// How many bytes less than asked a write reports.
    short_by: usize,
}

impl Fake {
    fn new() -> Fake {
        Fake {
            sink: Vec::new(),
            source: Vec::new(),
            grain: usize::MAX,
            bites: Vec::new(),
            reads: 0,
            locks: 0,
            poisoned: false,
            fail_writes: None,
            fail_reads: None,
            short_by: 0,
        }
    }

    fn with_input(input: &[u8]) -> Fake {
        let mut fake = Fake::new();
        fake.source = input.to_vec();
        fake
    }

    fn received(&self) -> Vec<u8> {
        self.sink.concat()
    }

    fn put(&mut self, bytes: &[u8]) -> Event<Failure> {
        match self.fail_writes {
            Some(e) => Event::Failed(e),
            None => {
                let n = bytes.len() - self.short_by;
                self.sink.push(bytes[..n].to_vec());
                Event::Wrote(n)
            }
        }
    }

    fn take(&mut self, room: usize) -> Result<Vec<u8>, Failure> {
        self.reads += 1;
        match self.fail_reads {
            Some(e) => Err(e),
            None => {
                let bite = if self.bites.is_empty() { usize::MAX } else { self.bites.remove(0) };
                let k = room.min(self.source.len()).min(self.grain).min(bite.max(1));
                Ok(self.source.drain(..k).collect())
            }
        }
    }

    fn serve(
        &mut self,
        stream: &StdioBuf,
        request: Request,
        bytes: &[u8],
        dest: &mut [u8],
    ) -> Event<Failure> {
        match request {
            Request::Lock => {
                assert!(!stream.is_locked());
                if self.poisoned {
                    Event::Poisoned
                } else {
                    self.locks += 1;
                    Event::Locked
                }
            }
            Request::WriteBuffered => {
                assert!(stream.is_locked());
                let out = stream.buffered().to_vec();
                assert!(out.len() <= stream.capacity());
                self.put(&out)
            }
            Request::WriteDirect => {
                assert!(stream.is_locked());
                self.put(bytes)
            }
            Request::Fill { max } => {
                assert!(stream.is_locked());
                assert_eq!(max, stream.capacity());
                match self.take(max) {
                    Ok(data) => Event::Filled(data),
                    Err(e) => Event::Failed(e),
                }
            }
            Request::ReadDirect { from } => {
                assert!(stream.is_locked());
                match self.take(dest.len() - from) {
                    Ok(data) => {
                        dest[from..from + data.len()].copy_from_slice(&data);
                        Event::Read(data.len())
                    }
                    Err(e) => Event::Failed(e),
                }
            }
        }
    }
}

fn run_lock(stream: &mut StdioBuf, fake: &mut Fake) -> Outcome<()> {
    let mut step = stream.lock_buf();
    loop {
        match step {
            Step::Done(r) => return r,
            Step::Need(request) => {
                let event = fake.serve(stream, request, &[], &mut []);
                assert!(stream.awaits(Op::Pin, &event));
                step = stream.resume_lock(event);
            }
        }
    }
}

fn run_flush(stream: &mut StdioBuf, fake: &mut Fake) -> Outcome<()> {
    let mut step = stream.flush();
    loop {
        match step {
            Step::Done(r) => return r,
            Step::Need(request) => {
                let event = fake.serve(stream, request, &[], &mut []);
                assert!(stream.awaits(Op::Flush, &event));
                step = stream.resume_flush(event);
            }
        }
    }
}

fn run_write(stream: &mut StdioBuf, fake: &mut Fake, bytes: &[u8]) -> Outcome<usize> {
    let mut step = stream.write(bytes);
    loop {
        match step {
            Step::Done(r) => return r,
            Step::Need(request) => {
                let event = fake.serve(stream, request, bytes, &mut []);
                assert!(stream.awaits(Op::Write, &event));
                assert_eq!(stream.pending().unwrap().len, bytes.len());
                step = stream.resume_write(bytes, event);
            }
        }
    }
}

fn run_read(stream: &mut StdioBuf, fake: &mut Fake, dest: &mut [u8]) -> Outcome<usize> {
    let mut step = stream.read(dest);
    loop {
        match step {
            Step::Done(r) => return r,
            Step::Need(request) => {
                let event = fake.serve(stream, request, &[], dest);
                assert!(stream.awaits(Op::Read, &event));
                assert_eq!(stream.pending().unwrap().len, dest.len());
                step = stream.resume_read(dest, event);
            }
        }
    }
}

// ---------------------------------------------------------------------
// Making streams
// ---------------------------------------------------------------------

#[test]
fn new_stream_is_empty_and_unlocked() {
    let s = StdioBuf::new(16, Slot::Output);
    assert_eq!(s.capacity(), 16);
    assert_eq!(s.slot(), Slot::Output);
    assert!(!s.is_locked());
    assert!(!s.is_closed());
    assert_eq!(s.pending(), None);
    assert_eq!(s.buffered(), &[] as &[u8]);
    assert_eq!(s.available(), 0);
}

#[test]
fn standard_streams_are_bound_to_their_slots() {
    assert_eq!(STDIO_NBUF, 1024);
    let i = stdin();
    let o = stdout();
    let e = stderr();
    assert_eq!((i.slot(), i.capacity()), (Slot::Input, 1024));
    assert_eq!((o.slot(), o.capacity()), (Slot::Output, 1024));
    assert_eq!((e.slot(), e.capacity()), (Slot::Error, 1024));
    assert!(!i.is_locked() && !o.is_locked() && !e.is_locked());
}

#[test]
fn standard_streams_take_a_buffer_size() {
    let i = stdin_with_nbuf(7);
    let o = stdout_with_nbuf(32 * 1024);
    let e = stderr_with_nbuf(0);
    assert_eq!((i.slot(), i.capacity()), (Slot::Input, 7));
    assert_eq!((o.slot(), o.capacity()), (Slot::Output, 32768));
    assert_eq!((e.slot(), e.capacity()), (Slot::Error, 0));
}

#[test]
fn slots_are_numbered_input_output_error() {
    assert_eq!(Slot::Input.index(), 0);
    assert_eq!(Slot::Output.index(), 1);
    assert_eq!(Slot::Error.index(), 2);
    assert_eq!(Slot::from_index(0), Some(Slot::Input));
    assert_eq!(Slot::from_index(1), Some(Slot::Output));
    assert_eq!(Slot::from_index(2), Some(Slot::Error));
    assert_eq!(Slot::from_index(3), None);
    assert_eq!(Slot::from_index(usize::MAX), None);
}

// ---------------------------------------------------------------------
// Locking
// ---------------------------------------------------------------------

#[test]
fn lock_buf_asks_for_the_mutex_once() {
    let mut s = StdioBuf::new(8, Slot::Output);
    let first: Step<(), Failure> = s.lock_buf();
    assert_eq!(first, Step::Need(Request::Lock));
    assert!(!s.is_locked());
    let done = s.resume_lock::<Failure>(Event::Locked);
    assert_eq!(done, Step::Done(Ok(())));
    assert!(s.is_locked());
    assert_eq!(s.pending(), None);
    let again: Step<(), Failure> = s.lock_buf();
    assert_eq!(again, Step::Done(Ok(())));
    assert!(s.is_locked());
}

#[test]
fn lock_buf_fails_on_a_poisoned_mutex() {
    let mut s = StdioBuf::new(8, Slot::Output);
    let mut fake = Fake::new();
    fake.poisoned = true;
    assert_eq!(
        run_lock(&mut s, &mut fake),
        Err(StdioError::LockUnavailable(LockPoisonError))
    );
    assert!(!s.is_locked());
    assert_eq!(s.pending(), None);
    assert_eq!(fake.locks, 0);
}

#[test]
fn unlock_buf_is_idempotent() {
    let mut s = StdioBuf::new(8, Slot::Output);
    let mut fake = Fake::new();
    s.unlock_buf();
    assert!(!s.is_locked());
    assert_eq!(run_lock(&mut s, &mut fake), Ok(()));
    assert!(s.is_locked());
    s.unlock_buf();
    assert!(!s.is_locked());
    s.unlock_buf();
    assert!(!s.is_locked());
    assert_eq!(run_lock(&mut s, &mut fake), Ok(()));
    assert_eq!(fake.locks, 2);
}

#[test]
fn lock_hands_the_stream_back_waiting_for_the_mutex() {
    let mut s = stdout_with_nbuf(4).lock();
    assert!(!s.is_locked());
    let p = s.pending().unwrap();
    assert_eq!(p.op, Op::Pin);
    assert_eq!(p.request, Request::Lock);
    assert!(!p.transient);
    assert_eq!(s.resume_lock::<Failure>(Event::Locked), Step::Done(Ok(())));
    assert!(s.is_locked());
    let s = s.lock();
    assert!(s.is_locked());
    assert_eq!(s.pending(), None);
}

#[test]
fn awaits_tells_which_events_answer() {
    let mut s = StdioBuf::new(2, Slot::Input);
    assert!(!s.awaits::<Failure>(Op::Read, &Event::Locked));
    let mut dest = [0u8; 2];
    assert_eq!(s.read::<Failure>(&mut dest), Step::Need(Request::Lock));
    assert!(s.awaits::<Failure>(Op::Read, &Event::Locked));
    assert!(s.awaits::<Failure>(Op::Read, &Event::Poisoned));
    assert!(!s.awaits::<Failure>(Op::Write, &Event::Locked));
    assert!(!s.awaits::<Failure>(Op::Read, &Event::Read(1)));
    assert!(!s.awaits::<Failure>(Op::Read, &Event::Failed("no")));
    assert_eq!(
        s.resume_read::<Failure>(&mut dest, Event::Locked),
        Step::Need(Request::Fill { max: 2 })
    );
    assert!(s.awaits::<Failure>(Op::Read, &Event::Filled(vec![1, 2])));
    assert!(!s.awaits::<Failure>(Op::Read, &Event::Filled(vec![1, 2, 3])));
    assert!(s.awaits::<Failure>(Op::Read, &Event::Failed("no")));
    assert!(!s.awaits::<Failure>(Op::Read, &Event::Locked));
}

// ---------------------------------------------------------------------
// Writing
// ---------------------------------------------------------------------

#[test]
fn writes_within_capacity_reach_the_resource_only_on_flush() {
    let mut s = StdioBuf::new(16, Slot::Output);
    let mut fake = Fake::new();
    let pieces: [&[u8]; 4] = [b"one ", b"two ", b"three ", b"4"];
    for piece in pieces {
        let step: Step<usize, Failure> = s.write(piece);
        assert_eq!(step, Step::Done(Ok(piece.len())));
        assert!(fake.sink.is_empty());
    }
    assert_eq!(s.buffered(), b"one two three 4");
    assert_eq!(fake.locks, 0);
    assert_eq!(run_flush(&mut s, &mut fake), Ok(()));
    assert_eq!(fake.sink, vec![b"one two three 4".to_vec()]);
    assert_eq!(s.buffered(), b"");
    assert_eq!(fake.locks, 1);
    assert!(!s.is_locked());
}

#[test]
fn write_that_fills_the_buffer_exactly_is_buffered() {
    let mut s = StdioBuf::new(4, Slot::Output);
    let step: Step<usize, Failure> = s.write(b"abcd");
    assert_eq!(step, Step::Done(Ok(4)));
    assert_eq!(s.buffered(), b"abcd");
}

#[test]
fn empty_write_is_accepted_without_a_request() {
    let mut s = StdioBuf::new(0, Slot::Output);
    let step: Step<usize, Failure> = s.write(b"");
    assert_eq!(step, Step::Done(Ok(0)));
    assert_eq!(s.buffered(), b"");
}

#[test]
fn write_larger_than_capacity_goes_to_the_resource_whole() {
    let mut s = StdioBuf::new(4, Slot::Output);
    let mut fake = Fake::new();
    assert_eq!(run_write(&mut s, &mut fake, b"0123456789"), Ok(10));
    assert_eq!(fake.sink, vec![b"0123456789".to_vec()]);
    assert_eq!(s.buffered(), b"");
    assert_eq!(fake.locks, 1);
    assert!(!s.is_locked());
}

#[test]
fn large_write_flushes_what_was_buffered_first() {
    let mut s = StdioBuf::new(4, Slot::Output);
    let mut fake = Fake::new();
    assert_eq!(run_write(&mut s, &mut fake, b"ab"), Ok(2));
    assert_eq!(run_write(&mut s, &mut fake, b"CDEFGHIJ"), Ok(8));
    assert_eq!(fake.sink, vec![b"ab".to_vec(), b"CDEFGHIJ".to_vec()]);
    assert_eq!(s.buffered(), b"");
    assert_eq!(fake.locks, 1);
    assert!(!s.is_locked());
}

#[test]
fn large_write_steps_through_lock_flush_and_direct_write() {
    let mut s = StdioBuf::new(4, Slot::Output);
    assert_eq!(s.write::<Failure>(b"ab"), Step::Done(Ok(2)));
    let bytes = b"CDEFGHIJ";
    assert_eq!(s.write::<Failure>(bytes), Step::Need(Request::Lock));
    assert_eq!(
        s.resume_write::<Failure>(bytes, Event::Locked),
        Step::Need(Request::WriteBuffered)
    );
    assert!(s.is_locked());
    assert_eq!(s.buffered(), b"ab");
    assert_eq!(
        s.resume_write::<Failure>(bytes, Event::Wrote(2)),
        Step::Need(Request::WriteDirect)
    );
    assert_eq!(s.buffered(), b"");
    assert_eq!(s.resume_write::<Failure>(bytes, Event::Wrote(8)), Step::Done(Ok(8)));
    assert!(!s.is_locked());
    assert_eq!(s.pending(), None);
}

#[test]
fn direct_write_reports_the_count_of_the_resource() {
    let mut s = StdioBuf::new(2, Slot::Output);
    let mut fake = Fake::new();
    fake.short_by = 3;
    assert_eq!(run_write(&mut s, &mut fake, b"0123456789"), Ok(7));
    assert_eq!(fake.sink, vec![b"0123456".to_vec()]);
    assert_eq!(s.buffered(), b"");
}

#[test]
fn overflowing_write_pushes_the_buffer_out_and_is_buffered() {
    let mut s = StdioBuf::new(8, Slot::Output);
    let mut fake = Fake::new();
    assert_eq!(run_write(&mut s, &mut fake, b"ab"), Ok(2));
    assert_eq!(run_write(&mut s, &mut fake, b"cd"), Ok(2));
    assert_eq!(run_write(&mut s, &mut fake, b"efgh"), Ok(4));
    assert!(fake.sink.is_empty());
    assert_eq!(s.buffered(), b"abcdefgh");
    assert_eq!(run_write(&mut s, &mut fake, b"i"), Ok(1));
    assert_eq!(fake.sink, vec![b"abcdefgh".to_vec()]);
    assert_eq!(s.buffered(), b"i");
    assert!(!s.is_locked());
    assert_eq!(run_flush(&mut s, &mut fake), Ok(()));
    assert_eq!(fake.received(), b"abcdefghi");
}

#[test]
fn every_written_byte_arrives_in_order() {
    let mut s = StdioBuf::new(5, Slot::Output);
    let mut fake = Fake::new();
    let pieces: [&[u8]; 7] = [b"a", b"bcd", b"efghijkl", b"", b"mn", b"opqr", b"stuvwxyz0123"];
    for piece in pieces {
        assert_eq!(run_write(&mut s, &mut fake, piece), Ok(piece.len()));
        assert!(s.buffered().len() <= 5);
    }
    assert_eq!(run_flush(&mut s, &mut fake), Ok(()));
    assert_eq!(fake.received(), b"abcdefghijklmnopqrstuvwxyz0123");
    for call in &fake.sink {
        assert!(call.len() <= 5 || call == b"efghijkl" || call == b"stuvwxyz0123");
    }
}

#[test]
fn stream_without_capacity_writes_everything_directly() {
    let mut s = StdioBuf::new(0, Slot::Error);
    let mut fake = Fake::new();
    assert_eq!(run_write(&mut s, &mut fake, b"x"), Ok(1));
    assert_eq!(run_write(&mut s, &mut fake, b"yz"), Ok(2));
    assert_eq!(fake.sink, vec![b"x".to_vec(), b"yz".to_vec()]);
    assert_eq!(s.buffered(), b"");
    assert_eq!(run_flush(&mut s, &mut fake), Ok(()));
    assert_eq!(fake.sink.len(), 2);
}

#[test]
fn write_fails_on_a_poisoned_mutex() {
    let mut s = StdioBuf::new(2, Slot::Output);
    let mut fake = Fake::new();
    fake.poisoned = true;
    assert_eq!(run_write(&mut s, &mut fake, b"a"), Ok(1));
    assert_eq!(
        run_write(&mut s, &mut fake, b"bc"),
        Err(StdioError::LockUnavailable(LockPoisonError))
    );
    assert!(fake.sink.is_empty());
    assert_eq!(s.buffered(), b"a");
    assert!(!s.is_locked());
}

#[test]
fn write_hands_a_failure_of_the_resource_on() {
    let mut s = StdioBuf::new(2, Slot::Output);
    let mut fake = Fake::new();
    fake.fail_writes = Some("disk full");
    assert_eq!(run_write(&mut s, &mut fake, b"a"), Ok(1));
    assert_eq!(run_write(&mut s, &mut fake, b"bc"), Err(StdioError::Io("disk full")));
    assert_eq!(s.buffered(), b"a");
    assert!(s.is_locked());
    assert_eq!(s.pending(), None);
    let mut t = StdioBuf::new(2, Slot::Output);
    assert_eq!(run_write(&mut t, &mut fake, b"xyz"), Err(StdioError::Io("disk full")));
    assert_eq!(t.buffered(), b"");
}

#[test]
fn write_reports_a_short_write_of_its_flush() {
    let mut s = StdioBuf::new(4, Slot::Output);
    let mut fake = Fake::new();
    fake.short_by = 1;
    assert_eq!(run_write(&mut s, &mut fake, b"abc"), Ok(3));
    assert_eq!(
        run_write(&mut s, &mut fake, b"de"),
        Err(StdioError::ShortWrite { requested: 3, written: 2 })
    );
    assert_eq!(s.buffered(), b"abc");
    assert_eq!(s.pending(), None);
}

// ---------------------------------------------------------------------
// Flushing
// ---------------------------------------------------------------------

#[test]
fn flush_of_an_empty_buffer_asks_for_nothing() {
    let mut s = StdioBuf::new(4, Slot::Output);
    let step: Step<(), Failure> = s.flush();
    assert_eq!(step, Step::Done(Ok(())));
    assert!(!s.is_locked());
}

#[test]
fn second_flush_in_a_row_writes_nothing() {
    let mut s = StdioBuf::new(8, Slot::Output);
    let mut fake = Fake::new();
    assert_eq!(run_write(&mut s, &mut fake, b"hello"), Ok(5));
    assert_eq!(run_flush(&mut s, &mut fake), Ok(()));
    assert_eq!(fake.sink.len(), 1);
    let again: Step<(), Failure> = s.flush();
    assert_eq!(again, Step::Done(Ok(())));
    assert_eq!(run_flush(&mut s, &mut fake), Ok(()));
    assert_eq!(fake.sink, vec![b"hello".to_vec()]);
    assert_eq!(fake.locks, 1);
}

#[test]
fn flush_steps_through_lock_and_one_write() {
    let mut s = StdioBuf::new(8, Slot::Output);
    assert_eq!(s.write::<Failure>(b"abc"), Step::Done(Ok(3)));
    assert_eq!(s.flush::<Failure>(), Step::Need(Request::Lock));
    assert_eq!(
        s.resume_flush::<Failure>(Event::Locked),
        Step::Need(Request::WriteBuffered)
    );
    assert!(s.is_locked());
    assert_eq!(s.resume_flush::<Failure>(Event::Wrote(3)), Step::Done(Ok(())));
    assert!(!s.is_locked());
    assert_eq!(s.buffered(), b"");
}

#[test]
fn flush_fails_on_a_poisoned_mutex() {
    let mut s = StdioBuf::new(8, Slot::Output);
    let mut fake = Fake::new();
    fake.poisoned = true;
    assert_eq!(run_write(&mut s, &mut fake, b"abc"), Ok(3));
    assert_eq!(
        run_flush(&mut s, &mut fake),
        Err(StdioError::LockUnavailable(LockPoisonError))
    );
    assert_eq!(s.buffered(), b"abc");
    assert!(fake.sink.is_empty());
}

#[test]
fn flush_reports_a_short_write_and_keeps_the_buffer() {
    let mut s = StdioBuf::new(8, Slot::Output);
    let mut fake = Fake::new();
    fake.short_by = 2;
    assert_eq!(run_write(&mut s, &mut fake, b"abcde"), Ok(5));
    assert_eq!(
        run_flush(&mut s, &mut fake),
        Err(StdioError::ShortWrite { requested: 5, written: 3 })
    );
    assert_eq!(s.buffered(), b"abcde");
    assert!(!s.is_locked());
}

#[test]
fn flush_hands_a_failure_of_the_resource_on_and_keeps_the_lock() {
    let mut s = StdioBuf::new(8, Slot::Output);
    let mut fake = Fake::new();
    fake.fail_writes = Some("broken pipe");
    assert_eq!(run_write(&mut s, &mut fake, b"abc"), Ok(3));
    assert_eq!(run_flush(&mut s, &mut fake), Err(StdioError::Io("broken pipe")));
    assert_eq!(s.buffered(), b"abc");
    assert!(s.is_locked());
    fake.fail_writes = None;
    assert_eq!(run_flush(&mut s, &mut fake), Ok(()));
    assert_eq!(fake.sink, vec![b"abc".to_vec()]);
    assert!(s.is_locked());
    assert_eq!(fake.locks, 1);
}

// ---------------------------------------------------------------------
// Reading
// ---------------------------------------------------------------------

#[test]
fn reads_are_served_from_the_buffer_until_it_runs_dry() {
    let mut s = StdioBuf::new(4, Slot::Input);
    let mut fake = Fake::with_input(b"ABCDEFG");
    let mut dest = [0u8; 3];
    assert_eq!(run_read(&mut s, &mut fake, &mut dest), Ok(3));
    assert_eq!(&dest, b"ABC");
    assert_eq!(fake.reads, 1);
    assert_eq!(s.available(), 1);
    let mut dest = [0u8; 3];
    assert_eq!(run_read(&mut s, &mut fake, &mut dest), Ok(3));
    assert_eq!(&dest, b"DEF");
    assert_eq!(fake.reads, 2);
    assert!(!s.is_closed());
    let mut dest = [0u8; 3];
    assert_eq!(run_read(&mut s, &mut fake, &mut dest), Ok(1));
    assert_eq!(dest[0], b'G');
    assert!(s.is_closed());
    let reads = fake.reads;
    let mut dest = [0u8; 3];
    assert_eq!(run_read(&mut s, &mut fake, &mut dest), Ok(0));
    assert_eq!(dest, [0, 0, 0]);
    assert_eq!(fake.reads, reads);
    assert!(!s.is_locked());
}

#[test]
fn buffer_can_be_filled_in_the_room_that_the_stream_hands_out() {
    let mut s = StdioBuf::new(4, Slot::Input);
    let mut dest = [0u8; 3];
    assert_eq!(s.read::<Failure>(&mut dest), Step::Need(Request::Lock));
    assert_eq!(
        s.resume_read::<Failure>(&mut dest, Event::Locked),
        Step::Need(Request::Fill { max: 4 })
    );
    let mut room = s.fill_store();
    assert_eq!(room, vec![0u8; 4]);
    assert_eq!(s.pending().unwrap().request, Request::Fill { max: 4 });
    room[..4].copy_from_slice(b"wxyz");
    assert_eq!(s.resume_read::<Failure>(&mut dest, Event::Filled(room)), Step::Done(Ok(3)));
    assert_eq!(&dest, b"wxy");
    assert_eq!(s.available(), 1);
    let mut last = [0u8; 1];
    assert_eq!(s.read::<Failure>(&mut last), Step::Done(Ok(1)));
    assert_eq!(&last, b"z");
    assert_eq!(s.fill_store(), vec![0u8; 4]);
}

#[test]
fn read_that_matches_the_buffered_bytes_leaves_the_resource_alone() {
    let mut s = StdioBuf::new(8, Slot::Input);
    let mut fake = Fake::with_input(b"0123456789");
    let mut dest = [0u8; 3];
    assert_eq!(run_read(&mut s, &mut fake, &mut dest), Ok(3));
    assert_eq!(fake.reads, 1);
    assert_eq!(fake.locks, 1);
    assert_eq!(s.available(), 5);
    let mut dest = [0u8; 5];
    let step: Step<usize, Failure> = s.read(&mut dest);
    assert_eq!(step, Step::Done(Ok(5)));
    assert_eq!(&dest, b"34567");
    assert_eq!(fake.reads, 1);
    assert_eq!(fake.locks, 1);
    assert_eq!(s.available(), 0);
    assert!(!s.is_closed());
}

#[test]
fn read_of_nothing_is_a_no_op() {
    let mut s = StdioBuf::new(4, Slot::Input);
    let mut none: [u8; 0] = [];
    let step: Step<usize, Failure> = s.read(&mut none);
    assert_eq!(step, Step::Done(Ok(0)));
    assert!(!s.is_closed());
    assert!(!s.is_locked());
    assert_eq!(s.pending(), None);
}

#[test]
fn read_larger_than_capacity_goes_into_the_destination() {
    let mut s = StdioBuf::new(4, Slot::Input);
    let mut fake = Fake::with_input(b"0123456789abcdef");
    let mut dest = [0u8; 10];
    let step: Step<usize, Failure> = s.read(&mut dest);
    assert_eq!(step, Step::Need(Request::Lock));
    let step = s.resume_read::<Failure>(&mut dest, Event::Locked);
    assert_eq!(step, Step::Need(Request::ReadDirect { from: 0 }));
    let event = fake.serve(&s, Request::ReadDirect { from: 0 }, &[], &mut dest);
    assert_eq!(event, Event::Read(10));
    assert_eq!(s.resume_read(&mut dest, event), Step::Done(Ok(10)));
    assert_eq!(&dest, b"0123456789");
    assert_eq!(s.available(), 0);
    assert!(!s.is_locked());
    assert!(!s.is_closed());
}

#[test]
fn direct_read_goes_on_until_the_destination_is_full() {
    let mut s = StdioBuf::new(2, Slot::Input);
    let mut fake = Fake::with_input(b"0123456789");
    fake.grain = 3;
    let mut dest = [0u8; 8];
    assert_eq!(run_read(&mut s, &mut fake, &mut dest), Ok(8));
    assert_eq!(&dest, b"01234567");
    assert_eq!(fake.reads, 3);
    assert_eq!(fake.locks, 1);
    assert!(!s.is_closed());
}

#[test]
fn reads_cope_with_a_resource_that_delivers_odd_pieces() {
    let text = b"the quick brown fox jumps over the lazy dog";
    for capacity in [0usize, 2, 5, 64] {
        let mut s = StdioBuf::new(capacity, Slot::Input);
        let mut fake = Fake::with_input(text);
        fake.bites = vec![1, 7, 0, 2, 2, 30, 1, 1, 3];
        let mut got: Vec<u8> = Vec::new();
        for size in [4usize, 1, 9, 0, 6, 11, 40] {
            let mut dest = vec![0u8; size];
            let n = run_read(&mut s, &mut fake, &mut dest).unwrap();
            assert_eq!(n, size.min(text.len() - got.len()));
            got.extend_from_slice(&dest[..n]);
        }
        assert_eq!(got, text);
        assert!(s.is_closed());
    }
}

#[test]
fn direct_read_ends_early_at_the_end_of_the_input() {
    let mut s = StdioBuf::new(2, Slot::Input);
    let mut fake = Fake::with_input(b"01234");
    let mut dest = [0u8; 8];
    assert_eq!(run_read(&mut s, &mut fake, &mut dest), Ok(5));
    assert_eq!(&dest[..5], b"01234");
    assert_eq!(&dest[5..], &[0, 0, 0]);
    assert!(s.is_closed());
    assert!(!s.is_locked());
}

#[test]
fn buffered_bytes_are_delivered_before_a_direct_read() {
    let mut s = StdioBuf::new(4, Slot::Input);
    let mut fake = Fake::with_input(b"0123456789abcdef");
    let mut one = [0u8; 1];
    assert_eq!(run_read(&mut s, &mut fake, &mut one), Ok(1));
    assert_eq!(s.available(), 3);
    let mut dest = [0u8; 12];
    let step: Step<usize, Failure> = s.read(&mut dest);
    assert_eq!(step, Step::Need(Request::Lock));
    assert_eq!(&dest[..3], b"123");
    let step = s.resume_read::<Failure>(&mut dest, Event::Locked);
    assert_eq!(step, Step::Need(Request::ReadDirect { from: 3 }));
    let event = fake.serve(&s, Request::ReadDirect { from: 3 }, &[], &mut dest);
    assert_eq!(s.resume_read(&mut dest, event), Step::Done(Ok(12)));
    assert_eq!(&dest, b"123456789abc");
}

#[test]
fn bytes_delivered_before_the_end_of_the_input_are_reported() {
    let mut s = StdioBuf::new(4, Slot::Input);
    let mut fake = Fake::with_input(b"abcde");
    let mut two = [0u8; 2];
    assert_eq!(run_read(&mut s, &mut fake, &mut two), Ok(2));
    let mut dest = [0u8; 4];
    assert_eq!(run_read(&mut s, &mut fake, &mut dest), Ok(3));
    assert_eq!(&dest[..3], b"cde");
    assert!(s.is_closed());
}

#[test]
fn end_of_input_is_sticky() {
    let mut s = StdioBuf::new(4, Slot::Input);
    let mut fake = Fake::with_input(b"xy");
    let mut dest = [0u8; 4];
    assert_eq!(run_read(&mut s, &mut fake, &mut dest), Ok(2));
    assert!(s.is_closed());
    let reads = fake.reads;
    let locks = fake.locks;
    fake.source = b"more".to_vec();
    for size in [1usize, 4, 9, 0] {
        let mut dest = vec![0u8; size];
        let step: Step<usize, Failure> = s.read(&mut dest);
        assert_eq!(step, Step::Done(Ok(0)));
        assert_eq!(dest, vec![0u8; size]);
    }
    assert_eq!(fake.reads, reads);
    assert_eq!(fake.locks, locks);
    assert!(s.is_closed());
}

#[test]
fn empty_input_closes_on_the_first_read() {
    let mut s = StdioBuf::new(4, Slot::Input);
    let mut fake = Fake::new();
    let mut dest = [0u8; 2];
    assert_eq!(run_read(&mut s, &mut fake, &mut dest), Ok(0));
    assert!(s.is_closed());
    assert_eq!(fake.reads, 1);
    assert!(!s.is_locked());
}

#[test]
fn stream_without_capacity_reads_directly() {
    let mut s = StdioBuf::new(0, Slot::Input);
    let mut fake = Fake::with_input(b"abc");
    let mut dest = [0u8; 2];
    assert_eq!(run_read(&mut s, &mut fake, &mut dest), Ok(2));
    assert_eq!(&dest, b"ab");
    assert_eq!(s.available(), 0);
    let mut dest = [0u8; 2];
    assert_eq!(run_read(&mut s, &mut fake, &mut dest), Ok(1));
    assert_eq!(dest[0], b'c');
    assert!(s.is_closed());
}

#[test]
fn read_fails_on_a_poisoned_mutex() {
    let mut s = StdioBuf::new(4, Slot::Input);
    let mut fake = Fake::with_input(b"abc");
    fake.poisoned = true;
    let mut dest = [0u8; 2];
    assert_eq!(
        run_read(&mut s, &mut fake, &mut dest),
        Err(StdioError::LockUnavailable(LockPoisonError))
    );
    assert_eq!(fake.reads, 0);
    assert!(!s.is_closed());
    assert!(!s.is_locked());
}

#[test]
fn read_hands_a_failure_of_the_resource_on() {
    let mut s = StdioBuf::new(4, Slot::Input);
    let mut fake = Fake::with_input(b"abc");
    fake.fail_reads = Some("bad descriptor");
    let mut dest = [0u8; 2];
    assert_eq!(
        run_read(&mut s, &mut fake, &mut dest),
        Err(StdioError::Io("bad descriptor"))
    );
    assert!(s.is_locked());
    assert!(!s.is_closed());
    let mut big = [0u8; 9];
    assert_eq!(
        run_read(&mut s, &mut fake, &mut big),
        Err(StdioError::Io("bad descriptor"))
    );
    fake.fail_reads = None;
    assert_eq!(run_read(&mut s, &mut fake, &mut dest), Ok(2));
    assert_eq!(&dest, b"ab");
    assert!(s.is_locked());
}

#[test]
fn exact_count_is_demanded_of_a_read() {
    let ok: Outcome<usize> = Ok(4);
    assert_eq!(exactly(4, ok), Ok(()));
    let short: Outcome<usize> = Ok(3);
    assert_eq!(exactly(4, short), Err(StdioError::EarlyEndOfInput { obtained: 3 }));
    let none: Outcome<usize> = Ok(0);
    assert_eq!(exactly(1, none), Err(StdioError::EarlyEndOfInput { obtained: 0 }));
    let nothing: Outcome<usize> = Ok(0);
    assert_eq!(exactly(0, nothing), Ok(()));
    let failed: Outcome<usize> = Err(StdioError::Io("gone"));
    assert_eq!(exactly(4, failed), Err(StdioError::Io("gone")));
    let poisoned: Outcome<usize> = Err(StdioError::LockUnavailable(LockPoisonError));
    assert_eq!(exactly(4, poisoned), Err(StdioError::LockUnavailable(LockPoisonError)));
}

#[test]
fn read_that_meets_the_end_early_fails_an_exact_demand() {
    let mut s = StdioBuf::new(4, Slot::Input);
    let mut fake = Fake::with_input(b"abc");
    let mut dest = [0u8; 5];
    let got = run_read(&mut s, &mut fake, &mut dest);
    assert_eq!(exactly(dest.len(), got), Err(StdioError::EarlyEndOfInput { obtained: 3 }));
}

#[test]
fn poison_error_names_itself() {
    assert_eq!(LockPoisonError.message(), "LockPoisonError");
    assert_eq!(format!("{:?}", LockPoisonError), "LockPoisonError");
}

// ---------------------------------------------------------------------
// The lock across operations
// ---------------------------------------------------------------------

#[test]
fn pinned_lock_is_kept_across_operations() {
    let mut s = StdioBuf::new(4, Slot::Output);
    let mut fake = Fake::new();
    assert_eq!(run_lock(&mut s, &mut fake), Ok(()));
    assert_eq!(run_write(&mut s, &mut fake, b"abc"), Ok(3));
    assert!(s.is_locked());
    assert_eq!(run_write(&mut s, &mut fake, b"de"), Ok(2));
    assert!(s.is_locked());
    assert_eq!(run_write(&mut s, &mut fake, b"0123456789"), Ok(10));
    assert!(s.is_locked());
    assert_eq!(run_flush(&mut s, &mut fake), Ok(()));
    assert!(s.is_locked());
    assert_eq!(fake.locks, 1);
    assert_eq!(fake.received(), b"abcde0123456789");
    s.unlock_buf();
    assert!(!s.is_locked());
}

#[test]
fn lock_taken_for_one_operation_is_given_back() {
    let mut s = StdioBuf::new(4, Slot::Input);
    let mut fake = Fake::with_input(b"0123456789");
    let mut dest = [0u8; 2];
    assert_eq!(run_read(&mut s, &mut fake, &mut dest), Ok(2));
    assert!(!s.is_locked());
    let mut dest = [0u8; 6];
    assert_eq!(run_read(&mut s, &mut fake, &mut dest), Ok(6));
    assert!(!s.is_locked());
    assert_eq!(fake.locks, 2);
}

#[test]
fn locked_sequences_of_two_streams_do_not_interleave() {
    let mut fake = Fake::new();
    let mut a = StdioBuf::new(2, Slot::Output);
    let mut b = StdioBuf::new(2, Slot::Output);
    // Both ask for the mutex; it is granted to one of them.
    assert_eq!(a.lock_buf::<Failure>(), Step::Need(Request::Lock));
    assert_eq!(b.lock_buf::<Failure>(), Step::Need(Request::Lock));
    assert_eq!(b.resume_lock::<Failure>(Event::Locked), Step::Done(Ok(())));
    assert!(b.is_locked() && !a.is_locked());
    // The holder writes its three parts; the other one still waits.
    let parts: [&[u8]; 3] = [b"b-one ", b"b-two ", b"b-three\n"];
    for part in parts {
        assert_eq!(run_write(&mut b, &mut fake, part), Ok(part.len()));
        assert!(b.is_locked());
        assert_eq!(a.pending().unwrap().request, Request::Lock);
    }
    assert_eq!(run_flush(&mut b, &mut fake), Ok(()));
    b.unlock_buf();
    // Only now the mutex can be granted to the other one.
    assert_eq!(a.resume_lock::<Failure>(Event::Locked), Step::Done(Ok(())));
    let parts: [&[u8]; 3] = [b"a-one ", b"a-two ", b"a-three\n"];
    for part in parts {
        assert_eq!(run_write(&mut a, &mut fake, part), Ok(part.len()));
        assert!(a.is_locked());
    }
    assert_eq!(run_flush(&mut a, &mut fake), Ok(()));
    a.unlock_buf();
    assert_eq!(fake.received(), b"b-one b-two b-three\na-one a-two a-three\n");
}

/// One thread of a race: a stream, the pieces it wants written under one
/// lock, and how far it has come.
struct Racer {
    stream: StdioBuf,
    pieces: Vec<Vec<u8>>,
    /// How many operations have been begun: the lock, then one write for
    /// each piece, then the flush, then giving the lock back.
    at: usize,
}

impl Racer {
    fn new(capacity: usize, pieces: &[&[u8]]) -> Racer {
        Racer {
            stream: StdioBuf::new(capacity, Slot::Output),
            pieces: pieces.iter().map(|p| p.to_vec()).collect(),
            at: 0,
        }
    }

    fn through(&self) -> bool {
        self.at == self.pieces.len() + 3 && self.stream.pending().is_none()
    }

    /// Goes one call further, if the mutex allows it.
    fn turn(&mut self, fake: &mut Fake, taken_by_other: bool) {
        if let Some(p) = self.stream.pending() {
            if p.request == Request::Lock && taken_by_other {
                return;
            }
            let piece: Vec<u8> =
                if p.op == Op::Write { self.pieces[self.at - 2].clone() } else { Vec::new() };
            let event = fake.serve(&self.stream, p.request, &piece, &mut []);
            assert!(self.stream.awaits(p.op, &event));
            match p.op {
                Op::Pin => assert_eq!(self.stream.resume_lock(event), Step::Done(Ok(()))),
                Op::Flush => {
                    let step = self.stream.resume_flush(event);
                    assert!(step == Step::Done(Ok(())) || matches!(step, Step::Need(_)));
                }
                _ => {
                    let step = self.stream.resume_write(&piece, event);
                    assert!(step == Step::Done(Ok(piece.len())) || matches!(step, Step::Need(_)));
                }
            }
            return;
        }
        let n = self.pieces.len();
        if self.at == 0 {
            let _: Step<(), Failure> = self.stream.lock_buf();
        } else if self.at <= n {
            assert!(self.stream.is_locked());
            let piece = self.pieces[self.at - 1].clone();
            let step: Step<usize, Failure> = self.stream.write(&piece);
            assert!(step == Step::Done(Ok(piece.len())) || matches!(step, Step::Need(_)));
        } else if self.at == n + 1 {
            let _: Step<(), Failure> = self.stream.flush();
        } else if self.at == n + 2 {
            self.stream.unlock_buf();
        } else {
            return;
        }
        self.at += 1;
    }
}

#[test]
fn sessions_of_racing_threads_never_interleave() {
    let ours: [&[u8]; 3] = [b"alpha ", b"beta-beta-beta ", b"gamma\n"];
    let theirs: [&[u8]; 3] = [b"ONE-ONE-ONE-ONE ", b"TWO ", b"THREE\n"];
    let first_then_second = [ours.concat(), theirs.concat()].concat();
    let second_then_first = [theirs.concat(), ours.concat()].concat();
    let mut seen_first = false;
    let mut seen_second = false;
    for capacity in [0usize, 3, 8, 64] {
        for seed in 0..64u64 {
            let mut fake = Fake::new();
            let mut racers = [Racer::new(capacity, &ours), Racer::new(capacity + 2, &theirs)];
            let mut state = seed.wrapping_mul(0x9E37_79B9_7F4A_7C15).wrapping_add(capacity as u64);
            let mut turns = 0;
            while !(racers[0].through() && racers[1].through()) {
                state = state.wrapping_mul(6364136223846793005).wrapping_add(1442695040888963407);
                let who = ((state >> 33) & 1) as usize;
                let taken = racers[1 - who].stream.is_locked();
                racers[who].turn(&mut fake, taken);
                assert!(!(racers[0].stream.is_locked() && racers[1].stream.is_locked()));
                turns += 1;
                assert!(turns < 10_000);
            }
            let got = fake.received();
            assert!(got == first_then_second || got == second_then_first);
            seen_first = seen_first || got == first_then_second;
            seen_second = seen_second || got == second_then_first;
            assert_eq!(fake.locks, 2);
        }
    }
    assert!(seen_first && seen_second);
}

// ---------------------------------------------------------------------
// Writing, then reading back
// ---------------------------------------------------------------------

#[test]
fn written_bytes_read_back_the_same_however_they_are_chunked() {
    let text: Vec<u8> = (0..200u32).map(|i| (i * 7 % 251) as u8).collect();
    let write_sizes = [1usize, 2, 3, 5, 8, 13, 21, 34, 55, 58];
    let read_plans: [&[usize]; 5] = [
        &[200],
        &[1; 200],
        &[3, 5, 7, 11, 13, 17, 19, 23, 29, 31, 37, 5],
        &[64, 64, 64, 64],
        &[7, 250],
    ];
    for capacity in [0usize, 1, 4, 16, 300] {
        let mut out = StdioBuf::new(capacity, Slot::Output);
        let mut wire = Fake::new();
        let mut from = 0;
        for size in write_sizes {
            assert_eq!(run_write(&mut out, &mut wire, &text[from..from + size]), Ok(size));
            from += size;
        }
        assert_eq!(from, 200);
        assert_eq!(run_flush(&mut out, &mut wire), Ok(()));
        assert_eq!(wire.received(), text);
        for plan in read_plans {
            for grain in [1usize, 5, usize::MAX] {
                let mut input = StdioBuf::new(capacity, Slot::Input);
                let mut back = Fake::with_input(&wire.received());
                back.grain = grain;
                let mut got: Vec<u8> = Vec::new();
                for &size in plan {
                    let mut dest = vec![0u8; size];
                    let n = run_read(&mut input, &mut back, &mut dest).unwrap();
                    assert_eq!(n, size.min(200 - got.len()));
                    got.extend_from_slice(&dest[..n]);
                }
                assert_eq!(got, text);
            }
        }
    }
}
