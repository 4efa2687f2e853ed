use vstd::prelude::*;

verus! {

/// A byte store with a cursor over its consumed prefix.
///
/// The bytes behind the cursor are still to be handed out. Once the cursor
/// reaches the end of the store, the store is emptied and the cursor goes
/// back to its start, so the store never grows past its capacity.
pub struct UnVec {
    buf: Vec<u8>,
    start: usize,
    cap: usize,
}

impl View for UnVec {
    type V = Seq<u8>;

    /// The live region: the bytes that have not been handed out yet.
    open spec fn view(&self) -> Seq<u8> {
        self.store().subrange(self.cursor() as int, self.store().len() as int)
    }
}

impl UnVec {
    /// All bytes that the store holds, those handed out included.
    pub closed spec fn store(&self) -> Seq<u8> {
        self.buf@
    }

    /// How many leading bytes of the store have been handed out.
    pub closed spec fn cursor(&self) -> nat {
        self.start as nat
    }

    /// The most that the store may hold.
    pub closed spec fn spec_capacity(&self) -> usize {
        self.cap
    }

    /// The cursor lies within the store, the store within its capacity, and
    /// a store that has been consumed is empty.
    pub open spec fn wf(&self) -> bool {
        &&& self.cursor() <= self.store().len() <= self.spec_capacity()
        &&& self.cursor() == self.store().len() ==> self.cursor() == 0
    }

    /// An empty store that may hold `cap` bytes.
    pub fn with_capacity(cap: usize) -> (s: Self)
        ensures
            s.wf(),
            s.store() == Seq::<u8>::empty(),
            s.cursor() == 0,
            s.spec_capacity() == cap,
            s@ == Seq::<u8>::empty(),
    {
        let s = Self { buf: Vec::with_capacity(cap), start: 0, cap };
        assert(s@ =~= Seq::<u8>::empty());
        s
    }

    /// The most that the store may hold.
    #[verifier::when_used_as_spec(spec_capacity)]
    pub fn capacity(&self) -> (c: usize)
        ensures
            c == self.spec_capacity(),
    {
        self.cap
    }

    /// How many bytes are still to be handed out.
    pub fn len(&self) -> (n: usize)
        requires
            self.wf(),
        ensures
            n == self@.len(),
            n == self.store().len() - self.cursor(),
    {
        self.buf.len() - self.start
    }

    /// Hands out the memory of a store that has been consumed, as zeros up
    /// to its capacity, for the next contents to be put there. The store
    /// itself stays empty until `refill` brings them.
    pub fn lend(&mut self) -> (room: Vec<u8>)
        requires
            old(self).wf(),
            old(self)@.len() == 0,
        ensures
            final(self).wf(),
            final(self).spec_capacity() == old(self).spec_capacity(),
            final(self).store().len() == 0,
            final(self).cursor() == 0,
            room@ == Seq::new(old(self).spec_capacity() as nat, |i: int| 0u8),
    {
        let mut room: Vec<u8> = Vec::new();
        core::mem::swap(&mut self.buf, &mut room);
        self.start = 0;
        room.resize(self.cap, 0);
        assert(room@ =~= Seq::new(self.cap as nat, |i: int| 0u8));
        room
    }

    /// Takes `data` as the new contents of a store that has been consumed.
    pub fn refill(&mut self, data: Vec<u8>)
        requires
            old(self).wf(),
            old(self)@.len() == 0,
            data@.len() <= old(self).spec_capacity(),
        ensures
            final(self).wf(),
            final(self).spec_capacity() == old(self).spec_capacity(),
            final(self).store() == data@,
            final(self).cursor() == 0,
            final(self)@ == data@,
    {
        self.buf = data;
        self.start = 0;
        assert(self@ =~= data@);
    }

    /// Hands out the next bytes, as many as `buf` holds, and moves the
    /// cursor past them. A store that is consumed by this is emptied.
    pub fn extract(&mut self, buf: &mut [u8])
        requires
            old(self).wf(),
            old(buf)@.len() <= old(self)@.len(),
        ensures
            final(self).wf(),
            final(self).spec_capacity() == old(self).spec_capacity(),
            final(buf)@ == old(self)@.subrange(0, old(buf)@.len() as int),
            final(self)@ == old(self)@.subrange(old(buf)@.len() as int, old(self)@.len() as int),
            old(self).cursor() + old(buf)@.len() == old(self).store().len() ==> {
                &&& final(self).store().len() == 0
                &&& final(self).cursor() == 0
            },
            old(self).cursor() + old(buf)@.len() < old(self).store().len() ==> {
                &&& final(self).store() == old(self).store()
                &&& final(self).cursor() == old(self).cursor() + old(buf)@.len()
            },
    {
        let nbuf: usize = buf.len();
        let start: usize = self.start;
        let mut i: usize = 0;
        while i < nbuf
            invariant
                nbuf == buf@.len(),
                start == self.start,
                *self == *old(self),
                self.wf(),
                nbuf <= self@.len(),
                i <= nbuf,
                forall|k: int| 0 <= k < i ==> buf@[k] == self.buf@[start + k],
            decreases nbuf - i,
        {
            buf[i] = self.buf[start + i];
            i += 1;
        }
        self.start = start + nbuf;
        if self.start == self.buf.len() {
            self.buf.clear();
            self.start = 0;
        }
        assert(buf@ =~= old(self)@.subrange(0, nbuf as int));
        assert(self@ =~= old(self)@.subrange(nbuf as int, old(self)@.len() as int));
    }
}

} // verus!
