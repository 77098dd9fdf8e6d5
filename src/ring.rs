use vstd::prelude::*;

verus! {

/// Why a grant could not be handed out.
#[derive(Debug, Clone, Copy, PartialEq, Eq, Structural)]
pub enum Error {
    /// Neither placement of the requested region has enough contiguous room.
    InsufficientSize,
    /// A grant of the same direction is still outstanding.
    GrantInProgress,
    /// The buffer was already split into its producer and consumer halves.
    AlreadySplit,
}

/// A fixed-capacity byte ring with split write/commit and read/release phases.
///
/// Unread bytes run from `read` to `write`; once the writer has wrapped to the
/// front (`write < read`) they run from `read` to `last` and then from the
/// front up to `write`. A region handed to a writer is never split across the
/// physical end: when the end lacks room the writer starts over at offset 0
/// and `last` marks where the skipped tail begins.
pub struct RingBuffer {
    pub(crate) buf: Vec<u8>,
    pub(crate) write: usize,
    pub(crate) read: usize,
    pub(crate) last: usize,
    /// End of the region reserved by the outstanding write grant.
    pub(crate) reserve: usize,
    pub(crate) write_len: usize,
    pub(crate) read_len: usize,
    pub(crate) write_in_progress: bool,
    pub(crate) read_in_progress: bool,
    pub(crate) already_split: bool,
}

impl RingBuffer {
    pub open(crate) spec fn capacity(&self) -> nat {
        self.buf@.len()
    }

    /// The whole storage, read or not.
    pub open(crate) spec fn storage(&self) -> Seq<u8> {
        self.buf@
    }

    /// The read cursor.
    pub open(crate) spec fn read_pos(&self) -> int {
        self.read as int
    }

    /// The write cursor.
    pub open(crate) spec fn write_pos(&self) -> int {
        self.write as int
    }

    /// Length of the outstanding read grant.
    pub open(crate) spec fn read_grant_len(&self) -> int {
        self.read_len as int
    }

    /// Length of the outstanding write grant.
    pub open(crate) spec fn write_grant_len(&self) -> int {
        self.write_len as int
    }

    /// A write grant is outstanding.
    pub open(crate) spec fn writing(&self) -> bool {
        self.write_in_progress
    }

    /// A read grant is outstanding.
    pub open(crate) spec fn reading(&self) -> bool {
        self.read_in_progress
    }

    /// The producer and consumer halves have been handed out.
    pub open(crate) spec fn is_split(&self) -> bool {
        self.already_split
    }

    pub open(crate) spec fn inverted(&self) -> bool {
        self.write < self.read
    }

    /// End of the run that starts at `read`.
    pub open(crate) spec fn head_end(&self) -> int {
        if self.inverted() {
            self.last as int
        } else {
            self.write as int
        }
    }

    /// The unread bytes that lie contiguously from `read` on.
    pub open(crate) spec fn head(&self) -> Seq<u8> {
        self.buf@.subrange(self.read as int, self.head_end())
    }

    /// The unread bytes at the front of the storage, after a wrap.
    pub open(crate) spec fn tail(&self) -> Seq<u8> {
        if self.inverted() {
            self.buf@.subrange(0, self.write as int)
        } else {
            Seq::empty()
        }
    }

    /// Every committed byte not yet released, oldest first.
    pub open(crate) spec fn bytes(&self) -> Seq<u8> {
        self.head() + self.tail()
    }

    /// Offset of the region reserved by the outstanding write grant.
    pub open(crate) spec fn write_start(&self) -> int {
        self.reserve - self.write_len
    }

    /// A write grant of `sz` bytes finds room after `write`, or at the front.
    pub open(crate) spec fn fits(&self, sz: int) -> bool {
        if self.inverted() {
            self.write + sz < self.read
        } else {
            self.write + sz <= self.capacity() || sz < self.read
        }
    }

    pub open(crate) spec fn wf(&self) -> bool {
        &&& self.write <= self.capacity()
        &&& self.read <= self.capacity()
        &&& self.last <= self.capacity()
        &&& self.inverted() ==> self.read <= self.last
        &&& !self.inverted() ==> self.write <= self.last
        &&& self.write_in_progress ==> {
            &&& self.write_len <= self.reserve
            &&& {
                ||| self.write_start() == self.write && !self.inverted() && self.write
                    + self.write_len <= self.capacity()
                ||| self.write_start() == self.write && self.inverted() && self.write
                    + self.write_len < self.read
                ||| self.write_start() == 0 && !self.inverted() && self.write_len < self.read
            }
        }
        &&& self.read_in_progress ==> self.read + self.read_len <= self.head_end()
    }

    /// The storage region of the outstanding write grant.
    pub open(crate) spec fn reserved(&self) -> Seq<u8> {
        self.buf@.subrange(self.write_start(), self.write_start() + self.write_len)
    }

    /// A ring of `capacity` zeroed bytes with nothing to read.
    pub fn new(capacity: usize) -> (r: Self)
        ensures
            r.wf(),
            r.capacity() == capacity,
            r.bytes() == Seq::<u8>::empty(),
            r.framed_wf(),
            r.frames() == Seq::<Seq<u8>>::empty(),
            forall|n: int| 0 <= n <= capacity ==> #[trigger] r.fits(n),
            !r.writing(),
            !r.reading(),
            !r.is_split(),
    {
        let mut buf: Vec<u8> = Vec::new();
        let mut i: usize = 0;
        while i < capacity
            invariant
                i <= capacity,
                buf@.len() == i,
            decreases capacity - i,
        {
            buf.push(0u8);
            i = i + 1;
        }
        let r = RingBuffer {
            buf,
            write: 0,
            read: 0,
            last: 0,
            reserve: 0,
            write_len: 0,
            read_len: 0,
            write_in_progress: false,
            read_in_progress: false,
            already_split: false,
        };
        proof {
            assert(r.head() =~= Seq::<u8>::empty());
            assert(crate::framed::frames_of(Seq::<u8>::empty()) =~= Seq::<Seq<u8>>::empty());
            assert(r.frames() =~= Seq::<Seq<u8>>::empty());
        }
        r
    }

    /// How many committed bytes wait to be read, headers of frames included.
    pub fn available(&self) -> (r: usize)
        requires
            self.wf(),
        ensures
            r == self.bytes().len(),
    {
        if self.write < self.read {
            (self.last - self.read) + self.write
        } else {
            self.write - self.read
        }
    }

    /// Reserves `sz` contiguous bytes for writing, returning their offset.
    pub(crate) fn grant_exact(&mut self, sz: usize) -> (r: Result<usize, Error>)
        requires
            old(self).wf(),
        ensures
            final(self).wf(),
            final(self).buf@ == old(self).buf@,
            final(self).bytes() == old(self).bytes(),
            final(self).read_in_progress == old(self).read_in_progress,
            final(self).read_len == old(self).read_len,
            final(self).already_split == old(self).already_split,
            old(self).write_in_progress ==> r == Err::<usize, Error>(Error::GrantInProgress),
            !old(self).write_in_progress && !old(self).fits(sz as int) ==> r == Err::<usize, Error>(
                Error::InsufficientSize,
            ),
            !old(self).write_in_progress && old(self).fits(sz as int) ==> r is Ok,
            r is Err ==> *final(self) == *old(self),
            r matches Ok(start) ==> {
                &&& *final(self) == (RingBuffer {
                    write_in_progress: true,
                    write_len: sz,
                    reserve: (start + sz) as usize,
                    ..*old(self)
                })
                &&& final(self).write_start() == start
            },
    {
        if self.write_in_progress {
            return Err(Error::GrantInProgress);
        }
        let write = self.write;
        let read = self.read;
        let max = self.buf.len();
        let start: usize;
        if write < read {
            if sz < read - write {
                start = write;
            } else {
                return Err(Error::InsufficientSize);
            }
        } else {
            if sz <= max - write {
                start = write;
            } else if sz < read {
                start = 0;
            } else {
                return Err(Error::InsufficientSize);
            }
        }
        self.write_in_progress = true;
        self.write_len = sz;
        self.reserve = start + sz;
        Ok(start)
    }

    /// Stores one byte inside the region of the outstanding write grant.
    pub(crate) fn store(&mut self, i: usize, v: u8)
        requires
            old(self).wf(),
            old(self).write_in_progress,
            old(self).write_start() <= i < old(self).write_start() + old(self).write_len,
        ensures
            final(self).wf(),
            final(self).buf@ == old(self).buf@.update(i as int, v),
            final(self).bytes() == old(self).bytes(),
            final(self).head() == old(self).head(),
            final(self).tail() == old(self).tail(),
            *final(self) == (RingBuffer { buf: final(self).buf, ..*old(self) }),
    {
        self.buf.set(i, v);
        assert(self.head() =~= old(self).head());
        assert(self.tail() =~= old(self).tail());
    }

    /// Makes the first `used` bytes of the write grant readable and ends it.
    pub(crate) fn commit(&mut self, used: usize)
        requires
            old(self).wf(),
            old(self).write_in_progress,
            used <= old(self).write_len,
        ensures
            final(self).wf(),
            final(self).buf@ == old(self).buf@,
            final(self).bytes() == old(self).bytes() + old(self).buf@.subrange(
                old(self).write_start(),
                old(self).write_start() + used,
            ),
            !final(self).write_in_progress,
            final(self).read_in_progress == old(self).read_in_progress,
            final(self).read_len == old(self).read_len,
            final(self).read == old(self).read,
            final(self).already_split == old(self).already_split,
            // where the new bytes land
            old(self).write_start() == old(self).write ==> {
                &&& final(self).head() == old(self).head() + (if old(self).inverted() {
                    Seq::<u8>::empty()
                } else {
                    old(self).reserved().subrange(0, used as int)
                })
                &&& final(self).tail() == old(self).tail() + (if old(self).inverted() {
                    old(self).reserved().subrange(0, used as int)
                } else {
                    Seq::<u8>::empty()
                })
            },
            old(self).write_start() != old(self).write ==> {
                &&& final(self).head() == old(self).head()
                &&& final(self).tail() == old(self).reserved().subrange(0, used as int)
            },
    {
        let len = self.write_len;
        let write = self.write;
        let max = self.buf.len();
        let new_write = self.reserve - (len - used);
        self.reserve = new_write;
        if new_write < write && write != max {
            self.last = write;
        } else if new_write > self.last {
            self.last = max;
        }
        self.write = new_write;
        self.write_in_progress = false;
        proof {
            let o = *old(self);
            let s = o.write_start();
            assert(o.reserved().subrange(0, used as int) =~= o.buf@.subrange(s, s + used));
            if s == o.write as int {
                if o.inverted() {
                    assert(self.head() =~= o.head());
                    assert(self.tail() =~= o.tail() + o.buf@.subrange(s, s + used));
                } else {
                    assert(self.head() =~= o.head() + o.buf@.subrange(s, s + used));
                    assert(self.tail() =~= o.tail());
                }
            } else {
                assert(self.head() =~= o.head());
                assert(self.tail() =~= o.buf@.subrange(s, s + used));
            }
            assert(self.bytes() =~= o.bytes() + o.buf@.subrange(s, s + used));
        }
    }

    /// Hands out the unread bytes that lie contiguously from the read cursor,
    /// as an offset and a length.
    pub(crate) fn read(&mut self) -> (r: Result<(usize, usize), Error>)
        requires
            old(self).wf(),
        ensures
            final(self).wf(),
            final(self).buf@ == old(self).buf@,
            final(self).bytes() == old(self).bytes(),
            final(self).write_in_progress == old(self).write_in_progress,
            final(self).write_start() == old(self).write_start(),
            final(self).write_len == old(self).write_len,
            final(self).already_split == old(self).already_split,
            old(self).read_in_progress ==> r == Err::<(usize, usize), Error>(Error::GrantInProgress),
            !old(self).read_in_progress && old(self).bytes().len() == 0 ==> r == Err::<
                (usize, usize),
                Error,
            >(Error::InsufficientSize),
            r is Err ==> *final(self) == (RingBuffer { read: final(self).read, ..*old(self) }),
            old(self).read_in_progress ==> *final(self) == *old(self),
            forall|n: int| #[trigger] old(self).fits(n) ==> final(self).fits(n),
            !old(self).read_in_progress && old(self).bytes().len() > 0 ==> r is Ok,
            r matches Ok((start, len)) ==> {
                &&& final(self).read_in_progress
                &&& start == final(self).read
                &&& len == final(self).read_len
                &&& len > 0
                &&& final(self).head() == final(self).buf@.subrange(
                    start as int,
                    start + len,
                )
                // the run handed out is the head, or what was the tail
                &&& (final(self).head() == old(self).head() && final(self).tail()
                    == old(self).tail()) || (old(self).head().len() == 0 && final(self).head()
                    == old(self).tail() && final(self).tail().len() == 0)
            },
    {
        if self.read_in_progress {
            return Err(Error::GrantInProgress);
        }
        let write = self.write;
        let last = self.last;
        let mut read = self.read;
        if read == last && write < read {
            read = 0;
            self.read = 0;
        }
        let sz: usize = if write < read {
            last - read
        } else {
            write - read
        };
        if sz == 0 {
            proof {
                assert(self.head().len() == 0);
                assert(old(self).bytes() =~= self.bytes());
            }
            return Err(Error::InsufficientSize);
        }
        self.read_in_progress = true;
        self.read_len = sz;
        proof {
            assert(self.bytes() =~= old(self).bytes());
        }
        Ok((read, sz))
    }

    /// Shortens the outstanding read grant to its first `len` bytes.
    pub(crate) fn shrink_read(&mut self, len: usize)
        requires
            old(self).wf(),
            old(self).read_in_progress,
            len <= old(self).read_len,
        ensures
            final(self).wf(),
            *final(self) == (RingBuffer { read_len: len, ..*old(self) }),
    {
        self.read_len = len;
    }

    /// Frees the first `used` bytes of the read grant and ends it.
    pub(crate) fn release(&mut self, used: usize)
        requires
            old(self).wf(),
            old(self).read_in_progress,
            used <= old(self).read_len,
        ensures
            final(self).wf(),
            final(self).buf@ == old(self).buf@,
            final(self).head() == old(self).head().subrange(used as int, old(self).head().len() as int),
            final(self).tail() == old(self).tail(),
            final(self).bytes() == old(self).bytes().subrange(used as int, old(self).bytes().len() as int),
            !final(self).read_in_progress,
            final(self).write_in_progress == old(self).write_in_progress,
            final(self).write_start() == old(self).write_start(),
            final(self).write_len == old(self).write_len,
            final(self).already_split == old(self).already_split,
    {
        self.read = self.read + used;
        self.read_in_progress = false;
        proof {
            assert(self.head() =~= old(self).head().subrange(used as int, old(self).head().len() as int));
            assert(self.tail() =~= old(self).tail());
            assert(self.bytes() =~= old(self).bytes().subrange(used as int, old(self).bytes().len() as int));
        }
    }
}

} // verus!
