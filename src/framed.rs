use vstd::prelude::*;

use crate::ring::{Error, RingBuffer};

verus! {

/// Bytes taken by the length header in front of every frame.
pub const HDR_LEN: usize = 2;

/// Largest payload a two-byte header can describe.
pub const FRAME_MAX: usize = 65535;

/// The payload length recorded by a two-byte little-endian header at the
/// front of `s`.
pub open spec fn header_value(s: Seq<u8>) -> nat {
    s[0] as nat + 256 * (s[1] as nat)
}

/// A payload as it is stored: its length, little-endian, then its bytes.
pub open spec fn encode_frame(p: Seq<u8>) -> Seq<u8> {
    seq![(p.len() % 256) as u8, (p.len() / 256) as u8] + p
}

/// `s` is a run of whole frames, each a header and the payload it describes.
pub open spec fn well_framed(s: Seq<u8>) -> bool
    decreases s.len(),
{
    if s.len() == 0 {
        true
    } else if s.len() < 2 || s.len() < 2 + header_value(s) {
        false
    } else {
        well_framed(s.subrange(2 + header_value(s) as int, s.len() as int))
    }
}

/// The payloads of the whole frames at the front of `s`, in order.
pub open spec fn frames_of(s: Seq<u8>) -> Seq<Seq<u8>>
    decreases s.len(),
{
    if s.len() < 2 || s.len() < 2 + header_value(s) {
        Seq::empty()
    } else {
        seq![s.subrange(2, 2 + header_value(s) as int)] + frames_of(
            s.subrange(2 + header_value(s) as int, s.len() as int),
        )
    }
}

/// The total length of a sequence of frames as stored, headers included.
pub open spec fn stored_len(fs: Seq<Seq<u8>>) -> nat
    decreases fs.len(),
{
    if fs.len() == 0 {
        0
    } else {
        stored_len(fs.drop_last()) + 2 + fs.last().len()
    }
}

proof fn lemma_header_of_encoding(p: Seq<u8>)
    requires
        p.len() <= FRAME_MAX,
    ensures
        encode_frame(p).len() == 2 + p.len(),
        header_value(encode_frame(p)) == p.len(),
        encode_frame(p).subrange(2, 2 + p.len() as int) == p,
{
    let n = p.len() as int;
    let a = n % 256;
    let b = n / 256;
    assert(n == 256 * b + a && 0 <= a < 256 && 0 <= b < 256) by (nonlinear_arith)
        requires
            0 <= n <= 65535,
            a == n % 256,
            b == n / 256,
    ;
    assert(encode_frame(p).subrange(2, 2 + p.len() as int) =~= p);
}

/// Appending a frame to a run of whole frames adds exactly that frame.
proof fn lemma_append_frame(a: Seq<u8>, p: Seq<u8>)
    requires
        well_framed(a),
        p.len() <= FRAME_MAX,
    ensures
        well_framed(a + encode_frame(p)),
        frames_of(a + encode_frame(p)) == frames_of(a).push(p),
        stored_len(frames_of(a)) == a.len(),
    decreases a.len(),
{
    let e = encode_frame(p);
    lemma_header_of_encoding(p);
    if a.len() == 0 {
        assert(a + e =~= e);
        let rest = e.subrange(2 + p.len() as int, e.len() as int);
        assert(rest.len() == 0);
        assert(frames_of(rest) == Seq::<Seq<u8>>::empty());
        assert(well_framed(rest));
        assert(e.subrange(2, 2 + p.len() as int) == p);
        assert(well_framed(e));
        assert(frames_of(e) =~= seq![p]);
        assert(frames_of(a) == Seq::<Seq<u8>>::empty());
        assert(frames_of(a).push(p) =~= seq![p]);
    } else {
        let h = header_value(a) as int;
        let r = a.subrange(2 + h, a.len() as int);
        lemma_append_frame(r, p);
        let ae = a + e;
        assert(ae[0] == a[0] && ae[1] == a[1]);
        assert(ae.subrange(2 + h, ae.len() as int) =~= r + e);
        assert(ae.subrange(2, 2 + h) =~= a.subrange(2, 2 + h));
        assert(header_value(ae) == h);
        assert(well_framed(r + e));
        assert(well_framed(ae));
        let fa = frames_of(a);
        assert(fa == seq![a.subrange(2, 2 + h)] + frames_of(r));
        assert(frames_of(ae) =~= fa.push(p));
        let fr = frames_of(r);
        lemma_stored_len_prepend(a.subrange(2, 2 + h), fr);
        assert(fa =~= seq![a.subrange(2, 2 + h)] + fr);
    }
}

proof fn lemma_stored_len_prepend(x: Seq<u8>, fs: Seq<Seq<u8>>)
    ensures
        stored_len(seq![x] + fs) == 2 + x.len() + stored_len(fs),
    decreases fs.len(),
{
    if fs.len() == 0 {
        assert(seq![x] + fs =~= seq![x]);
        assert(seq![x].drop_last() =~= Seq::<Seq<u8>>::empty());
        assert(seq![x].last() == x);
        assert(stored_len(Seq::<Seq<u8>>::empty()) == 0);
    } else {
        lemma_stored_len_prepend(x, fs.drop_last());
        assert((seq![x] + fs).drop_last() =~= seq![x] + fs.drop_last());
        assert((seq![x] + fs).last() == fs.last());
    }
}

proof fn lemma_stored_len_concat(a: Seq<Seq<u8>>, b: Seq<Seq<u8>>)
    ensures
        stored_len(a + b) == stored_len(a) + stored_len(b),
    decreases b.len(),
{
    if b.len() == 0 {
        assert(a + b =~= a);
    } else {
        lemma_stored_len_concat(a, b.drop_last());
        assert((a + b).drop_last() =~= a + b.drop_last());
    }
}

/// A run of whole frames is empty exactly when it holds no frame, and its
/// first frame is the one described by its leading header.
pub(crate) proof fn lemma_first_frame(s: Seq<u8>)
    requires
        well_framed(s),
    ensures
        stored_len(frames_of(s)) == s.len(),
        s.len() == 0 <==> frames_of(s).len() == 0,
        s.len() > 0 ==> {
            let h = header_value(s) as int;
            &&& 2 + h <= s.len()
            &&& frames_of(s)[0] == s.subrange(2, 2 + h)
            &&& well_framed(s.subrange(2 + h, s.len() as int))
            &&& frames_of(s.subrange(2 + h, s.len() as int)) == frames_of(s).drop_first()
        },
    decreases s.len(),
{
    if s.len() > 0 {
        let h = header_value(s) as int;
        let r = s.subrange(2 + h, s.len() as int);
        lemma_first_frame(r);
        lemma_stored_len_prepend(s.subrange(2, 2 + h), frames_of(r));
        assert(frames_of(s).drop_first() =~= frames_of(r));
    }
}

/// Whatever commits and releases came before, the bytes waiting to be read
/// are exactly the stored frames, headers included: nothing is lost and
/// nothing is counted twice.
pub proof fn lemma_available_is_frames(bb: RingBuffer)
    requires
        bb.framed_wf(),
    ensures
        bb.bytes().len() == stored_len(bb.frames()),
{
    lemma_first_frame(bb.head());
    lemma_first_frame(bb.tail());
    lemma_stored_len_concat(frames_of(bb.head()), frames_of(bb.tail()));
}

/// One more frame adds its payload and its header to the stored total.
pub proof fn lemma_stored_len_push(fs: Seq<Seq<u8>>, p: Seq<u8>)
    ensures
        stored_len(fs.push(p)) == stored_len(fs) + 2 + p.len(),
{
    assert(fs.push(p).drop_last() =~= fs);
}

/// Committing `used` bytes of a grant's room into an empty buffer stores
/// exactly the payload and its two header bytes, and the next frame read is
/// exactly `used` bytes long.
pub proof fn lemma_commit_then_read(before: RingBuffer, after: RingBuffer, room: Seq<u8>, used: nat)
    requires
        before.framed_wf(),
        after.framed_wf(),
        before.frames().len() == 0,
        used <= room.len(),
        after.frames() == before.frames().push(room.subrange(0, used as int)),
    ensures
        after.bytes().len() == before.bytes().len() + 2 + used,
        after.frames().len() == 1,
        after.frames()[0] == room.subrange(0, used as int),
        after.frames()[0].len() == used,
{
    lemma_available_is_frames(before);
    lemma_available_is_frames(after);
    lemma_stored_len_push(before.frames(), room.subrange(0, used as int));
    assert(stored_len(before.frames()) == 0);
}

/// A frame committed, read and released leaves the buffer with as many
/// bytes waiting, and as much free room, as before the grant.
pub proof fn lemma_round_trip(
    before: RingBuffer,
    committed: RingBuffer,
    released: RingBuffer,
    p: Seq<u8>,
)
    requires
        before.framed_wf(),
        committed.framed_wf(),
        released.framed_wf(),
        committed.frames() == before.frames().push(p),
        before.frames().len() == 0,
        released.frames() == committed.frames().drop_first(),
        released.capacity() == before.capacity(),
    ensures
        released.frames() == before.frames(),
        released.bytes().len() == before.bytes().len(),
        released.capacity() - released.bytes().len() == before.capacity() - before.bytes().len(),
{
    assert(released.frames() =~= before.frames());
    lemma_available_is_frames(before);
    lemma_available_is_frames(released);
}

impl RingBuffer {
    /// The ring holds whole frames only, in each of its two runs.
    pub open(crate) spec fn framed_wf(&self) -> bool {
        &&& self.wf()
        &&& well_framed(self.head())
        &&& well_framed(self.tail())
    }

    /// The payloads of the frames waiting to be read, oldest first.
    pub open(crate) spec fn frames(&self) -> Seq<Seq<u8>> {
        frames_of(self.head()) + frames_of(self.tail())
    }

    /// A frame of up to `max_sz` payload bytes can be granted now.
    pub open(crate) spec fn frame_fits(&self, max_sz: int) -> bool {
        max_sz <= FRAME_MAX && self.fits(max_sz + 2)
    }

    /// Splits the buffer into its producer and consumer halves, once.
    pub fn try_split_framed(&mut self) -> (r: Result<(FrameProducer, FrameConsumer), Error>)
        requires
            old(self).framed_wf(),
        ensures
            final(self).framed_wf(),
            final(self).frames() == old(self).frames(),
            final(self).bytes() == old(self).bytes(),
            final(self).writing() == old(self).writing(),
            final(self).reading() == old(self).reading(),
            final(self).is_split(),
            forall|n: int| #[trigger] final(self).fits(n) == old(self).fits(n),
            old(self).is_split() <==> r == Err::<(FrameProducer, FrameConsumer), Error>(
                Error::AlreadySplit,
            ),
            r is Ok <==> !old(self).is_split(),
    {
        if self.already_split {
            return Err(Error::AlreadySplit);
        }
        self.already_split = true;
        Ok((FrameProducer { _private: () }, FrameConsumer { _private: () }))
    }
}

/// The writing half of a framed buffer.
pub struct FrameProducer {
    pub(crate) _private: (),
}

/// The reading half of a framed buffer.
pub struct FrameConsumer {
    pub(crate) _private: (),
}

/// A write grant for a single frame: room for a header and up to `len`
/// payload bytes.
///
/// A grant that is dismissed without an explicit commit commits what
/// `to_commit` configured, which is nothing unless it was called.
pub struct FrameGrantW {
    pub(crate) start: usize,
    pub(crate) len: usize,
    pub(crate) to_commit: usize,
}

/// A read grant for a single frame, positioned on its payload.
///
/// A grant that is dismissed without an explicit release frees the frame only
/// if `auto_release(true)` was called.
pub struct FrameGrantR {
    pub(crate) start: usize,
    pub(crate) len: usize,
    pub(crate) to_release: usize,
}

impl FrameProducer {
    /// Grants room for a frame of at most `max_sz` payload bytes.
    ///
    /// The header is reserved in front of the payload; the exact frame size is
    /// set on commit.
    pub fn grant(&mut self, bb: &mut RingBuffer, max_sz: usize) -> (r: Result<FrameGrantW, Error>)
        requires
            old(bb).framed_wf(),
        ensures
            final(bb).framed_wf(),
            final(bb).capacity() == old(bb).capacity(),
            final(bb).frames() == old(bb).frames(),
            final(bb).bytes() == old(bb).bytes(),
            final(bb).storage() == old(bb).storage(),
            final(bb).reading() == old(bb).reading(),
            final(bb).read_grant_len() == old(bb).read_grant_len(),
            final(bb).read_pos() == old(bb).read_pos(),
            final(bb).head() == old(bb).head(),
            final(bb).is_split() == old(bb).is_split(),
            max_sz > FRAME_MAX ==> r == Err::<FrameGrantW, Error>(Error::InsufficientSize),
            max_sz <= FRAME_MAX && old(bb).writing() ==> r == Err::<FrameGrantW, Error>(
                Error::GrantInProgress,
            ),
            max_sz <= FRAME_MAX && !old(bb).writing() && !old(bb).fits(max_sz + 2) ==> r == Err::<
                FrameGrantW,
                Error,
            >(Error::InsufficientSize),
            !old(bb).writing() && old(bb).frame_fits(max_sz as int) ==> r is Ok,
            r is Err ==> *final(bb) == *old(bb),
            r matches Ok(g) ==> {
                &&& g.inv(*final(bb))
                &&& g.payload_len() == max_sz
                &&& g.pending() == 0
                &&& final(bb).writing()
            },
    {
        if max_sz > FRAME_MAX {
            return Err(Error::InsufficientSize);
        }
        match bb.grant_exact(max_sz + HDR_LEN) {
            Ok(start) => Ok(FrameGrantW { start, len: max_sz, to_commit: 0 }),
            Err(e) => Err(e),
        }
    }
}

impl FrameConsumer {
    /// The oldest frame, if one is waiting and no read grant is outstanding.
    pub fn read(&mut self, bb: &mut RingBuffer) -> (r: Option<FrameGrantR>)
        requires
            old(bb).framed_wf(),
        ensures
            final(bb).framed_wf(),
            final(bb).capacity() == old(bb).capacity(),
            final(bb).frames() == old(bb).frames(),
            final(bb).bytes() == old(bb).bytes(),
            final(bb).storage() == old(bb).storage(),
            final(bb).writing() == old(bb).writing(),
            final(bb).write_start() == old(bb).write_start(),
            final(bb).write_grant_len() == old(bb).write_grant_len(),
            final(bb).is_split() == old(bb).is_split(),
            forall|n: int| #[trigger] old(bb).fits(n) ==> final(bb).fits(n),
            r is None <==> (old(bb).reading() || old(bb).frames().len() == 0),
            r is None ==> final(bb).reading() == old(bb).reading(),
            r matches Some(g) ==> {
                &&& g.inv(*final(bb))
                &&& g.pending() == 0
                &&& g.payload(*final(bb)) == old(bb).frames()[0]
                &&& g.payload_len() == old(bb).frames()[0].len()
            },
    {
        let ghost before = *bb;
        proof {
            lemma_first_frame(bb.head());
            lemma_first_frame(bb.tail());
        }
        match bb.read() {
            Err(_) => {
                proof {
                    if !before.reading() {
                        lemma_no_frames(before);
                        lemma_no_frames(*bb);
                    }
                }
                None
            },
            Ok((start, _sz)) => {
                proof {
                    lemma_first_frame(bb.head());
                    if before.head().len() == 0 && bb.head() == before.tail() {
                        assert(bb.tail() =~= Seq::<u8>::empty());
                        assert(before.head() =~= Seq::<u8>::empty());
                        assert(frames_of(Seq::<u8>::empty()) =~= Seq::<Seq<u8>>::empty());
                        assert(bb.frames() =~= before.frames());
                    }
                }
                let b0 = bb.buf[start];
                let b1 = bb.buf[start + 1];
                let frame_len = b0 as usize + 256 * (b1 as usize);
                bb.shrink_read(frame_len + HDR_LEN);
                proof {
                    let h = bb.head();
                    assert(h[0] == b0 && h[1] == b1);
                    assert(bb.buf@.subrange(start + 2, start + 2 + frame_len) =~= h.subrange(
                        2,
                        2 + frame_len,
                    ));
                }
                Some(FrameGrantR { start, len: frame_len, to_release: 0 })
            },
        }
    }
}

/// With nothing unread there is no frame.
proof fn lemma_no_frames(bb: RingBuffer)
    requires
        bb.bytes().len() == 0,
    ensures
        bb.frames() == Seq::<Seq<u8>>::empty(),
{
    assert(bb.head() =~= Seq::<u8>::empty());
    assert(bb.tail() =~= Seq::<u8>::empty());
    assert(frames_of(Seq::<u8>::empty()) =~= Seq::<Seq<u8>>::empty());
    assert(bb.frames() =~= Seq::<Seq<u8>>::empty());
}

impl FrameGrantW {
    /// This grant is the outstanding write grant of `bb`.
    pub open(crate) spec fn inv(&self, bb: RingBuffer) -> bool {
        &&& bb.framed_wf()
        &&& bb.writing()
        &&& bb.write_start() == self.start
        &&& bb.write_len == self.len + 2
        &&& self.len <= FRAME_MAX
        &&& self.to_commit == 0 || {
            &&& 2 <= self.to_commit <= self.len + 2
            &&& header_value(bb.reserved()) == self.to_commit - 2
        }
    }

    /// Room for payload, in bytes.
    pub open(crate) spec fn payload_len(&self) -> nat {
        self.len as nat
    }

    /// Payload bytes that dismissing the grant commits, with their header.
    pub open(crate) spec fn pending(&self) -> nat {
        self.to_commit as nat
    }

    /// The payload area as it stands in `bb`.
    pub open(crate) spec fn payload(&self, bb: RingBuffer) -> Seq<u8> {
        bb.buf@.subrange(self.start + 2, self.start + 2 + self.len)
    }

    /// Offset of the payload area in the storage.
    pub open(crate) spec fn payload_start(&self) -> nat {
        (self.start + 2) as nat
    }

    /// Room for payload, in bytes.
    pub fn len(&self) -> (r: usize)
        ensures
            r == self.payload_len(),
    {
        self.len
    }

    /// Offset of the payload area in the ring's storage.
    pub fn offset(&self, bb: &RingBuffer) -> (r: usize)
        requires
            self.inv(*bb),
        ensures
            r == self.payload_start(),
    {
        self.start + HDR_LEN
    }

    /// Writes byte `v` at position `i` of the payload.
    pub fn store(&self, bb: &mut RingBuffer, i: usize, v: u8)
        requires
            self.inv(*old(bb)),
            i < self.payload_len(),
        ensures
            self.inv(*final(bb)),
            final(bb).capacity() == old(bb).capacity(),
            self.payload(*final(bb)) == self.payload(*old(bb)).update(i as int, v),
            final(bb).frames() == old(bb).frames(),
            final(bb).bytes() == old(bb).bytes(),
            final(bb).head() == old(bb).head(),
            final(bb).tail() == old(bb).tail(),
            final(bb).reading() == old(bb).reading(),
            final(bb).read_pos() == old(bb).read_pos(),
            final(bb).read_grant_len() == old(bb).read_grant_len(),
            final(bb).is_split() == old(bb).is_split(),
    {
        bb.store(self.start + HDR_LEN + i, v);
        proof {
            assert(self.payload(*bb) =~= self.payload(*old(bb)).update(i as int, v));
            assert(bb.reserved()[0] == old(bb).reserved()[0]);
            assert(bb.reserved()[1] == old(bb).reserved()[1]);
        }
    }

    /// Writes the frame length for `used` payload bytes, clamped to the
    /// room, into the header and returns the length with the header.
    fn set_header(&self, bb: &mut RingBuffer, used: usize) -> (r: usize)
        requires
            old(bb).framed_wf(),
            old(bb).writing(),
            old(bb).write_start() == self.start,
            old(bb).write_grant_len() == self.len + 2,
            self.len <= FRAME_MAX,
        ensures
            r == 2 + if used <= self.len {
                used
            } else {
                self.len
            },
            final(bb).framed_wf(),
            final(bb).capacity() == old(bb).capacity(),
            final(bb).writing(),
            header_value(final(bb).reserved()) == r - 2,
            final(bb).reserved().subrange(0, r as int) == encode_frame(
                self.payload(*old(bb)).subrange(0, r - 2),
            ),
            self.payload(*final(bb)) == self.payload(*old(bb)),
            final(bb).frames() == old(bb).frames(),
            final(bb).bytes() == old(bb).bytes(),
            final(bb).head() == old(bb).head(),
            final(bb).tail() == old(bb).tail(),
            final(bb).write_start() == old(bb).write_start(),
            final(bb).write_grant_len() == old(bb).write_grant_len(),
            final(bb).write_pos() == old(bb).write_pos(),
            final(bb).reading() == old(bb).reading(),
            final(bb).read_pos() == old(bb).read_pos(),
            final(bb).read_grant_len() == old(bb).read_grant_len(),
            final(bb).is_split() == old(bb).is_split(),
    {
        let frame_len: usize = if used <= self.len {
            used
        } else {
            self.len
        };
        let lo = (frame_len % 256) as u8;
        let hi = (frame_len / 256) as u8;
        bb.store(self.start, lo);
        bb.store(self.start + 1, hi);
        proof {
            let p = self.payload(*old(bb)).subrange(0, frame_len as int);
            lemma_header_of_encoding(p);
            assert(self.payload(*bb) =~= self.payload(*old(bb)));
            assert(bb.reserved().subrange(0, frame_len + 2) =~= encode_frame(p));
            assert(bb.reserved()[0] == lo && bb.reserved()[1] == hi);
            assert(header_value(bb.reserved()) == header_value(encode_frame(p)));
        }
        frame_len + HDR_LEN
    }

    /// Commits the first `used` payload bytes, clamped to the room, as one
    /// frame, which makes it available to the consumer.
    pub fn commit(self, bb: &mut RingBuffer, used: usize)
        requires
            self.inv(*old(bb)),
        ensures
            final(bb).framed_wf(),
            final(bb).capacity() == old(bb).capacity(),
            !final(bb).writing(),
            final(bb).frames() == old(bb).frames().push(
                self.payload(*old(bb)).subrange(
                    0,
                    if used <= self.payload_len() {
                        used as int
                    } else {
                        self.payload_len() as int
                    },
                ),
            ),
            final(bb).bytes().len() == old(bb).bytes().len() + 2 + if used
                <= self.payload_len() {
                used as nat
            } else {
                self.payload_len()
            },
            final(bb).reading() == old(bb).reading(),
            final(bb).read_pos() == old(bb).read_pos(),
            final(bb).read_grant_len() == old(bb).read_grant_len(),
            final(bb).storage().subrange(final(bb).read_pos(), final(bb).read_pos() + old(bb).head().len())
                == old(bb).head(),
            old(bb).head().len() <= final(bb).head().len(),
            final(bb).is_split() == old(bb).is_split(),
    {
        let total = self.set_header(bb, used);
        let ghost mid = *bb;
        bb.commit(total);
        proof {
            let p = self.payload(*old(bb)).subrange(0, total - 2);
            lemma_header_of_encoding(p);
            let e = mid.reserved().subrange(0, total as int);
            assert(e == encode_frame(p));
            if mid.write_start() == mid.write as int {
                if mid.inverted() {
                    lemma_append_frame(mid.tail(), p);
                    assert(bb.tail() == mid.tail() + e);
                } else {
                    lemma_append_frame(mid.head(), p);
                    assert(bb.head() == mid.head() + e);
                    assert(mid.tail() =~= Seq::<u8>::empty());
                    assert(bb.tail() =~= Seq::<u8>::empty());
                }
            } else {
                lemma_append_frame(Seq::<u8>::empty(), p);
                assert(Seq::<u8>::empty() + e =~= e);
                assert(mid.tail() =~= Seq::<u8>::empty());
                assert(frames_of(Seq::<u8>::empty()) =~= Seq::<Seq<u8>>::empty());
            }
            assert(bb.frames() =~= mid.frames().push(p));
            assert(bb.buf@.subrange(bb.read as int, bb.read + mid.head().len()) =~= mid.head());
        }
    }

    /// Sets what dismissing the grant commits: `amt` payload bytes, clamped
    /// to the room, or nothing at all when `amt` is zero.
    pub fn to_commit(&mut self, bb: &mut RingBuffer, amt: usize)
        requires
            old(self).inv(*old(bb)),
        ensures
            final(self).inv(*final(bb)),
            final(bb).capacity() == old(bb).capacity(),
            final(self).payload_len() == old(self).payload_len(),
            final(self).payload(*final(bb)) == old(self).payload(*old(bb)),
            final(self).pending() == if amt == 0 {
                0
            } else {
                2 + if amt <= old(self).payload_len() {
                    amt as nat
                } else {
                    old(self).payload_len()
                }
            },
            final(bb).frames() == old(bb).frames(),
            final(bb).bytes() == old(bb).bytes(),
            final(bb).head() == old(bb).head(),
            final(bb).tail() == old(bb).tail(),
            final(bb).reading() == old(bb).reading(),
            final(bb).read_pos() == old(bb).read_pos(),
            final(bb).read_grant_len() == old(bb).read_grant_len(),
            final(bb).is_split() == old(bb).is_split(),
    {
        if amt == 0 {
            self.to_commit = 0;
        } else {
            let size = self.set_header(bb, amt);
            self.to_commit = size;
        }
    }

    /// Ends the grant without an explicit commit: commits the frame set up by
    /// `to_commit`, or nothing.
    pub fn dismiss(self, bb: &mut RingBuffer)
        requires
            self.inv(*old(bb)),
        ensures
            final(bb).framed_wf(),
            final(bb).capacity() == old(bb).capacity(),
            !final(bb).writing(),
            final(bb).frames() == if self.pending() == 0 {
                old(bb).frames()
            } else {
                old(bb).frames().push(self.payload(*old(bb)).subrange(0, self.pending() - 2))
            },
            final(bb).bytes().len() == old(bb).bytes().len() + self.pending(),
            final(bb).reading() == old(bb).reading(),
            final(bb).read_pos() == old(bb).read_pos(),
            final(bb).read_grant_len() == old(bb).read_grant_len(),
            final(bb).storage().subrange(final(bb).read_pos(), final(bb).read_pos() + old(bb).head().len())
                == old(bb).head(),
            old(bb).head().len() <= final(bb).head().len(),
            final(bb).is_split() == old(bb).is_split(),
    {
        let ghost mid = *bb;
        let total = self.to_commit;
        bb.commit(total);
        proof {
            if total == 0 {
                assert(mid.reserved().subrange(0, 0) =~= Seq::<u8>::empty());
                if mid.write_start() == mid.write as int {
                    assert(bb.head() =~= mid.head());
                    assert(bb.tail() =~= mid.tail());
                } else {
                    assert(mid.tail() =~= Seq::<u8>::empty());
                    assert(bb.tail() =~= Seq::<u8>::empty());
                }
                assert(bb.frames() =~= mid.frames());
            } else {
                let p = self.payload(mid).subrange(0, total - 2);
                lemma_header_of_encoding(p);
                let e = mid.reserved().subrange(0, total as int);
                assert(e =~= encode_frame(p));
                if mid.write_start() == mid.write as int {
                    if mid.inverted() {
                        lemma_append_frame(mid.tail(), p);
                    } else {
                        lemma_append_frame(mid.head(), p);
                        assert(mid.tail() =~= Seq::<u8>::empty());
                        assert(bb.tail() =~= Seq::<u8>::empty());
                    }
                } else {
                    lemma_append_frame(Seq::<u8>::empty(), p);
                    assert(Seq::<u8>::empty() + e =~= e);
                    assert(mid.tail() =~= Seq::<u8>::empty());
                    assert(frames_of(Seq::<u8>::empty()) =~= Seq::<Seq<u8>>::empty());
                }
                assert(bb.frames() =~= mid.frames().push(p));
            }
            assert(bb.buf@.subrange(bb.read as int, bb.read + mid.head().len()) =~= mid.head());
        }
    }
}

impl FrameGrantR {
    /// This grant is the outstanding read grant of `bb`, on its oldest frame.
    pub open(crate) spec fn inv(&self, bb: RingBuffer) -> bool {
        &&& bb.framed_wf()
        &&& bb.reading()
        &&& bb.read == self.start
        &&& bb.read_len == self.len + 2
        &&& bb.head().len() >= 2
        &&& header_value(bb.head()) == self.len
        &&& self.to_release == 0 || self.to_release == self.len + 2
    }

    /// Payload bytes of the frame.
    pub open(crate) spec fn payload_len(&self) -> nat {
        self.len as nat
    }

    /// Bytes, with the header, that dismissing the grant frees.
    pub open(crate) spec fn pending(&self) -> nat {
        self.to_release as nat
    }

    /// The frame's payload as it stands in `bb`.
    pub open(crate) spec fn payload(&self, bb: RingBuffer) -> Seq<u8> {
        bb.buf@.subrange(self.start + 2, self.start + 2 + self.len)
    }

    /// Offset of the payload in the storage.
    pub open(crate) spec fn payload_start(&self) -> nat {
        (self.start + 2) as nat
    }

    /// Payload bytes of the frame.
    pub fn len(&self) -> (r: usize)
        ensures
            r == self.payload_len(),
    {
        self.len
    }

    /// Offset of the payload in the ring's storage.
    pub fn offset(&self, bb: &RingBuffer) -> (r: usize)
        requires
            self.inv(*bb),
        ensures
            r == self.payload_start(),
    {
        self.start + HDR_LEN
    }

    /// The payload byte at position `i`.
    pub fn byte(&self, bb: &RingBuffer, i: usize) -> (r: u8)
        requires
            self.inv(*bb),
            i < self.payload_len(),
        ensures
            r == self.payload(*bb)[i as int],
    {
        proof {
            lemma_first_frame(bb.head());
        }
        bb.buf[self.start + HDR_LEN + i]
    }

    /// A copy of the payload.
    pub fn to_vec(&self, bb: &RingBuffer) -> (r: Vec<u8>)
        requires
            self.inv(*bb),
        ensures
            r@ == self.payload(*bb),
    {
        let mut out: Vec<u8> = Vec::new();
        let mut i: usize = 0;
        while i < self.len
            invariant
                self.inv(*bb),
                i <= self.len,
                out@ == self.payload(*bb).subrange(0, i as int),
            decreases self.len - i,
        {
            let b = self.byte(bb, i);
            out.push(b);
            i = i + 1;
            proof {
                assert(out@ =~= self.payload(*bb).subrange(0, i as int));
            }
        }
        proof {
            assert(out@ =~= self.payload(*bb));
        }
        out
    }

    /// Frees the whole frame, header and payload, whatever was read of it.
    pub fn release(self, bb: &mut RingBuffer)
        requires
            self.inv(*old(bb)),
        ensures
            final(bb).framed_wf(),
            final(bb).capacity() == old(bb).capacity(),
            !final(bb).reading(),
            final(bb).frames() == old(bb).frames().drop_first(),
            final(bb).bytes() == old(bb).bytes().subrange(
                2 + self.payload_len() as int,
                old(bb).bytes().len() as int,
            ),
            final(bb).storage() == old(bb).storage(),
            final(bb).writing() == old(bb).writing(),
            final(bb).write_start() == old(bb).write_start(),
            final(bb).write_grant_len() == old(bb).write_grant_len(),
            final(bb).is_split() == old(bb).is_split(),
    {
        proof {
            lemma_first_frame(bb.head());
        }
        let len = self.len + HDR_LEN;
        bb.release(len);
        proof {
            assert(bb.frames() =~= old(bb).frames().drop_first());
        }
    }

    /// Sets whether dismissing the grant frees the frame.
    pub fn auto_release(&mut self, bb: &RingBuffer, is_auto: bool)
        requires
            old(self).inv(*bb),
        ensures
            final(self).inv(*bb),
            final(self).payload_len() == old(self).payload_len(),
            final(self).payload(*bb) == old(self).payload(*bb),
            final(self).payload_start() == old(self).payload_start(),
            final(self).pending() == if is_auto {
                old(self).payload_len() + 2
            } else {
                0
            },
    {
        self.to_release = if is_auto {
            self.len + HDR_LEN
        } else {
            0
        };
    }

    /// Ends the grant without an explicit release: frees the frame if
    /// `auto_release(true)` was set, else leaves it for the next read.
    pub fn dismiss(self, bb: &mut RingBuffer)
        requires
            self.inv(*old(bb)),
        ensures
            final(bb).framed_wf(),
            final(bb).capacity() == old(bb).capacity(),
            !final(bb).reading(),
            final(bb).frames() == if self.pending() == 0 {
                old(bb).frames()
            } else {
                old(bb).frames().drop_first()
            },
            final(bb).storage() == old(bb).storage(),
            final(bb).writing() == old(bb).writing(),
            final(bb).write_start() == old(bb).write_start(),
            final(bb).write_grant_len() == old(bb).write_grant_len(),
            final(bb).is_split() == old(bb).is_split(),
    {
        proof {
            lemma_first_frame(bb.head());
        }
        let amt = self.to_release;
        bb.release(amt);
        proof {
            if amt == 0 {
                assert(bb.head() =~= old(bb).head());
            }
            assert(bb.frames() =~= if amt == 0 {
                old(bb).frames()
            } else {
                old(bb).frames().drop_first()
            });
        }
    }
}

} // verus!
