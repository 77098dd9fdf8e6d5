use vstd::prelude::*;

use crate::framed::{lemma_first_frame, FrameConsumer, FrameGrantR, FrameGrantW, FrameProducer};
use crate::ring::RingBuffer;

verus! {

/// Storage of each pipe, in bytes.
pub const PIPE_CAPACITY: usize = 1024;

/// Largest payload staged for one transfer.
pub const STAGE_MAX: usize = 256;

/// Where the grant of one direction of a pipe stands.
#[derive(Debug, Clone, Copy, PartialEq, Eq, Structural)]
pub enum GrantState {
    /// No grant is staged.
    Idle,
    /// A grant is staged and may be claimed for a transfer.
    GrantReady,
    /// The staged grant is claimed by a transfer in flight.
    GrantBusy,
}

/// A framed buffer whose write and read grants are staged ahead of time by a
/// low-priority loop and then claimed and finalized by a transfer engine.
///
/// Each direction holds at most one grant, so each direction's transfer is
/// always backed by exactly one region of the buffer.
pub struct Pipe {
    buffer: RingBuffer,
    prod: FrameProducer,
    cons: FrameConsumer,
    wr_state: GrantState,
    wr_grant: Option<FrameGrantW>,
    rd_state: GrantState,
    rd_grant: Option<FrameGrantR>,
}

impl Pipe {
    pub closed spec fn wf(&self) -> bool {
        &&& self.buffer.framed_wf()
        &&& self.buffer.capacity() == PIPE_CAPACITY
        &&& (self.wr_state == GrantState::Idle) == (self.wr_grant is None)
        &&& (self.wr_state == GrantState::Idle) == !self.buffer.writing()
        &&& self.wr_grant matches Some(g) ==> {
            &&& g.inv(self.buffer)
            &&& g.payload_len() == STAGE_MAX
            &&& g.pending() == 0
        }
        &&& (self.rd_state == GrantState::Idle) == (self.rd_grant is None)
        &&& (self.rd_state == GrantState::Idle) == !self.buffer.reading()
        &&& self.rd_grant matches Some(g) ==> {
            &&& g.inv(self.buffer)
            &&& g.pending() == 0
        }
    }

    /// The payloads of the frames waiting to be read, oldest first.
    pub closed spec fn frames(&self) -> Seq<Seq<u8>> {
        self.buffer.frames()
    }

    pub closed spec fn write_state(&self) -> GrantState {
        self.wr_state
    }

    pub closed spec fn read_state(&self) -> GrantState {
        self.rd_state
    }

    /// The payload area of the staged write grant as it stands.
    pub closed spec fn staged_write(&self) -> Seq<u8> {
        match self.wr_grant {
            Some(g) => g.payload(self.buffer),
            None => Seq::empty(),
        }
    }

    /// The pipe's storage, which staged offsets point into.
    pub closed spec fn storage(&self) -> Seq<u8> {
        self.buffer.storage()
    }

    /// A frame of `STAGE_MAX` payload bytes can be granted now.
    pub closed spec fn has_room(&self) -> bool {
        self.buffer.frame_fits(STAGE_MAX as int)
    }

    /// An empty pipe with both directions idle.
    pub fn new() -> (r: Self)
        ensures
            r.wf(),
            r.frames() == Seq::<Seq<u8>>::empty(),
            r.write_state() == GrantState::Idle,
            r.read_state() == GrantState::Idle,
            r.has_room(),
    {
        let buffer = RingBuffer::new(PIPE_CAPACITY);
        proof {
            assert(buffer.fits(STAGE_MAX + 2));
        }
        Pipe {
            buffer,
            prod: FrameProducer { _private: () },
            cons: FrameConsumer { _private: () },
            wr_state: GrantState::Idle,
            wr_grant: None,
            rd_state: GrantState::Idle,
            rd_grant: None,
        }
    }

    /// Where the write side stands.
    pub fn wr_state(&self) -> (r: GrantState)
        ensures
            r == self.write_state(),
    {
        self.wr_state
    }

    /// Where the read side stands.
    pub fn rd_state(&self) -> (r: GrantState)
        ensures
            r == self.read_state(),
    {
        self.rd_state
    }

    /// Empties the buffer and returns both directions to idle.
    pub fn init(&mut self)
        ensures
            final(self).wf(),
            final(self).frames() == Seq::<Seq<u8>>::empty(),
            final(self).write_state() == GrantState::Idle,
            final(self).read_state() == GrantState::Idle,
            final(self).has_room(),
    {
        *self = Pipe::new();
    }

    /// Stages a write grant of `STAGE_MAX` payload bytes if the write side is
    /// idle, returning the payload's offset in the storage and its length.
    pub fn service_lowprio_wr(&mut self) -> (r: Option<(usize, usize)>)
        requires
            old(self).wf(),
        ensures
            final(self).wf(),
            final(self).frames() == old(self).frames(),
            final(self).read_state() == old(self).read_state(),
            old(self).write_state() != GrantState::Idle ==> r is None && *final(self) == *old(self),
            old(self).write_state() == GrantState::Idle ==> (r is Some <==> old(self).has_room()),
            r is None ==> final(self).write_state() == old(self).write_state(),
            final(self).storage() == old(self).storage(),
            r matches Some((off, len)) ==> {
                &&& final(self).write_state() == GrantState::GrantReady
                &&& len == STAGE_MAX
                &&& off + len <= PIPE_CAPACITY
                &&& final(self).staged_write().len() == STAGE_MAX
                &&& final(self).staged_write() == final(self).storage().subrange(
                    off as int,
                    off + len,
                )
            },
    {
        match self.wr_state {
            GrantState::Idle => {
                match self.prod.grant(&mut self.buffer, STAGE_MAX) {
                    Ok(g) => {
                        let ptrlen = (g.offset(&self.buffer), g.len());
                        self.wr_grant = Some(g);
                        self.wr_state = GrantState::GrantReady;
                        proof {
                            assert(self.rd_grant matches Some(rg) ==> rg.inv(self.buffer));
                        }
                        Some(ptrlen)
                    },
                    Err(_) => None,
                }
            },
            _ => None,
        }
    }

    /// Stages a read grant on the oldest frame if the read side is idle,
    /// returning the payload's offset in the storage and its length.
    pub fn service_lowprio_rd(&mut self) -> (r: Option<(usize, usize)>)
        requires
            old(self).wf(),
        ensures
            final(self).wf(),
            final(self).frames() == old(self).frames(),
            final(self).write_state() == old(self).write_state(),
            final(self).staged_write() == old(self).staged_write(),
            old(self).has_room() ==> final(self).has_room(),
            old(self).read_state() != GrantState::Idle ==> r is None && *final(self) == *old(self),
            old(self).read_state() == GrantState::Idle ==> (r is Some <==> old(self).frames().len()
                > 0),
            r is None ==> final(self).read_state() == old(self).read_state(),
            final(self).storage() == old(self).storage(),
            r matches Some((off, len)) ==> {
                &&& final(self).read_state() == GrantState::GrantReady
                &&& len == old(self).frames()[0].len()
                &&& off + len <= PIPE_CAPACITY
                &&& final(self).storage().subrange(off as int, off + len) == old(self).frames()[0]
            },
    {
        match self.rd_state {
            GrantState::Idle => {
                match self.cons.read(&mut self.buffer) {
                    Some(g) => {
                        let ptrlen = (g.offset(&self.buffer), g.len());
                        self.rd_grant = Some(g);
                        self.rd_state = GrantState::GrantReady;
                        proof {
                            lemma_first_frame(self.buffer.head());
                            assert(self.wr_grant matches Some(wg) ==> wg.inv(self.buffer));
                        }
                        Some(ptrlen)
                    },
                    None => None,
                }
            },
            _ => None,
        }
    }

    /// Claims the staged write grant for a transfer, returning its payload
    /// length; 0, with nothing changed, if no write grant is staged.
    pub fn get_prep_wr_dma(&mut self) -> (r: usize)
        requires
            old(self).wf(),
        ensures
            final(self).wf(),
            final(self).frames() == old(self).frames(),
            final(self).read_state() == old(self).read_state(),
            final(self).staged_write() == old(self).staged_write(),
            old(self).write_state() == GrantState::GrantReady ==> {
                &&& final(self).write_state() == GrantState::GrantBusy
                &&& r == STAGE_MAX
            },
            old(self).write_state() != GrantState::GrantReady ==> {
                &&& *final(self) == *old(self)
                &&& r == 0
            },
    {
        if self.wr_state != GrantState::GrantReady {
            return 0;
        }
        self.wr_state = GrantState::GrantBusy;
        match &self.wr_grant {
            Some(g) => g.len(),
            None => 0,
        }
    }

    /// Claims the staged read grant for a transfer, returning its payload
    /// length; 0, with nothing changed, if no read grant is staged.
    pub fn get_prep_rd_dma(&mut self) -> (r: usize)
        requires
            old(self).wf(),
        ensures
            final(self).wf(),
            final(self).frames() == old(self).frames(),
            final(self).write_state() == old(self).write_state(),
            final(self).staged_write() == old(self).staged_write(),
            old(self).read_state() == GrantState::GrantReady ==> {
                &&& final(self).read_state() == GrantState::GrantBusy
                &&& r == old(self).frames()[0].len()
            },
            old(self).read_state() != GrantState::GrantReady ==> {
                &&& *final(self) == *old(self)
                &&& r == 0
            },
    {
        if self.rd_state != GrantState::GrantReady {
            return 0;
        }
        self.rd_state = GrantState::GrantBusy;
        proof {
            lemma_first_frame(self.buffer.head());
        }
        match &self.rd_grant {
            Some(g) => g.len(),
            None => 0,
        }
    }

    /// Finishes a claimed write transfer: commits `used` payload bytes,
    /// clamped to the grant, as one frame and returns the write side to idle.
    /// Does nothing unless the write grant is claimed.
    pub fn complete_wr_dma(&mut self, used: usize)
        requires
            old(self).wf(),
        ensures
            final(self).wf(),
            final(self).read_state() == old(self).read_state(),
            old(self).write_state() == GrantState::GrantBusy ==> {
                &&& final(self).write_state() == GrantState::Idle
                &&& final(self).frames() == old(self).frames().push(
                    old(self).staged_write().subrange(
                        0,
                        if used <= STAGE_MAX {
                            used as int
                        } else {
                            STAGE_MAX as int
                        },
                    ),
                )
            },
            old(self).write_state() != GrantState::GrantBusy ==> *final(self) == *old(self),
    {
        if self.wr_state == GrantState::GrantBusy {
            match self.wr_grant.take() {
                Some(g) => {
                    g.commit(&mut self.buffer, used);
                },
                None => {},
            }
            self.wr_state = GrantState::Idle;
            proof {
                self.lemma_read_grant_kept(*old(self));
            }
        }
    }

    /// Finishes a claimed read transfer: frees the frame and returns the read
    /// side to idle. Does nothing unless the read grant is claimed.
    pub fn complete_rd_dma(&mut self)
        requires
            old(self).wf(),
        ensures
            final(self).wf(),
            final(self).write_state() == old(self).write_state(),
            final(self).staged_write() == old(self).staged_write(),
            old(self).read_state() == GrantState::GrantBusy ==> {
                &&& final(self).read_state() == GrantState::Idle
                &&& final(self).frames() == old(self).frames().drop_first()
            },
            old(self).read_state() != GrantState::GrantBusy ==> *final(self) == *old(self),
    {
        if self.rd_state == GrantState::GrantBusy {
            match self.rd_grant.take() {
                Some(g) => {
                    g.release(&mut self.buffer);
                },
                None => {},
            }
            self.rd_state = GrantState::Idle;
        }
    }

    /// Discards a staged or claimed write grant without committing anything,
    /// returning its room to the buffer and the write side to idle.
    pub fn abort_wr_dma(&mut self)
        requires
            old(self).wf(),
        ensures
            final(self).wf(),
            final(self).frames() == old(self).frames(),
            final(self).read_state() == old(self).read_state(),
            final(self).write_state() == GrantState::Idle,
            old(self).write_state() == GrantState::Idle ==> *final(self) == *old(self),
    {
        if self.wr_state != GrantState::Idle {
            match self.wr_grant.take() {
                Some(g) => {
                    g.dismiss(&mut self.buffer);
                },
                None => {},
            }
            self.wr_state = GrantState::Idle;
            proof {
                self.lemma_read_grant_kept(*old(self));
            }
        }
    }

    /// Discards a staged or claimed read grant without freeing anything: the
    /// frame stays first in line. The read side returns to idle.
    pub fn abort_rd_dma(&mut self)
        requires
            old(self).wf(),
        ensures
            final(self).wf(),
            final(self).frames() == old(self).frames(),
            final(self).write_state() == old(self).write_state(),
            final(self).staged_write() == old(self).staged_write(),
            final(self).read_state() == GrantState::Idle,
            old(self).read_state() == GrantState::Idle ==> *final(self) == *old(self),
    {
        if self.rd_state != GrantState::Idle {
            match self.rd_grant.take() {
                Some(g) => {
                    g.dismiss(&mut self.buffer);
                },
                None => {},
            }
            self.rd_state = GrantState::Idle;
        }
    }

    /// Stores byte `v` at position `i` of the staged write grant's payload,
    /// as the transfer engine does.
    pub fn dma_store(&mut self, i: usize, v: u8)
        requires
            old(self).wf(),
            old(self).write_state() != GrantState::Idle,
            i < STAGE_MAX,
        ensures
            final(self).wf(),
            final(self).frames() == old(self).frames(),
            final(self).write_state() == old(self).write_state(),
            final(self).read_state() == old(self).read_state(),
            final(self).staged_write() == old(self).staged_write().update(i as int, v),
    {
        match &self.wr_grant {
            Some(g) => {
                g.store(&mut self.buffer, i, v);
                proof {
                    assert(self.rd_grant matches Some(rg) ==> rg.inv(self.buffer));
                }
            },
            None => {},
        }
    }

    /// The byte at position `i` of the staged read grant's payload, as the
    /// transfer engine fetches it.
    pub fn dma_load(&self, i: usize) -> (r: u8)
        requires
            self.wf(),
            self.read_state() != GrantState::Idle,
            i < self.frames()[0].len(),
        ensures
            r == self.frames()[0][i as int],
    {
        proof {
            lemma_first_frame(self.buffer.head());
        }
        match &self.rd_grant {
            Some(g) => g.byte(&self.buffer, i),
            None => 0,
        }
    }

    /// A read grant survives a change of the buffer that keeps the read
    /// cursor and grant and extends the head run.
    proof fn lemma_read_grant_kept(&self, prev: Pipe)
        requires
            prev.wf(),
            self.buffer.framed_wf(),
            self.rd_grant == prev.rd_grant,
            self.buffer.reading() == prev.buffer.reading(),
            self.buffer.read_pos() == prev.buffer.read_pos(),
            self.buffer.read_grant_len() == prev.buffer.read_grant_len(),
            self.buffer.storage().subrange(
                self.buffer.read_pos(),
                self.buffer.read_pos() + prev.buffer.head().len(),
            ) == prev.buffer.head(),
            prev.buffer.head().len() <= self.buffer.head().len(),
        ensures
            self.rd_grant matches Some(g) ==> g.inv(self.buffer),
    {
        if let Some(g) = self.rd_grant {
            let h0 = prev.buffer.head();
            let h1 = self.buffer.head();
            assert(h1[0] == h0[0]);
            assert(h1[1] == h0[1]);
        }
    }
}

} // verus!
