use vstd::prelude::*;

use crate::pipe::{GrantState, Pipe, STAGE_MAX};

verus! {

/// The transfers that one idle step staged, as payload offset and length in
/// the storage of the pipe concerned, for the platform layer to program into
/// its transfer channels.
pub struct IdleStaging {
    /// Outgoing frame of `spi_to_rs485`, to send on the RS-485 side.
    pub rs485_tx: Option<(usize, usize)>,
    /// Incoming room in `spi_to_rs485`, to receive from the SPI side.
    pub spi_rx: Option<(usize, usize)>,
    /// Outgoing frame of `rs485_to_spi`, to send on the SPI side.
    pub spi_tx: Option<(usize, usize)>,
    /// Incoming room in `rs485_to_spi`, to receive from the RS-485 side.
    pub rs485_rx: Option<(usize, usize)>,
    /// The SPI side got a new grant and its interrupt is to be unmasked.
    pub unmask_spi: bool,
}

/// How an RS-485 exchange goes once the peer's header has arrived.
pub struct Rs485Plan {
    /// The amounts to send and to receive, each two bytes little-endian.
    pub reply: Vec<u8>,
    /// Bytes to send from the outgoing frame; 0 sends nothing.
    pub tx_amt: usize,
    /// Bytes to receive into the incoming room; 0 receives nothing.
    pub rx_amt: usize,
}

/// The capacity announced by two received words, from their low bytes,
/// little-endian.
pub open spec fn announced(lo_word: u16, hi_word: u16) -> int {
    (lo_word as int % 256) + 256 * (hi_word as int % 256)
}

/// A length as two bytes, little-endian, truncated to sixteen bits.
pub open spec fn le_pair(n: usize) -> Seq<u8> {
    seq![(n as int % 256) as u8, ((n as int / 256) % 256) as u8]
}

/// The two pipes of a duplex bridge between an SPI side and an RS-485 side.
pub struct DataPipes {
    pub spi_to_rs485: Pipe,
    pub rs485_to_spi: Pipe,
}

/// The low-priority loop stages a grant on this side of a pipe. A read
/// staged just before can only add room for the write side.
pub open spec fn stages_write(p: Pipe) -> bool {
    p.write_state() == GrantState::Idle && p.has_room()
}

pub open spec fn stages_read(p: Pipe) -> bool {
    p.read_state() == GrantState::Idle && p.frames().len() > 0
}

impl DataPipes {
    pub open spec fn wf(&self) -> bool {
        self.spi_to_rs485.wf() && self.rs485_to_spi.wf()
    }

    /// Both pipes empty and idle.
    pub fn new() -> (r: Self)
        ensures
            r.wf(),
            r.spi_to_rs485.frames() == Seq::<Seq<u8>>::empty(),
            r.rs485_to_spi.frames() == Seq::<Seq<u8>>::empty(),
            r.spi_to_rs485.write_state() == GrantState::Idle,
            r.spi_to_rs485.read_state() == GrantState::Idle,
            r.rs485_to_spi.write_state() == GrantState::Idle,
            r.rs485_to_spi.read_state() == GrantState::Idle,
    {
        DataPipes { spi_to_rs485: Pipe::new(), rs485_to_spi: Pipe::new() }
    }

    /// Empties both pipes and returns every side to idle.
    pub fn init(&mut self)
        ensures
            final(self).wf(),
            final(self).spi_to_rs485.frames() == Seq::<Seq<u8>>::empty(),
            final(self).rs485_to_spi.frames() == Seq::<Seq<u8>>::empty(),
            final(self).spi_to_rs485.write_state() == GrantState::Idle,
            final(self).spi_to_rs485.read_state() == GrantState::Idle,
            final(self).rs485_to_spi.write_state() == GrantState::Idle,
            final(self).rs485_to_spi.read_state() == GrantState::Idle,
    {
        self.spi_to_rs485.init();
        self.rs485_to_spi.init();
    }

    /// One pass of the low-priority loop: tries to stage one grant on each
    /// side of each pipe and reports what was staged.
    pub fn idle_step(&mut self) -> (r: IdleStaging)
        requires
            old(self).wf(),
        ensures
            final(self).wf(),
            final(self).spi_to_rs485.frames() == old(self).spi_to_rs485.frames(),
            final(self).rs485_to_spi.frames() == old(self).rs485_to_spi.frames(),
            r.rs485_tx is Some <==> stages_read(old(self).spi_to_rs485),
            stages_write(old(self).spi_to_rs485) ==> r.spi_rx is Some,
            r.spi_rx is Some ==> old(self).spi_to_rs485.write_state() == GrantState::Idle,
            r.spi_tx is Some <==> stages_read(old(self).rs485_to_spi),
            stages_write(old(self).rs485_to_spi) ==> r.rs485_rx is Some,
            r.rs485_rx is Some ==> old(self).rs485_to_spi.write_state() == GrantState::Idle,
            r.unmask_spi <==> (r.rs485_tx is Some || r.spi_rx is Some),
            final(self).spi_to_rs485.read_state() == if r.rs485_tx is Some {
                GrantState::GrantReady
            } else {
                old(self).spi_to_rs485.read_state()
            },
            final(self).spi_to_rs485.write_state() == if r.spi_rx is Some {
                GrantState::GrantReady
            } else {
                old(self).spi_to_rs485.write_state()
            },
            final(self).rs485_to_spi.read_state() == if r.spi_tx is Some {
                GrantState::GrantReady
            } else {
                old(self).rs485_to_spi.read_state()
            },
            final(self).rs485_to_spi.write_state() == if r.rs485_rx is Some {
                GrantState::GrantReady
            } else {
                old(self).rs485_to_spi.write_state()
            },
            r.rs485_tx matches Some((off, len)) ==> final(self).spi_to_rs485.storage().subrange(
                off as int,
                off + len,
            ) == old(self).spi_to_rs485.frames()[0],
            r.spi_tx matches Some((off, len)) ==> final(self).rs485_to_spi.storage().subrange(
                off as int,
                off + len,
            ) == old(self).rs485_to_spi.frames()[0],
            r.spi_rx matches Some((off, len)) ==> len == STAGE_MAX
                && final(self).spi_to_rs485.staged_write() == final(self).spi_to_rs485.storage().subrange(off as int, off + len),
            r.rs485_rx matches Some((off, len)) ==> len == STAGE_MAX
                && final(self).rs485_to_spi.staged_write() == final(self).rs485_to_spi.storage().subrange(off as int, off + len),
    {
        let rs485_tx = self.spi_to_rs485.service_lowprio_rd();
        let spi_rx = self.spi_to_rs485.service_lowprio_wr();
        let unmask_spi = rs485_tx.is_some() || spi_rx.is_some();
        let spi_tx = self.rs485_to_spi.service_lowprio_rd();
        let rs485_rx = self.rs485_to_spi.service_lowprio_wr();
        IdleStaging { rs485_tx, spi_rx, spi_tx, rs485_rx, unmask_spi }
    }

    /// Start of a long SPI exchange: claims the outgoing frame of
    /// `rs485_to_spi` and the incoming room of `spi_to_rs485`, and returns
    /// their lengths (0 for a side with nothing staged).
    pub fn spi_exchange_start(&mut self) -> (r: (usize, usize))
        requires
            old(self).wf(),
        ensures
            final(self).wf(),
            final(self).spi_to_rs485.frames() == old(self).spi_to_rs485.frames(),
            final(self).rs485_to_spi.frames() == old(self).rs485_to_spi.frames(),
            final(self).spi_to_rs485.read_state() == old(self).spi_to_rs485.read_state(),
            final(self).rs485_to_spi.write_state() == old(self).rs485_to_spi.write_state(),
            old(self).rs485_to_spi.read_state() == GrantState::GrantReady ==> {
                &&& r.0 == old(self).rs485_to_spi.frames()[0].len()
                &&& final(self).rs485_to_spi.read_state() == GrantState::GrantBusy
            },
            old(self).rs485_to_spi.read_state() != GrantState::GrantReady ==> {
                &&& r.0 == 0
                &&& final(self).rs485_to_spi == old(self).rs485_to_spi
            },
            old(self).spi_to_rs485.write_state() == GrantState::GrantReady ==> {
                &&& r.1 == STAGE_MAX
                &&& final(self).spi_to_rs485.write_state() == GrantState::GrantBusy
            },
            old(self).spi_to_rs485.write_state() != GrantState::GrantReady ==> {
                &&& r.1 == 0
                &&& final(self).spi_to_rs485 == old(self).spi_to_rs485
            },
    {
        let tx_amt = self.rs485_to_spi.get_prep_rd_dma();
        let rx_amt = self.spi_to_rs485.get_prep_wr_dma();
        (tx_amt, rx_amt)
    }

    /// End of a long SPI exchange: commits `received` bytes of the incoming
    /// room of `spi_to_rs485` as a frame and frees the frame sent from
    /// `rs485_to_spi`. A side whose grant was not claimed is left alone.
    pub fn spi_exchange_end(&mut self, received: usize)
        requires
            old(self).wf(),
        ensures
            final(self).wf(),
            final(self).spi_to_rs485.read_state() == old(self).spi_to_rs485.read_state(),
            final(self).rs485_to_spi.write_state() == old(self).rs485_to_spi.write_state(),
            old(self).spi_to_rs485.write_state() == GrantState::GrantBusy ==> {
                &&& final(self).spi_to_rs485.write_state() == GrantState::Idle
                &&& final(self).spi_to_rs485.frames() == old(self).spi_to_rs485.frames().push(
                    old(self).spi_to_rs485.staged_write().subrange(
                        0,
                        if received <= STAGE_MAX {
                            received as int
                        } else {
                            STAGE_MAX as int
                        },
                    ),
                )
            },
            old(self).spi_to_rs485.write_state() != GrantState::GrantBusy ==> final(self).spi_to_rs485
                == old(self).spi_to_rs485,
            old(self).rs485_to_spi.read_state() == GrantState::GrantBusy ==> {
                &&& final(self).rs485_to_spi.read_state() == GrantState::Idle
                &&& final(self).rs485_to_spi.frames() == old(self).rs485_to_spi.frames().drop_first()
            },
            old(self).rs485_to_spi.read_state() != GrantState::GrantBusy ==> final(self).rs485_to_spi
                == old(self).rs485_to_spi,
    {
        self.spi_to_rs485.complete_wr_dma(received);
        self.rs485_to_spi.complete_rd_dma();
    }

    /// Start of an RS-485 exchange: claims the outgoing frame of
    /// `spi_to_rs485` and the incoming room of `rs485_to_spi`, and returns
    /// their lengths (0 for a side with nothing staged).
    pub fn rs485_exchange_start(&mut self) -> (r: (usize, usize))
        requires
            old(self).wf(),
        ensures
            final(self).wf(),
            final(self).spi_to_rs485.frames() == old(self).spi_to_rs485.frames(),
            final(self).rs485_to_spi.frames() == old(self).rs485_to_spi.frames(),
            final(self).spi_to_rs485.write_state() == old(self).spi_to_rs485.write_state(),
            final(self).rs485_to_spi.read_state() == old(self).rs485_to_spi.read_state(),
            old(self).spi_to_rs485.read_state() == GrantState::GrantReady ==> {
                &&& r.0 == old(self).spi_to_rs485.frames()[0].len()
                &&& final(self).spi_to_rs485.read_state() == GrantState::GrantBusy
            },
            old(self).spi_to_rs485.read_state() != GrantState::GrantReady ==> {
                &&& r.0 == 0
                &&& final(self).spi_to_rs485 == old(self).spi_to_rs485
            },
            old(self).rs485_to_spi.write_state() == GrantState::GrantReady ==> {
                &&& r.1 == STAGE_MAX
                &&& final(self).rs485_to_spi.write_state() == GrantState::GrantBusy
            },
            old(self).rs485_to_spi.write_state() != GrantState::GrantReady ==> {
                &&& r.1 == 0
                &&& final(self).rs485_to_spi == old(self).rs485_to_spi
            },
    {
        let tx_amt_cap = self.spi_to_rs485.get_prep_rd_dma();
        let rx_amt_cap = self.rs485_to_spi.get_prep_wr_dma();
        (tx_amt_cap, rx_amt_cap)
    }

    /// Settles an RS-485 exchange once the peer has announced how much it can
    /// receive (`peer_rx_cap`) and how much it will send (`peer_tx_cap`).
    ///
    /// The outgoing frame is sent only if the peer can hold all of it, the
    /// incoming room is kept only if it can hold all the peer sends; a side
    /// that does not fit is aborted, its grant discarded. Returns the amounts
    /// to send and to receive.
    pub fn rs485_settle(
        &mut self,
        tx_amt_cap: usize,
        rx_amt_cap: usize,
        peer_rx_cap: u16,
        peer_tx_cap: u16,
    ) -> (r: (usize, usize))
        requires
            old(self).wf(),
        ensures
            final(self).wf(),
            final(self).spi_to_rs485.frames() == old(self).spi_to_rs485.frames(),
            final(self).rs485_to_spi.frames() == old(self).rs485_to_spi.frames(),
            final(self).spi_to_rs485.write_state() == old(self).spi_to_rs485.write_state(),
            final(self).rs485_to_spi.read_state() == old(self).rs485_to_spi.read_state(),
            r.0 == if peer_rx_cap as usize >= tx_amt_cap {
                tx_amt_cap
            } else {
                0
            },
            r.1 == if peer_tx_cap as usize <= rx_amt_cap {
                rx_amt_cap
            } else {
                0
            },
            peer_rx_cap as usize >= tx_amt_cap ==> final(self).spi_to_rs485 == old(self).spi_to_rs485,
            (peer_rx_cap as usize) < tx_amt_cap ==> final(self).spi_to_rs485.read_state()
                == GrantState::Idle,
            peer_tx_cap as usize <= rx_amt_cap ==> final(self).rs485_to_spi == old(self).rs485_to_spi,
            peer_tx_cap as usize > rx_amt_cap ==> final(self).rs485_to_spi.write_state()
                == GrantState::Idle,
    {
        let tx_amt = if peer_rx_cap as usize >= tx_amt_cap {
            tx_amt_cap
        } else {
            self.spi_to_rs485.abort_rd_dma();
            0
        };
        let rx_amt = if peer_tx_cap as usize <= rx_amt_cap {
            rx_amt_cap
        } else {
            self.rs485_to_spi.abort_wr_dma();
            0
        };
        (tx_amt, rx_amt)
    }

    /// Answers the peer's header of five words, whose words one to four
    /// carry its receive and its transmit capacity: settles the exchange as
    /// `rs485_settle` does and builds the reply.
    pub fn rs485_answer(&mut self, tx_amt_cap: usize, rx_amt_cap: usize, words: &[u16; 5]) -> (r:
        Rs485Plan)
        requires
            old(self).wf(),
        ensures
            final(self).wf(),
            final(self).spi_to_rs485.frames() == old(self).spi_to_rs485.frames(),
            final(self).rs485_to_spi.frames() == old(self).rs485_to_spi.frames(),
            r.tx_amt == if announced(words@[1], words@[2]) >= tx_amt_cap {
                tx_amt_cap
            } else {
                0
            },
            r.rx_amt == if announced(words@[3], words@[4]) <= rx_amt_cap {
                rx_amt_cap
            } else {
                0
            },
            r.reply@ == le_pair(r.tx_amt) + le_pair(r.rx_amt),
            announced(words@[1], words@[2]) >= tx_amt_cap ==> final(self).spi_to_rs485 == old(self).spi_to_rs485,
            announced(words@[1], words@[2]) < tx_amt_cap ==> final(self).spi_to_rs485.read_state() == GrantState::Idle,
            announced(words@[3], words@[4]) <= rx_amt_cap ==> final(self).rs485_to_spi == old(self).rs485_to_spi,
            announced(words@[3], words@[4]) > rx_amt_cap ==> final(self).rs485_to_spi.write_state() == GrantState::Idle,
    {
        let peer_rx_cap: u16 = words[1] % 256 + 256 * (words[2] % 256);
        let peer_tx_cap: u16 = words[3] % 256 + 256 * (words[4] % 256);
        let (tx_amt, rx_amt) = self.rs485_settle(tx_amt_cap, rx_amt_cap, peer_rx_cap, peer_tx_cap);
        let mut reply: Vec<u8> = Vec::new();
        reply.push((tx_amt % 256) as u8);
        reply.push(((tx_amt / 256) % 256) as u8);
        reply.push((rx_amt % 256) as u8);
        reply.push(((rx_amt / 256) % 256) as u8);
        proof {
            assert(reply@ =~= le_pair(tx_amt) + le_pair(rx_amt));
        }
        Rs485Plan { reply, tx_amt, rx_amt }
    }
}

} // verus!
