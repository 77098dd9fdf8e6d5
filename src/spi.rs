use vstd::prelude::*;

use crate::data_pipes::DataPipes;
use crate::pipe::{GrantState, STAGE_MAX};

verus! {

/// Registers reachable by short SPI commands.
pub const REG_COUNT: usize = 32;

/// Value every register holds until it is first written.
pub const REG_RESET: u16 = 0xACAB;

/// The command carried by the first byte of an SPI transaction: the top
/// three bits select the kind, the low five the register.
#[derive(Debug, Clone, Copy, PartialEq, Eq, Structural)]
pub enum SpiCommand {
    /// Exchange one frame in each direction.
    LongPacketReadWrite,
    /// Send back the register's value.
    ShortRegRead(u8),
    /// Store the two bytes that follow into the register.
    ShortRegWrite(u8),
    /// Anything else: wait for the transaction to end.
    Unknown,
}

pub open spec fn command_of(byte: u8) -> SpiCommand {
    let kind = byte as int / 32;
    let reg = (byte as int % 32) as u8;
    if kind == 1 {
        SpiCommand::LongPacketReadWrite
    } else if kind == 3 {
        SpiCommand::ShortRegRead(reg)
    } else if kind == 4 {
        SpiCommand::ShortRegWrite(reg)
    } else {
        SpiCommand::Unknown
    }
}

impl SpiCommand {
    pub fn decode(byte: u8) -> (r: SpiCommand)
        ensures
            r == command_of(byte),
    {
        let kind: u8 = byte / 32;
        let reg: u8 = byte % 32;
        if kind == 1 {
            SpiCommand::LongPacketReadWrite
        } else if kind == 3 {
            SpiCommand::ShortRegRead(reg)
        } else if kind == 4 {
            SpiCommand::ShortRegWrite(reg)
        } else {
            SpiCommand::Unknown
        }
    }
}

/// What the SPI side waits for between the first byte of a transaction and
/// the release of chip select.
#[derive(Debug, Clone, Copy, PartialEq, Eq, Structural)]
pub enum SpiMode {
    Idle,
    ShortRegRead,
    ShortRegWrite(u8),
    LongPacket,
    InvalidWait,
}

/// What to put on the wire after the first byte of a transaction.
#[derive(Debug, Clone, Copy, PartialEq, Eq, Structural)]
pub enum SpiReply {
    /// A register's value, two bytes little-endian.
    Register(u16),
    /// The length of the frame about to be sent, two bytes little-endian;
    /// the transfers to arm are those whose length is not zero.
    Lengths { tx: usize, rx: usize },
    Nothing,
}

/// The SPI side of the bridge: its register file and the transaction in
/// progress.
pub struct SpiPort {
    mode: SpiMode,
    regs: Vec<u16>,
}

/// Two bytes received little-endian, as one value.
pub open spec fn le_u16(lo: u8, hi: u8) -> int {
    lo as int + 256 * hi as int
}

impl SpiPort {
    pub closed spec fn wf(&self) -> bool {
        &&& self.regs@.len() == REG_COUNT
        &&& self.mode matches SpiMode::ShortRegWrite(reg) ==> reg < REG_COUNT
    }

    pub closed spec fn registers(&self) -> Seq<u16> {
        self.regs@
    }

    pub closed spec fn spec_mode(&self) -> SpiMode {
        self.mode
    }

    /// Idle, with every register at its reset value.
    pub fn new() -> (r: Self)
        ensures
            r.wf(),
            r.spec_mode() == SpiMode::Idle,
            r.registers() == Seq::new(REG_COUNT as nat, |_i: int| REG_RESET),
    {
        let mut regs: Vec<u16> = Vec::new();
        let mut i: usize = 0;
        while i < REG_COUNT
            invariant
                i <= REG_COUNT,
                regs@ == Seq::new(i as nat, |_j: int| REG_RESET),
            decreases REG_COUNT - i,
        {
            regs.push(REG_RESET);
            i = i + 1;
            proof {
                assert(regs@ =~= Seq::new(i as nat, |_j: int| REG_RESET));
            }
        }
        SpiPort { mode: SpiMode::Idle, regs }
    }

    pub fn mode(&self) -> (r: SpiMode)
        ensures
            r == self.spec_mode(),
    {
        self.mode
    }

    /// The value of register `reg`.
    pub fn register(&self, reg: usize) -> (r: u16)
        requires
            self.wf(),
            reg < REG_COUNT,
        ensures
            r == self.registers()[reg as int],
    {
        self.regs[reg]
    }

    /// Handles the first byte of a transaction: answers a register read,
    /// notes a register write, or claims both pipes' staged grants for a long
    /// exchange.
    pub fn start(&mut self, first: u8, pipes: &mut DataPipes) -> (r: SpiReply)
        requires
            old(self).wf(),
            old(self).spec_mode() == SpiMode::Idle,
            old(pipes).wf(),
        ensures
            final(self).wf(),
            final(pipes).wf(),
            final(self).registers() == old(self).registers(),
            command_of(first) != SpiCommand::LongPacketReadWrite ==> *final(pipes) == *old(pipes),
            match command_of(first) {
                SpiCommand::ShortRegRead(reg) => {
                    &&& r == SpiReply::Register(old(self).registers()[reg as int])
                    &&& final(self).spec_mode() == SpiMode::ShortRegRead
                },
                SpiCommand::ShortRegWrite(reg) => {
                    &&& r == SpiReply::Nothing
                    &&& final(self).spec_mode() == SpiMode::ShortRegWrite(reg)
                },
                SpiCommand::LongPacketReadWrite => {
                    &&& final(self).spec_mode() == SpiMode::LongPacket
                    &&& r == SpiReply::Lengths {
                        tx: if old(pipes).rs485_to_spi.read_state() == GrantState::GrantReady {
                            old(pipes).rs485_to_spi.frames()[0].len() as usize
                        } else {
                            0
                        },
                        rx: if old(pipes).spi_to_rs485.write_state() == GrantState::GrantReady {
                            STAGE_MAX
                        } else {
                            0
                        },
                    }
                    &&& final(pipes).spi_to_rs485.frames() == old(pipes).spi_to_rs485.frames()
                    &&& final(pipes).rs485_to_spi.frames() == old(pipes).rs485_to_spi.frames()
                    &&& old(pipes).rs485_to_spi.read_state() == GrantState::GrantReady
                        ==> final(pipes).rs485_to_spi.read_state() == GrantState::GrantBusy
                    &&& old(pipes).spi_to_rs485.write_state() == GrantState::GrantReady
                        ==> final(pipes).spi_to_rs485.write_state() == GrantState::GrantBusy
                },
                SpiCommand::Unknown => {
                    &&& r == SpiReply::Nothing
                    &&& final(self).spec_mode() == SpiMode::InvalidWait
                },
            },
    {
        match SpiCommand::decode(first) {
            SpiCommand::ShortRegRead(reg) => {
                let val = self.regs[reg as usize];
                self.mode = SpiMode::ShortRegRead;
                SpiReply::Register(val)
            },
            SpiCommand::ShortRegWrite(reg) => {
                self.mode = SpiMode::ShortRegWrite(reg);
                SpiReply::Nothing
            },
            SpiCommand::LongPacketReadWrite => {
                let (tx, rx) = pipes.spi_exchange_start();
                self.mode = SpiMode::LongPacket;
                SpiReply::Lengths { tx, rx }
            },
            SpiCommand::Unknown => {
                self.mode = SpiMode::InvalidWait;
                SpiReply::Nothing
            },
        }
    }

    /// Handles the release of chip select: stores a register write whose two
    /// bytes arrived (`fifo`), or finishes a long exchange by committing
    /// `received` bytes of the incoming frame and freeing the outgoing one.
    /// The port is idle afterwards.
    pub fn finish(&mut self, fifo: Option<(u8, u8)>, received: usize, pipes: &mut DataPipes)
        requires
            old(self).wf(),
            old(pipes).wf(),
        ensures
            final(self).wf(),
            final(pipes).wf(),
            final(self).spec_mode() == SpiMode::Idle,
            old(self).spec_mode() != SpiMode::LongPacket ==> *final(pipes) == *old(pipes),
            final(self).registers() == match (old(self).spec_mode(), fifo) {
                (SpiMode::ShortRegWrite(reg), Some((lo, hi))) => old(self).registers().update(
                    reg as int,
                    le_u16(lo, hi) as u16,
                ),
                _ => old(self).registers(),
            },
            old(self).spec_mode() == SpiMode::LongPacket ==> {
                &&& final(pipes).spi_to_rs485.read_state() == old(pipes).spi_to_rs485.read_state()
                &&& final(pipes).rs485_to_spi.write_state() == old(pipes).rs485_to_spi.write_state()
                &&& old(pipes).spi_to_rs485.write_state() == GrantState::GrantBusy ==> {
                    &&& final(pipes).spi_to_rs485.write_state() == GrantState::Idle
                    &&& final(pipes).spi_to_rs485.frames() == old(pipes).spi_to_rs485.frames().push(
                        old(pipes).spi_to_rs485.staged_write().subrange(
                            0,
                            if received <= STAGE_MAX {
                                received as int
                            } else {
                                STAGE_MAX as int
                            },
                        ),
                    )
                }
                &&& old(pipes).rs485_to_spi.read_state() == GrantState::GrantBusy ==> {
                    &&& final(pipes).rs485_to_spi.read_state() == GrantState::Idle
                    &&& final(pipes).rs485_to_spi.frames()
                        == old(pipes).rs485_to_spi.frames().drop_first()
                }
            },
    {
        match self.mode {
            SpiMode::ShortRegWrite(reg) => {
                if let Some((lo, hi)) = fifo {
                    let val: u16 = lo as u16 + 256 * (hi as u16);
                    self.regs.set(reg as usize, val);
                }
            },
            SpiMode::LongPacket => {
                pipes.spi_exchange_end(received);
            },
            _ => {},
        }
        self.mode = SpiMode::Idle;
    }
}

} // verus!
