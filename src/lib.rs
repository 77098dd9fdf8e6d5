//! A framed single-producer/single-consumer byte ring and the staged-grant
//! pipes that move its frames between two transfer engines.
//!
//! `ring` holds the byte ring with its split write/commit and read/release
//! phases, `framed` turns it into a queue of length-prefixed frames, `pipe`
//! stages one grant per direction for a transfer engine to claim and finish,
//! and `data_pipes` and `spi` hold the decisions of a duplex SPI/RS-485
//! bridge built from two pipes.
use vstd::prelude::*;

pub mod data_pipes;
pub mod framed;
pub mod pipe;
pub mod ring;
pub mod spi;
pub mod timer;

pub use data_pipes::{DataPipes, IdleStaging, Rs485Plan};
pub use framed::{FrameConsumer, FrameGrantR, FrameGrantW, FrameProducer};
pub use pipe::{GrantState, Pipe};
pub use ring::{Error, RingBuffer};
pub use spi::{SpiCommand, SpiMode, SpiPort, SpiReply};
pub use timer::GlobalRollingTimer;

verus! {

} // verus!
