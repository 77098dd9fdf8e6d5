use framed_pipes::{DataPipes, GrantState, SpiCommand, SpiMode, SpiPort, SpiReply};

#[test]
fn command_bytes_decode() {
    assert_eq!(SpiCommand::decode(0b001_00000), SpiCommand::LongPacketReadWrite);
    assert_eq!(SpiCommand::decode(0b011_00101), SpiCommand::ShortRegRead(5));
    assert_eq!(SpiCommand::decode(0b100_11111), SpiCommand::ShortRegWrite(31));
    assert_eq!(SpiCommand::decode(0b000_00001), SpiCommand::Unknown);
    assert_eq!(SpiCommand::decode(0b111_00000), SpiCommand::Unknown);
    assert_eq!(SpiCommand::decode(0b010_00011), SpiCommand::Unknown);
}

#[test]
fn registers_start_at_reset_value() {
    let mut port = SpiPort::new();
    let mut pipes = DataPipes::new();
    assert_eq!(port.register(0), 0xACAB);
    assert_eq!(port.start(0b011_00111, &mut pipes), SpiReply::Register(0xACAB));
    assert_eq!(port.mode(), SpiMode::ShortRegRead);
    port.finish(None, 0, &mut pipes);
    assert_eq!(port.mode(), SpiMode::Idle);
}

#[test]
fn register_write_then_read() {
    let mut port = SpiPort::new();
    let mut pipes = DataPipes::new();
    assert_eq!(port.start(0b100_00011, &mut pipes), SpiReply::Nothing);
    assert_eq!(port.mode(), SpiMode::ShortRegWrite(3));
    port.finish(Some((0x34, 0x12)), 0, &mut pipes);
    assert_eq!(port.register(3), 0x1234);
    assert_eq!(port.register(2), 0xACAB);
    assert_eq!(port.start(0b011_00011, &mut pipes), SpiReply::Register(0x1234));
}

#[test]
fn register_write_without_data_keeps_value() {
    let mut port = SpiPort::new();
    let mut pipes = DataPipes::new();
    port.start(0b100_00011, &mut pipes);
    port.finish(None, 0, &mut pipes);
    assert_eq!(port.register(3), 0xACAB);
}

#[test]
fn unknown_command_waits() {
    let mut port = SpiPort::new();
    let mut pipes = DataPipes::new();
    assert_eq!(port.start(0xFF, &mut pipes), SpiReply::Nothing);
    assert_eq!(port.mode(), SpiMode::InvalidWait);
    port.finish(Some((1, 2)), 0, &mut pipes);
    assert_eq!(port.mode(), SpiMode::Idle);
}

#[test]
fn long_packet_moves_frames() {
    let mut port = SpiPort::new();
    let mut pipes = DataPipes::new();
    // nothing staged yet: both lengths are zero
    assert_eq!(port.start(0b001_00000, &mut pipes), SpiReply::Lengths { tx: 0, rx: 0 });
    port.finish(None, 0, &mut pipes);

    pipes.idle_step();
    assert_eq!(port.start(0b001_00000, &mut pipes), SpiReply::Lengths { tx: 0, rx: 256 });
    assert_eq!(pipes.spi_to_rs485.wr_state(), GrantState::GrantBusy);
    pipes.spi_to_rs485.dma_store(0, 0xEE);
    port.finish(None, 1, &mut pipes);
    assert_eq!(pipes.spi_to_rs485.wr_state(), GrantState::Idle);
    let st = pipes.idle_step();
    assert_eq!(st.rs485_tx.map(|(_, len)| len), Some(1));
    pipes.rs485_exchange_start();
    assert_eq!(pipes.spi_to_rs485.dma_load(0), 0xEE);
}
