use framed_pipes::{DataPipes, GlobalRollingTimer, GrantState};

#[test]
fn first_idle_step_stages_both_receivers() {
    let mut dp = DataPipes::new();
    let st = dp.idle_step();
    assert_eq!(st.spi_rx, Some((2, 256)));
    assert_eq!(st.rs485_rx, Some((2, 256)));
    assert_eq!(st.rs485_tx, None);
    assert_eq!(st.spi_tx, None);
    assert!(st.unmask_spi);
    let again = dp.idle_step();
    assert!(again.spi_rx.is_none() && again.rs485_rx.is_none());
    assert!(!again.unmask_spi);
}

#[test]
fn spi_frame_crosses_to_rs485() {
    let mut dp = DataPipes::new();
    dp.idle_step();
    let (tx, rx) = dp.spi_exchange_start();
    assert_eq!((tx, rx), (0, 256));
    for i in 0..5usize {
        dp.spi_to_rs485.dma_store(i, i as u8);
    }
    dp.spi_exchange_end(5);
    assert_eq!(dp.spi_to_rs485.wr_state(), GrantState::Idle);
    let st = dp.idle_step();
    assert_eq!(st.rs485_tx.map(|(_, len)| len), Some(5));
    assert!(st.spi_rx.is_some());
    assert!(st.unmask_spi);
    let (tx_cap, rx_cap) = dp.rs485_exchange_start();
    assert_eq!((tx_cap, rx_cap), (5, 256));
    assert_eq!(dp.spi_to_rs485.dma_load(4), 4);
    assert_eq!(dp.rs485_settle(tx_cap, rx_cap, 300, 10), (5, 256));
    assert_eq!(dp.spi_to_rs485.rd_state(), GrantState::GrantBusy);
    assert_eq!(dp.rs485_to_spi.wr_state(), GrantState::GrantBusy);
}

#[test]
fn settle_aborts_what_does_not_fit() {
    let mut dp = DataPipes::new();
    dp.idle_step();
    dp.spi_exchange_start();
    dp.spi_exchange_end(20);
    dp.idle_step();
    let (tx_cap, rx_cap) = dp.rs485_exchange_start();
    assert_eq!((tx_cap, rx_cap), (20, 256));
    // the peer can take only 10 bytes and wants to send 300
    assert_eq!(dp.rs485_settle(tx_cap, rx_cap, 10, 300), (0, 0));
    assert_eq!(dp.spi_to_rs485.rd_state(), GrantState::Idle);
    assert_eq!(dp.rs485_to_spi.wr_state(), GrantState::Idle);
    // the frame that was not sent is staged again
    let st = dp.idle_step();
    assert_eq!(st.rs485_tx.map(|(_, len)| len), Some(20));
    assert!(st.rs485_rx.is_some());
}

#[test]
fn init_returns_everything_to_idle() {
    let mut dp = DataPipes::new();
    dp.idle_step();
    dp.init();
    assert_eq!(dp.spi_to_rs485.wr_state(), GrantState::Idle);
    assert_eq!(dp.rs485_to_spi.wr_state(), GrantState::Idle);
    let _timer = GlobalRollingTimer::new();
}

#[test]
fn rs485_answer_reads_caps_and_builds_reply() {
    let mut dp = DataPipes::new();
    dp.idle_step();
    dp.spi_exchange_start();
    dp.spi_exchange_end(7);
    dp.idle_step();
    let (tx_cap, rx_cap) = dp.rs485_exchange_start();
    assert_eq!((tx_cap, rx_cap), (7, 256));
    // the high byte of each word is ignored; caps are 0x0108 and 0x0010
    let words: [u16; 5] = [0x1234, 0xFF08, 0xAA01, 0x0010, 0x0000];
    let plan = dp.rs485_answer(tx_cap, rx_cap, &words);
    assert_eq!(plan.tx_amt, 7);
    assert_eq!(plan.rx_amt, 256);
    assert_eq!(plan.reply, vec![7u8, 0, 0, 1]);
    assert_eq!(dp.spi_to_rs485.rd_state(), GrantState::GrantBusy);
}

#[test]
fn rs485_answer_refuses_what_does_not_fit() {
    let mut dp = DataPipes::new();
    dp.idle_step();
    dp.spi_exchange_start();
    dp.spi_exchange_end(7);
    dp.idle_step();
    let (tx_cap, rx_cap) = dp.rs485_exchange_start();
    // the peer can take 6 bytes and wants to send 0x0201
    let words: [u16; 5] = [0, 6, 0, 0x01, 0x02];
    let plan = dp.rs485_answer(tx_cap, rx_cap, &words);
    assert_eq!((plan.tx_amt, plan.rx_amt), (0, 0));
    assert_eq!(plan.reply, vec![0u8, 0, 0, 0]);
    assert_eq!(dp.spi_to_rs485.rd_state(), GrantState::Idle);
    assert_eq!(dp.rs485_to_spi.wr_state(), GrantState::Idle);
}
