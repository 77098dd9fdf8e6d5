use framed_pipes::{GrantState, Pipe};

#[test]
fn staged_write_of_256_commits_40() {
    let mut pipe = Pipe::new();
    assert_eq!(pipe.wr_state(), GrantState::Idle);
    let (off, len) = pipe.service_lowprio_wr().unwrap();
    assert_eq!((off, len), (2, 256));
    assert_eq!(pipe.wr_state(), GrantState::GrantReady);
    assert_eq!(pipe.get_prep_wr_dma(), 256);
    assert_eq!(pipe.wr_state(), GrantState::GrantBusy);
    for i in 0..40usize {
        pipe.dma_store(i, 100 + i as u8);
    }
    pipe.complete_wr_dma(40);
    assert_eq!(pipe.wr_state(), GrantState::Idle);

    let (_, rlen) = pipe.service_lowprio_rd().unwrap();
    assert_eq!(rlen, 40);
    assert_eq!(pipe.rd_state(), GrantState::GrantReady);
    assert_eq!(pipe.get_prep_rd_dma(), 40);
    assert_eq!(pipe.rd_state(), GrantState::GrantBusy);
    for i in 0..40usize {
        assert_eq!(pipe.dma_load(i), 100 + i as u8);
    }
    pipe.complete_rd_dma();
    assert_eq!(pipe.rd_state(), GrantState::Idle);
    assert!(pipe.service_lowprio_rd().is_none());
}

#[test]
fn staging_twice_is_a_no_op() {
    let mut pipe = Pipe::new();
    assert!(pipe.service_lowprio_wr().is_some());
    assert!(pipe.service_lowprio_wr().is_none());
    assert_eq!(pipe.wr_state(), GrantState::GrantReady);
    pipe.get_prep_wr_dma();
    assert!(pipe.service_lowprio_wr().is_none());
    assert_eq!(pipe.wr_state(), GrantState::GrantBusy);
    pipe.complete_wr_dma(1);
    assert!(pipe.service_lowprio_rd().is_some());
    assert!(pipe.service_lowprio_rd().is_none());
    assert_eq!(pipe.get_prep_rd_dma(), 1);
    assert!(pipe.service_lowprio_rd().is_none());
    assert_eq!(pipe.rd_state(), GrantState::GrantBusy);
}

#[test]
fn claim_without_staging_returns_zero() {
    let mut pipe = Pipe::new();
    assert_eq!(pipe.get_prep_wr_dma(), 0);
    assert_eq!(pipe.get_prep_rd_dma(), 0);
    assert_eq!(pipe.wr_state(), GrantState::Idle);
    assert_eq!(pipe.rd_state(), GrantState::Idle);
}

#[test]
fn completing_an_unclaimed_grant_does_nothing() {
    let mut pipe = Pipe::new();
    pipe.service_lowprio_wr().unwrap();
    pipe.complete_wr_dma(10);
    assert_eq!(pipe.wr_state(), GrantState::GrantReady);
    assert!(pipe.service_lowprio_rd().is_none());
}

#[test]
fn empty_pipe_stages_no_read() {
    let mut pipe = Pipe::new();
    assert!(pipe.service_lowprio_rd().is_none());
    assert_eq!(pipe.rd_state(), GrantState::Idle);
}

#[test]
fn aborted_write_leaves_no_frame() {
    let mut pipe = Pipe::new();
    pipe.service_lowprio_wr().unwrap();
    pipe.get_prep_wr_dma();
    pipe.dma_store(0, 1);
    pipe.abort_wr_dma();
    assert_eq!(pipe.wr_state(), GrantState::Idle);
    assert!(pipe.service_lowprio_rd().is_none());
}

#[test]
fn aborted_read_keeps_the_frame() {
    let mut pipe = Pipe::new();
    pipe.service_lowprio_wr().unwrap();
    pipe.get_prep_wr_dma();
    pipe.dma_store(0, 42);
    pipe.complete_wr_dma(1);
    pipe.service_lowprio_rd().unwrap();
    pipe.get_prep_rd_dma();
    pipe.abort_rd_dma();
    assert_eq!(pipe.rd_state(), GrantState::Idle);
    let (_, len) = pipe.service_lowprio_rd().unwrap();
    assert_eq!(len, 1);
    assert_eq!(pipe.dma_load(0), 42);
}

#[test]
fn full_pipe_stages_no_write() {
    let mut pipe = Pipe::new();
    let mut frames = 0usize;
    while pipe.service_lowprio_wr().is_some() {
        pipe.get_prep_wr_dma();
        pipe.complete_wr_dma(256);
        frames += 1;
    }
    // 1024 bytes hold three frames of 258 bytes
    assert_eq!(frames, 3);
    assert_eq!(pipe.wr_state(), GrantState::Idle);
    pipe.service_lowprio_rd().unwrap();
    pipe.get_prep_rd_dma();
    pipe.complete_rd_dma();
    pipe.service_lowprio_rd().unwrap();
    pipe.get_prep_rd_dma();
    pipe.complete_rd_dma();
    // the freed front now has room again
    assert!(pipe.service_lowprio_wr().is_some());
}

#[test]
fn init_empties_the_pipe() {
    let mut pipe = Pipe::new();
    pipe.service_lowprio_wr().unwrap();
    pipe.get_prep_wr_dma();
    pipe.complete_wr_dma(3);
    pipe.service_lowprio_wr().unwrap();
    pipe.init();
    assert_eq!(pipe.wr_state(), GrantState::Idle);
    assert_eq!(pipe.rd_state(), GrantState::Idle);
    assert!(pipe.service_lowprio_rd().is_none());
}
