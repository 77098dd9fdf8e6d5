use framed_pipes::{Error, FrameConsumer, FrameProducer, RingBuffer};

fn split(cap: usize) -> (RingBuffer, FrameProducer, FrameConsumer) {
    let mut bb = RingBuffer::new(cap);
    let (prod, cons) = match bb.try_split_framed() {
        Ok(halves) => halves,
        Err(_) => panic!("fresh buffer refused to split"),
    };
    (bb, prod, cons)
}

#[test]
fn frame_of_128_bytes_round_trips() {
    let (mut bb, mut prod, mut cons) = split(1000);
    let wgrant = prod.grant(&mut bb, 128).unwrap();
    assert_eq!(wgrant.len(), 128);
    for idx in 0..128usize {
        wgrant.store(&mut bb, idx, idx as u8);
    }
    assert_eq!(wgrant.offset(&bb), 2);
    wgrant.commit(&mut bb, 128);
    assert_eq!(bb.available(), 130);

    let rgrant = cons.read(&mut bb).unwrap();
    assert_eq!(rgrant.len(), 128);
    assert_eq!(rgrant.offset(&bb), 2);
    let data = rgrant.to_vec(&bb);
    for (idx, b) in data.iter().enumerate() {
        assert_eq!(*b, idx as u8);
    }
    assert_eq!(rgrant.byte(&bb, 77), 77);
    rgrant.release(&mut bb);
    assert_eq!(bb.available(), 0);
    assert!(cons.read(&mut bb).is_none());
}

#[test]
fn second_split_is_refused() {
    let (mut bb, _prod, _cons) = split(16);
    assert!(matches!(bb.try_split_framed(), Err(Error::AlreadySplit)));
}

#[test]
fn grant_beyond_header_range_is_refused() {
    let (mut bb, mut prod, _cons) = split(100_000);
    assert!(matches!(prod.grant(&mut bb, 65536), Err(Error::InsufficientSize)));
    let g = prod.grant(&mut bb, 65535).unwrap();
    assert_eq!(g.len(), 65535);
}

#[test]
fn grant_larger_than_buffer_is_refused() {
    let (mut bb, mut prod, _cons) = split(100);
    assert!(matches!(prod.grant(&mut bb, 99), Err(Error::InsufficientSize)));
    let g = prod.grant(&mut bb, 98).unwrap();
    assert_eq!(g.len(), 98);
}

#[test]
fn second_write_grant_is_refused() {
    let (mut bb, mut prod, _cons) = split(100);
    let _g = prod.grant(&mut bb, 10).unwrap();
    assert!(matches!(prod.grant(&mut bb, 10), Err(Error::GrantInProgress)));
}

#[test]
fn second_read_grant_gives_nothing() {
    let (mut bb, mut prod, mut cons) = split(100);
    prod.grant(&mut bb, 4).unwrap().commit(&mut bb, 4);
    prod.grant(&mut bb, 4).unwrap().commit(&mut bb, 4);
    let _r = cons.read(&mut bb).unwrap();
    assert!(cons.read(&mut bb).is_none());
}

#[test]
fn short_commit_counts_only_what_was_used() {
    let (mut bb, mut prod, mut cons) = split(1000);
    let g = prod.grant(&mut bb, 100).unwrap();
    for i in 0..40usize {
        g.store(&mut bb, i, 0xA0);
    }
    g.commit(&mut bb, 40);
    assert_eq!(bb.available(), 42);
    let r = cons.read(&mut bb).unwrap();
    assert_eq!(r.len(), 40);
    assert_eq!(r.to_vec(&bb), vec![0xA0u8; 40]);
    r.release(&mut bb);
    assert_eq!(bb.available(), 0);
}

#[test]
fn commit_is_clamped_to_the_grant() {
    let (mut bb, mut prod, mut cons) = split(100);
    let g = prod.grant(&mut bb, 10).unwrap();
    g.commit(&mut bb, 500);
    assert_eq!(bb.available(), 12);
    assert_eq!(cons.read(&mut bb).unwrap().len(), 10);
}

#[test]
fn zero_length_frame_is_a_frame() {
    let (mut bb, mut prod, mut cons) = split(100);
    prod.grant(&mut bb, 10).unwrap().commit(&mut bb, 0);
    assert_eq!(bb.available(), 2);
    let r = cons.read(&mut bb).unwrap();
    assert_eq!(r.len(), 0);
    r.release(&mut bb);
    assert!(cons.read(&mut bb).is_none());
}

#[test]
fn dismissed_write_grant_commits_nothing() {
    let (mut bb, mut prod, mut cons) = split(100);
    let g = prod.grant(&mut bb, 10).unwrap();
    g.store(&mut bb, 0, 9);
    g.dismiss(&mut bb);
    assert_eq!(bb.available(), 0);
    assert!(cons.read(&mut bb).is_none());
    // the producer may grant again
    assert!(prod.grant(&mut bb, 10).is_ok());
}

#[test]
fn to_commit_sets_what_dismiss_commits() {
    let (mut bb, mut prod, mut cons) = split(100);
    let mut g = prod.grant(&mut bb, 10).unwrap();
    for i in 0..10usize {
        g.store(&mut bb, i, i as u8 + 1);
    }
    g.to_commit(&mut bb, 5);
    g.dismiss(&mut bb);
    assert_eq!(bb.available(), 7);
    let r = cons.read(&mut bb).unwrap();
    assert_eq!(r.to_vec(&bb), vec![1u8, 2, 3, 4, 5]);
}

#[test]
fn to_commit_zero_suppresses_the_commit() {
    let (mut bb, mut prod, mut cons) = split(100);
    let mut g = prod.grant(&mut bb, 10).unwrap();
    g.to_commit(&mut bb, 5);
    g.to_commit(&mut bb, 0);
    g.dismiss(&mut bb);
    assert!(cons.read(&mut bb).is_none());
}

#[test]
fn dismissed_read_grant_keeps_the_frame() {
    let (mut bb, mut prod, mut cons) = split(100);
    let g = prod.grant(&mut bb, 3).unwrap();
    g.store(&mut bb, 0, 7);
    g.store(&mut bb, 1, 8);
    g.store(&mut bb, 2, 9);
    g.commit(&mut bb, 3);
    let r = cons.read(&mut bb).unwrap();
    r.dismiss(&mut bb);
    let again = cons.read(&mut bb).unwrap();
    assert_eq!(again.to_vec(&bb), vec![7u8, 8, 9]);
}

#[test]
fn auto_release_frees_on_dismiss() {
    let (mut bb, mut prod, mut cons) = split(100);
    prod.grant(&mut bb, 3).unwrap().commit(&mut bb, 3);
    let mut r = cons.read(&mut bb).unwrap();
    r.auto_release(&bb, true);
    r.dismiss(&mut bb);
    assert_eq!(bb.available(), 0);
    assert!(cons.read(&mut bb).is_none());
}

#[test]
fn auto_release_off_keeps_the_frame() {
    let (mut bb, mut prod, mut cons) = split(100);
    prod.grant(&mut bb, 3).unwrap().commit(&mut bb, 3);
    let mut r = cons.read(&mut bb).unwrap();
    r.auto_release(&bb, true);
    r.auto_release(&bb, false);
    r.dismiss(&mut bb);
    assert_eq!(cons.read(&mut bb).unwrap().len(), 3);
}

#[test]
fn frames_come_out_in_order() {
    let (mut bb, mut prod, mut cons) = split(100);
    for n in 1..=4usize {
        let g = prod.grant(&mut bb, n).unwrap();
        for i in 0..n {
            g.store(&mut bb, i, n as u8);
        }
        g.commit(&mut bb, n);
    }
    assert_eq!(bb.available(), 1 + 2 + 3 + 4 + 4 * 2);
    for n in 1..=4usize {
        let r = cons.read(&mut bb).unwrap();
        assert_eq!(r.to_vec(&bb), vec![n as u8; n]);
        r.release(&mut bb);
    }
    assert!(cons.read(&mut bb).is_none());
}

#[test]
fn frames_wrap_to_the_front() {
    let (mut bb, mut prod, mut cons) = split(20);
    prod.grant(&mut bb, 6).unwrap().commit(&mut bb, 6);
    prod.grant(&mut bb, 6).unwrap().commit(&mut bb, 6);
    cons.read(&mut bb).unwrap().release(&mut bb);
    // 4 bytes left at the end, 8 freed at the front: not enough in either place
    assert!(matches!(prod.grant(&mut bb, 6), Err(Error::InsufficientSize)));
    cons.read(&mut bb).unwrap().release(&mut bb);
    let g = prod.grant(&mut bb, 6).unwrap();
    assert_eq!(g.offset(&bb), 2);
    g.store(&mut bb, 0, 0x11);
    g.store(&mut bb, 1, 0x22);
    g.store(&mut bb, 2, 0x33);
    g.commit(&mut bb, 3);
    assert_eq!(bb.available(), 5);
    let r = cons.read(&mut bb).unwrap();
    assert_eq!(r.to_vec(&bb), vec![0x11u8, 0x22, 0x33]);
    r.release(&mut bb);
    assert_eq!(bb.available(), 0);
}

#[test]
fn available_tracks_commits_minus_releases() {
    let (mut bb, mut prod, mut cons) = split(64);
    let mut committed = 0usize;
    let mut released = 0usize;
    for round in 0..20usize {
        let used = round % 7;
        if let Ok(g) = prod.grant(&mut bb, 10) {
            g.commit(&mut bb, used);
            committed += used + 2;
        }
        if round % 3 == 2 {
            while let Some(r) = cons.read(&mut bb) {
                released += r.len() + 2;
                r.release(&mut bb);
            }
        }
        assert_eq!(bb.available(), committed - released);
    }
}
