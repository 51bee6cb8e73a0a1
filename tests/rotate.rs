use helmet_mcu::rotate::{Rot90, SizeMismatch};

fn drain(v: Rot90<u8>) -> Vec<u8> {
    v.into_samples()
}

#[test]
fn square_view_reads_rotated_order() {
    let buf: Vec<u8> = (0..9).collect();
    let v = Rot90::new(buf, (3, 3));
    assert_eq!(drain(v), vec![2, 5, 8, 1, 4, 7, 0, 3, 6]);
}

#[test]
fn four_rotations_restore_square_image() {
    let buf: Vec<u8> = (0..16).collect();
    let mut cur = buf.clone();
    for _ in 0..4 {
        cur = drain(Rot90::new(cur, (4, 4)));
        assert_eq!(cur.len(), 16);
    }
    assert_eq!(cur, buf);
}

#[test]
fn square_64_view_yields_every_sample() {
    let buf: Vec<u8> = (0..64 * 64).map(|i| (i % 251) as u8).collect();
    let v = Rot90::new(buf.clone(), (64, 64));
    let out = drain(v);
    assert_eq!(out.len(), 64 * 64);
    for k in 0..64 * 64 {
        assert_eq!(out[k], buf[(k % 64) * 64 + (63 - k / 64)]);
    }
}

#[test]
fn empty_square_view_yields_nothing() {
    let v: Rot90<u8> = Rot90::new(Vec::new(), (0, 0));
    assert_eq!(drain(v).len(), 0);
}

#[test]
fn wide_view_reads_only_a_height_square() {
    let buf: Vec<u8> = (0..6).collect();
    let v = Rot90::new(buf, (3, 2));
    assert_eq!(drain(v), vec![1, 4, 0, 3]);
}

#[test]
fn next_stays_exhausted() {
    let mut v = Rot90::new(vec![1u8, 2, 3, 4], (2, 2));
    assert_eq!(v.next(), Some(2));
    assert_eq!(v.next(), Some(4));
    assert_eq!(v.next(), Some(1));
    assert_eq!(v.next(), Some(3));
    assert_eq!(v.next(), None);
    assert_eq!(v.next(), None);
}

#[test]
fn peek_does_not_advance() {
    let v = Rot90::new(vec![1u8, 2, 3, 4], (2, 2));
    assert_eq!(v.internal_peek(), Some(2));
    assert_eq!(v.internal_peek(), Some(2));
}

#[test]
fn at_pre_reads_flat_index() {
    let v = Rot90::new(vec![1u8, 2, 3, 4, 5, 6], (3, 2));
    assert_eq!(v.at_pre(2, 1), Some(6));
    assert_eq!(v.at_pre(0, 2), None);
    assert_eq!(v.at_pre(usize::MAX, usize::MAX), None);
}

#[test]
fn try_new_rejects_size_mismatch() {
    let r = Rot90::try_new(vec![0u8; 5], (2, 2));
    match r {
        Err(e) => assert_eq!(e, SizeMismatch { len: 5, width: 2, height: 2 }),
        Ok(_) => panic!("a 5-sample buffer is not 2 x 2"),
    }
    let r = Rot90::try_new(vec![0u8; 1], (usize::MAX, 2));
    assert!(r.is_err());
    let r = Rot90::try_new(Vec::<u8>::new(), (1usize << 32, 1usize << 32));
    assert!(r.is_err());
}

#[test]
fn try_new_accepts_matching_size() {
    let r = Rot90::try_new(vec![1u8, 2, 3, 4], (2, 2));
    match r {
        Ok(v) => assert_eq!(drain(v), vec![2, 4, 1, 3]),
        Err(_) => panic!("2 x 2 buffer of 4 samples is valid"),
    }
}
