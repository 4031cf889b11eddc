use murmel::buffer::{FrameBuffer, CHUNK_TARGET};

#[test]
fn read_spans_chunks() {
    let mut b = FrameBuffer::new();
    let big: Vec<u8> = (0..(CHUNK_TARGET + 10)).map(|i| (i % 251) as u8).collect();
    b.write(&big);
    b.write(&[1, 2, 3]);
    let mut dst = vec![0u8; CHUNK_TARGET + 13];
    assert_eq!(b.read(&mut dst), CHUNK_TARGET + 13);
    assert_eq!(&dst[..CHUNK_TARGET + 10], &big[..]);
    assert_eq!(&dst[CHUNK_TARGET + 10..], &[1, 2, 3]);
    let mut more = vec![0u8; 4];
    assert_eq!(b.read(&mut more), 0);
}

#[test]
fn empty_buffer_reads_nothing() {
    let mut b = FrameBuffer::new();
    let mut dst = vec![9u8; 3];
    assert_eq!(b.read(&mut dst), 0);
    assert_eq!(dst, vec![9, 9, 9]);
}

#[test]
fn short_read_copies_what_is_there() {
    let mut b = FrameBuffer::new();
    b.write(&[5, 6]);
    let mut dst = vec![0u8; 4];
    assert_eq!(b.read(&mut dst), 2);
    assert_eq!(dst, vec![5, 6, 0, 0]);
}

#[test]
fn rollback_returns_to_checkpoint() {
    let mut b = FrameBuffer::new();
    b.write(&[1, 2, 3, 4]);
    let mut dst = vec![0u8; 1];
    b.read(&mut dst);
    b.checkpoint();
    let mut two = vec![0u8; 2];
    assert_eq!(b.read(&mut two), 2);
    assert_eq!(two, vec![2, 3]);
    b.rollback();
    let mut three = vec![0u8; 3];
    assert_eq!(b.read(&mut three), 3);
    assert_eq!(three, vec![2, 3, 4]);
}

#[test]
fn commit_keeps_unread_bytes() {
    let mut b = FrameBuffer::new();
    let first = vec![1u8; CHUNK_TARGET];
    b.write(&first);
    b.write(&[7, 8]);
    let mut dst = vec![0u8; CHUNK_TARGET + 1];
    assert_eq!(b.read(&mut dst), CHUNK_TARGET + 1);
    b.commit();
    b.rollback();
    let mut rest = vec![0u8; 5];
    assert_eq!(b.read(&mut rest), 1);
    assert_eq!(rest[0], 8);
    assert_eq!(b.drain_to_vec(), vec![7, 8]);
}

#[test]
fn drain_concatenates_all_chunks() {
    let mut b = FrameBuffer::new();
    let first = vec![3u8; CHUNK_TARGET];
    b.write(&first);
    b.write(&[4]);
    let mut all = first.clone();
    all.push(4);
    assert_eq!(b.drain_to_vec(), all);
}
