use ws_core::{Empty, Error, Full, Resettable, RingBuffer, U8RingBuffer};

#[test]
fn ring_wraparound_round_trip() {
    let mut ring = RingBuffer::new(vec![0u8; 8]);
    assert_eq!(ring.enqueue_many(&vec![1, 2, 3, 4, 5, 6]), Ok(6));
    assert_eq!(ring.len(), 6);

    let first = ring.dequeue_many_contiguous(4).unwrap();
    assert_eq!(first, vec![1, 2, 3, 4]);
    assert_eq!(ring.len(), 2);

    // Four more bytes wrap past the physical end of the backing array.
    assert_eq!(ring.enqueue_many(&vec![7, 8, 9, 10]), Ok(4));
    assert_eq!(ring.len(), 6);

    // The remaining run straddles the wrap boundary: the leaping path copies
    // the two segments into one contiguous result.
    assert!(ring.contigous_len() < 6);
    let rest = ring.dequeue_many_leap(6);
    assert_eq!(rest, vec![5, 6, 7, 8, 9, 10]);
    assert_eq!(ring.len(), 0);
}

#[test]
fn ring_contiguous_dequeue_without_wrap() {
    let mut ring = RingBuffer::new(vec![0u8; 8]);
    ring.enqueue_many(&vec![10, 20, 30]).unwrap();
    assert_eq!(ring.contigous_len(), 3);
    let out = ring.dequeue_many_no_leap(2);
    assert_eq!(out, vec![10, 20]);
    assert_eq!(ring.len(), 1);
}

#[test]
fn ring_capacity_errors() {
    let mut ring = RingBuffer::new(vec![0u8; 4]);
    ring.enqueue_many(&vec![1, 2, 3]).unwrap();

    // Enqueue beyond remaining capacity fails with Full and changes nothing.
    assert_eq!(ring.enqueue_many(&vec![4, 5]), Err(Full));
    assert_eq!(ring.len(), 3);

    // Dequeue beyond available length fails with Empty and changes nothing.
    assert_eq!(ring.dequeue_many_contiguous(4), Err(Empty));
    assert_eq!(ring.len(), 3);

    // The buffered bytes are still intact and in order.
    assert_eq!(ring.dequeue_many_contiguous(3).unwrap(), vec![1, 2, 3]);
}

#[test]
fn ring_reset_drops_content() {
    let mut ring = RingBuffer::new(vec![0u8; 4]);
    ring.enqueue_many(&vec![1, 2]).unwrap();
    ring.reset();
    assert_eq!(ring.len(), 0);
    assert_eq!(ring.enqueue_many(&vec![9, 9, 9, 9]), Ok(4));
}

#[test]
fn read_uint_big_endian() {
    let mut buf = U8RingBuffer::new();
    buf.0.enqueue_many(&vec![0x01, 0x02, 0xff, 0x00, 0x00, 0x00, 0x00, 0x00, 0x00, 0x01]).unwrap();
    assert_eq!(buf.read_uint(2), Ok(0x0102));
    assert_eq!(buf.read_uint(8), Ok(0xff00_0000_0000_0001));
}

#[test]
fn read_uint_rejects_bad_width() {
    let mut buf = U8RingBuffer::new();
    buf.0.enqueue_many(&vec![1, 2, 3, 4, 5, 6, 7]).unwrap();
    assert_eq!(buf.read_uint(5), Err(Error::InvalidInput));
    // Nothing was consumed by the rejection.
    assert_eq!(buf.read_uint(3), Ok(0x010203));
}

#[test]
fn read_uint_needs_enough_data() {
    let mut buf = U8RingBuffer::new();
    buf.0.enqueue_many(&vec![1]).unwrap();
    assert_eq!(buf.read_uint(2), Err(Error::NotEnoughData));
    assert_eq!(buf.read_uint(8), Err(Error::NotEnoughData));
}
