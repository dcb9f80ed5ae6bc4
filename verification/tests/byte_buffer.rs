use cbt::byte_buffer::ByteBuffer;

#[test]
fn byte_buffer_sanity_test() {
    let bytes = vec![1, 2, 3];
    let mut buffer = ByteBuffer::new(&bytes);

    assert!(!buffer.is_empty());
    assert_eq!(buffer.peek(), Some(&1));
    assert_eq!(buffer.pos(), 0);
    buffer.advance(1);

    assert!(!buffer.is_empty());
    assert_eq!(buffer.peek(), Some(&2));
    assert_eq!(buffer.pos(), 1);
    buffer.advance(2);

    assert!(buffer.is_empty());
    assert_eq!(buffer.peek(), None);
    assert_eq!(buffer.pos(), 3);
    buffer.advance(1);

    assert!(buffer.is_empty());
    assert_eq!(buffer.peek(), None);
    assert_eq!(buffer.pos(), 3);
}

#[test]
fn byte_buffer_iterator_test() {
    let bytes = vec![1, 2, 3];
    let mut buffer = ByteBuffer::new(&bytes);
    let mut output = Vec::new();

    while let Some(byte) = buffer.next() {
        output.push(*byte);
    }

    assert!(buffer.is_empty());
    assert_eq!(buffer.peek(), None);
    assert_eq!(buffer.next(), None);
    assert_eq!(buffer.pos(), 3);
    assert_eq!(bytes, output);
}

#[test]
fn byte_buffer_push_back() {
    let bytes = vec![1, 2, 3];
    let mut buffer = ByteBuffer::new(&bytes);

    assert_eq!(buffer.next(), Some(&1));
    buffer.push_back(1);
    assert_eq!(buffer.next(), Some(&1));
    assert_eq!(buffer.pos(), 1);
}

#[test]
fn byte_buffer_push_back_stops_at_the_start() {
    let bytes = vec![1, 2, 3];
    let mut buffer = ByteBuffer::new(&bytes);
    buffer.advance(2);
    buffer.push_back(5);
    assert_eq!(buffer.pos(), 0);
    assert_eq!(buffer.remaining(), 3);
    assert_eq!(buffer.peek(), Some(&1));
}

#[test]
fn byte_buffer_advance_stops_at_the_end() {
    let bytes = vec![1, 2, 3];
    let mut buffer = ByteBuffer::new(&bytes);
    buffer.advance(usize::MAX);
    assert_eq!(buffer.pos(), 3);
    assert_eq!(buffer.remaining(), 0);
    buffer.advance(usize::MAX);
    assert_eq!(buffer.pos(), 3);
}

#[test]
fn byte_buffer_over_no_bytes() {
    let bytes: Vec<u8> = Vec::new();
    let mut buffer = ByteBuffer::new(&bytes);
    assert!(buffer.is_empty());
    assert_eq!(buffer.remaining(), 0);
    assert_eq!(buffer.next(), None);
    assert_eq!(buffer.pos(), 0);
}
