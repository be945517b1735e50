use stormdl::coalesce::WriteBuffer;

#[test]
fn test_write_buffer() {
    let mut buffer = WriteBuffer::new(100);
    assert!(buffer.is_empty());

    buffer.append(&[1, 2, 3]);
    assert_eq!(buffer.len(), 3);
    assert!(!buffer.is_full());

    assert!(buffer.would_overflow(98));
    assert!(!buffer.would_overflow(97));

    buffer.clear();
    assert!(buffer.is_empty());
}

#[test]
fn take_empties_the_buffer() {
    let mut buffer = WriteBuffer::new(8);
    buffer.append(&[9, 8, 7]);
    let taken = buffer.take();
    assert_eq!(taken, vec![9, 8, 7]);
    assert!(buffer.is_empty());
    assert_eq!(buffer.data(), &[] as &[u8]);
}
