use drpc::buffer::Buffer;

#[test]
fn test_buffer_write_read() {
    let mut buf = Buffer::new();
    let mut tmp = vec![0u8; 10];

    buf.write(&[1, 2, 3, 4, 5]).unwrap();
    assert_eq!(buf.read(&mut tmp).unwrap(), 5);
    assert_eq!(tmp, [1, 2, 3, 4, 5, 0, 0, 0, 0, 0]);
    assert_eq!(buf.take_contents(), vec![]);
}

#[test]
fn buffer_from_primes_reads() {
    let mut buf = Buffer::from(vec![9, 8, 7]);
    let mut tmp = vec![0u8; 2];
    assert_eq!(buf.read(&mut tmp).unwrap(), 2);
    assert_eq!(tmp, [9, 8]);
    assert_eq!(buf.take_contents(), vec![7]);
}
