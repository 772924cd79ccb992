use drpc::varint::{append, read, Error};

#[test]
fn varint_read_simple() {
    assert_eq!(read(&[1, 2, 3]), Ok((1, 1)));
}

#[test]
fn varint_read_multibyte() {
    assert_eq!(read(&[128, 130, 3, 5]), Ok((49408, 3)));
}

#[test]
fn varint_read_not_enough_data() {
    assert_eq!(read(&[128, 130]), Err(Error::NotEnoughData));
}

#[test]
fn varint_read_varint_too_long() {
    assert_eq!(
        read(&[128, 128, 128, 128, 128, 128, 128, 128, 128, 128]),
        Err(Error::VarintTooLong)
    );
}

#[test]
fn varint_append_simple() {
    let mut buf = vec![];
    append(&mut buf, 1);
    assert_eq!(&buf, &[1])
}

#[test]
fn varint_append_multibyte() {
    let mut buf = vec![];
    append(&mut buf, 49408);
    assert_eq!(&buf, &[128, 130, 3])
}

#[test]
fn varint_roundtrip_samples() {
    for v in [0u64, 1, 127, 128, 300, 49408, 1 << 35, u64::MAX] {
        let mut buf = vec![];
        append(&mut buf, v);
        assert!(buf.len() <= 10);
        assert_eq!(read(&buf), Ok((v, buf.len())));
    }
}

#[test]
fn varint_truncated_encoding() {
    let mut buf = vec![];
    append(&mut buf, u64::MAX);
    buf.truncate(buf.len() - 1);
    assert_eq!(read(&buf), Err(Error::NotEnoughData));
}
