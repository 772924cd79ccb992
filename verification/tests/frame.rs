use drpc::frame::{append_frame, parse_frame, Error, Frame};
use drpc::id::ID;

fn sample() -> Frame {
    Frame {
        data: vec![1, 2, 3],
        id: ID { stream: 5, message: 10 },
        kind: 5,
        done: true,
        control: false,
    }
}

#[test]
fn frame_append_read() {
    let mut buf = vec![];
    append_frame(&mut buf, &sample());
    buf.push(99);

    assert_eq!(parse_frame(&buf), Ok((sample(), 7)));
}

#[test]
fn frame_read_not_enough_data() {
    let mut buf = vec![];
    append_frame(&mut buf, &sample());
    buf.truncate(buf.len() - 1);

    assert_eq!(parse_frame(&buf), Err(Error::NotEnoughData))
}

#[test]
fn frame_read_parse_error() {
    assert_eq!(
        parse_frame(&[0, 128, 128, 128, 128, 128, 128, 128, 128, 128, 128]),
        Err(Error::ParseError),
    )
}

#[test]
fn frame_roundtrip_flags() {
    let fr = Frame {
        data: (0..200u8).collect(),
        id: ID { stream: u64::MAX, message: 1 << 40 },
        kind: 63,
        done: false,
        control: true,
    };
    let mut buf = vec![];
    append_frame(&mut buf, &fr);
    let n = buf.len();
    buf.extend_from_slice(&[7, 7, 7]);
    assert_eq!(parse_frame(&buf), Ok((fr, n)));
}
