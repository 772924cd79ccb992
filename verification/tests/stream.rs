use drpc::buffer::Buffer;
use drpc::frame::{append_frame, Frame};
use drpc::id::ID;
use drpc::packet::Kind;
use drpc::stream::{parse_remote_error, State, Stream, Error};
use drpc::transport::Transport;

fn loopback() -> Transport<Buffer> {
    Transport::new(Buffer::new())
}

#[test]
fn half_close_sequencing() {
    let mut tr = loopback();
    let mut st = Stream::new(7);
    st.invoke(&mut tr, b"/m").unwrap();
    st.send(&mut tr, &vec![1u8, 2]).unwrap();
    st.close_send(&mut tr).unwrap();

    let mut out = vec![];
    let (id, kind) = tr.read_packet_into(&mut out).unwrap();
    assert_eq!((id, kind), (ID { stream: 7, message: 1 }, Kind::Invoke));
    assert_eq!(out, b"/m");
    let (id, kind) = tr.read_packet_into(&mut out).unwrap();
    assert_eq!((id, kind), (ID { stream: 7, message: 2 }, Kind::Message));
    assert_eq!(out, vec![1, 2]);
    let (id, kind) = tr.read_packet_into(&mut out).unwrap();
    assert_eq!((id, kind), (ID { stream: 7, message: 3 }, Kind::CloseSend));
    assert_eq!(out, vec![]);
}

#[test]
fn close_writes_once() {
    let mut tr = loopback();
    let mut st = Stream::new(1);
    st.close(&mut tr).unwrap();
    assert!(!tr.wire().take_contents().is_empty());
    st.close(&mut tr).unwrap();
    assert_eq!(tr.wire().take_contents(), vec![]);
}

#[test]
fn close_send_writes_once() {
    let mut tr = loopback();
    let mut st = Stream::new(1);
    st.close_send(&mut tr).unwrap();
    assert!(!tr.wire().take_contents().is_empty());
    st.close_send(&mut tr).unwrap();
    assert_eq!(tr.wire().take_contents(), vec![]);
}

#[test]
fn error_writes_once() {
    let mut tr = loopback();
    let mut st = Stream::new(1);
    st.error(&mut tr, "gone", 4).unwrap();
    assert!(!tr.wire().take_contents().is_empty());
    st.error(&mut tr, "gone again", 5).unwrap();
    assert_eq!(tr.wire().take_contents(), vec![]);
}

#[test]
fn send_after_close_send_refused() {
    let mut tr = loopback();
    let mut st = Stream::new(1);
    st.close_send(&mut tr).unwrap();
    assert_eq!(
        st.send(&mut tr, &vec![1u8]),
        Err(Error::StateError(State::SendClosed))
    );
}

#[test]
fn message_delivery() {
    let mut tr = loopback();
    let mut sender = Stream::new(4);
    sender.send(&mut tr, &vec![5u8, 6, 7]).unwrap();
    tr.flush().unwrap();
    let mut receiver = Stream::new(4);
    let mut out: Vec<u8> = vec![];
    receiver.recv_into(&mut tr, &mut out).unwrap();
    assert_eq!(out, vec![5, 6, 7]);
}

#[test]
fn foreign_stream_dropped() {
    let mut tr = loopback();
    let mut other = Stream::new(4);
    other.send(&mut tr, &vec![1u8]).unwrap();
    let mut sender = Stream::new(5);
    sender.send(&mut tr, &vec![2u8]).unwrap();
    tr.flush().unwrap();
    let mut receiver = Stream::new(5);
    let mut out: Vec<u8> = vec![];
    receiver.recv_into(&mut tr, &mut out).unwrap();
    assert_eq!(out, vec![2]);
}

#[test]
fn remote_error_terminates() {
    let mut tr = loopback();
    let mut sender = Stream::new(9);
    sender.error(&mut tr, "boom", 10).unwrap();
    let mut receiver = Stream::new(9);
    let mut out: Vec<u8> = vec![];
    assert_eq!(
        receiver.recv_into(&mut tr, &mut out),
        Err(Error::StateError(State::RemoteError(10, "boom".to_owned())))
    );
    assert_eq!(
        receiver.send(&mut tr, &vec![1u8]),
        Err(Error::StateError(State::EOF))
    );
}

#[test]
fn remote_close_terminates() {
    let mut tr = loopback();
    let mut sender = Stream::new(9);
    sender.close(&mut tr).unwrap();
    let mut receiver = Stream::new(9);
    let mut out: Vec<u8> = vec![];
    assert_eq!(
        receiver.recv_into(&mut tr, &mut out),
        Err(Error::StateError(State::RemoteClosed))
    );
}

#[test]
fn incoming_close_send_half_closes() {
    let mut tr = loopback();
    let mut sender = Stream::new(9);
    sender.close_send(&mut tr).unwrap();
    let mut receiver = Stream::new(9);
    let mut out: Vec<u8> = vec![];
    assert_eq!(
        receiver.recv_into(&mut tr, &mut out),
        Err(Error::StateError(State::EOF))
    );
}

#[test]
fn mid_stream_invoke_refused() {
    let mut tr = loopback();
    let mut sender = Stream::new(9);
    sender.invoke(&mut tr, b"/again").unwrap();
    tr.flush().unwrap();
    let mut receiver = Stream::new(9);
    let mut out: Vec<u8> = vec![];
    assert_eq!(
        receiver.recv_into(&mut tr, &mut out),
        Err(Error::StateError(State::InvalidInvoke))
    );
}

#[test]
fn unknown_kind_terminates() {
    let mut bytes = vec![];
    append_frame(
        &mut bytes,
        &Frame {
            data: vec![],
            id: ID { stream: 7, message: 1 },
            kind: 42,
            done: true,
            control: false,
        },
    );
    let mut tr = Transport::new(Buffer::from(bytes));
    let mut st = Stream::new(7);
    let mut out: Vec<u8> = vec![];
    assert_eq!(
        st.recv_into(&mut tr, &mut out),
        Err(Error::StateError(State::UnknownPacketKind(Kind::Other(42))))
    );
    assert_eq!(
        st.recv_into(&mut tr, &mut out),
        Err(Error::StateError(State::UnknownPacketKind(Kind::Other(42))))
    );
}

#[test]
fn transport_eof_mid_recv() {
    let mut tr = Transport::new(Buffer::from(vec![]));
    let mut st = Stream::new(1);
    let mut out: Vec<u8> = vec![];
    assert_eq!(
        st.recv_into(&mut tr, &mut out),
        Err(Error::StateError(State::RemoteClosed))
    );
    // Both the receiving side and the whole stream are closed for good.
    assert_eq!(
        st.recv_into(&mut tr, &mut out),
        Err(Error::StateError(State::RemoteClosed))
    );
    assert_eq!(
        st.send(&mut tr, &vec![1u8]),
        Err(Error::StateError(State::RemoteClosed))
    );
}

#[test]
fn parse_remote_error_payload() {
    let mut payload = vec![0, 0, 0, 0, 0, 0, 0, 10];
    payload.extend_from_slice(b"boom");
    assert_eq!(
        parse_remote_error(&payload),
        State::RemoteError(10, "boom".to_owned())
    );
    assert_eq!(
        parse_remote_error(&vec![1, 2, 3]),
        State::RemoteError(0, "invalid error message".to_owned())
    );
}

#[test]
fn parse_remote_error_lossy_message() {
    // An invalid UTF-8 byte becomes the replacement character.
    let mut payload = vec![0, 0, 0, 0, 0, 0, 0, 2];
    payload.extend_from_slice(&[0xFF, b'a']);
    assert_eq!(
        parse_remote_error(&payload),
        State::RemoteError(2, "\u{FFFD}a".to_owned())
    );
}
