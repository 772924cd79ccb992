use drpc::enc::{Marshal, Unmarshal};
use drpc::frame::Frame;
use drpc::id::ID;
use drpc::packet::{Kind, Packet};
use drpc::split::split;

#[test]
fn identity_encoding_round_trip() {
    let value: Vec<u8> = vec![1, 2, 3];
    let mut buf: Vec<u8> = vec![9, 9, 9, 9];
    value.marshal(&mut buf).unwrap();
    assert_eq!(buf, vec![1, 2, 3]);

    let mut decoded: Vec<u8> = vec![];
    decoded.unmarshal(&buf).unwrap();
    assert_eq!(decoded, value);
}

#[test]
fn kind_codes_round_trip() {
    for code in 0..=255u8 {
        assert_eq!(Kind::from_code(code).code(), code);
    }
    assert_eq!(Kind::from_code(1), Kind::Invoke);
    assert_eq!(Kind::from_code(2), Kind::Message);
    assert_eq!(Kind::from_code(3), Kind::Error);
    assert_eq!(Kind::from_code(4), Kind::Other(4));
    assert_eq!(Kind::from_code(5), Kind::Close);
    assert_eq!(Kind::from_code(6), Kind::CloseSend);
    assert_eq!(Kind::from_code(7), Kind::InvokeMetadata);
}

#[test]
fn fragmentation_sizes() {
    let data = vec![9u8; 200_000];
    let pkt = Packet {
        data: data.clone(),
        id: ID { stream: 1, message: 1 },
        kind: Kind::Message,
    };
    let mut sp = split(&pkt, 65536);
    let mut frames: Vec<Frame> = vec![];
    while let Some(fr) = sp.next() {
        frames.push(fr);
    }
    let sizes: Vec<usize> = frames.iter().map(|f| f.data.len()).collect();
    assert_eq!(sizes, vec![65536, 65536, 65536, 3392]);
    let dones: Vec<bool> = frames.iter().map(|f| f.done).collect();
    assert_eq!(dones, vec![false, false, false, true]);
    let mut joined = vec![];
    for fr in &frames {
        joined.extend_from_slice(&fr.data);
    }
    assert_eq!(joined, data);
}
