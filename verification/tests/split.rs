use drpc::frame::Frame;
use drpc::id::ID;
use drpc::packet::{Kind, Packet};
use drpc::split::split;

const SID: ID = ID { stream: 5, message: 10 };

fn collect_frames(pkt: &Packet, n: usize) -> Vec<Frame> {
    let mut sp = split(pkt, n);
    let mut out = vec![];
    while let Some(fr) = sp.next() {
        out.push(fr);
    }
    out
}

#[test]
fn split_test_split_small() {
    let pkt = Packet { data: vec![1, 2, 3], id: SID, kind: Kind::Message };

    assert_eq!(
        collect_frames(&pkt, 1),
        vec![
            Frame { data: vec![1], id: SID, kind: 2, done: false, control: false },
            Frame { data: vec![2], id: SID, kind: 2, done: false, control: false },
            Frame { data: vec![3], id: SID, kind: 2, done: true, control: false },
        ]
    )
}

#[test]
fn split_test_split_large() {
    let pkt = Packet { data: vec![1, 2, 3], id: SID, kind: Kind::Message };

    assert_eq!(
        collect_frames(&pkt, 0),
        vec![Frame { data: vec![1, 2, 3], id: SID, kind: 2, done: true, control: false }]
    )
}

#[test]
fn split_law_sample() {
    let data: Vec<u8> = (0..255u8).cycle().take(1000).collect();
    let pkt = Packet { data: data.clone(), id: SID, kind: Kind::Message };
    let frames = collect_frames(&pkt, 64);
    assert_eq!(frames.len(), 16);
    let mut joined = vec![];
    for (i, fr) in frames.iter().enumerate() {
        assert_eq!(fr.id, SID);
        assert_eq!(fr.kind, 2);
        assert!(!fr.control);
        assert_eq!(fr.done, i == frames.len() - 1);
        if i < frames.len() - 1 {
            assert_eq!(fr.data.len(), 64);
        } else {
            assert!(fr.data.len() <= 64);
        }
        joined.extend_from_slice(&fr.data);
    }
    assert_eq!(joined, data);
}
