use drpc::buffer::Buffer;
use drpc::frame::{append_frame, Frame};
use drpc::id::ID;
use drpc::packet::{Kind, Packet};
use drpc::split::split;
use drpc::transport::{Error, Transport};

fn loopback() -> Transport<Buffer> {
    Transport::new(Buffer::new())
}

fn write_packet(tr: &mut Transport<Buffer>, pkt: &Packet) {
    let mut sp = split(pkt, 64 * 1024);
    while let Some(fr) = sp.next() {
        tr.write_frame(&fr).unwrap();
    }
}

#[test]
fn test_write_packet() {
    let mut tr = loopback();
    write_packet(
        &mut tr,
        &Packet {
            data: vec![1, 2, 3, 4, 5],
            id: ID { stream: 0, message: 0 },
            kind: Kind::Message,
        },
    );
    tr.flush().unwrap();
    assert_eq!(tr.wire().take_contents(), vec![5, 0, 0, 5, 1, 2, 3, 4, 5])
}

#[test]
fn test_write_frame() {
    let mut tr = loopback();
    tr.write_frame(&Frame {
        data: vec![1, 2, 3, 4, 5],
        id: ID { stream: 0, message: 0 },
        kind: 8,
        done: true,
        control: false,
    })
    .unwrap();
    tr.flush().unwrap();
    assert_eq!(tr.wire().take_contents(), vec![17, 0, 0, 5, 1, 2, 3, 4, 5])
}

#[test]
fn test_buffering() {
    let mut tr = loopback();
    write_packet(
        &mut tr,
        &Packet {
            data: vec![1, 2, 3, 4, 5],
            id: ID { stream: 0, message: 0 },
            kind: Kind::Message,
        },
    );
    // Nothing is handed to the channel before a flush.
    assert_eq!(tr.wire().take_contents(), vec![])
}

#[test]
fn test_flush() {
    let mut tr = loopback();
    write_packet(
        &mut tr,
        &Packet {
            data: vec![1, 2, 3, 4, 5],
            id: ID { stream: 0, message: 0 },
            kind: Kind::Message,
        },
    );
    tr.flush().unwrap();
    assert_eq!(tr.wire().take_contents(), vec![5, 0, 0, 5, 1, 2, 3, 4, 5])
}

#[test]
fn test_write_multiple_frame() {
    let mut tr = loopback();
    tr.write_frame(&Frame {
        data: vec![1, 2, 3, 4, 5],
        id: ID { stream: 1, message: 1 },
        kind: 2,
        done: false,
        control: false,
    })
    .unwrap();
    tr.write_frame(&Frame {
        data: vec![6, 7, 8, 9, 10],
        id: ID { stream: 1, message: 1 },
        kind: 2,
        done: true,
        control: false,
    })
    .unwrap();
    tr.flush().unwrap();
    assert_eq!(
        tr.wire().take_contents(),
        vec![4, 1, 1, 5, 1, 2, 3, 4, 5, 5, 1, 1, 5, 6, 7, 8, 9, 10]
    )
}

#[test]
fn test_reader_packets() {
    let buf = vec![4, 1, 1, 5, 1, 2, 3, 4, 5, 5, 1, 1, 5, 6, 7, 8, 9, 10];
    let mut tr = Transport::new(Buffer::from(buf));

    let mut out = vec![];
    let (id, kind) = tr.read_packet_into(&mut out).unwrap();
    assert_eq!(id, ID { stream: 1, message: 1 });
    assert_eq!(kind, Kind::Message);
    assert_eq!(out, vec![1, 2, 3, 4, 5, 6, 7, 8, 9, 10]);
}

#[test]
fn reassembly_of_split_frames() {
    let data: Vec<u8> = (0u8..=255).cycle().take(200_000).collect();
    let pkt = Packet { data: data.clone(), id: ID { stream: 1, message: 1 }, kind: Kind::Message };
    let mut tr = loopback();
    write_packet(&mut tr, &pkt);
    tr.flush().unwrap();
    let mut out = vec![];
    let (id, kind) = tr.read_packet_into(&mut out).unwrap();
    assert_eq!(id, ID { stream: 1, message: 1 });
    assert_eq!(kind, Kind::Message);
    assert_eq!(out, data);
}

#[test]
fn id_monotonicity_error() {
    let mut bytes = vec![];
    append_frame(
        &mut bytes,
        &Frame {
            data: vec![1],
            id: ID { stream: 1, message: 5 },
            kind: 2,
            done: false,
            control: false,
        },
    );
    append_frame(
        &mut bytes,
        &Frame {
            data: vec![2],
            id: ID { stream: 1, message: 4 },
            kind: 2,
            done: false,
            control: false,
        },
    );
    let mut tr = Transport::new(Buffer::from(bytes));
    let mut out = vec![];
    assert_eq!(tr.read_packet_into(&mut out), Err(Error::IDMonotonicityError));
}

#[test]
fn kind_change_error() {
    let mut bytes = vec![];
    append_frame(
        &mut bytes,
        &Frame {
            data: vec![1],
            id: ID { stream: 1, message: 1 },
            kind: 2,
            done: false,
            control: false,
        },
    );
    append_frame(
        &mut bytes,
        &Frame {
            data: vec![2],
            id: ID { stream: 1, message: 1 },
            kind: 3,
            done: true,
            control: false,
        },
    );
    let mut tr = Transport::new(Buffer::from(bytes));
    let mut out = vec![];
    assert_eq!(tr.read_packet_into(&mut out), Err(Error::PacketKindChangeError));
}

#[test]
fn overflow_error() {
    // 65 undone frames of 64 KiB leave more than the 4 MiB packet cap.
    let chunk = vec![7u8; 64 * 1024];
    let mut bytes = vec![];
    for _ in 0..65 {
        append_frame(
            &mut bytes,
            &Frame {
                data: chunk.clone(),
                id: ID { stream: 1, message: 1 },
                kind: 2,
                done: false,
                control: false,
            },
        );
    }
    let mut tr = Transport::new(Buffer::from(bytes));
    let mut out = vec![];
    assert_eq!(tr.read_packet_into(&mut out), Err(Error::DataOverflowError));
}

#[test]
fn parse_error_surfaces() {
    let bytes = vec![0, 128, 128, 128, 128, 128, 128, 128, 128, 128, 128];
    let mut tr = Transport::new(Buffer::from(bytes));
    let mut out = vec![];
    assert_eq!(tr.read_packet_into(&mut out), Err(Error::ParseError));
}

#[test]
fn control_frames_are_skipped() {
    let mut bytes = vec![];
    append_frame(
        &mut bytes,
        &Frame {
            data: vec![9, 9],
            id: ID { stream: 3, message: 1 },
            kind: 2,
            done: true,
            control: true,
        },
    );
    append_frame(
        &mut bytes,
        &Frame {
            data: vec![1, 2],
            id: ID { stream: 1, message: 1 },
            kind: 2,
            done: true,
            control: false,
        },
    );
    let mut tr = Transport::new(Buffer::from(bytes));
    let mut out = vec![];
    let (id, kind) = tr.read_packet_into(&mut out).unwrap();
    assert_eq!(id, ID { stream: 1, message: 1 });
    assert_eq!(kind, Kind::Message);
    assert_eq!(out, vec![1, 2]);
}

#[test]
fn eof_reported_on_every_read() {
    let mut tr = Transport::new(Buffer::from(vec![]));
    let mut out = vec![];
    assert_eq!(tr.read_packet_into(&mut out), Err(Error::RemoteClosed));
    assert_eq!(tr.read_packet_into(&mut out), Err(Error::RemoteClosed));
}
