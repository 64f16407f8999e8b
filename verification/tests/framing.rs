use factorio_exporter::packet::{
    decode_payload, encode_packet, Packet, RecvBuffer, TYPE_AUTH, TYPE_EXEC_COMMAND,
};

#[test]
fn encode_exact_bytes() {
    let p = Packet { id: 1, ptype: TYPE_AUTH, body: b"pw".to_vec() };
    let frame = encode_packet(&p);
    assert_eq!(
        frame,
        vec![12, 0, 0, 0, 1, 0, 0, 0, 3, 0, 0, 0, b'p', b'w', 0, 0]
    );
}

#[test]
fn encode_empty_body() {
    let p = Packet { id: 7, ptype: TYPE_EXEC_COMMAND, body: Vec::new() };
    let frame = encode_packet(&p);
    assert_eq!(frame, vec![10, 0, 0, 0, 7, 0, 0, 0, 2, 0, 0, 0, 0, 0]);
}

#[test]
fn encode_little_endian_id() {
    let p = Packet { id: 0x01020304, ptype: 0, body: Vec::new() };
    let frame = encode_packet(&p);
    assert_eq!(&frame[4..8], &[0x04, 0x03, 0x02, 0x01]);
}

#[test]
fn round_trip_through_buffer() {
    let p = Packet { id: 3, ptype: TYPE_EXEC_COMMAND, body: b"/players o".to_vec() };
    let frame = encode_packet(&p);
    let mut buf = RecvBuffer::new();
    buf.push_bytes(&frame);
    let payload = buf.take_frame().expect("whole frame buffered");
    let q = decode_payload(&payload).expect("payload decodes");
    assert_eq!(q.id, 3);
    assert_eq!(q.ptype, TYPE_EXEC_COMMAND);
    assert_eq!(q.body, b"/players o".to_vec());
}

#[test]
fn partial_reads_are_buffered() {
    let p = Packet { id: 9, ptype: 0, body: b"Online players (2): a,b".to_vec() };
    let frame = encode_packet(&p);
    let mut buf = RecvBuffer::new();
    buf.push_bytes(&frame[..5]);
    assert!(buf.take_frame().is_none());
    buf.push_bytes(&frame[5..frame.len() - 1]);
    assert!(buf.take_frame().is_none());
    buf.push_bytes(&frame[frame.len() - 1..]);
    let payload = buf.take_frame().expect("now complete");
    let q = decode_payload(&payload).expect("payload decodes");
    assert_eq!(q.id, 9);
    assert_eq!(q.body, b"Online players (2): a,b".to_vec());
}

#[test]
fn buffer_keeps_bytes_after_frame() {
    let p = Packet { id: 1, ptype: 0, body: b"x".to_vec() };
    let mut frame = encode_packet(&p);
    frame.push(10);
    let mut buf = RecvBuffer::new();
    buf.push_bytes(&frame);
    assert!(buf.take_frame().is_some());
    assert!(buf.take_frame().is_none());
    let p2 = Packet { id: 2, ptype: 0, body: Vec::new() };
    let mut rest = encode_packet(&p2);
    rest.remove(0);
    buf.push_bytes(&rest);
    let payload = buf.take_frame().expect("second frame complete");
    let q = decode_payload(&payload).expect("payload decodes");
    assert_eq!(q.id, 2);
}

#[test]
fn empty_buffer_has_no_frame() {
    let mut buf = RecvBuffer::new();
    assert!(buf.take_frame().is_none());
}

#[test]
fn decode_rejects_short_payload() {
    assert!(decode_payload(&[1, 0, 0, 0, 2, 0, 0, 0, 0]).is_none());
}

#[test]
fn decode_rejects_bad_terminator() {
    assert!(decode_payload(&[1, 0, 0, 0, 2, 0, 0, 0, b'a', 0, 1]).is_none());
}

#[test]
fn decode_rejects_embedded_nul() {
    assert!(decode_payload(&[1, 0, 0, 0, 2, 0, 0, 0, b'a', 0, b'b', 0, 0]).is_none());
}

#[test]
fn decode_minimal_payload() {
    let q = decode_payload(&[5, 0, 0, 0, 2, 0, 0, 0, 0, 0]).expect("well-formed");
    assert_eq!(q.id, 5);
    assert_eq!(q.ptype, 2);
    assert!(q.body.is_empty());
}
