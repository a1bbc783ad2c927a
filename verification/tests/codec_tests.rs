use paxos::codec::{decode_datagram, decode_frame, decode_header};
use paxos::proposal::{AcceptedProposal, Datagram, Request, Response};
use paxos::seq_num::SequenceNumber;

fn ballot(server_id: u64, time_stamp: u128) -> SequenceNumber {
    SequenceNumber::new(server_id, time_stamp)
}

fn round_trip(d: Datagram, src: u64) {
    let frame = d.encode_with_src(src);
    let decoded = decode_frame(&frame);
    assert_eq!(decoded, Some((src, d)));
}

#[test]
fn frame_round_trip_requests() {
    round_trip(Datagram::Request(Request::Propose { value: 7 }), 0);
    round_trip(Datagram::Request(Request::Prepare { seq: ballot(1, 99) }), 1);
    round_trip(
        Datagram::Request(Request::Accept { seq: ballot(3, 12345), value: 42 }),
        3,
    );
    round_trip(Datagram::Request(Request::Learn { value: 0 }), 20);
    round_trip(Datagram::Request(Request::Query), 0);
}

#[test]
fn frame_round_trip_responses() {
    round_trip(Datagram::Response(Response::Prepare(None)), 2);
    round_trip(
        Datagram::Response(Response::Prepare(Some(AcceptedProposal::new(
            ballot(5, 777),
            11,
        )))),
        5,
    );
    round_trip(Datagram::Response(Response::Accepted { seq: ballot(2, 8) }), 2);
    round_trip(Datagram::Response(Response::Query { val: None }), 9);
    round_trip(Datagram::Response(Response::Query { val: Some(4) }), 9);
}

#[test]
fn frame_round_trip_extreme_scalars() {
    round_trip(
        Datagram::Request(Request::Prepare { seq: ballot(u64::MAX, u128::MAX) }),
        u64::MAX,
    );
    round_trip(
        Datagram::Request(Request::Accept { seq: ballot(0, 0), value: u32::MAX }),
        0,
    );
}

#[test]
fn frame_bytes_are_exact() {
    // Propose{7} from source 3: 8-byte big-endian source, 8-byte big-endian
    // payload length, then the payload: datagram tag 0, request tag 0, and
    // the value little-endian.
    let d = Datagram::Request(Request::Propose { value: 7 });
    let frame = d.encode_with_src(3);
    let expected = vec![
        0u8, 0, 0, 0, 0, 0, 0, 3, // src
        0, 0, 0, 0, 0, 0, 0, 6, // payload length
        0, 0, 7, 0, 0, 0, // payload
    ];
    assert_eq!(frame, expected);
}

#[test]
fn ballot_bytes_are_little_endian() {
    // Prepare{(time_stamp 0x0102, server 0x03)}: the ballot is 16 bytes of
    // time stamp then 8 bytes of server id, both low byte first.
    let d = Datagram::Request(Request::Prepare { seq: ballot(3, 0x0102) });
    let frame = d.encode_with_src(1);
    let payload = &frame[16..];
    assert_eq!(payload[0], 0); // datagram tag: request
    assert_eq!(payload[1], 1); // request tag: prepare
    assert_eq!(&payload[2..18], &[0x02u8, 0x01, 0, 0, 0, 0, 0, 0, 0, 0, 0, 0, 0, 0, 0, 0]);
    assert_eq!(&payload[18..26], &[3u8, 0, 0, 0, 0, 0, 0, 0]);
    assert_eq!(payload.len(), 26);
}

#[test]
fn decode_header_reads_big_endian() {
    let d = Datagram::Request(Request::Query);
    let frame = d.encode_with_src(0x0A0B);
    assert_eq!(decode_header(&frame), Some((0x0A0B, 2)));
    let short = vec![0u8; 15];
    assert_eq!(decode_header(&short), None);
}

#[test]
fn decode_rejects_short_buffers() {
    assert_eq!(decode_frame(&Vec::<u8>::new()), None);
    assert_eq!(decode_frame(&vec![0u8; 16]), None);
    assert_eq!(decode_datagram(&Vec::<u8>::new()), None);
}

#[test]
fn decode_rejects_bad_tags() {
    assert_eq!(decode_datagram(&vec![9u8, 0, 0, 0, 0, 0]), None);
    assert_eq!(decode_datagram(&vec![0u8, 9, 0, 0, 0, 0]), None);
}

#[test]
fn decode_rejects_wrong_length() {
    let d = Datagram::Request(Request::Propose { value: 7 });
    let mut frame = d.encode_with_src(3);
    // Trailing junk makes the announced length wrong.
    frame.push(0);
    assert_eq!(decode_frame(&frame), None);
    // A truncated payload as well.
    let d2 = Datagram::Request(Request::Prepare { seq: ballot(1, 1) });
    let mut frame2 = d2.encode_with_src(1);
    frame2.pop();
    assert_eq!(decode_frame(&frame2), None);
}

#[test]
fn decode_rejects_truncated_payload_with_fixed_header() {
    // The header announces the truncated length correctly, but the payload
    // itself is not a whole encoding.
    let payload = vec![0u8, 1u8, 5u8]; // request/prepare, then too few bytes
    let mut frame = vec![0u8, 0, 0, 0, 0, 0, 0, 1, 0, 0, 0, 0, 0, 0, 0, 3];
    frame.extend_from_slice(&payload);
    assert_eq!(decode_frame(&frame), None);
}
