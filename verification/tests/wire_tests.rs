use hab_sup::crc::crc32;
use hab_sup::gossip::DigestEntry;
use hab_sup::rumor::{Rumor, RumorKind};
use hab_sup::wire::{
    decode_delta_body, decode_digest_body, decode_frame, decode_ping_body, decode_ping_req_body,
    encode_delta_body, encode_digest_body, encode_frame, encode_ping_body, encode_ping_req_body,
    Frame, FrameKind, PingBody, PingReqBody, WireError, WIRE_VERSION,
};

#[test]
fn crc32_check_value() {
    // The standard check value for CRC-32/ISO-HDLC.
    assert_eq!(crc32(b"123456789"), 0xCBF43926);
}

#[test]
fn crc32_of_empty_is_zero() {
    assert_eq!(crc32(b""), 0);
}

#[test]
fn frame_round_trip() {
    let f = Frame { kind: FrameKind::Delta, flags: 0x0102, body: b"hello ring".to_vec() };
    let wire = encode_frame(&f);
    assert_eq!(&wire[0..4], b"HBGP");
    assert_eq!(wire[4], WIRE_VERSION);
    let g = decode_frame(wire.as_slice()).expect("an encoded frame decodes");
    assert_eq!(g.kind, FrameKind::Delta);
    assert_eq!(g.flags, 0x0102);
    assert_eq!(g.body, b"hello ring".to_vec());
}

#[test]
fn empty_body_round_trip() {
    let f = Frame { kind: FrameKind::Ping, flags: 0, body: Vec::new() };
    let wire = encode_frame(&f);
    assert_eq!(wire.len(), 16);
    let g = decode_frame(wire.as_slice()).expect("an encoded frame decodes");
    assert_eq!(g.kind, FrameKind::Ping);
    assert_eq!(g.body.len(), 0);
}

#[test]
fn short_datagram_is_rejected() {
    assert_eq!(decode_frame(b"HBGP").unwrap_err(), WireError::TooShort);
}

#[test]
fn bad_magic_is_rejected() {
    let f = Frame { kind: FrameKind::Ack, flags: 0, body: b"x".to_vec() };
    let mut wire = encode_frame(&f);
    wire[0] = b'X';
    assert_eq!(decode_frame(wire.as_slice()).unwrap_err(), WireError::BadMagic);
}

#[test]
fn bad_version_is_rejected() {
    let f = Frame { kind: FrameKind::Ack, flags: 0, body: b"x".to_vec() };
    let mut wire = encode_frame(&f);
    wire[4] = 2;
    assert_eq!(decode_frame(wire.as_slice()).unwrap_err(), WireError::BadVersion);
}

#[test]
fn bad_kind_is_rejected() {
    let f = Frame { kind: FrameKind::Ack, flags: 0, body: b"x".to_vec() };
    let mut wire = encode_frame(&f);
    wire[5] = 77;
    assert_eq!(decode_frame(wire.as_slice()).unwrap_err(), WireError::BadKind);
}

#[test]
fn bad_length_is_rejected() {
    let f = Frame { kind: FrameKind::Ack, flags: 0, body: b"xyz".to_vec() };
    let mut wire = encode_frame(&f);
    wire[8] = 200;
    assert_eq!(decode_frame(wire.as_slice()).unwrap_err(), WireError::BadLength);
}

#[test]
fn ping_body_round_trip() {
    let p = PingBody { from_id: 0x0123456789ABCDEF0011223344556677, incarnation: 42 };
    let wire = encode_ping_body(&p);
    assert_eq!(wire.len(), 24);
    let q = decode_ping_body(wire.as_slice()).expect("a ping body decodes");
    assert_eq!(q, p);
    assert!(decode_ping_body(&wire[..23]).is_none());
}

#[test]
fn ping_req_body_round_trip() {
    let p = PingReqBody { from_id: 7, target_id: u128::MAX, incarnation: u64::MAX };
    let wire = encode_ping_req_body(&p);
    assert_eq!(wire.len(), 40);
    let q = decode_ping_req_body(wire.as_slice()).expect("a ping-request body decodes");
    assert_eq!(q, p);
    assert!(decode_ping_req_body(&wire[..39]).is_none());
}

#[test]
fn digest_body_round_trip() {
    let entries = vec![
        DigestEntry { kind: RumorKind::ServiceConfig, key: b"redis.default".to_vec(), incarnation: 3 },
        DigestEntry { kind: RumorKind::Election, key: b"redis.default".to_vec(), incarnation: 9 },
        DigestEntry { kind: RumorKind::GossipFile, key: b"".to_vec(), incarnation: 1 },
    ];
    let wire = encode_digest_body(&entries);
    let back = decode_digest_body(wire.as_slice()).expect("an encoded digest decodes");
    assert_eq!(back.len(), entries.len());
    for (d, e) in back.iter().zip(entries.iter()) {
        assert_eq!(d.key, e.key);
        assert_eq!(d.incarnation, e.incarnation);
    }
    // Trailing garbage is rejected whole.
    let mut longer = wire.clone();
    longer.push(0);
    assert!(decode_digest_body(longer.as_slice()).is_none());
}

#[test]
fn delta_body_round_trip() {
    let rumors = vec![
        Rumor {
            kind: RumorKind::GossipFile,
            key: b"sg/app.toml".to_vec(),
            incarnation: 2,
            body: b"port = 8080".to_vec(),
        },
        Rumor { kind: RumorKind::Membership, key: b"m1".to_vec(), incarnation: 1, body: vec![] },
    ];
    let wire = encode_delta_body(&rumors);
    let back = decode_delta_body(wire.as_slice()).expect("an encoded delta decodes");
    assert_eq!(back.len(), rumors.len());
    for (d, e) in back.iter().zip(rumors.iter()) {
        assert_eq!(d.key, e.key);
        assert_eq!(d.incarnation, e.incarnation);
        assert_eq!(d.body, e.body);
    }
    // A kind byte naming no rumor kind is rejected whole.
    let mut bad = wire.clone();
    bad[2] = 99;
    assert!(decode_delta_body(bad.as_slice()).is_none());
}

#[test]
fn corrupted_body_fails_the_checksum() {
    let f = Frame { kind: FrameKind::Digest, flags: 0, body: b"payload".to_vec() };
    let mut wire = encode_frame(&f);
    wire[12] ^= 0xFF;
    assert_eq!(decode_frame(wire.as_slice()).unwrap_err(), WireError::BadChecksum);
}
