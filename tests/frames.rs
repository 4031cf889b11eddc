use murmel::buffer::FrameBuffer;
use murmel::codec::{decode, encode, CodecError, RawMessage, MAX_PAYLOAD};

const MAGIC: u32 = 0xD9B4_BEF9;

fn frame(command: &str, payload: &[u8]) -> Vec<u8> {
    let msg = RawMessage { command: command.as_bytes().to_vec(), payload: payload.to_vec() };
    let mut b = FrameBuffer::new();
    encode(MAGIC, &msg, &mut b).unwrap();
    b.drain_to_vec()
}

fn rest_of(b: &mut FrameBuffer) -> Vec<u8> {
    let mut out = vec![0u8; 4096];
    let n = b.read(&mut out);
    out.truncate(n);
    out
}

#[test]
fn verack_envelope_is_exact() {
    let bytes = frame("verack", &[]);
    let expected: Vec<u8> = vec![
        0xF9, 0xBE, 0xB4, 0xD9, b'v', b'e', b'r', b'a', b'c', b'k', 0, 0, 0, 0, 0, 0, 0, 0, 0, 0,
        0x5D, 0xF6, 0xE0, 0xE2,
    ];
    assert_eq!(bytes, expected);
}

#[test]
fn checksum_depends_on_payload() {
    let a = frame("ping", &[7, 0, 0, 0, 0, 0, 0, 0]);
    let b = frame("ping", &[8, 0, 0, 0, 0, 0, 0, 0]);
    assert_eq!(a.len(), 32);
    assert_eq!(&a[16..20], &[8, 0, 0, 0]);
    assert_ne!(&a[20..24], &b[20..24]);
    assert_ne!(&a[20..24], &[0u8, 0, 0, 0]);
}

#[test]
fn round_trip_leaves_remainder() {
    let mut bytes = frame("ping", &[7, 0, 0, 0, 0, 0, 0, 0]);
    bytes.extend_from_slice(&[1, 2, 3]);
    let mut b = FrameBuffer::new();
    b.write(&bytes);
    let m = decode(MAGIC, &mut b).unwrap().unwrap();
    assert_eq!(m.command, b"ping".to_vec());
    assert_eq!(m.payload, vec![7, 0, 0, 0, 0, 0, 0, 0]);
    assert_eq!(rest_of(&mut b), vec![1, 2, 3]);
}

#[test]
fn fragmented_framing() {
    let bytes = frame("ping", &[7, 0, 0, 0, 0, 0, 0, 0]);
    let mut b = FrameBuffer::new();
    b.write(&bytes[0..1]);
    assert!(decode(MAGIC, &mut b).unwrap().is_none());
    b.write(&bytes[1..4]);
    assert!(decode(MAGIC, &mut b).unwrap().is_none());
    b.write(&bytes[4..]);
    let m = decode(MAGIC, &mut b).unwrap().unwrap();
    assert_eq!(m.command, b"ping".to_vec());
    assert_eq!(m.payload, vec![7, 0, 0, 0, 0, 0, 0, 0]);
    assert!(decode(MAGIC, &mut b).unwrap().is_none());
    assert_eq!(rest_of(&mut b), Vec::<u8>::new());
}

#[test]
fn every_split_decodes_once() {
    let bytes = frame("pong", &[1, 2, 3, 4, 5, 6, 7, 8]);
    for k in 0..bytes.len() {
        let mut b = FrameBuffer::new();
        b.write(&bytes[..k]);
        assert!(decode(MAGIC, &mut b).unwrap().is_none());
        b.write(&bytes[k..]);
        let m = decode(MAGIC, &mut b).unwrap().unwrap();
        assert_eq!(m.command, b"pong".to_vec());
        assert!(decode(MAGIC, &mut b).unwrap().is_none());
        assert_eq!(rest_of(&mut b), Vec::<u8>::new());
    }
}

#[test]
fn stream_of_messages_in_order() {
    let mut bytes = frame("verack", &[]);
    bytes.extend(frame("ping", &[9, 0, 0, 0, 0, 0, 0, 0]));
    bytes.extend(frame("sendheaders", &[]));
    let mut b = FrameBuffer::new();
    b.write(&bytes);
    let mut names = Vec::new();
    while let Some(m) = decode(MAGIC, &mut b).unwrap() {
        names.push(String::from_utf8(m.command).unwrap());
    }
    assert_eq!(names, vec!["verack", "ping", "sendheaders"]);
}

#[test]
fn bad_magic_is_an_error() {
    let mut bytes = frame("verack", &[]);
    bytes[0] = 0x0B;
    let mut b = FrameBuffer::new();
    b.write(&bytes);
    assert_eq!(decode(MAGIC, &mut b).err(), Some(CodecError::BadMagic));
}

#[test]
fn bad_command_is_an_error() {
    let mut bytes = frame("verack", &[]);
    bytes[11] = b'x';
    let mut b = FrameBuffer::new();
    b.write(&bytes);
    assert_eq!(decode(MAGIC, &mut b).err(), Some(CodecError::BadCommand));
}

#[test]
fn oversized_length_is_an_error() {
    let mut bytes = frame("verack", &[]);
    bytes[16] = 0xFF;
    bytes[17] = 0xFF;
    bytes[18] = 0xFF;
    bytes[19] = 0x7F;
    let mut b = FrameBuffer::new();
    b.write(&bytes);
    assert_eq!(decode(MAGIC, &mut b).err(), Some(CodecError::Oversized));
}

#[test]
fn bad_checksum_is_an_error() {
    let mut bytes = frame("ping", &[7, 0, 0, 0, 0, 0, 0, 0]);
    bytes[24] = 8;
    let mut b = FrameBuffer::new();
    b.write(&bytes);
    assert_eq!(decode(MAGIC, &mut b).err(), Some(CodecError::BadChecksum));
}

#[test]
fn encode_refuses_long_command() {
    let msg = RawMessage { command: b"thirteenchars".to_vec(), payload: vec![] };
    let mut b = FrameBuffer::new();
    assert_eq!(encode(MAGIC, &msg, &mut b), Err(CodecError::BadCommand));
    assert_eq!(b.drain_to_vec(), Vec::<u8>::new());
}

#[test]
fn large_payload_encodes_but_does_not_decode() {
    let msg = RawMessage { command: b"block".to_vec(), payload: vec![0u8; MAX_PAYLOAD + 1] };
    let mut b = FrameBuffer::new();
    assert_eq!(encode(MAGIC, &msg, &mut b), Ok(()));
    let bytes = b.drain_to_vec();
    assert_eq!(bytes.len(), 24 + MAX_PAYLOAD + 1);
    let mut d = FrameBuffer::new();
    d.write(&bytes);
    assert_eq!(decode(MAGIC, &mut d).err(), Some(CodecError::Oversized));
}

#[test]
fn malformed_payload_is_an_error() {
    let bytes = frame("ping", &[7, 0, 0]);
    let mut b = FrameBuffer::new();
    b.write(&bytes);
    assert_eq!(decode(MAGIC, &mut b).err(), Some(CodecError::BadPayload));
    let mut rest = vec![0u8; 64];
    assert_eq!(b.read(&mut rest), bytes.len());
}

#[test]
fn unknown_command_passes() {
    let bytes = frame("mystery", &[1, 2, 3]);
    let mut b = FrameBuffer::new();
    b.write(&bytes);
    let m = decode(MAGIC, &mut b).unwrap().unwrap();
    assert_eq!(m.command, b"mystery".to_vec());
}
