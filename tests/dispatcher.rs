use murmel::buffer::FrameBuffer;
use murmel::codec::{decode, encode, RawMessage};
use murmel::error::SPVError;
use murmel::message::{version_message, verack, NetAddress, Network, VersionInfo};
use murmel::p2p::{ProcessResult, P2P};
use murmel::peer::{HandShake, Peer, PeerId, Registration};

const MAGIC: u32 = 0xD9B4_BEF9;

fn addr() -> NetAddress {
    NetAddress { address: [0, 0, 0, 0, 0, 0xFFFF, 0x7F00, 0x0001], port: 8333 }
}

fn remote_version(version: u32, services: u64, nonce: u64) -> RawMessage {
    let v = VersionInfo {
        version,
        services,
        timestamp: 1_500_000_000,
        nonce,
        user_agent: "/x/".to_string(),
        start_height: 100,
        relay: false,
    };
    version_message(&v, &addr())
}

fn wire(msg: &RawMessage) -> Vec<u8> {
    let mut b = FrameBuffer::new();
    encode(MAGIC, msg, &mut b).unwrap();
    b.drain_to_vec()
}

fn ping(n: u8) -> RawMessage {
    RawMessage { command: b"ping".to_vec(), payload: vec![n, 0, 0, 0, 0, 0, 0, 0] }
}

fn connected(nonce: u64) -> (P2P, PeerId) {
    let mut p2p = P2P::with_nonce("/murmel/".to_string(), MAGIC, 0, nonce);
    let pid = p2p.add_peer(&addr(), 0).unwrap();
    let sent = p2p.on_writable(pid).unwrap();
    assert_eq!(sent.len(), 1);
    (p2p, pid)
}

fn decode_one(bytes: &[u8]) -> RawMessage {
    let mut b = FrameBuffer::new();
    b.write(bytes);
    decode(MAGIC, &mut b).unwrap().unwrap()
}

#[test]
fn happy_handshake() {
    let (mut p2p, pid) = connected(0xA1);
    let out = p2p.on_readable(pid, &wire(&remote_version(70015, 9, 0xB2))).unwrap();
    assert!(!out.disconnect && !out.handshake && out.incoming.is_empty());
    assert_eq!(p2p.registration_of(pid), Some(Registration::Write));
    let sent = p2p.on_writable(pid).unwrap();
    assert_eq!(sent.len(), 1);
    assert_eq!(decode_one(&sent[0]).command, b"verack".to_vec());
    let out = p2p.on_readable(pid, &wire(&verack())).unwrap();
    assert!(!out.disconnect);
    assert!(out.handshake);
    let out = p2p.on_readable(pid, &wire(&ping(1))).unwrap();
    assert!(!out.handshake);
    assert_eq!(out.incoming.len(), 1);
}

#[test]
fn remote_version_is_recorded() {
    let mut peer = Peer::new(PeerId { token: 3 }, 0xA1);
    assert_eq!(peer.process_handshake(&remote_version(70015, 9, 0xB2)), HandShake::InProgress);
    let v = peer.version.as_ref().unwrap();
    assert_eq!(v.version, 70015);
    assert_eq!(v.services, 9);
    assert_eq!(v.nonce, 0xB2);
    assert_eq!(v.user_agent, "/x/");
    assert_eq!(v.start_height, 100);
    assert_eq!(peer.process_handshake(&verack()), HandShake::Handshake);
    assert_eq!(peer.process_handshake(&ping(2)), HandShake::Process);
}

#[test]
fn self_connection_rejected() {
    let (mut p2p, pid) = connected(0x42);
    let out = p2p.on_readable(pid, &wire(&remote_version(70015, 9, 0x42))).unwrap();
    assert!(out.disconnect);
    assert!(!out.handshake);
    assert_eq!(p2p.registration_of(pid), None);
    assert!(!p2p.disconnect(pid));
}

#[test]
fn pre_segwit_peer_dropped_before_verack() {
    let mut peer = Peer::new(PeerId { token: 0 }, 0xA1);
    assert_eq!(peer.process_handshake(&remote_version(70015, 1, 0xB2)), HandShake::Disconnect);
    assert!(peer.try_receive().is_none());
    assert_eq!(peer.registration_now(), Registration::Read);
    let (mut p2p, pid) = connected(0xA1);
    let out = p2p.on_readable(pid, &wire(&remote_version(70015, 1, 0xB2))).unwrap();
    assert!(out.disconnect);
}

#[test]
fn old_protocol_peer_dropped() {
    let (mut p2p, pid) = connected(0xA1);
    let out = p2p.on_readable(pid, &wire(&remote_version(70012, 9, 0xB2))).unwrap();
    assert!(out.disconnect);
    assert!(p2p.on_writable(pid).is_none());
}

#[test]
fn duplicate_verack_dropped() {
    let (mut p2p, pid) = connected(0xA1);
    let mut bytes = wire(&remote_version(70015, 9, 0xB2));
    bytes.extend(wire(&verack()));
    let out = p2p.on_readable(pid, &bytes).unwrap();
    assert!(out.handshake && !out.disconnect);
    let out = p2p.on_readable(pid, &wire(&verack())).unwrap();
    assert!(out.disconnect);
    assert!(!out.handshake);
}

#[test]
fn duplicate_version_dropped() {
    let mut peer = Peer::new(PeerId { token: 0 }, 0xA1);
    assert_eq!(peer.process_handshake(&remote_version(70015, 9, 0xB2)), HandShake::InProgress);
    assert_eq!(peer.process_handshake(&remote_version(70015, 9, 0xB2)), HandShake::Disconnect);
}

#[test]
fn other_message_before_handshake_dropped() {
    let mut peer = Peer::new(PeerId { token: 0 }, 0xA1);
    assert_eq!(peer.process_handshake(&ping(1)), HandShake::Disconnect);
}

#[test]
fn malformed_version_payload_dropped() {
    let mut peer = Peer::new(PeerId { token: 0 }, 0xA1);
    let bad = RawMessage { command: b"version".to_vec(), payload: vec![1, 2, 3] };
    assert_eq!(peer.process_handshake(&bad), HandShake::Disconnect);
}

#[test]
fn verack_first_then_version_completes() {
    let mut peer = Peer::new(PeerId { token: 0 }, 0xA1);
    assert_eq!(peer.process_handshake(&verack()), HandShake::InProgress);
    assert_eq!(peer.process_handshake(&remote_version(70013, 13, 0xB2)), HandShake::Handshake);
}

#[test]
fn backpressure_toggle() {
    let mut peer = Peer::new(PeerId { token: 1 }, 0xA1);
    assert_eq!(peer.registration_now(), Registration::Read);
    peer.send(ping(1)).unwrap();
    peer.send(ping(2)).unwrap();
    assert_eq!(peer.registration_now(), Registration::Write);
    let blobs = peer.drain_outbound(MAGIC);
    assert_eq!(blobs.len(), 2);
    assert_eq!(decode_one(&blobs[0]).payload[0], 1);
    assert_eq!(decode_one(&blobs[1]).payload[0], 2);
    assert_eq!(peer.registration_now(), Registration::Read);
    assert!(peer.try_receive().is_none());
}

#[test]
fn send_refuses_unframeable() {
    let mut peer = Peer::new(PeerId { token: 1 }, 0xA1);
    let bad = RawMessage { command: b"much_too_long_name".to_vec(), payload: vec![] };
    assert!(peer.send(bad).is_err());
    assert_eq!(peer.registration_now(), Registration::Read);
}

#[test]
fn disconnect_notifies_once() {
    let (mut p2p, pid) = connected(0xA1);
    assert!(p2p.disconnect(pid));
    assert!(!p2p.disconnect(pid));
    assert!(!p2p.on_process_result(pid, ProcessResult::Disconnect));
}

#[test]
fn node_disconnect_removes_peer() {
    let (mut p2p, pid) = connected(0xA1);
    assert!(p2p.on_process_result(pid, ProcessResult::Disconnect));
    assert_eq!(p2p.registration_of(pid), None);
}

#[test]
fn height_is_recorded() {
    let (mut p2p, pid) = connected(0xA1);
    let mut bytes = wire(&remote_version(70015, 9, 0xB2));
    bytes.extend(wire(&verack()));
    p2p.on_readable(pid, &bytes).unwrap();
    assert!(!p2p.on_process_result(pid, ProcessResult::Height(250)));
    assert!(!p2p.on_process_result(pid, ProcessResult::Ack));
    assert_eq!(p2p.registration_of(pid), Some(Registration::Write));
}

#[test]
fn peer_ids_are_fresh() {
    let mut p2p = P2P::with_nonce("/murmel/".to_string(), MAGIC, 0, 1);
    let a = p2p.add_peer(&addr(), 0).unwrap();
    let b = p2p.add_peer(&addr(), 0).unwrap();
    assert_eq!(a.token, 0);
    assert_eq!(b.token, 1);
    p2p.disconnect(a);
    let c = p2p.add_peer(&addr(), 0).unwrap();
    assert_eq!(c.token, 2);
}

#[test]
fn own_version_carries_nonce_and_height() {
    let p2p = P2P::with_nonce("/murmel/".to_string(), MAGIC, 777, 0xA1);
    let msg = p2p.version(&addr(), 1234);
    assert_eq!(msg.command, b"version".to_vec());
    let mut peer = Peer::new(PeerId { token: 0 }, 0);
    peer.process_handshake(&msg);
    assert!(peer.version.is_none());
    let mut payload = msg.payload.clone();
    payload[0] = 0x7D;
    payload[1] = 0x11;
    payload[2] = 0x01;
    payload[4] = 9;
    let patched = RawMessage { command: msg.command.clone(), payload };
    assert_eq!(peer.process_handshake(&patched), HandShake::InProgress);
    let v = peer.version.as_ref().unwrap();
    assert_eq!(v.nonce, 0xA1);
    assert_eq!(v.start_height, 777);
    assert_eq!(v.timestamp, 1234);
    assert_eq!(v.user_agent, "/murmel/");
    assert!(!v.relay);
}

#[test]
fn mainnet_magic() {
    let p2p = P2P::new("/murmel/".to_string(), Network::Bitcoin, 0);
    assert_eq!(p2p.magic_number(), 0xD9B4_BEF9);
    let t = P2P::new("/murmel/".to_string(), Network::Testnet, 0);
    assert_eq!(t.magic_number(), 0x0709_110B);
}

#[test]
fn unknown_peer_send_fails() {
    let mut p2p = P2P::with_nonce("/murmel/".to_string(), MAGIC, 0, 1);
    match p2p.send(PeerId { token: 5 }, ping(1)) {
        Err(SPVError::UnknownPeer(_)) => {}
        _ => panic!("expected an unknown peer"),
    }
}

#[test]
fn error_description() {
    assert_eq!(SPVError::Generic("boom".to_string()).description(), "boom");
    assert_eq!(SPVError::UnknownPeer("1.2.3.4:8333".to_string()).description(), "unknown peer");
    assert_eq!(SPVError::Misbehaving(10, "bad".to_string(), "x".to_string()).description(), "bad");
    let e: SPVError = std::io::Error::new(std::io::ErrorKind::Other, "io down").into();
    assert_eq!(e.description(), "io down");
}

#[test]
fn messages_reach_node_in_wire_order() {
    let (mut p2p, pid) = connected(0xA1);
    let mut bytes = wire(&remote_version(70015, 9, 0xB2));
    bytes.extend(wire(&verack()));
    p2p.on_readable(pid, &bytes).unwrap();
    let mut stream = wire(&ping(1));
    stream.extend(wire(&ping(2)));
    stream.extend(wire(&ping(3)));
    let first = p2p.on_readable(pid, &stream[..40]).unwrap();
    let second = p2p.on_readable(pid, &stream[40..]).unwrap();
    assert!(!first.disconnect && !second.disconnect);
    let got: Vec<u8> = first.incoming.iter().chain(second.incoming.iter()).map(|m| m.payload[0]).collect();
    assert_eq!(got, vec![1, 2, 3]);
}

#[test]
fn garbage_after_handshake_drops_peer() {
    let (mut p2p, pid) = connected(0xA1);
    let mut bytes = wire(&remote_version(70015, 9, 0xB2));
    bytes.extend(wire(&verack()));
    p2p.on_readable(pid, &bytes).unwrap();
    let mut stream = wire(&ping(1));
    stream.extend(vec![0u8; 24]);
    let out = p2p.on_readable(pid, &stream).unwrap();
    assert!(out.disconnect);
    assert_eq!(out.incoming.len(), 1);
    assert_eq!(p2p.registration_of(pid), None);
}

#[test]
fn garbage_before_handshake_drops_peer() {
    let (mut p2p, pid) = connected(0xA1);
    let out = p2p.on_readable(pid, &[0u8; 30]).unwrap();
    assert!(out.disconnect);
    assert!(!out.handshake);
    assert_eq!(p2p.registration_of(pid), None);
}

#[test]
fn io_error_from_library_error() {
    let e: std::io::Error = SPVError::Generic("lost".to_string()).into();
    assert_eq!(e.kind(), std::io::ErrorKind::Other);
    assert_eq!(e.to_string(), "lost");
}
