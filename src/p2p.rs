//! The dispatcher between the network and the node: the registry of peers
//! and the decisions taken on each readiness event. The reactor that owns
//! the sockets performs the I/O and hands the results in here.
use crate::codec::{frame_bytes, frameable, parse_all, parse_frame, parse_rest, Frame, RawMessage};
use crate::error::SPVError;
use crate::message::{
    encoded_version, magic_of, network_magic, version_command, version_fields, version_message,
    NetAddress, Network, VersionInfo, NODE_NETWORK, OWN_VERSION,
};
use crate::peer::{hs_run, no_handshake_messages, views, HandShake, Peer, PeerId, ReadOutcome, Registration};
use std::collections::HashMap;
use vstd::prelude::*;

verus! {

broadcast use vstd::std_specs::hash::group_hash_axioms;

/// Relies on rand's `random`: any value of the type may come back.
pub assume_specification<T>[ rand::random::<T> ]() -> (r: T)
    where
        rand::distributions::Standard: rand::distributions::Distribution<T>,
;

/// What the node made of a message.
#[derive(Debug, Clone, Copy, PartialEq, Eq, Structural)]
pub enum ProcessResult {
    Ack,
    Ignored,
    Disconnect,
    /// The peer's chain now has this height.
    Height(u32),
}

/// The network layer: this node's identity on the network and the peers it
/// is connected to.
pub struct P2P {
    magic: u32,
    nonce: u64,
    height: u32,
    user_agent: String,
    peers: HashMap<usize, Peer>,
    next_peer_id: usize,
}

impl P2P {
    pub closed spec fn magic(&self) -> u32 {
        self.magic
    }

    pub closed spec fn nonce(&self) -> u64 {
        self.nonce
    }

    pub closed spec fn height(&self) -> u32 {
        self.height
    }

    pub closed spec fn user_agent(&self) -> Seq<char> {
        self.user_agent@
    }

    /// The peers, by the token of their id.
    pub closed spec fn peers(&self) -> Map<usize, Peer> {
        self.peers@
    }

    /// The id the next peer will get.
    pub closed spec fn next_id(&self) -> usize {
        self.next_peer_id
    }

    pub closed spec fn wf(&self) -> bool {
        forall|t: usize|
            #[trigger] self.peers@.contains_key(t) ==> t < self.next_peer_id && self.peers@[t].wf()
                && self.peers@[t].id() == (PeerId { token: t })
    }

    /// A dispatcher with a given session nonce and network magic.
    pub fn with_nonce(user_agent: String, magic: u32, height: u32, nonce: u64) -> (r: P2P)
        ensures
            r.wf(),
            r.magic() == magic,
            r.nonce() == nonce,
            r.height() == height,
            r.user_agent() == user_agent@,
            r.peers() == Map::<usize, Peer>::empty(),
            r.next_id() == 0,
    {
        P2P { magic, nonce, height, user_agent, peers: HashMap::new(), next_peer_id: 0 }
    }

    /// A dispatcher for `network`, with a random session nonce.
    pub fn new(user_agent: String, network: Network, height: u32) -> (r: P2P)
        ensures
            r.wf(),
            r.magic() == network_magic(network),
            r.height() == height,
            r.user_agent() == user_agent@,
            r.peers() == Map::<usize, Peer>::empty(),
            r.next_id() == 0,
    {
        let nonce: u64 = rand::random::<u64>();
        P2P::with_nonce(user_agent, magic_of(network), height, nonce)
    }

    /// The magic of the network this dispatcher speaks on.
    pub fn magic_number(&self) -> (r: u32)
        ensures
            r == self.magic(),
    {
        self.magic
    }

    /// The version record this node announces to `remote` at `timestamp`.
    pub open spec fn own_version(&self, timestamp: i64) -> (u32, u64, i64, u64, Seq<char>, i32, bool) {
        (OWN_VERSION, 0u64, timestamp, self.nonce(), self.user_agent(), self.height() as i32, false)
    }

    /// This node's `version` message to `remote`, sent at `timestamp` (unix
    /// seconds).
    pub fn version(&self, remote: &NetAddress, timestamp: i64) -> (r: RawMessage)
        ensures
            r@ == (version_command(), encoded_version(self.own_version(timestamp), remote.address@, remote.port, NODE_NETWORK)),
    {
        let v = VersionInfo {
            version: OWN_VERSION,
            services: 0,
            timestamp,
            nonce: self.nonce,
            user_agent: self.user_agent.clone(),
            start_height: self.height as i32,
            relay: false,
        };
        version_message(&v, remote)
    }
}

impl P2P {
    /// Registers a new peer for the remote at `remote` under a fresh id and
    /// queues this node's `version` message (stamped `timestamp`) to it,
    /// which leaves the peer registered for writing. Fails when ids are
    /// exhausted or the message does not fit an envelope.
    pub fn add_peer(&mut self, remote: &NetAddress, timestamp: i64) -> (r: Result<PeerId, SPVError>)
        requires
            old(self).wf(),
        ensures
            final(self).wf(),
            final(self).magic() == old(self).magic(),
            final(self).nonce() == old(self).nonce(),
            final(self).height() == old(self).height(),
            final(self).user_agent() == old(self).user_agent(),
            r.is_ok() <==> old(self).next_id() < usize::MAX && frameable(
                (
                    version_command(),
                    encoded_version(old(self).own_version(timestamp), remote.address@, remote.port, NODE_NETWORK),
                ),
            ),
            r.is_err() ==> final(self).peers() == old(self).peers() && final(self).next_id() == old(self).next_id(),
            r matches Ok(pid) ==> {
                let p = final(self).peers()[pid.token];
                &&& pid.token == old(self).next_id()
                &&& final(self).next_id() == old(self).next_id() + 1
                &&& !old(self).peers().contains_key(pid.token)
                &&& final(self).peers() == old(self).peers().insert(pid.token, p)
                &&& p.id() == pid
                &&& p.local_nonce() == old(self).nonce()
                &&& p.remote_version().is_none()
                &&& !p.got_verack()
                &&& p.inbound().unread().len() == 0
                &&& p.outbound() == seq![
                    (
                        version_command(),
                        encoded_version(old(self).own_version(timestamp), remote.address@, remote.port, NODE_NETWORK),
                    ),
                ]
                &&& p.registered_for_write()
            },
    {
        if self.next_peer_id == usize::MAX {
            return Err(SPVError::Generic("peer ids exhausted".to_owned()));
        }
        let pid = PeerId { token: self.next_peer_id };
        let mut peer = Peer::new(pid, self.nonce);
        let msg = self.version(remote, timestamp);
        match peer.send(msg) {
            Err(_) => {
                return Err(SPVError::Generic("can not send to peer queue".to_owned()));
            },
            Ok(()) => {},
        }
        proof {
            assert(peer.outbound() =~= seq![msg@]);
        }
        self.next_peer_id = self.next_peer_id + 1;
        self.peers.insert(pid.token, peer);
        Ok(pid)
    }

    /// Removes a peer. Returns whether it was registered, that is whether
    /// the node is to be told of the disconnection.
    pub fn disconnect(&mut self, pid: PeerId) -> (r: bool)
        requires
            old(self).wf(),
        ensures
            final(self).wf(),
            r == old(self).peers().contains_key(pid.token),
            final(self).peers() == old(self).peers().remove(pid.token),
            final(self).next_id() == old(self).next_id(),
            final(self).magic() == old(self).magic(),
            final(self).nonce() == old(self).nonce(),
    {
        let removed = self.peers.remove(&pid.token);
        removed.is_some()
    }

    /// The readiness a peer is registered for, if it is registered.
    pub fn registration_of(&self, pid: PeerId) -> (r: Option<Registration>)
        requires
            self.wf(),
        ensures
            r.is_some() == self.peers().contains_key(pid.token),
            r matches Some(g) ==> g == self.peers()[pid.token].registration(),
    {
        match self.peers.get(&pid.token) {
            Some(p) => Some(p.registration_now()),
            None => None,
        }
    }

    /// Queues `msg` for a registered peer.
    pub fn send(&mut self, pid: PeerId, msg: RawMessage) -> (r: Result<(), SPVError>)
        requires
            old(self).wf(),
        ensures
            final(self).wf(),
            final(self).next_id() == old(self).next_id(),
            final(self).magic() == old(self).magic(),
            r.is_ok() <==> old(self).peers().contains_key(pid.token) && frameable(msg@),
            !old(self).peers().contains_key(pid.token) ==> r matches Err(SPVError::UnknownPeer(_)),
            r.is_err() ==> final(self).peers() == old(self).peers(),
            r.is_ok() ==> {
                let p = final(self).peers()[pid.token];
                let q = old(self).peers()[pid.token];
                &&& final(self).peers() == old(self).peers().insert(pid.token, p)
                &&& p.outbound() == q.outbound().push(msg@)
                &&& p.registered_for_write()
                &&& p.remote_version() == q.remote_version()
                &&& p.got_verack() == q.got_verack()
            },
    {
        let mut peer = match self.peers.remove(&pid.token) {
            Some(p) => p,
            None => {
                return Err(SPVError::UnknownPeer(pid.token.to_string()));
            },
        };
        let ghost before = self.peers@;
        let ok = peer.send(msg);
        let ghost p = peer;
        self.peers.insert(pid.token, peer);
        proof {
            if ok.is_err() {
                assert(self.peers@ =~= old(self).peers@);
            } else {
                assert(self.peers@ =~= old(self).peers@.insert(pid.token, p));
            }
        }
        match ok {
            Ok(()) => Ok(()),
            Err(_) => Err(SPVError::Generic("can not send to peer queue".to_owned())),
        }
    }
}

impl P2P {
    /// A writable event for `pid`: the envelopes of every message queued
    /// for the peer, oldest first, to be written to its socket; the peer is
    /// registered for reading again. Nothing for an unknown peer.
    pub fn on_writable(&mut self, pid: PeerId) -> (r: Option<Vec<Vec<u8>>>)
        requires
            old(self).wf(),
        ensures
            final(self).wf(),
            final(self).next_id() == old(self).next_id(),
            final(self).magic() == old(self).magic(),
            final(self).nonce() == old(self).nonce(),
            r.is_some() == old(self).peers().contains_key(pid.token),
            r.is_none() ==> final(self).peers() == old(self).peers(),
            r matches Some(blobs) ==> {
                let p = final(self).peers()[pid.token];
                let q = old(self).peers()[pid.token];
                &&& final(self).peers() == old(self).peers().insert(pid.token, p)
                &&& blobs@.len() == q.outbound().len()
                &&& forall|i: int|
                    0 <= i < blobs@.len() ==> #[trigger] blobs@[i]@ == frame_bytes(
                        old(self).magic(),
                        q.outbound()[i].0,
                        q.outbound()[i].1,
                    )
                &&& p.outbound().len() == 0
                &&& p.registered_for_read()
                &&& p.remote_version() == q.remote_version()
                &&& p.got_verack() == q.got_verack()
                &&& p.inbound() == q.inbound()
            },
    {
        let mut peer = match self.peers.remove(&pid.token) {
            Some(p) => p,
            None => {
                return None;
            },
        };
        let blobs = peer.drain_outbound(self.magic);
        let ghost p = peer;
        self.peers.insert(pid.token, peer);
        proof {
            assert(self.peers@ =~= old(self).peers@.insert(pid.token, p));
        }
        Some(blobs)
    }

    /// A readable event for `pid` with the bytes read from its socket.
    /// Whole messages are decoded and taken through the handshake; a peer
    /// that misbehaves or sends bytes that are no message is removed, and
    /// the outcome says so. Nothing for an unknown peer.
    pub fn on_readable(&mut self, pid: PeerId, bytes: &[u8]) -> (r: Option<ReadOutcome>)
        requires
            old(self).wf(),
        ensures
            final(self).wf(),
            final(self).next_id() == old(self).next_id(),
            final(self).magic() == old(self).magic(),
            final(self).nonce() == old(self).nonce(),
            r.is_some() == old(self).peers().contains_key(pid.token),
            r.is_none() ==> final(self).peers() == old(self).peers(),
            r matches Some(out) ==> {
                let q = old(self).peers()[pid.token];
                let s = q.inbound().unread() + bytes@;
                let o = hs_run(q.hs_state(), q.local_nonce(), parse_all(old(self).magic(), s), false, Seq::empty());
                &&& out.handshake == o.2
                &&& views(out.incoming@) == o.3
                &&& out.disconnect == (o.1 || parse_frame(old(self).magic(), parse_rest(old(self).magic(), s)) is Invalid)
                &&& out.disconnect ==> final(self).peers() == old(self).peers().remove(pid.token)
                &&& !out.disconnect ==> {
                    let p = final(self).peers()[pid.token];
                    &&& final(self).peers() == old(self).peers().insert(pid.token, p)
                    &&& p.hs_state() == o.0
                    &&& p.inbound().unread() == parse_rest(old(self).magic(), s)
                    &&& parse_frame(old(self).magic(), p.inbound().unread()) == Frame::Incomplete
                }
                &&& q.handshake_done() && no_handshake_messages(parse_all(old(self).magic(), s)) ==> {
                    &&& views(out.incoming@) == parse_all(old(self).magic(), s)
                    &&& !out.handshake
                    &&& out.disconnect == (parse_frame(old(self).magic(), parse_rest(old(self).magic(), s)) is Invalid)
                }
            },
    {
        let mut peer = match self.peers.remove(&pid.token) {
            Some(p) => p,
            None => {
                return None;
            },
        };
        let out = peer.receive_bytes(self.magic, bytes);
        if out.disconnect {
            proof {
                assert(self.peers@ =~= old(self).peers@.remove(pid.token));
            }
            return Some(out);
        }
        let ghost p = peer;
        self.peers.insert(pid.token, peer);
        proof {
            assert(self.peers@ =~= old(self).peers@.insert(pid.token, p));
        }
        Some(out)
    }

    /// Acts on what the node made of a message from `pid`: a request to
    /// disconnect removes the peer, a new height is recorded in its version
    /// record. Returns whether the peer was removed now, that is whether the
    /// node is to be told of the disconnection.
    pub fn on_process_result(&mut self, pid: PeerId, result: ProcessResult) -> (r: bool)
        requires
            old(self).wf(),
        ensures
            final(self).wf(),
            final(self).next_id() == old(self).next_id(),
            final(self).magic() == old(self).magic(),
            result == ProcessResult::Disconnect ==> r == old(self).peers().contains_key(pid.token)
                && final(self).peers() == old(self).peers().remove(pid.token),
            result != ProcessResult::Disconnect ==> !r,
            (result == ProcessResult::Ack || result == ProcessResult::Ignored) ==> final(self).peers()
                == old(self).peers(),
            result matches ProcessResult::Height(h) ==> {
                &&& final(self).peers().dom() == old(self).peers().dom()
                &&& old(self).peers().contains_key(pid.token) ==> {
                    let p = final(self).peers()[pid.token];
                    let q = old(self).peers()[pid.token];
                    &&& final(self).peers() == old(self).peers().insert(pid.token, p)
                    &&& q.remote_version() matches Some(v) ==> p.remote_version() == Some(
                        VersionInfo { start_height: h as i32, ..v },
                    )
                    &&& q.remote_version().is_none() ==> p == q
                    &&& p.got_verack() == q.got_verack()
                    &&& p.outbound() == q.outbound()
                }
                &&& !old(self).peers().contains_key(pid.token) ==> final(self).peers() == old(self).peers()
            },
    {
        match result {
            ProcessResult::Ack | ProcessResult::Ignored => false,
            ProcessResult::Disconnect => self.disconnect(pid),
            ProcessResult::Height(h) => {
                let mut peer = match self.peers.remove(&pid.token) {
                    Some(p) => p,
                    None => {
                        return false;
                    },
                };
                peer.set_start_height(h as i32);
                let ghost p = peer;
                self.peers.insert(pid.token, peer);
                proof {
                    assert(self.peers@ =~= old(self).peers@.insert(pid.token, p));
                    assert(self.peers@.dom() =~= old(self).peers@.dom());
                }
                false
            },
        }
    }
}

/// Disconnecting a peer twice tells the node once: the second removal
/// finds nothing registered under the id.
pub proof fn lemma_disconnect_once(peers: Map<usize, Peer>, pid: PeerId)
    ensures
        !peers.remove(pid.token).contains_key(pid.token),
        peers.remove(pid.token).remove(pid.token) == peers.remove(pid.token),
{
    assert(peers.remove(pid.token).remove(pid.token) =~= peers.remove(pid.token));
}

} // verus!
