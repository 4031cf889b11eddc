//! One connected remote: its inbound bytes, its outbound mailbox, the
//! version handshake and whether the reactor watches it for reading or for
//! writing.
use crate::buffer::FrameBuffer;
use crate::codec::{
    check_frame, decode, encode, frame_bytes, frameable, parse_all, parse_frame, parse_rest,
    CodecError, Frame, RawMessage, HEADER_SIZE,
};
use crate::message::{
    decoded_version, parse_version, same_bytes, verack, verack_command, version_command,
    VersionInfo, MIN_PEER_VERSION, REQUIRED_SERVICES,
};
use std::collections::VecDeque;
use vstd::prelude::*;

verus! {

/// A peer's id, unique in the process and never reused; also the token the
/// peer's socket is registered under.
#[derive(Debug, Clone, Copy, PartialEq, Eq, Hash, Structural)]
pub struct PeerId {
    pub token: usize,
}

/// The readiness a peer's socket is registered for: reading when nothing
/// waits to be sent, writing otherwise.
#[derive(Debug, Clone, Copy, PartialEq, Eq, Structural)]
pub enum Registration {
    Read,
    Write,
}

/// How a message received during (or after) the handshake is to be handled.
#[derive(Debug, Clone, Copy, PartialEq, Eq, Structural)]
pub enum HandShake {
    /// The peer misbehaved and is to be dropped.
    Disconnect,
    /// The handshake goes on.
    InProgress,
    /// The handshake has just completed.
    Handshake,
    /// The handshake was done before: the message is for the node.
    Process,
}

/// Whether a remote's version record is one this node talks to: not our
/// own nonce, full chain and witness services, and a recent protocol.
pub open spec fn acceptable(v: VersionInfo, local_nonce: u64) -> bool {
    &&& v.nonce != local_nonce
    &&& v.services & REQUIRED_SERVICES == REQUIRED_SERVICES
    &&& v.version >= MIN_PEER_VERSION
}

/// A command that belongs to the handshake.
pub open spec fn handshake_command(c: Seq<u8>) -> bool {
    c == version_command() || c == verack_command()
}

/// A stream whose messages hold no handshake command.
pub open spec fn no_handshake_messages(ms: Seq<(Seq<u8>, Seq<u8>)>) -> bool {
    forall|i: int| 0 <= i < ms.len() ==> !handshake_command(#[trigger] ms[i].0)
}

/// One message through the handshake, on the state (remote version,
/// verack seen, mailbox, registration) of a peer whose nonce is `nonce`:
/// the next state and how the message is handled.
pub open spec fn hs_step(
    st: (Option<VersionInfo>, bool, Seq<(Seq<u8>, Seq<u8>)>, Registration),
    nonce: u64,
    m: (Seq<u8>, Seq<u8>),
) -> ((Option<VersionInfo>, bool, Seq<(Seq<u8>, Seq<u8>)>, Registration), HandShake) {
    let (ver, ack, out, reg) = st;
    if ver.is_some() && ack {
        if handshake_command(m.0) {
            (st, HandShake::Disconnect)
        } else {
            (st, HandShake::Process)
        }
    } else if m.0 == version_command() {
        let v = decoded_version(m.1);
        if ver.is_some() || v.is_none() || !acceptable(v.unwrap(), nonce) {
            (st, HandShake::Disconnect)
        } else {
            (
                (v, ack, out.push((verack_command(), Seq::empty())), Registration::Write),
                if ack {
                    HandShake::Handshake
                } else {
                    HandShake::InProgress
                },
            )
        }
    } else if m.0 == verack_command() {
        if ack {
            (st, HandShake::Disconnect)
        } else {
            (
                (ver, true, out, reg),
                if ver.is_some() {
                    HandShake::Handshake
                } else {
                    HandShake::InProgress
                },
            )
        }
    } else {
        (st, HandShake::Disconnect)
    }
}

/// The messages `ms` through the handshake one after the other, stopping
/// at the first that drops the peer: the last state, whether the peer was
/// dropped, whether the handshake completed, and the messages for the node
/// (after the ones in `incoming`).
pub open spec fn hs_run(
    st: (Option<VersionInfo>, bool, Seq<(Seq<u8>, Seq<u8>)>, Registration),
    nonce: u64,
    ms: Seq<(Seq<u8>, Seq<u8>)>,
    handshake: bool,
    incoming: Seq<(Seq<u8>, Seq<u8>)>,
) -> ((Option<VersionInfo>, bool, Seq<(Seq<u8>, Seq<u8>)>, Registration), bool, bool, Seq<(Seq<u8>, Seq<u8>)>)
    decreases ms.len(),
{
    if ms.len() == 0 {
        (st, false, handshake, incoming)
    } else {
        let (st1, r) = hs_step(st, nonce, ms[0]);
        if r == HandShake::Disconnect {
            (st, true, handshake, incoming)
        } else {
            hs_run(
                st1,
                nonce,
                ms.drop_first(),
                handshake || r == HandShake::Handshake,
                if r == HandShake::Process {
                    incoming.push(ms[0])
                } else {
                    incoming
                },
            )
        }
    }
}

/// After the handshake, messages that are not part of it all go to the
/// node and leave the state as it is.
pub proof fn lemma_run_after_handshake(
    st: (Option<VersionInfo>, bool, Seq<(Seq<u8>, Seq<u8>)>, Registration),
    nonce: u64,
    ms: Seq<(Seq<u8>, Seq<u8>)>,
    handshake: bool,
    incoming: Seq<(Seq<u8>, Seq<u8>)>,
)
    requires
        st.0.is_some() && st.1,
        no_handshake_messages(ms),
    ensures
        hs_run(st, nonce, ms, handshake, incoming) == (st, false, handshake, incoming + ms),
    decreases ms.len(),
{
    if ms.len() == 0 {
        assert(incoming + ms =~= incoming);
    } else {
        assert(!handshake_command(ms[0].0));
        let rest = ms.drop_first();
        assert forall|i: int| 0 <= i < rest.len() implies !handshake_command(#[trigger] rest[i].0) by {
            assert(rest[i] == ms[i + 1]);
        }
        lemma_run_after_handshake(st, nonce, rest, handshake, incoming.push(ms[0]));
        assert(incoming.push(ms[0]) + rest =~= incoming + ms);
    }
}

/// What reading from a peer's socket yielded.
pub struct ReadOutcome {
    /// The peer is to be dropped.
    pub disconnect: bool,
    /// The handshake completed during this read.
    pub handshake: bool,
    /// Messages for the node, in the order they arrived.
    pub incoming: Vec<RawMessage>,
}

pub struct Peer {
    pub pid: PeerId,
    inbound: FrameBuffer,
    outbound: VecDeque<RawMessage>,
    got_verack: bool,
    nonce: u64,
    /// The version record the remote sent.
    pub version: Option<VersionInfo>,
    registration: Registration,
}

pub open spec fn views(s: Seq<RawMessage>) -> Seq<(Seq<u8>, Seq<u8>)> {
    s.map_values(|m: RawMessage| m@)
}

impl Peer {
    pub closed spec fn inbound(&self) -> FrameBuffer {
        self.inbound
    }

    /// The messages waiting to be sent, oldest first.
    pub closed spec fn outbound(&self) -> Seq<(Seq<u8>, Seq<u8>)> {
        views(self.outbound@)
    }

    pub closed spec fn id(&self) -> PeerId {
        self.pid
    }

    pub closed spec fn remote_version(&self) -> Option<VersionInfo> {
        self.version
    }

    pub closed spec fn got_verack(&self) -> bool {
        self.got_verack
    }

    pub closed spec fn local_nonce(&self) -> u64 {
        self.nonce
    }

    pub closed spec fn registration(&self) -> Registration {
        self.registration
    }

    pub open spec fn registered_for_read(&self) -> bool {
        self.registration() == Registration::Read
    }

    pub open spec fn registered_for_write(&self) -> bool {
        self.registration() == Registration::Write
    }

    /// The state the handshake works on: remote version, verack seen,
    /// mailbox and registration.
    pub open spec fn hs_state(&self) -> (Option<VersionInfo>, bool, Seq<(Seq<u8>, Seq<u8>)>, Registration) {
        (self.remote_version(), self.got_verack(), self.outbound(), self.registration())
    }

    /// Both sides have sent `version` and `verack`.
    pub open spec fn handshake_done(&self) -> bool {
        self.remote_version().is_some() && self.got_verack()
    }

    pub closed spec fn wf(&self) -> bool {
        &&& self.inbound.wf()
        &&& forall|i: int| 0 <= i < self.outbound@.len() ==> frameable(#[trigger] self.outbound@[i]@)
    }

    /// Records a new chain height in the remote's version record, if there
    /// is one.
    pub fn set_start_height(&mut self, h: i32)
        requires
            old(self).wf(),
        ensures
            final(self).wf(),
            old(self).remote_version().is_none() ==> *final(self) == *old(self),
            old(self).remote_version() matches Some(v) ==> final(self).remote_version() == Some(
                VersionInfo { start_height: h, ..v },
            ),
            final(self).id() == old(self).id(),
            final(self).got_verack() == old(self).got_verack(),
            final(self).outbound() == old(self).outbound(),
            final(self).inbound() == old(self).inbound(),
            final(self).registration() == old(self).registration(),
            final(self).local_nonce() == old(self).local_nonce(),
    {
        match self.version.take() {
            Some(v) => {
                let mut v = v;
                v.start_height = h;
                self.version = Some(v);
            },
            None => {},
        }
    }

    /// The readiness the peer is registered for.
    pub fn registration_now(&self) -> (r: Registration)
        ensures
            r == self.registration(),
    {
        self.registration
    }

    /// Messages sent one after the other wait in the order they were sent.
    pub proof fn lemma_send_order(q: Seq<(Seq<u8>, Seq<u8>)>, m1: (Seq<u8>, Seq<u8>), m2: (Seq<u8>, Seq<u8>))
        ensures
            q.push(m1).push(m2) == q + seq![m1, m2],
    {
        assert(q.push(m1).push(m2) =~= q + seq![m1, m2]);
    }

    /// A peer is registered for reading or for writing, never both and
    /// never neither.
    pub proof fn lemma_registration_exclusive(&self)
        ensures
            self.registered_for_read() != self.registered_for_write(),
    {
    }

    /// A new peer: nothing received, nothing to send, registered for
    /// reading.
    pub fn new(pid: PeerId, nonce: u64) -> (r: Peer)
        ensures
            r.wf(),
            r.id() == pid,
            r.local_nonce() == nonce,
            r.remote_version().is_none(),
            !r.got_verack(),
            r.outbound().len() == 0,
            r.inbound().unread().len() == 0,
            r.registered_for_read(),
    {
        let r = Peer {
            pid,
            inbound: FrameBuffer::new(),
            outbound: VecDeque::new(),
            got_verack: false,
            nonce,
            version: None,
            registration: Registration::Read,
        };
        proof {
            assert(views(r.outbound@) =~= Seq::empty());
        }
        r
    }

    /// Queues `msg` and registers the peer for writing. A message that does
    /// not fit an envelope is refused and nothing changes.
    pub fn send(&mut self, msg: RawMessage) -> (r: Result<(), CodecError>)
        requires
            old(self).wf(),
        ensures
            final(self).wf(),
            r.is_ok() == frameable(msg@),
            !frameable(msg@) ==> r == Err::<(), CodecError>(match check_frame_error(msg@) {
                Some(e) => e,
                None => CodecError::BadCommand,
            }),
            r.is_ok() ==> final(self).outbound() == old(self).outbound().push(msg@),
            r.is_ok() ==> final(self).registered_for_write(),
            r.is_err() ==> *final(self) == *old(self),
            final(self).id() == old(self).id(),
            final(self).remote_version() == old(self).remote_version(),
            final(self).got_verack() == old(self).got_verack(),
            final(self).local_nonce() == old(self).local_nonce(),
            final(self).inbound() == old(self).inbound(),
    {
        match check_frame(&msg) {
            Err(e) => {
                return Err(e);
            },
            Ok(()) => {},
        }
        let ghost q = self.outbound@;
        self.outbound.push_back(msg);
        self.registration = Registration::Write;
        proof {
            assert(views(self.outbound@) =~= views(q).push(msg@));
        }
        Ok(())
    }

    /// Takes the oldest message waiting to be sent.
    pub fn try_receive(&mut self) -> (r: Option<RawMessage>)
        requires
            old(self).wf(),
        ensures
            final(self).wf(),
            old(self).outbound().len() == 0 ==> r.is_none() && final(self).outbound().len() == 0,
            old(self).outbound().len() > 0 ==> r.is_some() && r.unwrap()@ == old(self).outbound()[0]
                && final(self).outbound() == old(self).outbound().drop_first(),
            r.is_some() ==> frameable(r.unwrap()@),
            final(self).id() == old(self).id(),
            final(self).remote_version() == old(self).remote_version(),
            final(self).got_verack() == old(self).got_verack(),
            final(self).local_nonce() == old(self).local_nonce(),
            final(self).inbound() == old(self).inbound(),
            final(self).registration() == old(self).registration(),
    {
        let ghost q = self.outbound@;
        let r = self.outbound.pop_front();
        proof {
            if q.len() > 0 {
                assert(views(self.outbound@) =~= views(q).drop_first());
                assert(frameable(q[0]@));
            }
        }
        r
    }
}

impl Peer {
    /// Handles a message received from the remote. Before the handshake is
    /// done only `version` (once, from an acceptable peer, answered with a
    /// `verack`) and `verack` (once) are allowed; anything else, or a
    /// payload that is no version record, drops the peer. Once the
    /// handshake is done a further `version` or `verack` drops the peer and
    /// every other message is for the node.
    pub fn process_handshake(&mut self, msg: &RawMessage) -> (r: HandShake)
        requires
            old(self).wf(),
        ensures
            final(self).wf(),
            final(self).id() == old(self).id(),
            final(self).local_nonce() == old(self).local_nonce(),
            final(self).inbound() == old(self).inbound(),
            old(self).remote_version().is_some() ==> final(self).remote_version() == old(self).remote_version(),
            old(self).got_verack() ==> final(self).got_verack(),
            r == HandShake::Disconnect ==> *final(self) == *old(self),
            (final(self).hs_state(), r) == hs_step(old(self).hs_state(), old(self).local_nonce(), msg@),
            r == HandShake::Handshake <==> !old(self).handshake_done() && final(self).handshake_done(),
            old(self).handshake_done() ==> *final(self) == *old(self) && r == if handshake_command(
                msg.command@,
            ) {
                HandShake::Disconnect
            } else {
                HandShake::Process
            },
            !old(self).handshake_done() ==> r != HandShake::Process,
            !old(self).handshake_done() && msg.command@ == version_command() ==> {
                let v = decoded_version(msg.payload@);
                if old(self).remote_version().is_some() || v.is_none() || !acceptable(
                    v.unwrap(),
                    old(self).local_nonce(),
                ) {
                    r == HandShake::Disconnect
                } else {
                    &&& final(self).remote_version() == v
                    &&& final(self).got_verack() == old(self).got_verack()
                    &&& final(self).outbound() == old(self).outbound().push(
                        (verack_command(), Seq::<u8>::empty()),
                    )
                    &&& final(self).registered_for_write()
                    &&& r == if old(self).got_verack() {
                        HandShake::Handshake
                    } else {
                        HandShake::InProgress
                    }
                }
            },
            !old(self).handshake_done() && msg.command@ == verack_command() ==> {
                if old(self).got_verack() {
                    r == HandShake::Disconnect
                } else {
                    &&& final(self).got_verack()
                    &&& final(self).remote_version() == old(self).remote_version()
                    &&& final(self).outbound() == old(self).outbound()
                    &&& final(self).registration() == old(self).registration()
                    &&& r == if old(self).remote_version().is_some() {
                        HandShake::Handshake
                    } else {
                        HandShake::InProgress
                    }
                }
            },
            !old(self).handshake_done() && msg.command@ != version_command() && msg.command@
                != verack_command() ==> r == HandShake::Disconnect,
    {
        let is_version = same_bytes(&msg.command, &[118u8, 101u8, 114u8, 115u8, 105u8, 111u8, 110u8]);
        let is_verack = same_bytes(&msg.command, &[118u8, 101u8, 114u8, 97u8, 99u8, 107u8]);
        proof {
            if is_version {
                assert(msg.command@ =~= version_command());
            } else if msg.command@ == version_command() {
                assert(msg.command@ =~= seq![118u8, 101u8, 114u8, 115u8, 105u8, 111u8, 110u8]);
            }
            if is_verack {
                assert(msg.command@ =~= verack_command());
            } else if msg.command@ == verack_command() {
                assert(msg.command@ =~= seq![118u8, 101u8, 114u8, 97u8, 99u8, 107u8]);
            }
        }
        if self.version.is_some() && self.got_verack {
            if is_version || is_verack {
                return HandShake::Disconnect;
            }
            return HandShake::Process;
        }
        if is_version {
            if self.version.is_some() {
                return HandShake::Disconnect;
            }
            let v = match parse_version(msg.payload.as_slice()) {
                Some(v) => v,
                None => {
                    return HandShake::Disconnect;
                },
            };
            if v.nonce == self.nonce {
                return HandShake::Disconnect;
            }
            if v.services & REQUIRED_SERVICES != REQUIRED_SERVICES || v.version < MIN_PEER_VERSION {
                return HandShake::Disconnect;
            }
            let ack = verack();
            let sent = self.send(ack);
            proof {
                assert(frameable(ack@)) by {
                    assert(crate::codec::command_valid(verack_command()));
                }
            }
            self.version = Some(v);
        } else if is_verack {
            if self.got_verack {
                return HandShake::Disconnect;
            }
            self.got_verack = true;
        } else {
            return HandShake::Disconnect;
        }
        if self.version.is_some() && self.got_verack {
            HandShake::Handshake
        } else {
            HandShake::InProgress
        }
    }
}

impl Peer {
    /// Empties the mailbox, giving the envelope of each message in the
    /// order they were queued, and registers the peer for reading again.
    pub fn drain_outbound(&mut self, magic: u32) -> (r: Vec<Vec<u8>>)
        requires
            old(self).wf(),
        ensures
            final(self).wf(),
            r@.len() == old(self).outbound().len(),
            forall|i: int|
                0 <= i < r@.len() ==> #[trigger] r@[i]@ == frame_bytes(
                    magic,
                    old(self).outbound()[i].0,
                    old(self).outbound()[i].1,
                ),
            final(self).outbound().len() == 0,
            final(self).registered_for_read(),
            final(self).id() == old(self).id(),
            final(self).remote_version() == old(self).remote_version(),
            final(self).got_verack() == old(self).got_verack(),
            final(self).local_nonce() == old(self).local_nonce(),
            final(self).inbound() == old(self).inbound(),
    {
        let ghost q = old(self).outbound();
        let mut out: Vec<Vec<u8>> = Vec::new();
        loop
            invariant
                self.wf(),
                q.len() == out@.len() + self.outbound().len(),
                self.outbound() == q.skip(out@.len() as int),
                forall|i: int|
                    0 <= i < out@.len() ==> #[trigger] out@[i]@ == frame_bytes(
                        magic,
                        q[i].0,
                        q[i].1,
                    ),
                self.id() == old(self).id(),
                self.remote_version() == old(self).remote_version(),
                self.got_verack() == old(self).got_verack(),
                self.local_nonce() == old(self).local_nonce(),
                self.inbound() == old(self).inbound(),
            ensures
                self.wf(),
                self.outbound().len() == 0,
                q.len() == out@.len(),
                forall|i: int|
                    0 <= i < out@.len() ==> #[trigger] out@[i]@ == frame_bytes(
                        magic,
                        q[i].0,
                        q[i].1,
                    ),
                self.id() == old(self).id(),
                self.remote_version() == old(self).remote_version(),
                self.got_verack() == old(self).got_verack(),
                self.local_nonce() == old(self).local_nonce(),
                self.inbound() == old(self).inbound(),
            decreases self.outbound().len(),
        {
            let ghost before = self.outbound();
            match self.try_receive() {
                None => {
                    break;
                },
                Some(msg) => {
                    let mut scratch = FrameBuffer::new();
                    let e = encode(magic, &msg, &mut scratch);
                    let blob = scratch.drain_to_vec();
                    proof {
                        assert(msg@ == q[out@.len() as int]);
                        assert(blob@ =~= frame_bytes(magic, msg@.0, msg@.1));
                    }
                    out.push(blob);
                    proof {
                        assert(self.outbound() =~= q.skip(out@.len() as int));
                    }
                },
            }
        }
        self.registration = Registration::Read;
        out
    }

    /// Takes bytes read from the socket and decodes every whole message
    /// they complete, handing each through the handshake. Stops at the
    /// first message that drops the peer, or at bytes that are no message.
    #[verifier::rlimit(50)]
    pub fn receive_bytes(&mut self, magic: u32, bytes: &[u8]) -> (r: ReadOutcome)
        requires
            old(self).wf(),
        ensures
            final(self).wf(),
            final(self).id() == old(self).id(),
            final(self).local_nonce() == old(self).local_nonce(),
            ({
                let s = old(self).inbound().unread() + bytes@;
                let o = hs_run(old(self).hs_state(), old(self).local_nonce(), parse_all(magic, s), false, Seq::empty());
                &&& final(self).hs_state() == o.0
                &&& r.handshake == o.2
                &&& views(r.incoming@) == o.3
                &&& r.disconnect == (o.1 || parse_frame(magic, parse_rest(magic, s)) is Invalid)
                &&& !o.1 ==> final(self).inbound().unread() == parse_rest(magic, s)
            }),
            !r.disconnect ==> parse_frame(magic, final(self).inbound().unread()) == Frame::Incomplete,
            old(self).handshake_done() && no_handshake_messages(
                parse_all(magic, old(self).inbound().unread() + bytes@),
            ) ==> {
                let s = old(self).inbound().unread() + bytes@;
                &&& views(r.incoming@) == parse_all(magic, s)
                &&& !r.handshake
                &&& r.disconnect == (parse_frame(magic, parse_rest(magic, s)) is Invalid)
                &&& final(self).inbound().unread() == parse_rest(magic, s)
                &&& final(self).hs_state() == old(self).hs_state()
            },
    {
        self.inbound.write(bytes);
        let ghost s = self.inbound.unread();
        let ghost st0 = old(self).hs_state();
        let ghost nonce = old(self).local_nonce();
        let ghost goal = hs_run(st0, nonce, parse_all(magic, s), false, Seq::empty());
        let mut disconnect = false;
        let mut handshake = false;
        let mut incoming: Vec<RawMessage> = Vec::new();
        proof {
            assert(views(incoming@) =~= Seq::<(Seq<u8>, Seq<u8>)>::empty());
        }
        loop
            invariant_except_break
                !disconnect,
                hs_run(self.hs_state(), nonce, parse_all(magic, self.inbound().unread()), handshake, views(incoming@)) == goal,
                parse_rest(magic, self.inbound().unread()) == parse_rest(magic, s),
            invariant
                self.wf(),
                self.id() == old(self).id(),
                self.local_nonce() == nonce,
            ensures
                self.wf(),
                self.id() == old(self).id(),
                self.local_nonce() == nonce,
                self.hs_state() == goal.0,
                handshake == goal.2,
                views(incoming@) == goal.3,
                disconnect == (goal.1 || parse_frame(magic, parse_rest(magic, s)) is Invalid),
                !goal.1 ==> self.inbound().unread() == parse_rest(magic, s),
                !disconnect ==> parse_frame(magic, self.inbound().unread()) == Frame::Incomplete,
            decreases self.inbound().unread().len(),
        {
            let ghost u = self.inbound.unread();
            let ghost inc0 = incoming@;
            proof {
                self.inbound.lemma_wf_bounds();
            }
            match decode(magic, &mut self.inbound) {
                Err(_) => {
                    disconnect = true;
                    proof {
                        assert(parse_all(magic, u) == Seq::<(Seq<u8>, Seq<u8>)>::empty());
                        assert(parse_rest(magic, u) == u);
                    }
                    break;
                },
                Ok(None) => {
                    proof {
                        assert(parse_all(magic, u) == Seq::<(Seq<u8>, Seq<u8>)>::empty());
                        assert(parse_rest(magic, u) == u);
                    }
                    break;
                },
                Ok(Some(msg)) => {
                    let ghost mv = msg@;
                    let ghost stb = self.hs_state();
                    let ghost rest = u.skip(HEADER_SIZE + mv.1.len());
                    proof {
                        assert(parse_frame(magic, u) == Frame::Complete(mv.0, mv.1));
                        assert(HEADER_SIZE + mv.1.len() <= u.len());
                        assert(parse_all(magic, u) == seq![mv] + parse_all(magic, rest));
                        assert(parse_rest(magic, u) == parse_rest(magic, rest));
                        let ms = parse_all(magic, u);
                        assert(ms[0] == mv);
                        assert(ms.drop_first() =~= parse_all(magic, rest));
                    }
                    let h = self.process_handshake(&msg);
                    match h {
                        HandShake::Disconnect => {
                            disconnect = true;
                            break;
                        },
                        HandShake::Handshake => {
                            handshake = true;
                        },
                        HandShake::InProgress => {},
                        HandShake::Process => {
                            incoming.push(msg);
                            proof {
                                assert(views(incoming@) =~= views(inc0).push(mv));
                            }
                        },
                    }
                },
            }
        }
        proof {
            if old(self).handshake_done() && no_handshake_messages(parse_all(magic, s)) {
                lemma_run_after_handshake(st0, nonce, parse_all(magic, s), false, Seq::empty());
                assert(Seq::<(Seq<u8>, Seq<u8>)>::empty() + parse_all(magic, s) =~= parse_all(magic, s));
            }
        }
        ReadOutcome { disconnect, handshake, incoming }
    }
}

/// The error `check_frame` gives for a message, if any.
pub open spec fn check_frame_error(m: (Seq<u8>, Seq<u8>)) -> Option<CodecError> {
    if !crate::codec::command_valid(m.0) {
        Some(CodecError::BadCommand)
    } else if m.1.len() > u32::MAX {
        Some(CodecError::Oversized)
    } else {
        None
    }
}

} // verus!
