//! The envelope of a network message: magic (4 bytes, little endian),
//! command (12 bytes, NUL padded ASCII), payload length (4 bytes, little
//! endian), checksum (the first 4 bytes of the double SHA-256 of the
//! payload) and the payload itself.
use crate::buffer::FrameBuffer;
use vstd::prelude::*;

verus! {

pub const HEADER_SIZE: usize = 24;

pub const COMMAND_SIZE: usize = 12;

/// Largest payload accepted, as for the reference client's messages.
pub const MAX_PAYLOAD: usize = 5000000;

/// The double SHA-256 digest of a byte string.
pub uninterp spec fn sha256d(data: Seq<u8>) -> Seq<u8>;

/// Relies on bitcoin_hashes' `sha256d::Hash::hash`: the 32 digest bytes of
/// the data.
#[verifier::external_body]
fn sha256d_digest(data: &[u8]) -> (r: Vec<u8>)
    ensures
        r@ == sha256d(data@),
        r@.len() == 32,
{
    let h = <bitcoin::hashes::sha256d::Hash as bitcoin::hashes::Hash>::hash(data);
    <bitcoin::hashes::sha256d::Hash as bitcoin::hashes::Hash>::to_byte_array(h).to_vec()
}

/// Whether a whole envelope decodes as a message of the reference client's
/// protocol: a known command with a well-formed payload, or an unknown one.
pub uninterp spec fn frame_decodes(frame: Seq<u8>) -> bool;

/// Relies on bitcoin's `consensus::deserialize::<RawNetworkMessage>`: it
/// succeeds exactly when the envelope, all of it, decodes.
#[verifier::external_body]
fn frame_payload_ok(frame: &[u8]) -> (r: bool)
    ensures
        r == frame_decodes(frame@),
{
    bitcoin::consensus::deserialize::<bitcoin::p2p::message::RawNetworkMessage>(frame).is_ok()
}

/// A message as it travels in its envelope: the command name and the
/// payload bytes.
#[derive(Debug, Clone)]
pub struct RawMessage {
    pub command: Vec<u8>,
    pub payload: Vec<u8>,
}

impl View for RawMessage {
    type V = (Seq<u8>, Seq<u8>);

    open spec fn view(&self) -> (Seq<u8>, Seq<u8>) {
        (self.command@, self.payload@)
    }
}

/// A message that fits an envelope.
pub open spec fn frameable(m: (Seq<u8>, Seq<u8>)) -> bool {
    command_valid(m.0) && m.1.len() <= u32::MAX
}

#[derive(Debug, Clone, Copy, PartialEq, Eq, Structural)]
pub enum CodecError {
    /// The envelope starts with another network's magic.
    BadMagic,
    /// The command field is not a NUL padded ASCII name.
    BadCommand,
    /// The payload is longer than the envelope can carry.
    Oversized,
    /// The payload is not a well-formed message of its command.
    BadPayload,
    /// The checksum does not match the payload.
    BadChecksum,
}

/// What the bytes at the head of a stream hold.
pub enum Frame {
    /// A prefix of a message: more bytes are needed.
    Incomplete,
    /// Not a message of this network.
    Invalid(CodecError),
    /// A whole message, with its command name and payload.
    Complete(Seq<u8>, Seq<u8>),
}

pub open spec fn le32(b: Seq<u8>) -> u32 {
    (b[0] as u32) | ((b[1] as u32) << 8u32) | ((b[2] as u32) << 16u32) | ((b[3] as u32) << 24u32)
}

pub open spec fn le32_bytes(x: u32) -> Seq<u8> {
    seq![(x & 0xffu32) as u8, ((x >> 8u32) & 0xffu32) as u8, ((x >> 16u32) & 0xffu32) as u8, (x >> 24u32) as u8]
}

pub open spec fn command_valid(c: Seq<u8>) -> bool {
    &&& c.len() <= COMMAND_SIZE
    &&& forall|i: int| 0 <= i < c.len() ==> 0 < #[trigger] c[i] < 128
}

pub open spec fn pad_command(c: Seq<u8>) -> Seq<u8> {
    c + Seq::new((COMMAND_SIZE - c.len()) as nat, |i: int| 0u8)
}

/// Index of the first NUL byte at or after `i`, or the length.
pub open spec fn first_nul(f: Seq<u8>, i: int) -> int
    decreases f.len() - i,
{
    if i >= f.len() {
        f.len() as int
    } else if f[i] == 0 {
        i
    } else {
        first_nul(f, i + 1)
    }
}

/// The name in a command field.
pub open spec fn command_name(f: Seq<u8>) -> Seq<u8> {
    f.take(first_nul(f, 0))
}

pub open spec fn command_field_valid(f: Seq<u8>) -> bool {
    command_valid(command_name(f)) && pad_command(command_name(f)) == f
}

pub open spec fn checksum(p: Seq<u8>) -> Seq<u8> {
    Seq::new(4, |i: int| sha256d(p)[i])
}

/// The envelope of a message with command `c` and payload `p`.
pub open spec fn frame_bytes(magic: u32, c: Seq<u8>, p: Seq<u8>) -> Seq<u8> {
    le32_bytes(magic) + pad_command(c) + le32_bytes(p.len() as u32) + checksum(p) + p
}

pub open spec fn payload_len(s: Seq<u8>) -> int {
    le32(s.subrange(16, 20)) as int
}

/// What a stream `s` of a network with `magic` starts with.
pub open spec fn parse_frame(magic: u32, s: Seq<u8>) -> Frame {
    if s.len() < HEADER_SIZE {
        Frame::Incomplete
    } else if le32(s.subrange(0, 4)) != magic {
        Frame::Invalid(CodecError::BadMagic)
    } else if !command_field_valid(s.subrange(4, 16)) {
        Frame::Invalid(CodecError::BadCommand)
    } else if payload_len(s) > MAX_PAYLOAD {
        Frame::Invalid(CodecError::Oversized)
    } else if s.len() < HEADER_SIZE + payload_len(s) {
        Frame::Incomplete
    } else if s.subrange(20, 24) != checksum(s.subrange(24, 24 + payload_len(s))) {
        Frame::Invalid(CodecError::BadChecksum)
    } else if !frame_decodes(s.subrange(0, 24 + payload_len(s))) {
        Frame::Invalid(CodecError::BadPayload)
    } else {
        Frame::Complete(command_name(s.subrange(4, 16)), s.subrange(24, 24 + payload_len(s)))
    }
}

pub proof fn lemma_le32_round_trip(x: u32)
    ensures
        le32(le32_bytes(x)) == x,
        le32_bytes(x).len() == 4,
{
    let b = le32_bytes(x);
    assert(b[0] == (x & 0xffu32) as u8);
    assert(b[3] == (x >> 24u32) as u8);
    assert(((((x & 0xffu32) as u8) as u32) | (((((x >> 8u32) & 0xffu32) as u8) as u32) << 8u32) | (((((x >> 16u32) & 0xffu32) as u8) as u32) << 16u32) | ((((x >> 24u32) as u8) as u32) << 24u32)) == x) by (bit_vector);
}

pub proof fn lemma_first_nul_pad(c: Seq<u8>, i: int)
    requires
        command_valid(c),
        0 <= i <= c.len(),
    ensures
        first_nul(pad_command(c), i) == c.len(),
    decreases c.len() - i,
{
    let f = pad_command(c);
    if i < c.len() {
        assert(f[i] == c[i]);
        lemma_first_nul_pad(c, i + 1);
    } else if i < f.len() {
        assert(f[i] == 0);
    }
}

pub proof fn lemma_command_round_trip(c: Seq<u8>)
    requires
        command_valid(c),
    ensures
        pad_command(c).len() == COMMAND_SIZE,
        command_name(pad_command(c)) == c,
        command_field_valid(pad_command(c)),
{
    lemma_first_nul_pad(c, 0);
    assert(pad_command(c).take(c.len() as int) =~= c);
}

/// What is left of a stream once `parse_all` has taken its messages.
pub open spec fn parse_rest(magic: u32, s: Seq<u8>) -> Seq<u8>
    decreases s.len(),
{
    match parse_frame(magic, s) {
        Frame::Complete(c, p) => {
            if HEADER_SIZE + p.len() <= s.len() {
                parse_rest(magic, s.skip(HEADER_SIZE + p.len()))
            } else {
                s
            }
        },
        _ => s,
    }
}

/// Decoding the envelope of a message, followed by any further bytes,
/// gives back that message and leaves exactly the further bytes.
pub proof fn lemma_round_trip(magic: u32, c: Seq<u8>, p: Seq<u8>, rest: Seq<u8>)
    requires
        command_valid(c),
        p.len() <= MAX_PAYLOAD,
        frame_decodes(frame_bytes(magic, c, p)),
    ensures
        parse_frame(magic, frame_bytes(magic, c, p) + rest) == Frame::Complete(c, p),
        frame_bytes(magic, c, p).len() == HEADER_SIZE + p.len(),
        (frame_bytes(magic, c, p) + rest).skip(HEADER_SIZE + p.len()) == rest,
{
    let f = frame_bytes(magic, c, p);
    let s = f + rest;
    lemma_le32_round_trip(magic);
    lemma_le32_round_trip(p.len() as u32);
    lemma_command_round_trip(c);
    assert(s.subrange(0, 4) =~= le32_bytes(magic));
    assert(s.subrange(4, 16) =~= pad_command(c));
    assert(s.subrange(16, 20) =~= le32_bytes(p.len() as u32));
    assert(payload_len(s) == p.len());
    assert(s.subrange(20, 24) =~= checksum(p));
    assert(s.subrange(24, 24 + payload_len(s)) =~= p);
    assert(s.subrange(0, 24 + payload_len(s)) =~= f);
    assert(s.skip(HEADER_SIZE + p.len()) =~= rest);
}

/// Feeding the envelope of a message in two parts: the first part alone is
/// a prefix that asks for more bytes, and the two together give the message
/// with nothing left over.
#[verifier::rlimit(60)]
pub proof fn lemma_split_feed(magic: u32, c: Seq<u8>, p: Seq<u8>, k: int)
    requires
        command_valid(c),
        p.len() <= MAX_PAYLOAD,
        frame_decodes(frame_bytes(magic, c, p)),
        0 <= k < frame_bytes(magic, c, p).len(),
    ensures
        parse_frame(magic, frame_bytes(magic, c, p).take(k)) == Frame::Incomplete,
        parse_frame(magic, frame_bytes(magic, c, p).take(k) + frame_bytes(magic, c, p).skip(k))
            == Frame::Complete(c, p),
        (frame_bytes(magic, c, p).take(k) + frame_bytes(magic, c, p).skip(k)).skip(
            HEADER_SIZE + p.len(),
        ).len() == 0,
{
    let f = frame_bytes(magic, c, p);
    lemma_round_trip(magic, c, p, Seq::empty());
    assert(f + Seq::<u8>::empty() =~= f);
    assert(f.take(k) + f.skip(k) =~= f);
    let s = f.take(k);
    if k >= HEADER_SIZE {
        assert(s.subrange(0, 4) =~= f.subrange(0, 4));
        assert(s.subrange(4, 16) =~= f.subrange(4, 16));
        assert(s.subrange(16, 20) =~= f.subrange(16, 20));
        assert(f.subrange(0, 4) =~= (f + Seq::<u8>::empty()).subrange(0, 4));
        assert(f.subrange(4, 16) =~= (f + Seq::<u8>::empty()).subrange(4, 16));
        assert(f.subrange(16, 20) =~= (f + Seq::<u8>::empty()).subrange(16, 20));
    }
}

/// The messages of a stream, decoded one after the other until the stream
/// no longer starts with a whole message.
pub open spec fn parse_all(magic: u32, s: Seq<u8>) -> Seq<(Seq<u8>, Seq<u8>)>
    decreases s.len(),
{
    match parse_frame(magic, s) {
        Frame::Complete(c, p) => {
            if HEADER_SIZE + p.len() <= s.len() {
                seq![(c, p)] + parse_all(magic, s.skip(HEADER_SIZE + p.len()))
            } else {
                Seq::empty()
            }
        },
        _ => Seq::empty(),
    }
}

/// The envelopes of a sequence of messages, one after the other.
pub open spec fn frames_bytes(magic: u32, ms: Seq<(Seq<u8>, Seq<u8>)>) -> Seq<u8>
    decreases ms.len(),
{
    if ms.len() == 0 {
        Seq::empty()
    } else {
        frame_bytes(magic, ms[0].0, ms[0].1) + frames_bytes(magic, ms.drop_first())
    }
}

/// Decoding a stream of envelopes one call at a time: each call finds the
/// first message and leaves the envelopes of the others, and once none is
/// left the next call asks for more bytes.
pub proof fn lemma_stream_step(magic: u32, ms: Seq<(Seq<u8>, Seq<u8>)>)
    requires
        forall|i: int|
            0 <= i < ms.len() ==> command_valid(#[trigger] ms[i].0) && ms[i].1.len()
                <= MAX_PAYLOAD && frame_decodes(frame_bytes(magic, ms[i].0, ms[i].1)),
    ensures
        ms.len() == 0 ==> parse_frame(magic, frames_bytes(magic, ms)) == Frame::Incomplete,
        ms.len() > 0 ==> parse_frame(magic, frames_bytes(magic, ms)) == Frame::Complete(ms[0].0, ms[0].1)
            && frames_bytes(magic, ms).skip(HEADER_SIZE + ms[0].1.len()) == frames_bytes(magic, ms.drop_first()),
{
    if ms.len() > 0 {
        assert(command_valid(ms[0].0) && ms[0].1.len() <= MAX_PAYLOAD && frame_decodes(frame_bytes(magic, ms[0].0, ms[0].1)));
        lemma_round_trip(magic, ms[0].0, ms[0].1, frames_bytes(magic, ms.drop_first()));
    }
}

/// A stream that is the envelopes of a sequence of messages decodes to
/// exactly those messages, in order.
#[verifier::rlimit(40)]
pub proof fn lemma_stream_decodes(magic: u32, ms: Seq<(Seq<u8>, Seq<u8>)>)
    requires
        forall|i: int|
            0 <= i < ms.len() ==> command_valid(#[trigger] ms[i].0) && ms[i].1.len()
                <= MAX_PAYLOAD && frame_decodes(frame_bytes(magic, ms[i].0, ms[i].1)),
    ensures
        parse_all(magic, frames_bytes(magic, ms)) == ms,
    decreases ms.len(),
{
    if ms.len() == 0 {
        assert(parse_frame(magic, Seq::<u8>::empty()) == Frame::Incomplete);
        assert(parse_all(magic, frames_bytes(magic, ms)) =~= ms);
    } else {
        let rest = ms.drop_first();
        assert forall|i: int| 0 <= i < rest.len() implies command_valid(#[trigger] rest[i].0)
            && rest[i].1.len() <= MAX_PAYLOAD && frame_decodes(frame_bytes(magic, rest[i].0, rest[i].1)) by {
            assert(rest[i] == ms[i + 1]);
        }
        lemma_stream_decodes(magic, rest);
        let (c, p) = ms[0];
        assert(command_valid(c) && p.len() <= MAX_PAYLOAD && frame_decodes(frame_bytes(magic, c, p)));
        let tail = frames_bytes(magic, rest);
        let s = frames_bytes(magic, ms);
        assert(s == frame_bytes(magic, c, p) + tail);
        lemma_round_trip(magic, c, p, tail);
        assert(parse_frame(magic, s) == Frame::Complete(c, p));
        assert(s.skip(HEADER_SIZE + p.len()) == tail);
        assert(parse_all(magic, s) == seq![(c, p)] + parse_all(magic, tail));
        assert(parse_all(magic, s) =~= ms);
    }
}

fn push_le32(out: &mut Vec<u8>, x: u32)
    ensures
        final(out)@ == old(out)@ + le32_bytes(x),
{
    out.push((x & 0xffu32) as u8);
    out.push(((x >> 8u32) & 0xffu32) as u8);
    out.push(((x >> 16u32) & 0xffu32) as u8);
    out.push((x >> 24u32) as u8);
    proof {
        assert(out@ =~= old(out)@ + le32_bytes(x));
    }
}

fn le32_of(b0: u8, b1: u8, b2: u8, b3: u8) -> (r: u32)
    ensures
        r == le32(seq![b0, b1, b2, b3]),
{
    (b0 as u32) | ((b1 as u32) << 8u32) | ((b2 as u32) << 16u32) | ((b3 as u32) << 24u32)
}

/// The name in the command field `h[4..16]` of a header, if the field is a
/// NUL padded ASCII name.
fn command_from_header(h: &Vec<u8>) -> (r: Option<Vec<u8>>)
    requires
        h@.len() == HEADER_SIZE,
    ensures
        r.is_some() == command_field_valid(h@.subrange(4, 16)),
        r.is_some() ==> r.unwrap()@ == command_name(h@.subrange(4, 16)),
{
    let ghost f = h@.subrange(4, 16);
    let mut k: usize = 0;
    while k < COMMAND_SIZE && h[4 + k] != 0
        invariant
            0 <= k <= COMMAND_SIZE,
            h@.len() == HEADER_SIZE,
            f == h@.subrange(4, 16),
            first_nul(f, 0) == first_nul(f, k as int),
            forall|j: int| 0 <= j < k ==> f[j] != 0,
        decreases COMMAND_SIZE - k,
    {
        assert(f[k as int] == h@[4 + k]);
        k = k + 1;
    }
    proof {
        if k < COMMAND_SIZE {
            assert(f[k as int] == h@[4 + k]);
        }
        assert(first_nul(f, 0) == k);
    }
    let mut name: Vec<u8> = Vec::new();
    let mut i: usize = 0;
    while i < k
        invariant
            k <= COMMAND_SIZE,
            h@.len() == HEADER_SIZE,
            f == h@.subrange(4, 16),
            first_nul(f, 0) == k,
            i <= k,
            name@ == f.take(i as int),
            forall|j: int| 0 <= j < i ==> 0 < #[trigger] f[j] < 128,
            forall|j: int| 0 <= j < k ==> f[j] != 0,
        decreases k - i,
    {
        let b = h[4 + i];
        assert(f[i as int] == b);
        if b >= 128 {
            proof {
                assert(command_name(f)[i as int] == b);
            }
            return None;
        }
        name.push(b);
        i = i + 1;
        proof {
            assert(name@ =~= f.take(i as int));
        }
    }
    let mut j: usize = k;
    while j < COMMAND_SIZE
        invariant
            k <= j <= COMMAND_SIZE,
            h@.len() == HEADER_SIZE,
            f == h@.subrange(4, 16),
            first_nul(f, 0) == k,
            name@ == f.take(k as int),
            forall|t: int| 0 <= t < k ==> 0 < #[trigger] f[t] < 128,
            forall|t: int| k <= t < j ==> f[t] == 0,
        decreases COMMAND_SIZE - j,
    {
        assert(f[j as int] == h@[4 + j]);
        if h[4 + j] != 0 {
            proof {
                let pc = pad_command(command_name(f));
                assert(pc[j as int] == 0u8);
            }
            return None;
        }
        j = j + 1;
    }
    proof {
        assert(command_name(f) =~= name@);
        assert(pad_command(name@) =~= f);
    }
    Some(name)
}

/// Whether `msg` fits an envelope: a command of at most 12 ASCII
/// characters, none of them NUL, and a payload whose length fits in 32 bits
/// bytes.
pub fn check_frame(msg: &RawMessage) -> (r: Result<(), CodecError>)
    ensures
        !command_valid(msg.command@) ==> r == Err::<(), CodecError>(CodecError::BadCommand),
        command_valid(msg.command@) && msg.payload@.len() > u32::MAX ==> r == Err::<
            (),
            CodecError,
        >(CodecError::Oversized),
        r.is_ok() <==> frameable(msg@),
{
    let c = &msg.command;
    if c.len() > COMMAND_SIZE {
        return Err(CodecError::BadCommand);
    }
    let mut i: usize = 0;
    while i < c.len()
        invariant
            i <= c@.len(),
            c@ == msg.command@,
            c@.len() <= COMMAND_SIZE,
            forall|j: int| 0 <= j < i ==> 0 < #[trigger] c@[j] < 128,
        decreases c@.len() - i,
    {
        if c[i] == 0 || c[i] >= 128 {
            return Err(CodecError::BadCommand);
        }
        i = i + 1;
    }
    if msg.payload.len() > u32::MAX as usize {
        return Err(CodecError::Oversized);
    }
    Ok(())
}

/// Writes the envelope of `msg` for a network with `magic` to `dst`.
/// Fails, writing nothing, when the command is not a name of at most 12
/// ASCII characters or when the payload is too long.
pub fn encode(magic: u32, msg: &RawMessage, dst: &mut FrameBuffer) -> (r: Result<(), CodecError>)
    requires
        old(dst).wf(),
    ensures
        final(dst).wf(),
        !command_valid(msg.command@) ==> r == Err::<(), CodecError>(CodecError::BadCommand),
        command_valid(msg.command@) && msg.payload@.len() > u32::MAX ==> r == Err::<
            (),
            CodecError,
        >(CodecError::Oversized),
        r.is_ok() <==> command_valid(msg.command@) && msg.payload@.len() <= u32::MAX,
        r.is_ok() ==> final(dst).content() == old(dst).content() + frame_bytes(
            magic,
            msg.command@,
            msg.payload@,
        ),
        r.is_ok() ==> final(dst).cursor() == old(dst).cursor(),
        r.is_ok() ==> final(dst).unread() == old(dst).unread() + frame_bytes(
            magic,
            msg.command@,
            msg.payload@,
        ),
        r.is_err() ==> *final(dst) == *old(dst),
{
    match check_frame(msg) {
        Err(e) => {
            return Err(e);
        },
        Ok(()) => {},
    }
    let c = &msg.command;
    let mut out: Vec<u8> = Vec::new();
    push_le32(&mut out, magic);
    out.extend_from_slice(c.as_slice());
    let mut j: usize = c.len();
    while j < COMMAND_SIZE
        invariant
            c@.len() <= j <= COMMAND_SIZE,
            out@ == le32_bytes(magic) + c@ + Seq::new((j - c@.len()) as nat, |t: int| 0u8),
        decreases COMMAND_SIZE - j,
    {
        out.push(0u8);
        j = j + 1;
        proof {
            assert(out@ =~= le32_bytes(magic) + c@ + Seq::new((j - c@.len()) as nat, |t: int| 0u8));
        }
    }
    push_le32(&mut out, msg.payload.len() as u32);
    let digest = sha256d_digest(msg.payload.as_slice());
    let mut k: usize = 0;
    let ghost before = out@;
    while k < 4
        invariant
            k <= 4,
            digest@ == sha256d(msg.payload@),
            digest@.len() == 32,
            out@ == before + checksum(msg.payload@).take(k as int),
        decreases 4 - k,
    {
        out.push(digest[k]);
        k = k + 1;
        proof {
            assert(out@ =~= before + checksum(msg.payload@).take(k as int));
        }
    }
    out.extend_from_slice(msg.payload.as_slice());
    proof {
        assert(checksum(msg.payload@).take(4) =~= checksum(msg.payload@));
        assert(out@ =~= frame_bytes(magic, msg.command@, msg.payload@));
    }
    dst.write(out.as_slice());
    Ok(())
}

/// Whether the checksum field `h[20..24]` of a header holds the first four
/// bytes of `digest`.
fn checksum_matches(h: &Vec<u8>, digest: &Vec<u8>) -> (r: bool)
    requires
        h@.len() == HEADER_SIZE,
        digest@.len() == 32,
    ensures
        r == (h@.subrange(20, 24) == Seq::new(4, |i: int| digest@[i])),
{
    let mut k: usize = 0;
    while k < 4
        invariant
            k <= 4,
            h@.len() == HEADER_SIZE,
            digest@.len() == 32,
            forall|t: int| 0 <= t < k ==> h@[20 + t] == digest@[t],
        decreases 4 - k,
    {
        if h[20 + k] != digest[k] {
            proof {
                assert(h@.subrange(20, 24)[k as int] != Seq::new(4, |i: int| digest@[i])[k as int]);
            }
            return false;
        }
        k = k + 1;
    }
    proof {
        assert(h@.subrange(20, 24) =~= Seq::new(4, |i: int| digest@[i]));
    }
    true
}

/// Tries to take one message off the unread bytes of `src`. A prefix of a
/// message is left unread and gives `Ok(None)`, to be tried again once more
/// bytes have arrived. Bytes that cannot start a message (another magic, a
/// bad command field, a payload too long, a wrong checksum, or a payload
/// that is no message of its command) give an error and are left unread.
pub fn decode(magic: u32, src: &mut FrameBuffer) -> (r: Result<Option<RawMessage>, CodecError>)
    requires
        old(src).wf(),
    ensures
        final(src).wf(),
        match parse_frame(magic, old(src).unread()) {
            Frame::Incomplete => {
                &&& r matches Ok(None)
                &&& final(src).content() == old(src).content()
                &&& final(src).unread() == old(src).unread()
            },
            Frame::Invalid(e) => {
                &&& r == Err::<Option<RawMessage>, CodecError>(e)
                &&& final(src).content() == old(src).content()
                &&& final(src).unread() == old(src).unread()
            },
            Frame::Complete(c, p) => {
                &&& r matches Ok(Some(m))
                &&& r->Ok_0->Some_0.command@ == c
                &&& r->Ok_0->Some_0.payload@ == p
                &&& final(src).unread() == old(src).unread().skip(HEADER_SIZE + p.len())
            },
        },
{
    let ghost u = src.unread();
    src.checkpoint();
    let mut header: Vec<u8> = vec![0u8; HEADER_SIZE];
    let n = src.read(&mut header);
    if n < HEADER_SIZE {
        src.rollback();
        return Ok(None);
    }
    proof {
        assert(header@ =~= u.take(24));
        assert(u.subrange(0, 4) =~= seq![header@[0], header@[1], header@[2], header@[3]]);
        assert(u.subrange(16, 20) =~= seq![header@[16], header@[17], header@[18], header@[19]]);
        assert(u.subrange(4, 16) =~= header@.subrange(4, 16));
        assert(u.subrange(20, 24) =~= header@.subrange(20, 24));
    }
    if le32_of(header[0], header[1], header[2], header[3]) != magic {
        src.rollback();
        return Err(CodecError::BadMagic);
    }
    let command = match command_from_header(&header) {
        Some(c) => c,
        None => {
            src.rollback();
        return Err(CodecError::BadCommand);
        },
    };
    let len = le32_of(header[16], header[17], header[18], header[19]);
    if len as usize > MAX_PAYLOAD {
        src.rollback();
        return Err(CodecError::Oversized);
    }
    let len = len as usize;
    let ghost u1 = src.unread();
    let mut payload: Vec<u8> = vec![0u8; len];
    let m = src.read(&mut payload);
    if m < len {
        src.rollback();
        return Ok(None);
    }
    proof {
        assert(payload@ =~= u1.take(len as int));
        assert(u1 =~= u.skip(24));
        assert(payload@ =~= u.subrange(24, 24 + len));
    }
    let digest = sha256d_digest(payload.as_slice());
    if !checksum_matches(&header, &digest) {
        src.rollback();
        return Err(CodecError::BadChecksum);
    }
    let mut frame: Vec<u8> = header.clone();
    frame.extend_from_slice(payload.as_slice());
    proof {
        assert(frame@ =~= u.subrange(0, 24 + len));
    }
    if !frame_payload_ok(frame.as_slice()) {
        src.rollback();
        return Err(CodecError::BadPayload);
    }
    proof {
        assert(src.unread() =~= u.skip(24 + len));
    }
    src.commit();
    Ok(Some(RawMessage { command, payload }))
}

} // verus!
