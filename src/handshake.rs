use vstd::prelude::*;

use crate::bytes::{bytes_equal, copy_range};
use crate::timestamp::{ReplayWindow, decode_timestamp, is_fresh, le_value, validate};
use crate::transport::ReplayTransport;

verus! {

/// Size of a public key on the wire.
pub const PUBLIC_KEY_SIZE: usize = 32;

/// Size of an authentication tag.
pub const TAG_SIZE: usize = 16;

/// Size of the length prefix in front of every handshake message.
pub const LENGTH_PREFIX_SIZE: usize = 2;

/// Body of the first message: ephemeral key, timestamp, encrypted static key
/// with its tag, and the tag over the transcript.
pub const INIT_BODY_LEN: usize = 104;

/// Body of the second message: ephemeral key and the tag over the transcript.
pub const RESPONSE_BODY_LEN: usize = 48;

/// Largest body that a two-byte length prefix can announce.
pub const MAX_BODY_LEN: usize = 65535;

/// The ways a handshake attempt can fail. Each one ends the attempt.
#[derive(Clone, Copy, Debug, PartialEq, Eq, Structural)]
pub enum HandshakeError {
    /// A length or format violation, including an end of stream in the middle of a message.
    Malformed,
    /// An authentication tag did not verify.
    AuthenticationFailure,
    /// The timestamp is not above the last one accepted from that peer.
    ReplayDetected,
    /// The peer is not one that the policy admits.
    UnexpectedPeer,
    /// The transport failed for a reason unrelated to what it carried.
    TransportFailure,
}

/// Whether the responder checks the initiator's identity.
pub enum HandshakeAuthMode {
    /// Any initiator is accepted.
    ServerOnly,
    /// Only initiators whose identity is listed are accepted.
    Mutual { trusted_peers: Vec<Vec<u8>> },
}

/// Whether `mode` lets `peer` through: always under `ServerOnly`, and under
/// `Mutual` when the peer is listed.
pub open spec fn admits(mode: HandshakeAuthMode, peer: Seq<u8>) -> bool {
    match mode {
        HandshakeAuthMode::ServerOnly => true,
        HandshakeAuthMode::Mutual { trusted_peers } =>
            exists|i: int| 0 <= i < trusted_peers@.len() && #[trigger] trusted_peers@[i]@ == peer,
    }
}

/// Whether `peer` is one of `peers`.
pub fn is_listed(peers: &Vec<Vec<u8>>, peer: &[u8]) -> (r: bool)
    ensures
        r == exists|i: int| 0 <= i < peers@.len() && #[trigger] peers@[i]@ == peer@,
{
    let mut i: usize = 0;
    while i < peers.len()
        invariant
            i <= peers@.len(),
            forall|j: int| 0 <= j < i ==> #[trigger] peers@[j]@ != peer@,
        decreases peers@.len() - i,
    {
        if bytes_equal(peers[i].as_slice(), peer) {
            assert(peers@[i as int]@ == peer@);
            return true;
        }
        i = i + 1;
    }
    false
}

/// Whether `peer` is admitted by `mode`.
pub fn is_admitted(mode: &HandshakeAuthMode, peer: &[u8]) -> (r: bool)
    ensures
        r == admits(*mode, peer@),
{
    match mode {
        HandshakeAuthMode::ServerOnly => true,
        HandshakeAuthMode::Mutual { trusted_peers } => is_listed(trusted_peers, peer),
    }
}

/// The wire form of a message: its length in two big-endian bytes, then the body.
pub open spec fn frame(body: Seq<u8>) -> Seq<u8> {
    seq![(body.len() / 256) as u8, (body.len() % 256) as u8] + body
}

/// The length that a two-byte prefix announces.
pub open spec fn announced_len(prefix: Seq<u8>) -> nat {
    prefix[0] as nat * 256 + prefix[1] as nat
}

/// What a reader expecting a body of `expected` bytes gets from `stream`.
pub open spec fn receive_outcome(stream: Seq<u8>, expected: nat) -> Result<Seq<u8>, HandshakeError> {
    if stream.len() < LENGTH_PREFIX_SIZE {
        Err(HandshakeError::Malformed)
    } else if announced_len(stream) != expected {
        Err(HandshakeError::Malformed)
    } else if stream.len() < LENGTH_PREFIX_SIZE + expected {
        Err(HandshakeError::Malformed)
    } else {
        Ok(stream.subrange(LENGTH_PREFIX_SIZE as int, LENGTH_PREFIX_SIZE + expected))
    }
}

/// A framed body is read back as itself, whatever follows it on the stream.
pub proof fn lemma_frame_round_trip(body: Seq<u8>, rest: Seq<u8>)
    requires
        body.len() <= MAX_BODY_LEN,
    ensures
        receive_outcome(frame(body) + rest, body.len()) == Ok::<Seq<u8>, HandshakeError>(body),
{
    let s = frame(body) + rest;
    assert(announced_len(s) == body.len());
    assert(s.subrange(LENGTH_PREFIX_SIZE as int, LENGTH_PREFIX_SIZE + body.len()) =~= body);
}

/// Every strict prefix of a framed message is malformed to a reader that
/// expects that message.
pub proof fn lemma_truncated_is_malformed(body: Seq<u8>, n: nat)
    requires
        body.len() <= MAX_BODY_LEN,
        n < frame(body).len(),
    ensures
        receive_outcome(frame(body).subrange(0, n as int), body.len())
            == Err::<Seq<u8>, HandshakeError>(HandshakeError::Malformed),
{
    let s = frame(body).subrange(0, n as int);
    if n >= LENGTH_PREFIX_SIZE {
        assert(s[0] == frame(body)[0] && s[1] == frame(body)[1]);
        assert(announced_len(s) == body.len());
    }
}

/// Frames a message body for the wire.
pub fn frame_message(body: &[u8]) -> (r: Vec<u8>)
    requires
        body@.len() <= MAX_BODY_LEN,
    ensures
        r@ == frame(body@),
{
    let mut r: Vec<u8> = Vec::with_capacity(body.len() + LENGTH_PREFIX_SIZE);
    r.push((body.len() / 256) as u8);
    r.push((body.len() % 256) as u8);
    let mut i: usize = 0;
    while i < body.len()
        invariant
            i <= body@.len(),
            r@ == seq![(body@.len() / 256) as u8, (body@.len() % 256) as u8] + body@.subrange(0, i as int),
        decreases body@.len() - i,
    {
        r.push(body[i]);
        i = i + 1;
        proof {
            assert(r@ =~= seq![(body@.len() / 256) as u8, (body@.len() % 256) as u8] + body@.subrange(0, i as int));
        }
    }
    proof {
        assert(body@.subrange(0, body@.len() as int) =~= body@);
    }
    r
}

/// Reads exactly `n` bytes, going on through partial reads. An end of stream
/// before the `n`-th byte is a malformed message.
pub fn read_exact(t: &mut ReplayTransport, n: usize) -> (r: Result<Vec<u8>, HandshakeError>)
    requires
        old(t).well_formed(),
    ensures
        final(t).well_formed(),
        old(t)@.len() >= n ==> (r matches Ok(v) && v@ == old(t)@.subrange(0, n as int)
            && final(t)@ == old(t)@.subrange(n as int, old(t)@.len() as int)),
        old(t)@.len() < n ==> (r == Err::<Vec<u8>, HandshakeError>(HandshakeError::Malformed)
            && final(t)@.len() == 0),
{
    let ghost s = t@;
    let mut buf: Vec<u8> = Vec::with_capacity(n);
    while buf.len() < n
        invariant
            t.well_formed(),
            s == old(t)@,
            buf@.len() <= n,
            buf@ + t@ == s,
        decreases n - buf@.len(),
    {
        let part = t.read(n - buf.len());
        if part.len() == 0 {
            proof {
                assert(t@.len() == 0);
                assert(buf@.len() + t@.len() == s.len());
                assert(s.len() < n);
                assert(!(s.len() >= n));
            }
            return Err(HandshakeError::Malformed);
        }
        let ghost prev = buf@;
        let ghost rest = t@;
        let mut i: usize = 0;
        while i < part.len()
            invariant
                i <= part@.len(),
                buf@ == prev + part@.subrange(0, i as int),
            decreases part@.len() - i,
        {
            buf.push(part[i]);
            i = i + 1;
            proof {
                assert(buf@ =~= prev + part@.subrange(0, i as int));
            }
        }
        proof {
            assert(part@.subrange(0, part@.len() as int) =~= part@);
            assert(buf@ + t@ =~= s);
        }
    }
    proof {
        assert(buf@ =~= s.subrange(0, n as int));
        assert(t@ =~= s.subrange(n as int, s.len() as int));
    }
    Ok(buf)
}

/// Receives one framed message whose body must be `expected` bytes long.
pub fn receive_frame(t: &mut ReplayTransport, expected: usize) -> (r: Result<Vec<u8>, HandshakeError>)
    requires
        old(t).well_formed(),
        expected <= MAX_BODY_LEN,
    ensures
        final(t).well_formed(),
        r matches Ok(v) ==> receive_outcome(old(t)@, expected as nat) == Ok::<Seq<u8>, HandshakeError>(v@),
        r matches Err(e) ==> receive_outcome(old(t)@, expected as nat) == Err::<Seq<u8>, HandshakeError>(e),
{
    let ghost s = t@;
    let prefix = read_exact(t, LENGTH_PREFIX_SIZE)?;
    let len: usize = prefix[0] as usize * 256 + prefix[1] as usize;
    if len != expected {
        return Err(HandshakeError::Malformed);
    }
    let body = read_exact(t, expected)?;
    proof {
        assert(body@ =~= s.subrange(LENGTH_PREFIX_SIZE as int, LENGTH_PREFIX_SIZE + expected));
    }
    Ok(body)
}

/// The fields of the first handshake message.
pub struct InitMessage {
    pub ephemeral: Vec<u8>,
    pub timestamp: u64,
    pub encrypted_static: Vec<u8>,
    pub tag: Vec<u8>,
}

/// Offsets of the fields of the first message body.
pub const TIMESTAMP_OFFSET: usize = 32;
pub const STATIC_OFFSET: usize = 40;
pub const INIT_TAG_OFFSET: usize = 88;

/// The fields of the second handshake message.
pub struct ResponseMessage {
    pub ephemeral: Vec<u8>,
    pub tag: Vec<u8>,
}

/// Splits the body of the first message into its fields.
pub fn parse_init(body: &[u8]) -> (r: InitMessage)
    requires
        body@.len() == INIT_BODY_LEN,
    ensures
        r.ephemeral@ == body@.subrange(0, TIMESTAMP_OFFSET as int),
        r.timestamp as nat == le_value(body@.subrange(TIMESTAMP_OFFSET as int, STATIC_OFFSET as int)),
        r.encrypted_static@ == body@.subrange(STATIC_OFFSET as int, INIT_TAG_OFFSET as int),
        r.tag@ == body@.subrange(INIT_TAG_OFFSET as int, INIT_BODY_LEN as int),
{
    let ts = copy_range(body, TIMESTAMP_OFFSET, STATIC_OFFSET);
    InitMessage {
        ephemeral: copy_range(body, 0, TIMESTAMP_OFFSET),
        timestamp: decode_timestamp(ts.as_slice()),
        encrypted_static: copy_range(body, STATIC_OFFSET, INIT_TAG_OFFSET),
        tag: copy_range(body, INIT_TAG_OFFSET, INIT_BODY_LEN),
    }
}

/// Splits the body of the second message into its fields.
pub fn parse_response(body: &[u8]) -> (r: ResponseMessage)
    requires
        body@.len() == RESPONSE_BODY_LEN,
    ensures
        r.ephemeral@ == body@.subrange(0, PUBLIC_KEY_SIZE as int),
        r.tag@ == body@.subrange(PUBLIC_KEY_SIZE as int, RESPONSE_BODY_LEN as int),
{
    ResponseMessage {
        ephemeral: copy_range(body, 0, PUBLIC_KEY_SIZE),
        tag: copy_range(body, PUBLIC_KEY_SIZE, RESPONSE_BODY_LEN),
    }
}

/// Receives and parses the first message, as the responder does.
pub fn receive_init(t: &mut ReplayTransport) -> (r: Result<InitMessage, HandshakeError>)
    requires
        old(t).well_formed(),
    ensures
        final(t).well_formed(),
        r is Ok <==> receive_outcome(old(t)@, INIT_BODY_LEN as nat) is Ok,
        r matches Err(e) ==> receive_outcome(old(t)@, INIT_BODY_LEN as nat) == Err::<Seq<u8>, HandshakeError>(e),
        r matches Ok(m) ==> receive_outcome(old(t)@, INIT_BODY_LEN as nat) == Ok::<Seq<u8>, HandshakeError>(
            m.ephemeral@ + old(t)@.subrange(34, 42) + m.encrypted_static@ + m.tag@),
        r matches Ok(m) ==> m.timestamp as nat == le_value(old(t)@.subrange(34, 42)),
        old(t)@.len() < LENGTH_PREFIX_SIZE + INIT_BODY_LEN ==> r is Err,
{
    let ghost s = t@;
    let body = receive_frame(t, INIT_BODY_LEN)?;
    let m = parse_init(body.as_slice());
    proof {
        assert(body@ == s.subrange(2, 106));
        assert(body@.subrange(TIMESTAMP_OFFSET as int, STATIC_OFFSET as int) =~= s.subrange(34, 42));
        assert(body@ =~= m.ephemeral@ + s.subrange(34, 42) + m.encrypted_static@ + m.tag@);
    }
    Ok(m)
}

/// Receives and parses the second message, as the initiator does.
pub fn receive_response(t: &mut ReplayTransport) -> (r: Result<ResponseMessage, HandshakeError>)
    requires
        old(t).well_formed(),
    ensures
        final(t).well_formed(),
        r is Ok <==> receive_outcome(old(t)@, RESPONSE_BODY_LEN as nat) is Ok,
        r matches Err(e) ==> receive_outcome(old(t)@, RESPONSE_BODY_LEN as nat) == Err::<Seq<u8>, HandshakeError>(e),
        r matches Ok(m) ==> receive_outcome(old(t)@, RESPONSE_BODY_LEN as nat) == Ok::<Seq<u8>, HandshakeError>(
            m.ephemeral@ + m.tag@),
        old(t)@.len() < LENGTH_PREFIX_SIZE + RESPONSE_BODY_LEN ==> r is Err,
{
    let body = receive_frame(t, RESPONSE_BODY_LEN)?;
    let m = parse_response(body.as_slice());
    proof {
        assert(body@ =~= m.ephemeral@ + m.tag@);
    }
    Ok(m)
}

/// The identity bytes behind an optional reference.
pub open spec fn opt_view(o: Option<&[u8]>) -> Option<Seq<u8>> {
    match o {
        Some(p) => Some(p@),
        None => None,
    }
}

/// The last timestamp that `window` holds for `peer`.
pub open spec fn last_of(window: Map<Seq<u8>, u64>, peer: Seq<u8>) -> Option<u64> {
    if window.contains_key(peer) {
        Some(window[peer])
    } else {
        None
    }
}

/// The responder's verdict on a first message whose authentication yielded
/// `peer` (`None` when its tags did not verify) and which carries `timestamp`.
pub open spec fn init_verdict(
    window: Map<Seq<u8>, u64>,
    mode: HandshakeAuthMode,
    peer: Option<Seq<u8>>,
    timestamp: u64,
) -> Result<(), HandshakeError> {
    match peer {
        None => Err(HandshakeError::AuthenticationFailure),
        Some(p) => if !is_fresh(timestamp, last_of(window, p)) {
            Err(HandshakeError::ReplayDetected)
        } else if !admits(mode, p) {
            Err(HandshakeError::UnexpectedPeer)
        } else {
            Ok(())
        },
    }
}

/// Decides on a first message once its tags have been checked:
/// `verified_peer` is the initiator's identity recovered from it, or `None`
/// when the check failed. On acceptance the window records the timestamp
/// before anything else happens, so the same message is refused next time.
pub fn accept_init(
    window: &mut ReplayWindow,
    mode: &HandshakeAuthMode,
    verified_peer: Option<&[u8]>,
    timestamp: u64,
) -> (r: Result<(), HandshakeError>)
    requires
        old(window).well_formed(),
    ensures
        final(window).well_formed(),
        r == init_verdict(old(window)@, *mode, opt_view(verified_peer), timestamp),
        r is Ok ==> final(window)@ == old(window)@.insert(opt_view(verified_peer)->Some_0, timestamp),
        r is Err ==> final(window)@ == old(window)@,
{
    let peer = match verified_peer {
        None => {
            return Err(HandshakeError::AuthenticationFailure);
        },
        Some(p) => p,
    };
    let last = window.last_seen(peer);
    if !validate(timestamp, last) {
        return Err(HandshakeError::ReplayDetected);
    }
    if !is_admitted(mode, peer) {
        return Err(HandshakeError::UnexpectedPeer);
    }
    window.record(peer, timestamp);
    Ok(())
}

/// Replaying an accepted first message against the window that accepted it
/// is refused as a replay.
pub proof fn lemma_replay_rejected(
    window: Map<Seq<u8>, u64>,
    mode: HandshakeAuthMode,
    peer: Seq<u8>,
    timestamp: u64,
)
    requires
        init_verdict(window, mode, Some(peer), timestamp) is Ok,
    ensures
        init_verdict(window.insert(peer, timestamp), mode, Some(peer), timestamp)
            == Err::<(), HandshakeError>(HandshakeError::ReplayDetected),
{
}

/// Accepting a first message never lowers the timestamp held for any peer,
/// nor forgets a peer.
pub proof fn lemma_window_monotone(
    window: Map<Seq<u8>, u64>,
    mode: HandshakeAuthMode,
    peer: Seq<u8>,
    timestamp: u64,
    other: Seq<u8>,
)
    requires
        init_verdict(window, mode, Some(peer), timestamp) is Ok,
        window.contains_key(other),
    ensures
        window.insert(peer, timestamp).contains_key(other),
        window.insert(peer, timestamp)[other] >= window[other],
{
}

/// The initiator's verdict on the second message: `responder` is the
/// identity its tag bound (`None` when the tag did not verify), checked
/// against the one expected, if any.
pub open spec fn response_verdict(expected: Option<Seq<u8>>, responder: Option<Seq<u8>>) -> Result<(), HandshakeError> {
    match responder {
        None => Err(HandshakeError::AuthenticationFailure),
        Some(r) => match expected {
            Some(e) => if e != r {
                Err(HandshakeError::UnexpectedPeer)
            } else {
                Ok(())
            },
            None => Ok(()),
        },
    }
}

/// Decides on the second message once its tag has been checked.
pub fn check_response(expected: Option<&[u8]>, verified_responder: Option<&[u8]>) -> (r: Result<(), HandshakeError>)
    ensures
        r == response_verdict(opt_view(expected), opt_view(verified_responder)),
{
    match verified_responder {
        None => Err(HandshakeError::AuthenticationFailure),
        Some(resp) => match expected {
            Some(e) => if bytes_equal(e, resp) {
                Ok(())
            } else {
                Err(HandshakeError::UnexpectedPeer)
            },
            None => Ok(()),
        },
    }
}

/// Feeds `data` to the responder as the initiator's first message and drops
/// whatever comes of it. It always returns.
pub fn fuzz_responder(data: &[u8]) {
    let mut transport = ReplayTransport::new(data);
    let _ = receive_init(&mut transport);
}

/// Feeds `data` to the initiator as the responder's second message and drops
/// whatever comes of it. It always returns.
pub fn fuzz_initiator(data: &[u8]) {
    let mut transport = ReplayTransport::new(data);
    let _ = receive_response(&mut transport);
}

/// One corpus sample: the captured first message when `pick_init` holds, the
/// captured second message otherwise.
pub fn generate_corpus(init_msg: Vec<u8>, resp_msg: Vec<u8>, pick_init: bool) -> (r: Vec<u8>)
    ensures
        r@ == (if pick_init { init_msg@ } else { resp_msg@ }),
{
    if pick_init {
        init_msg
    } else {
        resp_msg
    }
}

} // verus!
