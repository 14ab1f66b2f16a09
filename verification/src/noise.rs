//! The Noise handshake: message sizes, certificate windows and authorities.

use crate::bytes::push_le;
#[allow(unused_imports)]
use crate::bytes::{le, lemma_le_len};
#[allow(unused_imports)]
use crate::frames::{frame, HEADER_LEN, MAX_PAYLOAD_LEN};
#[allow(unused_imports)]
use crate::rules::{decides, Rule};
use codec_sv2::{Handshake, InitiatorSent, Transport};
use noise_sv2::{Initiator, Responder};
use rand::rngs::StdRng;
use rand::SeedableRng;
use secp256k1::{Keypair, Secp256k1, XOnlyPublicKey};
use vstd::prelude::*;

verus! {

/// The length of a message authentication code.
pub const MAC_LEN: usize = 16;

/// The longest piece of plaintext that is encrypted at once: 65535 bytes of
/// ciphertext, less the authentication code.
pub const MAX_PIECE_LEN: usize = 65519;

/// The length of the second handshake message: an ephemeral key (64), an encrypted
/// static key (64 + 16) and an encrypted certificate (74 + 16).
pub const ACT_2_LEN: usize = 234;

/// How far the clock of an initiator may be off, in seconds.
pub const LEEWAY: u32 = 10;

/// How many whole pieces a payload is made longer by at most.
pub const MAX_EXTRA_PIECES: u8 = 2;

/// Which authority key an initiator knows.
#[derive(Clone, Copy, Debug, PartialEq, Eq, Structural)]
pub enum Authority {
    /// None: the handshake is anonymous.
    Unknown,
    /// That of the responder.
    Known,
    /// Another one: the handshake must fail.
    Wrong,
}

/// A handshake to run, and a frame to send.
pub struct NoiseInput {
    pub rand_seed: u64,
    /// The clock of the responder when it signs its certificate.
    pub now_responder: u32,
    pub cert_validity: u32,
    /// How far the clock of the initiator is ahead of that.
    pub initiator_clock_skew: i32,
    pub authority: Authority,
    pub msg_type: u8,
    pub ext_type: u16,
    pub payload: Vec<u8>,
    /// How many whole pieces precede the payload.
    pub extra_chunks: u8,
    /// Which byte of the second message to corrupt, if any.
    pub handshake_corruption: Option<u32>,
    /// Which byte and bit of the second ciphertext to flip, if any.
    pub transport_corruption: Option<(u32, u8)>,
}

/// `value`, or the nearest number that 32 bits hold.
pub open spec fn clamped(value: int) -> int {
    if value < 0 {
        0
    } else if value > u32::MAX {
        u32::MAX as int
    } else {
        value
    }
}

impl NoiseInput {
    /// The clock of the initiator.
    pub open spec fn now_initiator(self) -> int {
        clamped(self.now_responder + self.initiator_clock_skew)
    }

    /// When the certificate expires.
    pub open spec fn not_valid_after(self) -> int {
        clamped(self.now_responder + self.cert_validity)
    }

    /// The clock of the initiator lies in the window of the certificate.
    pub open spec fn inside_window(self) -> bool {
        self.now_responder <= self.now_initiator() <= self.not_valid_after()
    }

    /// The clock of the initiator lies outside the window by more than the leeway.
    pub open spec fn outside_leeway(self) -> bool {
        ||| self.now_initiator() < clamped(self.now_responder - LEEWAY)
        ||| self.now_initiator() > clamped(self.not_valid_after() + LEEWAY)
    }

    /// How many whole pieces precede the payload.
    pub open spec fn extra(self) -> nat {
        (self.extra_chunks % 3) as nat
    }

    /// The payload of the frame: whole pieces of filler, and the payload.
    pub open spec fn filled_payload(self) -> Seq<u8> {
        Seq::new(self.extra() * MAX_PIECE_LEN as nat, |i: int| 0x5au8) + self.payload@
    }
}

/// A clock is never both inside the window and outside the leeway.
pub proof fn lemma_window_bands(input: NoiseInput)
    ensures
        !(input.inside_window() && input.outside_leeway()),
{
}

/// The number of pieces that a payload is encrypted in.
pub open spec fn pieces(payload_len: int) -> int {
    (payload_len + MAX_PIECE_LEN - 1) / (MAX_PIECE_LEN as int)
}

/// The length of an encrypted frame: header and payload, and one authentication
/// code for the header and one for each piece of the payload.
pub open spec fn encrypted_len(payload_len: int) -> int {
    HEADER_LEN + MAC_LEN + payload_len + MAC_LEN * pieces(payload_len)
}

/// The length of the ciphertext of a frame with `payload_len` bytes of payload.
pub fn spec_encrypted_len(payload_len: usize) -> (r: usize)
    requires
        encrypted_len(payload_len as int) <= usize::MAX,
    ensures
        r == encrypted_len(payload_len as int),
{
    let whole: usize = payload_len / MAX_PIECE_LEN;
    let count: usize = if payload_len % MAX_PIECE_LEN == 0 {
        whole
    } else {
        whole + 1
    };
    assert(count == pieces(payload_len as int));
    HEADER_LEN + MAC_LEN + payload_len + count * MAC_LEN
}

/// The frame to send; none if its payload is longer than a header can announce.
pub fn build_frame(input: &NoiseInput) -> (r: Option<Vec<u8>>)
    ensures
        match r {
            Some(bytes) => {
                &&& input.filled_payload().len() <= MAX_PAYLOAD_LEN
                &&& bytes@ == frame(input.ext_type, input.msg_type, input.filled_payload())
            },
            None => input.filled_payload().len() > MAX_PAYLOAD_LEN,
        },
{
    let extra: usize = (input.extra_chunks % (MAX_EXTRA_PIECES + 1)) as usize;
    let filler: usize = extra * MAX_PIECE_LEN;
    if input.payload.len() > MAX_PAYLOAD_LEN - filler {
        return None;
    }
    let len: usize = filler + input.payload.len();
    let mut bytes: Vec<u8> = Vec::new();
    push_le(&mut bytes, input.ext_type as u64, 2);
    bytes.push(input.msg_type);
    push_le(&mut bytes, len as u64, 3);
    let ghost header = bytes@;
    let mut i: usize = 0;
    while i < filler
        invariant
            i <= filler,
            bytes@ =~= header + Seq::new(i as nat, |i: int| 0x5au8),
        decreases filler - i,
    {
        bytes.push(0x5a);
        i += 1;
    }
    bytes.extend_from_slice(input.payload.as_slice());
    proof {
        assert(header =~= le(input.ext_type as int, 2) + seq![input.msg_type] + le(
            len as int,
            3,
        ));
        assert(bytes@ =~= frame(input.ext_type, input.msg_type, input.filled_payload()));
    }
    Some(bytes)
}

/// `StdRng` of `rand`: a seeded source of random numbers.
#[verifier::external_type_specification]
#[verifier::external_body]
pub struct ExStdRng(rand::rngs::StdRng);

/// `Keypair` of `secp256k1`.
#[verifier::external_type_specification]
#[verifier::external_body]
pub struct ExKeypair(secp256k1::Keypair);

/// `XOnlyPublicKey` of `secp256k1`.
#[verifier::external_type_specification]
#[verifier::external_body]
pub struct ExXOnlyPublicKey(secp256k1::XOnlyPublicKey);

/// `Initiator` of `noise_sv2`: the role that has not sent its message yet.
#[verifier::external_type_specification]
#[verifier::external_body]
pub struct ExInitiator(noise_sv2::Initiator);

/// `Responder` of `noise_sv2`.
#[verifier::external_type_specification]
#[verifier::external_body]
pub struct ExResponder(noise_sv2::Responder);

/// `InitiatorSent` of `codec_sv2`: the role that waits for the answer.
#[verifier::external_type_specification]
#[verifier::external_body]
pub struct ExInitiatorSent(codec_sv2::InitiatorSent);

/// `Handshake` of `codec_sv2`: a handshake in one of those roles.
#[verifier::external_type_specification]
#[verifier::external_body]
#[verifier::reject_recursive_types(R)]
pub struct ExHandshake<R>(codec_sv2::Handshake<R>);

/// `Transport` of `codec_sv2`: one side of a completed handshake.
#[verifier::external_type_specification]
#[verifier::external_body]
pub struct ExTransport(codec_sv2::Transport);

/// The state of a source of random numbers.
pub uninterp spec fn rng_state(rng: StdRng) -> Seq<u8>;

/// The secret key of a key pair.
pub uninterp spec fn secret_key(keypair: Keypair) -> Seq<u8>;

/// The bytes of a public key.
pub uninterp spec fn public_key(key: XOnlyPublicKey) -> Seq<u8>;

/// The state of an initiator that has not sent its message yet.
pub uninterp spec fn initiator_state(handshake: Handshake<Initiator>) -> Seq<u8>;

/// The state of an initiator that waits for the answer.
pub uninterp spec fn sent_state(handshake: Handshake<InitiatorSent>) -> Seq<u8>;

/// The state of a responder.
pub uninterp spec fn responder_state(handshake: Handshake<Responder>) -> Seq<u8>;

/// A cipher: its key, and how many pieces it has encrypted or decrypted.
pub struct CipherState {
    pub key: Seq<u8>,
    pub count: int,
}

/// The two ciphers of one side of a completed handshake.
pub struct SideState {
    pub sending: CipherState,
    pub receiving: CipherState,
}

/// The two ciphers of one side of a completed handshake.
pub uninterp spec fn transport_state(transport: Transport) -> SideState;

/// The source of random numbers that a seed gives.
pub uninterp spec fn seed_state(seed: u64) -> Seq<u8>;

/// Calls `StdRng::seed_from_u64` of `rand`: all that the source will give depends on the
/// seed alone.
#[verifier::external_body]
fn seeded(seed: u64) -> (r: StdRng)
    ensures
        rng_state(r) == seed_state(seed),
{
    StdRng::seed_from_u64(seed)
}

/// The secret key that is drawn from a source of random numbers.
pub uninterp spec fn secret_drawn(rng: Seq<u8>) -> Seq<u8>;

/// Calls `Secp256k1::generate_keypair` and `Keypair::from_secret_key` of `secp256k1`: the
/// key pair depends on the random numbers alone.
#[verifier::external_body]
fn generate_keypair(rng: StdRng) -> (r: Keypair)
    ensures
        secret_key(r) == secret_drawn(rng_state(rng)),
{
    let mut rng = rng;
    let secp = Secp256k1::new();
    let (secret, _) = secp.generate_keypair(&mut rng);
    Keypair::from_secret_key(&secp, &secret)
}

/// The public key that belongs to a secret key.
pub uninterp spec fn public_of(secret: Seq<u8>) -> Seq<u8>;

/// Calls `Keypair::x_only_public_key` of `secp256k1`: the public key depends on the secret
/// key alone.
#[verifier::external_body]
fn xonly(keypair: &Keypair) -> (r: XOnlyPublicKey)
    ensures
        public_key(r) == public_of(secret_key(*keypair)),
{
    keypair.x_only_public_key().0
}

/// The bytes of a public key, if there is one.
pub open spec fn expected_key(key: Option<XOnlyPublicKey>) -> Option<Seq<u8>> {
    match key {
        Some(key) => Some(public_key(key)),
        None => None,
    }
}

/// The initiator that expects a responder with this authority key, if any, and draws from
/// this source of random numbers.
pub uninterp spec fn initiator_made(authority: Option<Seq<u8>>, rng: Seq<u8>) -> Seq<u8>;

/// Calls `Initiator::new_with_rng` of `noise_sv2` and `Handshake::initiator` of
/// `codec_sv2`: the initiator depends on the key and the random numbers alone.
#[verifier::external_body]
fn new_initiator(authority: Option<XOnlyPublicKey>, rng: StdRng) -> (r: Handshake<Initiator>)
    ensures
        initiator_state(r) == initiator_made(expected_key(authority), rng_state(rng)),
{
    let mut rng = rng;
    Handshake::initiator(Initiator::new_with_rng(authority, &mut rng))
}

/// The responder with this authority key, whose certificates are valid for this long, that
/// draws from this source of random numbers, and the source afterwards.
pub uninterp spec fn responder_made(authority: Seq<u8>, validity: u32, rng: Seq<u8>) -> (
    Seq<u8>,
    Seq<u8>,
);

/// Calls `Responder::new_with_rng` of `noise_sv2` and `Handshake::responder` of
/// `codec_sv2`: the responder, and what it leaves of the random numbers, depend on the
/// arguments alone.
#[verifier::external_body]
fn new_responder(authority: Keypair, validity: u32, rng: &mut StdRng) -> (r: Handshake<Responder>)
    ensures
        (responder_state(r), rng_state(*final(rng))) == responder_made(
            secret_key(authority),
            validity,
            rng_state(*old(rng)),
        ),
{
    Handshake::responder(Responder::new_with_rng(authority, validity, rng))
}

/// The first message of an initiator, and the initiator afterwards.
pub uninterp spec fn first_act(initiator: Seq<u8>) -> (Seq<u8>, Seq<u8>);

/// Calls `Handshake::step_0` of `codec_sv2`, which never fails: nothing is encrypted yet.
/// The message is an ephemeral key of 64 bytes; which one depends on the initiator alone.
#[verifier::external_body]
fn act_1(initiator: Handshake<Initiator>) -> (r: Option<(Vec<u8>, Handshake<InitiatorSent>)>)
    ensures
        match r {
            Some((message, sent)) => {
                &&& message@.len() == 64
                &&& first_act(initiator_state(initiator)) == (message@, sent_state(sent))
            },
            None => false,
        },
{
    let (message, initiator) = initiator.step_0().ok()?;
    Some((message.payload().to_vec(), initiator))
}

/// The answer of a responder to a first message, and its side of the completed handshake.
pub uninterp spec fn second_act(responder: Seq<u8>, message: Seq<u8>, now: u32, rng: Seq<u8>) -> (
    Seq<u8>,
    SideState,
);

/// Calls `Handshake::step_1_with_now_rng` of `codec_sv2`, which never fails: any 64 bytes
/// are a key, and nothing is decrypted. The message has 234 bytes; which ones depends on
/// the arguments alone.
#[verifier::external_body]
fn act_2(responder: Handshake<Responder>, act_1: &[u8], now: u32, rng: StdRng) -> (r: Option<
    (Vec<u8>, Transport),
>)
    requires
        act_1@.len() == 64,
    ensures
        match r {
            Some((message, transport)) => {
                &&& message@.len() == ACT_2_LEN
                &&& second_act(responder_state(responder), act_1@, now, rng_state(rng)) == (
                    message@,
                    transport_state(transport),
                )
            },
            None => false,
        },
{
    let mut rng = rng;
    let key = act_1.try_into().unwrap();
    let (message, transport) = responder.step_1_with_now_rng(key, now, &mut rng).ok()?;
    Some((message.payload().to_vec(), transport))
}

/// How an initiator takes the answer of a responder.
#[derive(Clone, Copy, Debug, PartialEq, Eq, Structural)]
pub enum Finish {
    Accepted,
    /// The certificate is invalid.
    BadCertificate,
    /// Any other failure.
    Failed,
}

/// How an initiator takes an answer, and its side of the completed handshake if it accepts.
pub uninterp spec fn third_act(initiator: Seq<u8>, message: Seq<u8>, now: u32) -> (
    Finish,
    Option<SideState>,
);

/// A clock `now` lies outside the window of a certificate that was signed at `signed` and
/// is valid for `validity` seconds, by more than the leeway.
pub open spec fn is_outside(signed: u32, validity: u32, now: u32) -> bool {
    ||| now < clamped(signed - LEEWAY)
    ||| now > clamped(clamped(signed + validity) + LEEWAY)
}

/// How an initiator that expects this authority key, if any, may take the answer of a
/// responder with this authority secret that reaches it as it was sent: a certificate is
/// looked at only if a key is expected; that of the responder with this key is refused
/// exactly outside its window and the leeway, and nothing but the certificate is ever
/// refused.
pub open spec fn may_finish(
    authority: Option<Seq<u8>>,
    secret: Seq<u8>,
    outside: bool,
    finish: Finish,
) -> bool {
    match authority {
        None => finish == Finish::Accepted,
        Some(key) => {
            &&& finish != Finish::Failed
            &&& key == public_of(secret) ==> (finish == Finish::Accepted <==> !outside)
        },
    }
}

/// The two sides of a completed handshake can talk to each other: what one sends with, the
/// other receives with, and nothing has been sent.
pub open spec fn agree(initiator: SideState, responder: SideState) -> bool {
    &&& initiator.sending == responder.receiving
    &&& initiator.receiving == responder.sending
    &&& initiator.sending.count == 0
    &&& initiator.receiving.count == 0
}

/// `end` is right about an initiator in state `sent` that gets `message` at `now`: if that
/// is the answer that some responder gave to its first message, it takes the answer as it
/// may, and both sides agree if it accepts.
pub open spec fn takes_answer(
    sent: Seq<u8>,
    message: Seq<u8>,
    now: u32,
    end: (Finish, Option<SideState>),
) -> bool {
    forall|
        authority: Option<Seq<u8>>,
        rng: Seq<u8>,
        secret: Seq<u8>,
        validity: u32,
        responder_rng: Seq<u8>,
        signed: u32,
        signing_rng: Seq<u8>,
    |
        #![trigger initiator_made(authority, rng), second_act(responder_made(secret, validity, responder_rng).0, first_act(initiator_made(authority, rng)).0, signed, signing_rng)]
        {
            let first = first_act(initiator_made(authority, rng));
            let answer = second_act(
                responder_made(secret, validity, responder_rng).0,
                first.0,
                signed,
                signing_rng,
            );
            sent == first.1 && message == answer.0 ==> {
                &&& may_finish(authority, secret, is_outside(signed, validity, now), end.0)
                &&& end.1 matches Some(side) ==> agree(side, answer.1)
            }
        }
}

/// The two ciphers of one side of a completed handshake, if there is one.
pub open spec fn completed(transport: Option<Transport>) -> Option<SideState> {
    match transport {
        Some(transport) => Some(transport_state(transport)),
        None => None,
    }
}

/// Calls `Handshake::step_2_with_now` of `codec_sv2`. Whether the message is accepted
/// depends on the arguments alone; a transport comes back exactly if it is. The answer of
/// a responder to the first message of this initiator decrypts; the certificate in it is
/// looked at only if an authority key is expected, and its signature is right for the key
/// of that responder. Both sides then derive the same two keys, one for each direction,
/// and start to count at zero. Of other messages, and of other authority keys, nothing is
/// said: that they are refused rests on the strength of cipher and signature.
#[verifier::external_body]
fn act_3(initiator: Handshake<InitiatorSent>, act_2: &[u8], now: u32) -> (r: (
    Finish,
    Option<Transport>,
))
    requires
        act_2@.len() == ACT_2_LEN,
    ensures
        r.0 == Finish::Accepted <==> r.1 is Some,
        (r.0, completed(r.1)) == third_act(sent_state(initiator), act_2@, now),
        takes_answer(sent_state(initiator), act_2@, now, (r.0, completed(r.1))),
{
    match initiator.step_2_with_now(act_2.try_into().unwrap(), now) {
        Ok(transport) => (Finish::Accepted, Some(transport)),
        Err(codec_sv2::Error::NoiseSv2Error(noise_sv2::Error::InvalidCertificate(_))) => {
            (Finish::BadCertificate, None)
        },
        Err(_) => (Finish::Failed, None),
    }
}

/// What was seen of a handshake: the lengths of the two messages, and how the
/// initiator took the second.
#[derive(Clone, Copy, Debug, PartialEq, Eq, Structural)]
pub struct HandshakeSeen {
    pub act_1: Option<usize>,
    pub act_2: Option<usize>,
    pub finish: Option<Finish>,
}

impl HandshakeSeen {
    /// The initiator accepted.
    pub open spec fn accepted(self) -> bool {
        self.finish == Some(Finish::Accepted)
    }

    /// The initiator refused.
    pub open spec fn refused(self) -> bool {
        self.finish is Some && self.finish->0 != Finish::Accepted
    }

    /// The initiator refused for the certificate.
    pub open spec fn blamed_certificate(self) -> bool {
        self.finish == Some(Finish::BadCertificate)
    }
}

/// What must hold of a handshake, in the order of checking.
#[derive(Clone, Copy, Debug, PartialEq, Eq, Structural)]
pub enum HandshakeRule {
    /// The first message can always be made.
    Act1,
    /// The second message can always be made.
    Act2,
    /// The second message has 234 bytes, and is answered.
    Act2Length,
    /// A corrupted second message is refused.
    Corrupted,
    /// A certificate of another authority is refused.
    WrongAuthority,
    /// A certificate is refused outside its window and the leeway.
    OutsideWindow,
    /// An anonymous handshake succeeds.
    Anonymous,
    /// A certificate of another authority is what is refused.
    WrongAuthorityReason,
    /// A certificate is accepted inside its window.
    InsideWindow,
    /// A certificate outside its window is what is refused.
    OutsideWindowReason,
}

impl Rule for HandshakeRule {
    type Run = (NoiseInput, bool, HandshakeSeen);

    open spec fn rank(self) -> int {
        match self {
            HandshakeRule::Act1 => 0,
            HandshakeRule::Act2 => 1,
            HandshakeRule::Act2Length => 2,
            HandshakeRule::Corrupted => 3,
            HandshakeRule::WrongAuthority => 4,
            HandshakeRule::OutsideWindow => 5,
            HandshakeRule::Anonymous => 6,
            HandshakeRule::WrongAuthorityReason => 7,
            HandshakeRule::InsideWindow => 8,
            HandshakeRule::OutsideWindowReason => 9,
        }
    }

    /// The run is the input, whether the second message was corrupted, and what was
    /// seen.
    open spec fn holds(self, run: (NoiseInput, bool, HandshakeSeen)) -> bool {
        let input = run.0;
        let corrupted = run.1;
        let seen = run.2;
        let known = input.authority == Authority::Known;
        let wrong = input.authority == Authority::Wrong;
        let unknown = input.authority == Authority::Unknown;
        match self {
            HandshakeRule::Act1 => seen.act_1 is Some,
            HandshakeRule::Act2 => seen.act_2 is Some,
            HandshakeRule::Act2Length => seen.act_2 == Some(ACT_2_LEN) && seen.finish is Some,
            HandshakeRule::Corrupted => seen.accepted() ==> !corrupted,
            HandshakeRule::WrongAuthority => seen.accepted() ==> !wrong,
            HandshakeRule::OutsideWindow => seen.accepted() && known ==> !input.outside_leeway(),
            HandshakeRule::Anonymous => seen.refused() && !corrupted ==> !unknown,
            HandshakeRule::WrongAuthorityReason => seen.refused() && !corrupted && wrong
                ==> seen.blamed_certificate(),
            HandshakeRule::InsideWindow => seen.refused() && !corrupted && known
                ==> !input.inside_window(),
            HandshakeRule::OutsideWindowReason => seen.refused() && !corrupted && known
                ==> seen.blamed_certificate(),
        }
    }
}

impl HandshakeRule {
    /// Whether the rule holds rests on the strength of cipher and signature.
    pub open spec fn rests_on_ciphers(self) -> bool {
        self == HandshakeRule::Corrupted || self == HandshakeRule::WrongAuthority
    }
}

/// The clock of the initiator, and when the certificate expires.
fn clocks(input: &NoiseInput) -> (r: (u32, u32))
    ensures
        r.0 == input.now_initiator(),
        r.1 == input.not_valid_after(),
{
    let skewed: i64 = input.now_responder as i64 + input.initiator_clock_skew as i64;
    let now: u32 = if skewed < 0 {
        0
    } else if skewed > u32::MAX as i64 {
        u32::MAX
    } else {
        skewed as u32
    };
    (now, input.now_responder.saturating_add(input.cert_validity))
}

/// Judges a handshake: the first rule that it breaks, if there is one.
pub fn judge_handshake(input: &NoiseInput, corrupted: bool, seen: &HandshakeSeen) -> (r: Result<
    (),
    HandshakeRule,
>)
    ensures
        decides(r, (*input, corrupted, *seen)),
{
    let ghost run = (*input, corrupted, *seen);
    let (now, not_valid_after) = clocks(input);
    let valid_from: u32 = input.now_responder;
    let inside = valid_from <= now && now <= not_valid_after;
    let outside = now < valid_from.saturating_sub(LEEWAY) || now > not_valid_after.saturating_add(
        LEEWAY,
    );
    if seen.act_1.is_none() {
        assert(!HandshakeRule::Act1.holds(run));
        return Err(HandshakeRule::Act1);
    }
    let act_2_len: usize = match seen.act_2 {
        Some(len) => len,
        None => {
            assert(!HandshakeRule::Act2.holds(run));
            return Err(HandshakeRule::Act2);
        },
    };
    let finish = match seen.finish {
        Some(finish) => finish,
        None => {
            assert(!HandshakeRule::Act2Length.holds(run));
            return Err(HandshakeRule::Act2Length);
        },
    };
    if act_2_len != ACT_2_LEN {
        assert(!HandshakeRule::Act2Length.holds(run));
        return Err(HandshakeRule::Act2Length);
    }
    if finish == Finish::Accepted {
        if corrupted {
            assert(!HandshakeRule::Corrupted.holds(run));
            return Err(HandshakeRule::Corrupted);
        }
        if input.authority == Authority::Wrong {
            assert(!HandshakeRule::WrongAuthority.holds(run));
            return Err(HandshakeRule::WrongAuthority);
        }
        if input.authority == Authority::Known && outside {
            assert(!HandshakeRule::OutsideWindow.holds(run));
            return Err(HandshakeRule::OutsideWindow);
        }
        return Ok(());
    }
    if corrupted {
        return Ok(());
    }
    match input.authority {
        Authority::Unknown => {
            assert(!HandshakeRule::Anonymous.holds(run));
            Err(HandshakeRule::Anonymous)
        },
        Authority::Wrong => {
            if finish != Finish::BadCertificate {
                assert(!HandshakeRule::WrongAuthorityReason.holds(run));
                return Err(HandshakeRule::WrongAuthorityReason);
            }
            Ok(())
        },
        Authority::Known => {
            if inside {
                assert(!HandshakeRule::InsideWindow.holds(run));
                return Err(HandshakeRule::InsideWindow);
            }
            if finish != Finish::BadCertificate {
                assert(!HandshakeRule::OutsideWindowReason.holds(run));
                return Err(HandshakeRule::OutsideWindowReason);
            }
            Ok(())
        },
    }
}

/// A handshake in which both messages are made, and in which the second is taken as it may
/// be if it was not corrupted, breaks no rule but those that rest on the strength of cipher
/// and signature: in particular, a certificate is accepted inside its window and refused
/// outside the leeway, and an anonymous handshake succeeds.
pub proof fn lemma_handshake_verdict(
    input: NoiseInput,
    corrupted: bool,
    seen: HandshakeSeen,
    verdict: Result<(), HandshakeRule>,
)
    requires
        decides(verdict, (input, corrupted, seen)),
        seen.act_1 is Some,
        seen.act_2 == Some(ACT_2_LEN),
        seen.finish is Some,
        !corrupted ==> input.may_see(seen),
    ensures
        verdict matches Err(rule) ==> rule.rests_on_ciphers(),
{
    let run = (input, corrupted, seen);
    lemma_window_bands(input);
    if let Err(rule) = verdict {
        if HandshakeRule::Corrupted.rank() < rule.rank() {
            assert(HandshakeRule::Corrupted.holds(run));
        }
    }
}

/// Both sides of a completed handshake.
pub struct Session {
    pub initiator: Transport,
    pub responder: Transport,
}

/// The bits of `seed`, moved up by `by` places and around.
pub open spec fn turned(seed: u64, by: u32) -> u64 {
    (seed << by) | (seed >> ((64 - by) as u32))
}

/// The bits of `seed`, moved up by `by` places and around.
fn rotated(seed: u64, by: u32) -> (r: u64)
    requires
        0 < by < 64,
    ensures
        r == turned(seed, by),
{
    (seed << by) | (seed >> (64 - by))
}

/// The second message with one bit of one byte flipped.
fn corrupt(message: &Vec<u8>, place: u32) -> (r: Vec<u8>)
    requires
        message@.len() > 0,
    ensures
        r@ == message@.update(
            place as int % message@.len() as int,
            message@[place as int % message@.len() as int] ^ 1,
        ),
{
    let index: usize = place as usize % message.len();
    let mut r = vstd::slice::slice_to_vec(message.as_slice());
    r.set(index, message[index] ^ 1);
    r
}

/// The second message as it is delivered: with one bit of one byte flipped if
/// `corrupt_act_2` is set and the input says where, and as it was sent otherwise.
pub open spec fn delivered(input: NoiseInput, corrupt_act_2: bool, message: Seq<u8>) -> Seq<u8> {
    match input.handshake_corruption {
        Some(place) => if corrupt_act_2 {
            let i = place as int % message.len() as int;
            message.update(i, message[i] ^ 1)
        } else {
            message
        },
        None => message,
    }
}

/// How a handshake goes: what is seen of it, and both sides if it is completed.
pub struct HandshakeView {
    pub seen: HandshakeSeen,
    pub initiator: Option<SideState>,
    pub responder: SideState,
}

impl NoiseInput {
    /// The authority key of the responder.
    pub open spec fn authority_secret(self) -> Seq<u8> {
        secret_drawn(seed_state(self.rand_seed))
    }

    /// The authority key that the initiator expects, if any: that of the responder, or one
    /// drawn from another seed.
    pub open spec fn expected_authority(self) -> Option<Seq<u8>> {
        match self.authority {
            Authority::Unknown => None,
            Authority::Known => Some(public_of(self.authority_secret())),
            Authority::Wrong => Some(
                public_of(secret_drawn(seed_state(self.rand_seed ^ 0xcafe_babe_dead_beef))),
            ),
        }
    }

    /// How a handshake goes, in which both sides draw their random numbers from the seed,
    /// turned by 17 and by 41 places.
    pub open spec fn handshake(self, corrupt_act_2: bool) -> HandshakeView {
        let initiator = initiator_made(
            self.expected_authority(),
            seed_state(turned(self.rand_seed, 17)),
        );
        let responder = responder_made(
            self.authority_secret(),
            self.cert_validity,
            seed_state(turned(self.rand_seed, 41)),
        );
        let (first, sent) = first_act(initiator);
        let (second, answered) = second_act(responder.0, first, self.now_responder, responder.1);
        let end = third_act(
            sent,
            delivered(self, corrupt_act_2, second),
            self.now_initiator() as u32,
        );
        HandshakeView {
            seen: HandshakeSeen {
                act_1: Some(64),
                act_2: Some(ACT_2_LEN),
                finish: Some(end.0),
            },
            initiator: end.1,
            responder: answered,
        }
    }

    /// This may be seen of a handshake in which nothing was corrupted: both messages are
    /// made, and the second is taken as it may be.
    pub open spec fn may_see(self, seen: HandshakeSeen) -> bool {
        &&& seen.act_1 is Some
        &&& seen.act_2 == Some(ACT_2_LEN)
        &&& seen.finish matches Some(finish) && may_finish(
            self.expected_authority(),
            self.authority_secret(),
            self.outside_leeway(),
            finish,
        )
    }

    /// The second message arrives as it was sent.
    pub open spec fn undisturbed(self, corrupt_act_2: bool) -> bool {
        !corrupt_act_2 || self.handshake_corruption is None
    }
}

/// Runs a handshake with keys and clocks that the input fixes. If `corrupt_act_2` is
/// set, and the input says where, the second message is corrupted on the way. A
/// session comes out exactly if the initiator accepts. If the second message arrives as
/// it was sent, both sides of the session agree; and an anonymous initiator accepts, while
/// one that knows the authority of the responder refuses the certificate exactly outside
/// its window and the leeway.
pub fn handshake(input: &NoiseInput, corrupt_act_2: bool) -> (r: (HandshakeSeen, Option<Session>))
    ensures
        r.0 == input.handshake(corrupt_act_2).seen,
        r.1 is Some <==> r.0.accepted(),
        r.1 matches Some(session) ==> {
            &&& Some(transport_state(session.initiator)) == input.handshake(
                corrupt_act_2,
            ).initiator
            &&& transport_state(session.responder) == input.handshake(corrupt_act_2).responder
        },
        input.undisturbed(corrupt_act_2) ==> {
            &&& input.may_see(r.0)
            &&& r.1 matches Some(session) ==> agree(
                transport_state(session.initiator),
                transport_state(session.responder),
            )
        },
{
    let authority = generate_keypair(seeded(input.rand_seed));
    let expected = match input.authority {
        Authority::Unknown => None,
        Authority::Known => Some(xonly(&authority)),
        Authority::Wrong => {
            let other = generate_keypair(seeded(input.rand_seed ^ 0xcafe_babe_dead_beef));
            Some(xonly(&other))
        },
    };
    let initiator_rng = seeded(rotated(input.rand_seed, 17));
    let mut responder_rng = seeded(rotated(input.rand_seed, 41));
    let initiator = new_initiator(expected, initiator_rng);
    let responder = new_responder(authority, input.cert_validity, &mut responder_rng);
    let mut seen = HandshakeSeen { act_1: None, act_2: None, finish: None };

    let (first, initiator) = match act_1(initiator) {
        Some(sent) => sent,
        None => {
            return (seen, None);
        },
    };
    seen.act_1 = Some(first.len());
    let (second, responder) = match act_2(
        responder,
        first.as_slice(),
        input.now_responder,
        responder_rng,
    ) {
        Some(sent) => sent,
        None => {
            return (seen, None);
        },
    };
    seen.act_2 = Some(second.len());
    let delivered = match input.handshake_corruption {
        Some(place) => if corrupt_act_2 {
            corrupt(&second, place)
        } else {
            second
        },
        None => second,
    };
    let (now, _) = clocks(input);
    let (finish, initiator) = act_3(initiator, delivered.as_slice(), now);
    seen.finish = Some(finish);
    match initiator {
        Some(initiator) => (seen, Some(Session { initiator, responder })),
        None => (seen, None),
    }
}

/// A handshake passes exactly if both messages were made, the second with 234 bytes, and the
/// initiator took the second as it must. It must not accept a corrupted one or a certificate of
/// another authority; with the right authority, it may accept only if its clock is at most ten
/// seconds ahead of the window of the certificate or behind it, that is, at least ten seconds
/// before the responder signed, and at most ten seconds after the certificate expires. It may
/// refuse a corrupted one for any reason; otherwise it may refuse only the certificate, and
/// only one of another authority or one whose window its clock is not in. If not, the verdict
/// names the first of these things that is wrong.
pub proof fn law_handshake(
    input: &NoiseInput,
    corrupted: bool,
    seen: &HandshakeSeen,
    verdict: Result<(), HandshakeRule>,
)
    requires
        call_ensures(judge_handshake, (input, corrupted, seen), verdict),
    ensures
        verdict is Ok <==> {
            let raw = input.now_responder + input.initiator_clock_skew;
            let clock = if raw < 0 {
                0
            } else if raw > 0xffff_ffff {
                0xffff_ffff
            } else {
                raw
            };
            let signed = input.now_responder as int;
            let expiry = signed + input.cert_validity;
            &&& seen.act_1 is Some
            &&& seen.act_2 == Some(234usize)
            &&& seen.finish is Some
            &&& seen.finish->0 == Finish::Accepted ==> {
                &&& !corrupted
                &&& input.authority != Authority::Wrong
                &&& input.authority == Authority::Known ==> signed - 10 <= clock <= expiry + 10
            }
            &&& seen.finish->0 != Finish::Accepted && !corrupted ==> {
                &&& seen.finish->0 == Finish::BadCertificate
                &&& input.authority != Authority::Unknown
                &&& input.authority == Authority::Known ==> clock < signed || clock > expiry
            }
        },
        verdict matches Err(rule) ==> {
            let accepted = seen.finish == Some(Finish::Accepted);
            let raw = input.now_responder + input.initiator_clock_skew;
            let clock = if raw < 0 {
                0
            } else if raw > 0xffff_ffff {
                0xffff_ffff
            } else {
                raw
            };
            rule == (if seen.act_1 is None {
                HandshakeRule::Act1
            } else if seen.act_2 is None {
                HandshakeRule::Act2
            } else if seen.act_2 != Some(234usize) || seen.finish is None {
                HandshakeRule::Act2Length
            } else if accepted && corrupted {
                HandshakeRule::Corrupted
            } else if accepted && input.authority == Authority::Wrong {
                HandshakeRule::WrongAuthority
            } else if accepted {
                HandshakeRule::OutsideWindow
            } else if input.authority == Authority::Unknown {
                HandshakeRule::Anonymous
            } else if input.authority == Authority::Wrong {
                HandshakeRule::WrongAuthorityReason
            } else if input.now_responder <= clock <= input.now_responder + input.cert_validity {
                HandshakeRule::InsideWindow
            } else {
                HandshakeRule::OutsideWindowReason
            })
        },
{
    let run = (*input, corrupted, *seen);
    if verdict is Ok {
        assert(HandshakeRule::Act1.holds(run));
        assert(HandshakeRule::Act2.holds(run));
        assert(HandshakeRule::Act2Length.holds(run));
        assert(HandshakeRule::Corrupted.holds(run));
        assert(HandshakeRule::WrongAuthority.holds(run));
        assert(HandshakeRule::OutsideWindow.holds(run));
        assert(HandshakeRule::Anonymous.holds(run));
        assert(HandshakeRule::WrongAuthorityReason.holds(run));
        assert(HandshakeRule::InsideWindow.holds(run));
        assert(HandshakeRule::OutsideWindowReason.holds(run));
    }
    if let Err(broken) = verdict {
        if HandshakeRule::Act1.rank() < broken.rank() {
            assert(HandshakeRule::Act1.holds(run));
        }
        if HandshakeRule::Act2.rank() < broken.rank() {
            assert(HandshakeRule::Act2.holds(run));
        }
        if HandshakeRule::Act2Length.rank() < broken.rank() {
            assert(HandshakeRule::Act2Length.holds(run));
        }
        if HandshakeRule::Corrupted.rank() < broken.rank() {
            assert(HandshakeRule::Corrupted.holds(run));
        }
        if HandshakeRule::WrongAuthority.rank() < broken.rank() {
            assert(HandshakeRule::WrongAuthority.holds(run));
        }
        if HandshakeRule::OutsideWindow.rank() < broken.rank() {
            assert(HandshakeRule::OutsideWindow.holds(run));
        }
        if HandshakeRule::Anonymous.rank() < broken.rank() {
            assert(HandshakeRule::Anonymous.holds(run));
        }
        if HandshakeRule::WrongAuthorityReason.rank() < broken.rank() {
            assert(HandshakeRule::WrongAuthorityReason.holds(run));
        }
        if HandshakeRule::InsideWindow.rank() < broken.rank() {
            assert(HandshakeRule::InsideWindow.holds(run));
        }
    }
}

/// The ciphertext of a frame is as long as header and payload, and sixteen bytes for the header
/// and for each piece of the payload: as many pieces of 65519 bytes as it takes, and no more.
pub proof fn law_encrypted_len(payload_len: usize, pieces: int, r: usize)
    requires
        call_ensures(spec_encrypted_len, (payload_len,), r),
        65519 * (pieces - 1) < payload_len <= 65519 * pieces,
    ensures
        r == 6 + 16 + payload_len + 16 * pieces,
{
}

/// A frame is built exactly if filler and payload together are at most 0xffffff bytes long.
/// It spells the extension type, the message type and that length, least significant byte
/// first, and then holds as many whole pieces of filler as the input says, modulo three, and
/// the payload.
pub proof fn law_build_frame(input: &NoiseInput, r: Option<Vec<u8>>)
    requires
        call_ensures(build_frame, (input,), r),
    ensures
        ({
            let filler = 65519 * (input.extra_chunks % 3);
            let len = filler + input.payload@.len();
            &&& r is Some <==> len <= 0xff_ffff
            &&& r matches Some(bytes) ==> {
                &&& bytes@.len() == 6 + len
                &&& bytes@[0] + 0x100 * bytes@[1] == input.ext_type
                &&& bytes@[2] == input.msg_type
                &&& bytes@[3] + 0x100 * bytes@[4] + 0x1_0000 * bytes@[5] == len
                &&& forall|i: int| 0 <= i < filler ==> #[trigger] bytes@[6 + i] == 0x5a
                &&& forall|i: int|
                    0 <= i < input.payload@.len() ==> #[trigger] bytes@[6 + filler + i]
                        == input.payload@[i]
            }
        }),
{
    let filler = 65519 * (input.extra_chunks % 3);
    let payload = input.filled_payload();
    assert(payload.len() == filler + input.payload@.len());
    if let Some(bytes) = r {
        reveal_with_fuel(le, 4);
        lemma_le_len(input.ext_type as int, 2);
        lemma_le_len(payload.len() as int, 3);
        let head = le(input.ext_type as int, 2) + seq![input.msg_type] + le(
            payload.len() as int,
            3,
        );
        assert(bytes@ =~= head + payload);
        assert(head.len() == 6);
        let e = le(input.ext_type as int, 2);
        let l = le(payload.len() as int, 3);
        assert(bytes@[0] == e[0] && bytes@[1] == e[1]);
        assert(bytes@[3] == l[0] && bytes@[4] == l[1] && bytes@[5] == l[2]);
        assert(e[0] == input.ext_type as int % 256);
        assert(e[1] == input.ext_type as int / 256 % 256);
        assert(l[0] == payload.len() as int % 256);
        assert(l[1] == payload.len() as int / 256 % 256);
        assert(l[2] == payload.len() as int / 256 / 256 % 256);
        assert forall|i: int| 0 <= i < filler implies #[trigger] bytes@[6 + i] == 0x5a by {
            assert(bytes@[6 + i] == payload[i]);
        }
        assert forall|i: int| 0 <= i < input.payload@.len() implies #[trigger] bytes@[6 + filler + i]
            == input.payload@[i] by {
            assert(bytes@[6 + filler + i] == payload[filler + i]);
        }
    }
}

/// A handshake in which nothing is corrupted goes as the input says: both messages have their
/// lengths, an anonymous initiator accepts, and one that knows the authority accepts exactly if
/// its clock is within ten seconds of the window, and blames the certificate otherwise. A
/// session comes out exactly if it accepts.
pub proof fn law_handshake_run(
    input: &NoiseInput,
    corrupt_act_2: bool,
    r: (HandshakeSeen, Option<Session>),
)
    requires
        call_ensures(handshake, (input, corrupt_act_2), r),
        !corrupt_act_2 || input.handshake_corruption is None,
    ensures
        r.0.act_1 == Some(64usize),
        r.0.act_2 == Some(234usize),
        r.1 is Some <==> r.0.finish == Some(Finish::Accepted),
        input.authority == Authority::Unknown ==> r.0.finish == Some(Finish::Accepted),
        r.0.finish == Some(Finish::Accepted) || r.0.finish == Some(Finish::BadCertificate),
        input.authority == Authority::Known ==> (r.0.finish == Some(Finish::Accepted) <==> {
            let raw = input.now_responder + input.initiator_clock_skew;
            let clock = if raw < 0 {
                0
            } else if raw > 0xffff_ffff {
                0xffff_ffff
            } else {
                raw
            };
            input.now_responder - 10 <= clock <= input.now_responder + input.cert_validity + 10
        }),
{
}

/// Both sides of a handshake draw from the seed, with its bits moved up by 17 and by 41 places,
/// and those that go over the top coming in at the bottom.
pub proof fn law_turned(seed: u64)
    ensures
        turned(seed, 17) == seed % 0x8000_0000_0000 * 0x2_0000 + seed / 0x8000_0000_0000,
        turned(seed, 41) == seed % 0x80_0000 * 0x200_0000_0000 + seed / 0x80_0000,
{
    assert((seed << 17u32) | (seed >> 47u32) == (seed % 0x8000_0000_0000) * 0x2_0000 + seed
        / 0x8000_0000_0000) by (bit_vector);
    assert((seed << 41u32) | (seed >> 23u32) == (seed % 0x80_0000) * 0x200_0000_0000 + seed
        / 0x80_0000) by (bit_vector);
}

/// An anonymous initiator expects no authority, one that knows the responder expects the key of
/// the responder, and any other expects a key that is drawn from another seed.
pub proof fn law_expected_authority(input: NoiseInput)
    ensures
        input.authority_secret() == secret_drawn(seed_state(input.rand_seed)),
        input.expected_authority() is None <==> input.authority == Authority::Unknown,
        input.authority == Authority::Known ==> input.expected_authority() == Some(
            public_of(input.authority_secret()),
        ),
        input.authority == Authority::Wrong ==> exists|seed: u64|
            seed != input.rand_seed && input.expected_authority() == Some(
                public_of(secret_drawn(#[trigger] seed_state(seed))),
            ),
{
    let seed = input.rand_seed;
    assert(seed ^ 0xcafe_babe_dead_beef != seed) by (bit_vector);
    if input.authority == Authority::Wrong {
        assert(input.expected_authority() == Some(
            public_of(secret_drawn(seed_state(seed ^ 0xcafe_babe_dead_beef))),
        ));
    }
}

/// A message that is corrupted on the way differs from the one that was sent in one byte, at the
/// place that the input says, modulo its length, and by its lowest bit; any other arrives as it
/// was sent.
pub proof fn law_delivered(input: NoiseInput, corrupt_act_2: bool, message: Seq<u8>, i: int)
    requires
        0 <= i < message.len(),
    ensures
        delivered(input, corrupt_act_2, message).len() == message.len(),
        !corrupt_act_2 ==> delivered(input, corrupt_act_2, message) == message,
        input.handshake_corruption is None ==> delivered(input, corrupt_act_2, message) == message,
        corrupt_act_2 && input.handshake_corruption is Some ==> {
            let place = input.handshake_corruption->0 as int % message.len() as int;
            let came = delivered(input, corrupt_act_2, message)[i];
            &&& i != place ==> came == message[i]
            &&& i == place ==> came == (if message[i] % 2 == 0 {
                message[i] + 1
            } else {
                message[i] - 1
            })
        },
{
    let b = message[i];
    assert(b % 2 == 0 ==> b ^ 1 == b + 1) by (bit_vector);
    assert(b % 2 == 1 ==> b ^ 1 == b - 1) by (bit_vector);
}

/// A handshake is the three acts of two sides that draw from the seed, with its bits moved up and
/// around: the initiator takes, at its own clock, what reached it of the answer that the responder
/// gave to its first message at the time of the responder. What reaches it is that answer; only
/// where it is to be corrupted, the lowest bit of one byte differs.
pub proof fn law_handshake_acts(
    input: &NoiseInput,
    corrupt_act_2: bool,
    near: u64,
    far: u64,
    now: u32,
    second: Seq<u8>,
    came: Seq<u8>,
    r: (HandshakeSeen, Option<Session>),
)
    requires
        call_ensures(handshake, (input, corrupt_act_2), r),
        near == input.rand_seed % 0x8000_0000_0000 * 0x2_0000 + input.rand_seed / 0x8000_0000_0000,
        far == input.rand_seed % 0x80_0000 * 0x200_0000_0000 + input.rand_seed / 0x80_0000,
        now == (if input.now_responder + input.initiator_clock_skew < 0 {
            0
        } else if input.now_responder + input.initiator_clock_skew > 0xffff_ffff {
            0xffff_ffff
        } else {
            input.now_responder + input.initiator_clock_skew
        }),
        ({
            let (responder, rng) = responder_made(
                input.authority_secret(),
                input.cert_validity,
                seed_state(far),
            );
            let first = first_act(
                initiator_made(input.expected_authority(), seed_state(near)),
            ).0;
            second == second_act(responder, first, input.now_responder, rng).0
        }),
        came.len() == second.len() > 0,
        forall|i: int|
            0 <= i < second.len() ==> {
                let hit = corrupt_act_2 && input.handshake_corruption is Some
                    && input.handshake_corruption->0 as int % second.len() as int == i;
                #[trigger] came[i] == (if !hit {
                    second[i] as int
                } else if second[i] % 2 == 0 {
                    second[i] + 1
                } else {
                    second[i] - 1
                })
            },
    ensures
        ({
            let (responder, rng) = responder_made(
                input.authority_secret(),
                input.cert_validity,
                seed_state(far),
            );
            let (first, sent) = first_act(
                initiator_made(input.expected_authority(), seed_state(near)),
            );
            let answered = second_act(responder, first, input.now_responder, rng).1;
            let end = third_act(sent, came, now);
            &&& r.0.finish == Some(end.0)
            &&& r.1 is Some <==> end.0 == Finish::Accepted
            &&& r.1 matches Some(session) ==> Some(transport_state(session.initiator)) == end.1
                && transport_state(session.responder) == answered
        }),
{
    law_turned(input.rand_seed);
    assert forall|i: int| 0 <= i < second.len() implies came[i] == delivered(
        *input,
        corrupt_act_2,
        second,
    )[i] by {
        law_delivered(*input, corrupt_act_2, second, i);
    }
    law_delivered(*input, corrupt_act_2, second, 0);
    assert(came =~= delivered(*input, corrupt_act_2, second));
}

} // verus!
