//! Encrypted transport: lengths, round trips, integrity, replay and order.

use crate::bytes::same_bytes;
#[allow(unused_imports)]
use crate::bytes::seen;
use crate::frames::HEADER_LEN;
#[allow(unused_imports)]
use crate::frames::{
    frame, is_frame, lemma_frame_is_short, lemma_frame_layout, wire_len, MAX_PAYLOAD_LEN,
};
use crate::noise::{
    build_frame, handshake, judge_handshake, spec_encrypted_len, Finish, HandshakeRule, HandshakeSeen,
    NoiseInput, MAC_LEN,
};
#[allow(unused_imports)]
use crate::noise::{
    agree, encrypted_len, lemma_handshake_verdict, pieces, transport_state, CipherState, Session,
    SideState, ACT_2_LEN,
};
#[allow(unused_imports)]
use crate::rules::{decides, Rule};
#[allow(unused_imports)]
use crate::stream::request;
use codec_sv2::{
    Decrypted, NoiseDecoder, NoiseEncoder, Transport, TransportDecryptState, TransportEncryptState,
};
use framing_sv2::framing::SerializedFrame;
use vstd::prelude::*;

verus! {

/// `TransportEncryptState` of `codec_sv2`: the sending half of one side.
#[verifier::external_type_specification]
#[verifier::external_body]
pub struct ExTransportEncryptState(codec_sv2::TransportEncryptState);

/// `TransportDecryptState` of `codec_sv2`: the receiving half of one side.
#[verifier::external_type_specification]
#[verifier::external_body]
pub struct ExTransportDecryptState(codec_sv2::TransportDecryptState);

/// The encoder of `codec_sv2` for encrypted frames. Its buffers hold nothing between
/// frames.
#[verifier::external_body]
pub struct CipherEncoder {
    inner: NoiseEncoder,
}

/// The decoder of `codec_sv2` for encrypted frames, which holds the bytes that it has
/// been given and has not used up.
#[verifier::external_body]
pub struct CipherDecoder {
    inner: NoiseDecoder,
}

/// What a decoder holds: ciphertext that it has not decrypted, plaintext that it has not
/// handed out, and how many bytes it needs before it can go on.
pub struct DecoderView {
    pub cipher: Seq<u8>,
    pub plain: Seq<u8>,
    pub needed: int,
}

/// What a decoder holds.
pub uninterp spec fn decoder_view(decoder: CipherDecoder) -> DecoderView;

/// The cipher of the sending half of one side.
pub uninterp spec fn sender_state(state: TransportEncryptState) -> CipherState;

/// The cipher of the receiving half of one side.
pub uninterp spec fn receiver_state(state: TransportDecryptState) -> CipherState;

/// Calls `Transport::split` of `codec_sv2`, which returns the two halves of one side.
#[verifier::external_body]
fn split(transport: Transport) -> (r: (TransportEncryptState, TransportDecryptState))
    ensures
        sender_state(r.0) == transport_state(transport).sending,
        receiver_state(r.1) == transport_state(transport).receiving,
{
    transport.split()
}

/// Calls `NoiseEncoder::new` of `codec_sv2`.
#[verifier::external_body]
fn new_encoder() -> (r: CipherEncoder) {
    CipherEncoder { inner: NoiseEncoder::new() }
}

/// How many pieces a frame is encrypted in: its header, and those of its payload.
pub open spec fn frame_pieces(frame: Seq<u8>) -> int {
    1 + pieces(frame.len() - HEADER_LEN)
}

/// A cipher after `n` more pieces. It stops at the largest count that it can hold.
pub open spec fn advanced(cipher: CipherState, n: int) -> CipherState {
    CipherState {
        key: cipher.key,
        count: if cipher.count + n <= u64::MAX {
            cipher.count + n
        } else {
            u64::MAX as int
        },
    }
}

/// A cipher can still encrypt a frame: it does not run out of counts.
pub open spec fn can_seal(cipher: CipherState, frame: Seq<u8>) -> bool {
    cipher.count + frame_pieces(frame) <= u64::MAX
}

/// A cipher encrypts a piece of a frame under `count`: one count for each piece, one behind
/// the other, from where the cipher stands.
pub open spec fn uses_count(cipher: CipherState, frame: Seq<u8>, count: int) -> bool {
    cipher.count <= count < cipher.count + frame_pieces(frame)
}

/// No count is used twice under one key: where a cipher encrypts a frame, then `between`
/// more pieces, and then a frame that may be the same one, the second is encrypted with the
/// same key and under other counts, all of them higher.
pub proof fn lemma_counts_are_fresh(
    cipher: CipherState,
    first: Seq<u8>,
    between: int,
    second: Seq<u8>,
)
    requires
        is_frame(first),
        is_frame(second),
        between >= 0,
        can_seal(advanced(cipher, frame_pieces(first) + between), second),
    ensures
        advanced(cipher, frame_pieces(first) + between).key == cipher.key,
        forall|a: int, b: int|
            #[trigger] uses_count(cipher, first, a) && #[trigger] uses_count(
                advanced(cipher, frame_pieces(first) + between),
                second,
                b,
            ) ==> a < b,
{
    lemma_frame_is_short(first);
    lemma_frame_is_short(second);
}

/// The ciphertext of a frame.
pub uninterp spec fn sealed(cipher: CipherState, frame: Seq<u8>) -> Seq<u8>;

/// How decoding ends that gives back a frame and takes `consumed` bytes, with the receiving
/// half as it is afterwards.
pub open spec fn read_back(frame: Seq<u8>, consumed: int, receiver: CipherState) -> DecodeEnd {
    DecodeEnd {
        decoded: DecodedView::Frame { bytes: frame, consumed },
        decoder: fresh_decoder(),
        receiver: Some(receiver),
    }
}

/// Calls `NoiseEncoder::encode_transport` of `codec_sv2`, which encrypts the header and
/// each piece of the payload, under one count each, and appends an authentication code to
/// each; it fails exactly if the counts run out. The ciphertext depends on the cipher and
/// on the frame alone; how long it is depends on the frame alone. A decoder that holds
/// nothing, with a receiving half whose cipher is the same, gives back the frame, takes the
/// whole ciphertext for it, and then holds nothing again, while the ciphers of both halves
/// have moved on alike. That one frame under other counts gives another ciphertext is not
/// said: it rests on the strength of the cipher.
#[verifier::external_body]
fn encode_transport(
    encoder: &mut CipherEncoder,
    state: &mut TransportEncryptState,
    frame: &[u8],
) -> (r: Option<Vec<u8>>)
    requires
        is_frame(frame@),
    ensures
        r is Some <==> can_seal(sender_state(*old(state)), frame@),
        sender_state(*final(state)) == advanced(sender_state(*old(state)), frame_pieces(frame@)),
        r matches Some(ciphertext) ==> ciphertext@ == sealed(sender_state(*old(state)), frame@),
        r matches Some(ciphertext) ==> ciphertext@.len() == encrypted_len(
            frame@.len() - HEADER_LEN,
        ),
        r matches Some(ciphertext) ==> decoding(
            fresh_decoder(),
            sender_state(*old(state)),
            ciphertext@,
            0,
            0,
        ) == read_back(frame@, ciphertext@.len() as int, sender_state(*final(state))),
{
    let frame = SerializedFrame::from_bytes(frame.to_vec()).ok()?;
    encoder.inner.encode_transport(frame, state).ok()
}

/// A decoder that holds nothing and waits for an encrypted header.
pub open spec fn fresh_decoder() -> DecoderView {
    DecoderView { cipher: Seq::empty(), plain: Seq::empty(), needed: HEADER_LEN + MAC_LEN }
}

/// Calls `NoiseDecoder::new` of `codec_sv2`: a decoder that holds nothing and waits for an
/// encrypted header.
#[verifier::external_body]
fn new_decoder() -> (r: CipherDecoder)
    ensures
        decoder_view(r) == fresh_decoder(),
{
    CipherDecoder { inner: NoiseDecoder::new() }
}

/// Calls `NoiseDecoder::writable_len` of `codec_sv2`: how many bytes it asks for, which is
/// what it needs, but no more than one chunk.
#[verifier::external_body]
fn writable_len(decoder: &CipherDecoder) -> (r: usize)
    ensures
        r == request(decoder_view(*decoder).needed),
{
    decoder.inner.writable_len()
}

/// Calls `NoiseDecoder::writable` of `codec_sv2` and fills the buffer that it hands out,
/// which is as long as the request: the bytes are put behind the ciphertext already held.
#[verifier::external_body]
fn fill(decoder: &mut CipherDecoder, chunk: &[u8])
    requires
        chunk@.len() == request(decoder_view(*old(decoder)).needed),
    ensures
        decoder_view(*final(decoder)) == fed(decoder_view(*old(decoder)), chunk@),
{
    decoder.inner.writable().copy_from_slice(chunk);
}

/// A decoder after it was given some bytes.
pub open spec fn fed(decoder: DecoderView, chunk: Seq<u8>) -> DecoderView {
    DecoderView { cipher: decoder.cipher + chunk, ..decoder }
}

/// What asking a decoder for a frame led to.
pub enum Pull {
    /// The bytes of a frame.
    Frame(Vec<u8>, TransportDecryptState),
    /// More bytes are needed.
    More(TransportDecryptState),
    /// The bytes were refused.
    Failed,
}

/// The same, with the receiving half as it is afterwards.
pub enum PullView {
    Frame { bytes: Seq<u8>, receiver: CipherState },
    More { receiver: CipherState },
    Failed,
}

impl View for Pull {
    type V = PullView;

    open spec fn view(&self) -> PullView {
        match *self {
            Pull::Frame(bytes, state) => PullView::Frame {
                bytes: bytes@,
                receiver: receiver_state(state),
            },
            Pull::More(state) => PullView::More { receiver: receiver_state(state) },
            Pull::Failed => PullView::Failed,
        }
    }
}

/// What asking a decoder for a frame leads to, and the decoder afterwards.
pub uninterp spec fn pulled(decoder: DecoderView, receiver: CipherState) -> (PullView, DecoderView);

/// How much ciphertext a decoder with this plaintext decrypts next: an encrypted header, or
/// the encrypted payload that the header announces.
pub open spec fn awaited(plain: Seq<u8>) -> int {
    if plain.len() < HEADER_LEN {
        HEADER_LEN + MAC_LEN
    } else {
        wire_len(plain) + MAC_LEN * pieces(wire_len(plain))
    }
}

/// A decoder asks for what is missing of what it decrypts next, and something is missing.
pub open spec fn waits(decoder: DecoderView) -> bool {
    &&& decoder.needed > 0
    &&& decoder.cipher.len() + decoder.needed == awaited(decoder.plain)
}

/// A decoder that held no more than it decrypts next is left waiting for the rest, or for a
/// payload, if it needs more bytes, and holding nothing otherwise.
pub open spec fn keeps_pace(before: DecoderView, pull: Pull, after: DecoderView) -> bool {
    before.cipher.len() <= awaited(before.plain) ==> match pull {
        Pull::More(_) => waits(after),
        Pull::Frame(_, _) => after == fresh_decoder(),
        Pull::Failed => after == fresh_decoder(),
    }
}

/// Calls `NoiseDecoder::next_transport_frame` of `codec_sv2`. What comes of it depends on
/// what the decoder holds and on the receiving half alone. The decoder decrypts a header,
/// and the payload that the header announces, as soon as it holds as many bytes, and asks
/// for the rest otherwise; after a frame, and after a failure, it waits for a header again.
/// Of bytes other than the ciphertext of a frame under the counts that come next, nothing is
/// said: that changed, repeated and early ciphertexts fail rests on the strength of the
/// authentication codes.
#[verifier::external_body]
fn next_transport_frame(decoder: &mut CipherDecoder, state: TransportDecryptState) -> (r: Pull)
    ensures
        (r@, decoder_view(*final(decoder))) == pulled(
            decoder_view(*old(decoder)),
            receiver_state(state),
        ),
        keeps_pace(decoder_view(*old(decoder)), r, decoder_view(*final(decoder))),
{
    match decoder.inner.next_transport_frame(state) {
        Ok(Decrypted::Frame(frame, state)) => Pull::Frame(frame.as_bytes().to_vec(), state),
        Ok(Decrypted::Incomplete(_, state)) => Pull::More(state),
        Err(_) => Pull::Failed,
    }
}

/// What to do next with a decoder.
#[derive(Clone, Copy, Debug, PartialEq, Eq, Structural)]
pub enum Move {
    /// Give it the bytes that it asks for.
    Feed,
    /// It asks for nothing: ask it for a frame.
    Ask,
    /// It asks for more than there is.
    Starved,
    /// It asks for nothing again and again.
    Stalled,
}

/// What to do with a decoder that asks for `asked` bytes, after `idle` requests for nothing
/// in a row, with `left` bytes left: two requests for nothing in a row are let pass.
pub open spec fn right_move(asked: int, idle: int, left: int) -> Move {
    if asked == 0 {
        if idle < 2 {
            Move::Ask
        } else {
            Move::Stalled
        }
    } else if asked <= left {
        Move::Feed
    } else {
        Move::Starved
    }
}

/// Decides what to do with a decoder that asks for `asked` bytes, after `idle` requests
/// for nothing in a row, with `left` bytes left.
pub fn next_move(asked: usize, idle: u8, left: usize) -> (r: Move)
    ensures
        r == right_move(asked as int, idle as int, left as int),
{
    if asked == 0 {
        if idle < 2 {
            Move::Ask
        } else {
            Move::Stalled
        }
    } else if asked <= left {
        Move::Feed
    } else {
        Move::Starved
    }
}

/// What came out of some ciphertext.
pub enum Decoded {
    /// The bytes of a frame, and how many bytes of ciphertext they took.
    Frame(Vec<u8>, usize),
    /// Nothing: the ciphertext was refused, or ended early.
    Rejected,
    /// Nothing: the decoder asked for nothing again and again.
    Stalled,
}

/// The same, with a sequence.
pub enum DecodedView {
    Frame { bytes: Seq<u8>, consumed: int },
    Rejected,
    Stalled,
}

impl View for Decoded {
    type V = DecodedView;

    open spec fn view(&self) -> DecodedView {
        match *self {
            Decoded::Frame(bytes, consumed) => DecodedView::Frame {
                bytes: bytes@,
                consumed: consumed as int,
            },
            Decoded::Rejected => DecodedView::Rejected,
            Decoded::Stalled => DecodedView::Stalled,
        }
    }
}

/// How decoding ends: what comes out, the decoder afterwards, and the receiving half if a
/// frame comes out.
pub struct DecodeEnd {
    pub decoded: DecodedView,
    pub decoder: DecoderView,
    pub receiver: Option<CipherState>,
}

/// How it ends to give `ciphertext`, from `pos` on, to a decoder at its own pace, after
/// `idle` requests for nothing in a row.
pub open spec fn decoding(
    decoder: DecoderView,
    receiver: CipherState,
    ciphertext: Seq<u8>,
    pos: int,
    idle: int,
) -> DecodeEnd
    decreases ciphertext.len() - pos, 2 - idle,
{
    let asked = request(decoder.needed);
    let step = right_move(asked, idle, ciphertext.len() - pos);
    if asked < 0 || pos < 0 || step == Move::Starved {
        DecodeEnd { decoded: DecodedView::Rejected, decoder, receiver: None }
    } else if step == Move::Stalled {
        DecodeEnd { decoded: DecodedView::Stalled, decoder, receiver: None }
    } else {
        let given = if step == Move::Feed {
            fed(decoder, ciphertext.subrange(pos, pos + asked))
        } else {
            decoder
        };
        let next = pulled(given, receiver);
        match next.0 {
            PullView::Frame { bytes, receiver } => DecodeEnd {
                decoded: DecodedView::Frame { bytes, consumed: pos + asked },
                decoder: next.1,
                receiver: Some(receiver),
            },
            PullView::More { receiver } => decoding(
                next.1,
                receiver,
                ciphertext,
                pos + asked,
                if step == Move::Feed {
                    0
                } else {
                    idle + 1
                },
            ),
            PullView::Failed => DecodeEnd {
                decoded: DecodedView::Rejected,
                decoder: next.1,
                receiver: None,
            },
        }
    }
}

/// The receiving half, if there is one.
pub open spec fn left(state: Option<TransportDecryptState>) -> Option<CipherState> {
    match state {
        Some(state) => Some(receiver_state(state)),
        None => None,
    }
}

/// Gives ciphertext to a decoder at its own pace, and says what came out and how many
/// bytes it took: never more than there are. The receiving half comes back with a frame. A
/// decoder that waits never stalls, and holds nothing after a frame.
pub fn decode(decoder: &mut CipherDecoder, state: TransportDecryptState, ciphertext: &[u8]) -> (r: (
    Decoded,
    Option<TransportDecryptState>,
))
    ensures
        decoding(
            decoder_view(*old(decoder)),
            receiver_state(state),
            ciphertext@,
            0,
            0,
        ) == (DecodeEnd {
            decoded: r.0@,
            decoder: decoder_view(*final(decoder)),
            receiver: left(r.1),
        }),
        r.0 matches Decoded::Frame(_, consumed) ==> consumed <= ciphertext@.len(),
        r.0 is Frame <==> r.1 is Some,
        waits(decoder_view(*old(decoder))) ==> {
            &&& !(r.0 is Stalled)
            &&& r.0 is Frame ==> decoder_view(*final(decoder)) == fresh_decoder()
        },
{
    let ghost start = receiver_state(state);
    let mut receiver = state;
    let mut pos: usize = 0;
    let mut idle: u8 = 0;
    loop
        invariant
            pos <= ciphertext@.len(),
            idle <= 2,
            start == receiver_state(state),
            waits(decoder_view(*old(decoder))) ==> waits(decoder_view(*decoder)),
            decoding(decoder_view(*old(decoder)), start, ciphertext@, 0, 0) == decoding(
                decoder_view(*decoder),
                receiver_state(receiver),
                ciphertext@,
                pos as int,
                idle as int,
            ),
        decreases ciphertext@.len() - pos, 2 - idle,
    {
        let asked: usize = writable_len(decoder);
        match next_move(asked, idle, ciphertext.len() - pos) {
            Move::Starved => {
                return (Decoded::Rejected, None);
            },
            Move::Stalled => {
                return (Decoded::Stalled, None);
            },
            Move::Ask => {
                idle = idle + 1;
            },
            Move::Feed => {
                idle = 0;
                fill(decoder, &ciphertext[pos..pos + asked]);
                pos = pos + asked;
            },
        }
        match next_transport_frame(decoder, receiver) {
            Pull::Frame(bytes, left) => {
                return (Decoded::Frame(bytes, pos), Some(left));
            },
            Pull::More(left) => {
                receiver = left;
            },
            Pull::Failed => {
                return (Decoded::Rejected, None);
            },
        }
    }
}

/// `ciphertext` with one bit of one byte flipped.
pub fn flip_bit(ciphertext: &Vec<u8>, byte: u32, bit: u8) -> (r: Vec<u8>)
    requires
        ciphertext@.len() > 0,
    ensures
        ({
            let i = byte as int % ciphertext@.len() as int;
            &&& r@ == ciphertext@.update(i, ciphertext@[i] ^ (1u8 << (bit % 8)))
            &&& r@[i] != ciphertext@[i]
        }),
{
    let index: usize = byte as usize % ciphertext.len();
    let place: u8 = bit % 8;
    let old_byte: u8 = ciphertext[index];
    assert(old_byte ^ (1u8 << place) != old_byte) by (bit_vector)
        requires
            place < 8,
    ;
    let mut r = vstd::slice::slice_to_vec(ciphertext.as_slice());
    r.set(index, old_byte ^ (1u8 << place));
    r
}

/// One frame, encrypted twice in a row.
pub struct Ciphertexts {
    pub first: Vec<u8>,
    pub second: Vec<u8>,
}

/// What was seen of a session in which one frame was sent twice.
pub struct TransportRun {
    /// The two ciphertexts; none if the frame could not be encrypted.
    pub sent: Option<Ciphertexts>,
    /// What came of the first.
    pub first: Decoded,
    /// What came of the second, with a bit flipped if the input says so.
    pub second: Decoded,
    /// What came of the first when it was sent again, after a second that was left
    /// as it was.
    pub replayed: Option<Decoded>,
}

/// What must hold of such a session, in the order of checking.
#[derive(Clone, Copy, Debug, PartialEq, Eq, Structural)]
pub enum TransportRule {
    /// A frame can always be encrypted.
    Encrypts,
    /// A ciphertext has the length that the frame gives it.
    Length,
    /// Both ciphertexts are as long.
    SameLength,
    /// The same frame is never encrypted to the same ciphertext twice.
    Fresh,
    /// The decoder does not ask for nothing again and again.
    FirstProgress,
    /// The first ciphertext is accepted.
    FirstAccepted,
    /// The frame comes out bit for bit.
    FirstFrame,
    /// The decoder takes exactly the ciphertext.
    FirstConsumed,
    /// The decoder does not ask for nothing again and again.
    SecondProgress,
    /// A ciphertext with a flipped bit is refused.
    Integrity,
    /// The second ciphertext is accepted.
    SecondAccepted,
    /// The frame comes out bit for bit.
    SecondFrame,
    /// The decoder does not ask for nothing again and again.
    ReplayProgress,
    /// A ciphertext that was sent before is refused.
    Replay,
}

impl Rule for TransportRule {
    type Run = (NoiseInput, Seq<u8>, TransportRun);

    open spec fn rank(self) -> int {
        match self {
            TransportRule::Encrypts => 0,
            TransportRule::Length => 1,
            TransportRule::SameLength => 2,
            TransportRule::Fresh => 3,
            TransportRule::FirstProgress => 4,
            TransportRule::FirstAccepted => 5,
            TransportRule::FirstFrame => 6,
            TransportRule::FirstConsumed => 7,
            TransportRule::SecondProgress => 8,
            TransportRule::Integrity => 9,
            TransportRule::SecondAccepted => 10,
            TransportRule::SecondFrame => 11,
            TransportRule::ReplayProgress => 12,
            TransportRule::Replay => 13,
        }
    }

    /// The run is the input, the frame that was sent, and what was seen.
    open spec fn holds(self, run: (NoiseInput, Seq<u8>, TransportRun)) -> bool {
        let flipped = run.0.transport_corruption is Some;
        let data = run.1;
        let seen = run.2;
        let sent = seen.sent is Some;
        let c1 = seen.sent->0.first@;
        let c2 = seen.sent->0.second@;
        match self {
            TransportRule::Encrypts => sent,
            TransportRule::Length => sent ==> c1.len() == encrypted_len(data.len() - HEADER_LEN),
            TransportRule::SameLength => sent ==> c2.len() == c1.len(),
            TransportRule::Fresh => sent ==> c1 != c2,
            TransportRule::FirstProgress => !(seen.first is Stalled),
            TransportRule::FirstAccepted => !(seen.first is Rejected),
            TransportRule::FirstFrame => seen.first matches Decoded::Frame(bytes, _) ==> bytes@
                == data,
            TransportRule::FirstConsumed => sent ==> (seen.first matches Decoded::Frame(
                _,
                consumed,
            ) ==> consumed == c1.len()),
            TransportRule::SecondProgress => !(seen.second is Stalled),
            TransportRule::Integrity => flipped ==> !(seen.second is Frame),
            TransportRule::SecondAccepted => !flipped ==> !(seen.second is Rejected),
            TransportRule::SecondFrame => !flipped ==> (seen.second matches Decoded::Frame(
                bytes,
                _,
            ) ==> bytes@ == data),
            TransportRule::ReplayProgress => !flipped ==> seen.replayed is Some && !(
            seen.replayed->0 is Stalled),
            TransportRule::Replay => !flipped && seen.replayed is Some ==> !(
            seen.replayed->0 is Frame),
        }
    }
}

impl TransportRule {
    /// Whether the rule holds rests on the strength of the cipher.
    pub open spec fn rests_on_ciphers(self) -> bool {
        ||| self == TransportRule::Fresh
        ||| self == TransportRule::Integrity
        ||| self == TransportRule::Replay
    }
}

/// Judges a session: the first rule that it breaks, if there is one. `data` is the
/// frame that was sent.
pub fn judge_transport(input: &NoiseInput, data: &[u8], seen: &TransportRun) -> (r: Result<
    (),
    TransportRule,
>)
    requires
        data@.len() >= HEADER_LEN,
        encrypted_len(data@.len() - HEADER_LEN) <= usize::MAX,
    ensures
        decides(r, (*input, data@, *seen)),
{
    let ghost run = (*input, data@, *seen);
    let sent = match &seen.sent {
        Some(sent) => sent,
        None => {
            assert(!TransportRule::Encrypts.holds(run));
            return Err(TransportRule::Encrypts);
        },
    };
    if sent.first.len() != spec_encrypted_len(data.len() - HEADER_LEN) {
        assert(!TransportRule::Length.holds(run));
        return Err(TransportRule::Length);
    }
    if sent.second.len() != sent.first.len() {
        assert(!TransportRule::SameLength.holds(run));
        return Err(TransportRule::SameLength);
    }
    if same_bytes(sent.first.as_slice(), sent.second.as_slice()) {
        assert(!TransportRule::Fresh.holds(run));
        return Err(TransportRule::Fresh);
    }
    match &seen.first {
        Decoded::Stalled => {
            assert(!TransportRule::FirstProgress.holds(run));
            return Err(TransportRule::FirstProgress);
        },
        Decoded::Rejected => {
            assert(!TransportRule::FirstAccepted.holds(run));
            return Err(TransportRule::FirstAccepted);
        },
        Decoded::Frame(bytes, consumed) => {
            if !same_bytes(bytes.as_slice(), data) {
                assert(!TransportRule::FirstFrame.holds(run));
                return Err(TransportRule::FirstFrame);
            }
            if *consumed != sent.first.len() {
                assert(!TransportRule::FirstConsumed.holds(run));
                return Err(TransportRule::FirstConsumed);
            }
        },
    }
    let flipped = input.transport_corruption.is_some();
    match &seen.second {
        Decoded::Stalled => {
            assert(!TransportRule::SecondProgress.holds(run));
            return Err(TransportRule::SecondProgress);
        },
        Decoded::Rejected => {
            if !flipped {
                assert(!TransportRule::SecondAccepted.holds(run));
                return Err(TransportRule::SecondAccepted);
            }
        },
        Decoded::Frame(bytes, _) => {
            if flipped {
                assert(!TransportRule::Integrity.holds(run));
                return Err(TransportRule::Integrity);
            }
            if !same_bytes(bytes.as_slice(), data) {
                assert(!TransportRule::SecondFrame.holds(run));
                return Err(TransportRule::SecondFrame);
            }
        },
    }
    if !flipped {
        match &seen.replayed {
            None => {
                assert(!TransportRule::ReplayProgress.holds(run));
                return Err(TransportRule::ReplayProgress);
            },
            Some(Decoded::Stalled) => {
                assert(!TransportRule::ReplayProgress.holds(run));
                return Err(TransportRule::ReplayProgress);
            },
            Some(Decoded::Frame(_, _)) => {
                assert(!TransportRule::Replay.holds(run));
                return Err(TransportRule::Replay);
            },
            Some(Decoded::Rejected) => {},
        }
    }
    Ok(())
}

/// What comes of encrypting a frame twice in a row with a cipher.
pub open spec fn sealed_twice(cipher: CipherState, data: Seq<u8>) -> Option<(Seq<u8>, Seq<u8>)> {
    let next = advanced(cipher, frame_pieces(data));
    if can_seal(next, data) {
        Some((sealed(cipher, data), sealed(next, data)))
    } else {
        None
    }
}

/// The two ciphertexts, if there are any.
pub open spec fn both(sent: Option<Ciphertexts>) -> Option<(Seq<u8>, Seq<u8>)> {
    match sent {
        Some(sent) => Some((sent.first@, sent.second@)),
        None => None,
    }
}

/// Both ciphertexts give back the frame, one behind the other.
pub open spec fn both_come_back(cipher: CipherState, data: Seq<u8>, sent: Ciphertexts) -> bool {
    let next = advanced(cipher, frame_pieces(data));
    let last = advanced(next, frame_pieces(data));
    &&& decoding(fresh_decoder(), cipher, sent.first@, 0, 0) == read_back(
        data,
        sent.first@.len() as int,
        next,
    )
    &&& decoding(fresh_decoder(), next, sent.second@, 0, 0) == read_back(
        data,
        sent.second@.len() as int,
        last,
    )
}

/// A cipher that encrypts a frame twice in a row uses no count for both.
pub open spec fn fresh_counts(cipher: CipherState, data: Seq<u8>) -> bool {
    let next = advanced(cipher, frame_pieces(data));
    forall|count: int| #[trigger] uses_count(cipher, data, count) ==> !uses_count(next, data, count)
}

/// Encrypts a frame twice in a row. Both ciphertexts have the length that the frame
/// gives them, and give it back; no count serves for both.
pub fn encrypt_twice(transport: Transport, data: &[u8]) -> (r: Option<Ciphertexts>)
    requires
        is_frame(data@),
    ensures
        both(r) == sealed_twice(transport_state(transport).sending, data@),
        r matches Some(sent) ==> {
            &&& sent.first@.len() == encrypted_len(data@.len() - HEADER_LEN)
            &&& sent.second@.len() == encrypted_len(data@.len() - HEADER_LEN)
            &&& both_come_back(transport_state(transport).sending, data@, sent)
            &&& fresh_counts(transport_state(transport).sending, data@)
        },
{
    proof {
        lemma_frame_is_short(data@);
    }
    let (mut state, _) = split(transport);
    let mut encoder = new_encoder();
    let first = encode_transport(&mut encoder, &mut state, data);
    let second = encode_transport(&mut encoder, &mut state, data);
    match (first, second) {
        (Some(first), Some(second)) => Some(Ciphertexts { first, second }),
        _ => None,
    }
}

/// The second ciphertext as it is delivered: with a bit flipped if the input says so.
pub open spec fn second_delivered(input: NoiseInput, second: Seq<u8>) -> Seq<u8> {
    match input.transport_corruption {
        Some((byte, bit)) => {
            let i = byte as int % second.len() as int;
            second.update(i, second[i] ^ (1u8 << (bit % 8)))
        },
        None => second,
    }
}

/// How it ends to give a decoder the first ciphertext.
pub open spec fn first_end(responder: SideState, first: Seq<u8>) -> DecodeEnd {
    decoding(fresh_decoder(), responder.receiving, first, 0, 0)
}

/// `seen` is what is seen of a session between two sides in which `data` is sent twice: the
/// first ciphertext, the second behind it, and, if nothing was flipped, the first again to a
/// fresh decoder. Each is tried only if the one before was accepted.
pub open spec fn is_transport_run(
    input: NoiseInput,
    data: Seq<u8>,
    initiator: SideState,
    responder: SideState,
    seen: TransportRun,
) -> bool {
    &&& both(seen.sent) == sealed_twice(initiator.sending, data)
    &&& match sealed_twice(initiator.sending, data) {
        None => {
            &&& seen.first is Rejected
            &&& seen.second is Rejected
            &&& seen.replayed is None
        },
        Some((first, second)) => {
            let end = first_end(responder, first);
            &&& seen.first@ == end.decoded
            &&& match end.receiver {
                None => seen.second is Rejected && seen.replayed is None,
                Some(receiver) => {
                    let next = decoding(
                        end.decoder,
                        receiver,
                        second_delivered(input, second),
                        0,
                        0,
                    );
                    &&& seen.second@ == next.decoded
                    &&& match (input.transport_corruption, seen.replayed) {
                        (Some(_), replayed) => replayed is None,
                        (None, None) => false,
                        (None, Some(replayed)) => replayed@ == match next.receiver {
                            Some(receiver) => decoding(
                                fresh_decoder(),
                                receiver,
                                first,
                                0,
                                0,
                            ).decoded,
                            None => DecodedView::Rejected,
                        },
                    }
                },
            }
        },
    }
}

/// What is seen of a session between two sides that agree: the frame is encrypted, the
/// first ciphertext gives it back and is used up, so does the second unless a bit was
/// flipped, and the decoder never stalls.
pub open spec fn round_trips(input: NoiseInput, data: Seq<u8>, seen: TransportRun) -> bool {
    let flipped = input.transport_corruption is Some;
    &&& seen.sent matches Some(sent) && {
        &&& seen.first@ == (DecodedView::Frame { bytes: data, consumed: sent.first@.len() as int })
        &&& !flipped ==> seen.second@ == (DecodedView::Frame {
            bytes: data,
            consumed: sent.second@.len() as int,
        })
    }
    &&& !(seen.second is Stalled)
    &&& !flipped ==> (seen.replayed matches Some(replayed) && !(replayed is Stalled))
}

/// Sends a frame twice over a session, the second time with a bit flipped if the
/// input says so, and the first ciphertext once more otherwise. Whatever the keys
/// are, the ciphertexts have the length that the frame gives them; and if the two sides
/// agree, the frame comes back.
pub fn observe_transport(
    input: &NoiseInput,
    data: &[u8],
    initiator: Transport,
    responder: Transport,
) -> (seen: TransportRun)
    requires
        is_frame(data@),
    ensures
        is_transport_run(
            *input,
            data@,
            transport_state(initiator),
            transport_state(responder),
            seen,
        ),
        TransportRule::Length.holds((*input, data@, seen)),
        TransportRule::SameLength.holds((*input, data@, seen)),
        agree(transport_state(initiator), transport_state(responder)) ==> round_trips(
            *input,
            data@,
            seen,
        ),
{
    proof {
        lemma_frame_is_short(data@);
    }
    let sent = match encrypt_twice(initiator, data) {
        Some(sent) => sent,
        None => {
            return TransportRun {
                sent: None,
                first: Decoded::Rejected,
                second: Decoded::Rejected,
                replayed: None,
            };
        },
    };
    let mut decoder = new_decoder();
    let (_, state) = split(responder);
    let (first, state) = decode(&mut decoder, state, sent.first.as_slice());
    let state = match state {
        Some(state) => state,
        None => {
            return TransportRun {
                sent: Some(sent),
                first,
                second: Decoded::Rejected,
                replayed: None,
            };
        },
    };
    match input.transport_corruption {
        Some((byte, bit)) => {
            let flipped = flip_bit(&sent.second, byte, bit);
            let (second, _) = decode(&mut decoder, state, flipped.as_slice());
            TransportRun { sent: Some(sent), first, second, replayed: None }
        },
        None => {
            let (second, state) = decode(&mut decoder, state, sent.second.as_slice());
            let replayed = match state {
                Some(state) => {
                    let mut fresh = new_decoder();
                    let (replayed, _) = decode(&mut fresh, state, sent.first.as_slice());
                    Some(replayed)
                },
                None => Some(Decoded::Rejected),
            };
            TransportRun { sent: Some(sent), first, second, replayed }
        },
    }
}

/// A session in which the frame comes back breaks no rule but those that rest on the
/// strength of the cipher.
pub proof fn lemma_transport_verdict(
    input: NoiseInput,
    data: Seq<u8>,
    seen: TransportRun,
    rule: TransportRule,
)
    requires
        TransportRule::Length.holds((input, data, seen)),
        TransportRule::SameLength.holds((input, data, seen)),
        round_trips(input, data, seen),
    ensures
        rule.holds((input, data, seen)) || rule.rests_on_ciphers(),
{
}

/// What was seen of a whole check: a handshake that is corrupted if the input says so,
/// a handshake and the session that it leads to, and another handshake, in whose
/// session the second ciphertext is delivered first.
pub struct NoiseRun {
    pub corrupted: HandshakeSeen,
    pub first: HandshakeSeen,
    pub transport: Option<TransportRun>,
    pub second: Option<HandshakeSeen>,
    pub out_of_order: Option<Decoded>,
}

/// What must hold of a whole check, in the order of checking.
#[derive(Clone, Copy, Debug, PartialEq, Eq, Structural)]
pub enum NoiseRule {
    /// The rules about the handshake that may be corrupted.
    Corrupted(HandshakeRule),
    /// The rules about the first handshake.
    First(HandshakeRule),
    /// The rules about its session.
    Transport(TransportRule),
    /// The rules about the second handshake.
    Second(HandshakeRule),
    /// In its session a ciphertext out of order is refused.
    OutOfOrder,
}

impl Rule for NoiseRule {
    type Run = (NoiseInput, Seq<u8>, NoiseRun);

    open spec fn rank(self) -> int {
        match self {
            NoiseRule::Corrupted(rule) => rule.rank(),
            NoiseRule::First(rule) => 10 + rule.rank(),
            NoiseRule::Transport(rule) => 20 + rule.rank(),
            NoiseRule::Second(rule) => 34 + rule.rank(),
            NoiseRule::OutOfOrder => 44,
        }
    }

    /// The run is the input, the frame that was sent, and what was seen. What a
    /// handshake leads to is judged only if the initiator accepts.
    open spec fn holds(self, run: (NoiseInput, Seq<u8>, NoiseRun)) -> bool {
        let input = run.0;
        let seen = run.2;
        let open = seen.first.accepted();
        match self {
            NoiseRule::Corrupted(rule) => rule.holds(
                (input, input.handshake_corruption is Some, seen.corrupted),
            ),
            NoiseRule::First(rule) => rule.holds((input, false, seen.first)),
            NoiseRule::Transport(rule) => open ==> seen.transport is Some && rule.holds(
                (input, run.1, seen.transport->0),
            ),
            NoiseRule::Second(rule) => open ==> seen.second is Some && rule.holds(
                (input, false, seen.second->0),
            ),
            NoiseRule::OutOfOrder => open && seen.second is Some && seen.second->0.accepted()
                ==> seen.out_of_order is Some && seen.out_of_order->0 is Rejected,
        }
    }
}

impl NoiseRule {
    /// Whether the rule holds rests on the strength of cipher and signature.
    pub open spec fn rests_on_ciphers(self) -> bool {
        match self {
            NoiseRule::Corrupted(rule) => rule.rests_on_ciphers(),
            NoiseRule::First(rule) => rule.rests_on_ciphers(),
            NoiseRule::Transport(rule) => rule.rests_on_ciphers(),
            NoiseRule::Second(rule) => rule.rests_on_ciphers(),
            NoiseRule::OutOfOrder => true,
        }
    }
}

/// Judges a whole check: the first rule that it breaks, if there is one.
pub fn judge_noise(input: &NoiseInput, data: &[u8], seen: &NoiseRun) -> (r: Result<(), NoiseRule>)
    requires
        data@.len() >= HEADER_LEN,
        encrypted_len(data@.len() - HEADER_LEN) <= usize::MAX,
    ensures
        decides(r, (*input, data@, *seen)),
{
    let ghost run = (*input, data@, *seen);
    match judge_handshake(input, input.handshake_corruption.is_some(), &seen.corrupted) {
        Err(rule) => {
            assert(!NoiseRule::Corrupted(rule).holds(run));
            return Err(NoiseRule::Corrupted(rule));
        },
        Ok(()) => {},
    }
    match judge_handshake(input, false, &seen.first) {
        Err(rule) => {
            assert(!NoiseRule::First(rule).holds(run));
            return Err(NoiseRule::First(rule));
        },
        Ok(()) => {},
    }
    if seen.first.finish != Some(Finish::Accepted) {
        return Ok(());
    }
    match &seen.transport {
        Some(transport) => match judge_transport(input, data, transport) {
            Err(rule) => {
                assert(!NoiseRule::Transport(rule).holds(run));
                return Err(NoiseRule::Transport(rule));
            },
            Ok(()) => {},
        },
        None => {
            assert(!NoiseRule::Transport(TransportRule::Encrypts).holds(run));
            return Err(NoiseRule::Transport(TransportRule::Encrypts));
        },
    }
    let second = match &seen.second {
        Some(second) => second,
        None => {
            assert(!NoiseRule::Second(HandshakeRule::Act1).holds(run));
            return Err(NoiseRule::Second(HandshakeRule::Act1));
        },
    };
    match judge_handshake(input, false, second) {
        Err(rule) => {
            assert(!NoiseRule::Second(rule).holds(run));
            return Err(NoiseRule::Second(rule));
        },
        Ok(()) => {},
    }
    if second.finish != Some(Finish::Accepted) {
        return Ok(());
    }
    match &seen.out_of_order {
        Some(Decoded::Rejected) => Ok(()),
        _ => {
            assert(!NoiseRule::OutOfOrder.holds(run));
            Err(NoiseRule::OutOfOrder)
        },
    }
}

/// `seen` is what is seen of a whole check.
pub open spec fn is_noise_run(input: NoiseInput, data: Seq<u8>, seen: NoiseRun) -> bool {
    let plain = input.handshake(false);
    &&& seen.corrupted == input.handshake(true).seen
    &&& seen.first == plain.seen
    &&& if plain.seen.accepted() {
        &&& seen.transport matches Some(transport) && is_transport_run(
            input,
            data,
            plain.initiator->0,
            plain.responder,
            transport,
        )
        &&& seen.second == Some(plain.seen)
        &&& match (sealed_twice(plain.initiator->0.sending, data), seen.out_of_order) {
            (Some((_, second)), Some(decoded)) => decoded@ == first_end(
                plain.responder,
                second,
            ).decoded,
            (None, None) => true,
            _ => false,
        }
    } else {
        &&& seen.transport is None
        &&& seen.second is None
        &&& seen.out_of_order is None
    }
}

/// This may be seen of a whole check: what may be seen of a handshake unless it was
/// corrupted, and a session in which the frame comes back if the handshake is completed.
pub open spec fn may_be_seen(input: NoiseInput, data: Seq<u8>, seen: NoiseRun) -> bool {
    &&& seen.corrupted.act_1 is Some
    &&& seen.corrupted.act_2 == Some(ACT_2_LEN)
    &&& seen.corrupted.finish is Some
    &&& input.handshake_corruption is None ==> input.may_see(seen.corrupted)
    &&& input.may_see(seen.first)
    &&& seen.first.accepted() ==> {
        &&& seen.transport matches Some(transport) && {
            &&& TransportRule::Length.holds((input, data, transport))
            &&& TransportRule::SameLength.holds((input, data, transport))
            &&& round_trips(input, data, transport)
        }
        &&& seen.second == Some(seen.first)
        &&& seen.out_of_order matches Some(decoded) && !(decoded is Stalled)
    }
}

/// A whole check of what may be seen breaks no rule but those that rest on the strength of
/// cipher and signature.
pub proof fn lemma_noise_verdict(
    input: NoiseInput,
    data: Seq<u8>,
    seen: NoiseRun,
    verdict: Result<(), NoiseRule>,
)
    requires
        decides(verdict, (input, data, seen)),
        may_be_seen(input, data, seen),
    ensures
        verdict matches Err(rule) ==> rule.rests_on_ciphers(),
{
    let run = (input, data, seen);
    let corrupted = input.handshake_corruption is Some;
    if let Err(broken) = verdict {
        match broken {
            NoiseRule::Corrupted(rule) => {
                assert forall|lower: HandshakeRule| lower.rank() < rule.rank() implies
                    #[trigger] lower.holds((input, corrupted, seen.corrupted)) by {
                    assert(NoiseRule::Corrupted(lower).holds(run));
                }
                lemma_handshake_verdict(input, corrupted, seen.corrupted, Err(rule));
            },
            NoiseRule::First(rule) => {
                assert forall|lower: HandshakeRule| lower.rank() < rule.rank() implies
                    #[trigger] lower.holds((input, false, seen.first)) by {
                    assert(NoiseRule::First(lower).holds(run));
                }
                lemma_handshake_verdict(input, false, seen.first, Err(rule));
            },
            NoiseRule::Transport(rule) => {
                lemma_transport_verdict(input, data, seen.transport->0, rule);
            },
            NoiseRule::Second(rule) => {
                assert(NoiseRule::First(rule).holds(run));
            },
            NoiseRule::OutOfOrder => {},
        }
    }
}

/// Runs a whole check: a handshake that is corrupted if the input says so, a handshake and
/// a session, and the same handshake with a session in which the second ciphertext comes
/// first.
pub fn observe_noise(input: &NoiseInput, data: &[u8]) -> (seen: NoiseRun)
    requires
        is_frame(data@),
    ensures
        is_noise_run(*input, data@, seen),
        may_be_seen(*input, data@, seen),
{
    proof {
        lemma_frame_is_short(data@);
    }
    let (corrupted, _) = handshake(input, true);
    let (first, session) = handshake(input, false);
    let session = match session {
        Some(session) => session,
        None => {
            return NoiseRun { corrupted, first, transport: None, second: None, out_of_order: None };
        },
    };
    let transport = observe_transport(input, data, session.initiator, session.responder);
    let (second, session) = handshake(input, false);
    let out_of_order = match session {
        Some(session) => match encrypt_twice(session.initiator, data) {
            Some(sent) => {
                let mut decoder = new_decoder();
                let (_, state) = split(session.responder);
                let (decoded, _) = decode(&mut decoder, state, sent.second.as_slice());
                Some(decoded)
            },
            None => None,
        },
        None => None,
    };
    NoiseRun {
        corrupted,
        first,
        transport: Some(transport),
        second: Some(second),
        out_of_order,
    }
}

/// Checks handshake and transport. There is nothing to check if the frame would be
/// too long; otherwise the run comes back with the verdict on it. The only rules that it
/// can be found to break are those that rest on the strength of cipher and signature.
pub fn check_noise(input: &NoiseInput) -> (r: Option<(NoiseRun, Result<(), NoiseRule>)>)
    ensures
        r is None <==> input.filled_payload().len() > MAX_PAYLOAD_LEN,
        r matches Some((seen, verdict)) ==> {
            let data = frame(input.ext_type, input.msg_type, input.filled_payload());
            &&& is_noise_run(*input, data, seen)
            &&& decides(verdict, (*input, data, seen))
            &&& verdict matches Err(rule) ==> rule.rests_on_ciphers()
        },
{
    let data = match build_frame(input) {
        Some(data) => data,
        None => {
            return None;
        },
    };
    proof {
        lemma_frame_layout(input.ext_type, input.msg_type, input.filled_payload());
    }
    let seen = observe_noise(input, data.as_slice());
    let verdict = judge_noise(input, data.as_slice(), &seen);
    proof {
        lemma_noise_verdict(*input, data@, seen, verdict);
    }
    Some((seen, verdict))
}

/// A session passes exactly if the frame was encrypted twice, to two different ciphertexts of
/// the length that its payload and the pieces of that give them, the first gave back the frame
/// and was used up, and the second gave it back too unless a bit was flipped; then no frame may
/// come of it, and if nothing was flipped, none may come of the first when it is sent again. If
/// not, the verdict names the first of these things that is wrong.
pub proof fn law_transport(
    input: &NoiseInput,
    data: &[u8],
    seen: &TransportRun,
    pieces: int,
    verdict: Result<(), TransportRule>,
)
    requires
        data@.len() >= 6,
        65519 * (pieces - 1) < data@.len() - 6 <= 65519 * pieces,
        call_ensures(judge_transport, (input, data, seen), verdict),
    ensures
        verdict is Ok <==> {
            let c1 = seen.sent->0.first@;
            let c2 = seen.sent->0.second@;
            &&& seen.sent is Some
            &&& c1.len() == 22 + (data@.len() - 6) + 16 * pieces
            &&& c2.len() == c1.len()
            &&& c1 != c2
            &&& seen.first matches Decoded::Frame(bytes, consumed) && bytes@ == data@ && consumed
                == c1.len()
            &&& input.transport_corruption is Some ==> seen.second is Rejected
            &&& input.transport_corruption is None ==> {
                &&& seen.second matches Decoded::Frame(bytes, _) && bytes@ == data@
                &&& seen.replayed is Some
                &&& seen.replayed->0 is Rejected
            }
        },
        verdict matches Err(rule) ==> {
            let flipped = input.transport_corruption is Some;
            let len = data@.len() - 6;
            let c1 = seen.sent->0.first@;
            let c2 = seen.sent->0.second@;
            rule == (if seen.sent is None {
                TransportRule::Encrypts
            } else if c1.len() != 22 + len + 16 * pieces {
                TransportRule::Length
            } else if c1.len() != c2.len() {
                TransportRule::SameLength
            } else if c1 == c2 {
                TransportRule::Fresh
            } else if seen.first is Stalled {
                TransportRule::FirstProgress
            } else if seen.first is Rejected {
                TransportRule::FirstAccepted
            } else if seen.first matches Decoded::Frame(bytes, _) && bytes@ != data@ {
                TransportRule::FirstFrame
            } else if seen.first matches Decoded::Frame(_, consumed) && consumed != c1.len() {
                TransportRule::FirstConsumed
            } else if seen.second is Stalled {
                TransportRule::SecondProgress
            } else if flipped && seen.second is Frame {
                TransportRule::Integrity
            } else if !flipped && seen.second is Rejected {
                TransportRule::SecondAccepted
            } else if !flipped && (seen.second matches Decoded::Frame(bytes, _) && bytes@ != data@) {
                TransportRule::SecondFrame
            } else if seen.replayed is None || seen.replayed->0 is Stalled {
                TransportRule::ReplayProgress
            } else {
                TransportRule::Replay
            })
        },
{
    let run = (*input, data@, *seen);
    if verdict is Ok {
        assert(TransportRule::Encrypts.holds(run));
        assert(TransportRule::Length.holds(run));
        assert(TransportRule::SameLength.holds(run));
        assert(TransportRule::Fresh.holds(run));
        assert(TransportRule::FirstProgress.holds(run));
        assert(TransportRule::FirstAccepted.holds(run));
        assert(TransportRule::FirstFrame.holds(run));
        assert(TransportRule::FirstConsumed.holds(run));
        assert(TransportRule::SecondProgress.holds(run));
        assert(TransportRule::Integrity.holds(run));
        assert(TransportRule::SecondAccepted.holds(run));
        assert(TransportRule::SecondFrame.holds(run));
        assert(TransportRule::ReplayProgress.holds(run));
        assert(TransportRule::Replay.holds(run));
    }
    if let Err(broken) = verdict {
        if TransportRule::Encrypts.rank() < broken.rank() {
            assert(TransportRule::Encrypts.holds(run));
        }
        if TransportRule::Length.rank() < broken.rank() {
            assert(TransportRule::Length.holds(run));
        }
        if TransportRule::SameLength.rank() < broken.rank() {
            assert(TransportRule::SameLength.holds(run));
        }
        if TransportRule::Fresh.rank() < broken.rank() {
            assert(TransportRule::Fresh.holds(run));
        }
        if TransportRule::FirstProgress.rank() < broken.rank() {
            assert(TransportRule::FirstProgress.holds(run));
        }
        if TransportRule::FirstAccepted.rank() < broken.rank() {
            assert(TransportRule::FirstAccepted.holds(run));
        }
        if TransportRule::FirstFrame.rank() < broken.rank() {
            assert(TransportRule::FirstFrame.holds(run));
        }
        if TransportRule::FirstConsumed.rank() < broken.rank() {
            assert(TransportRule::FirstConsumed.holds(run));
        }
        if TransportRule::SecondProgress.rank() < broken.rank() {
            assert(TransportRule::SecondProgress.holds(run));
        }
        if TransportRule::Integrity.rank() < broken.rank() {
            assert(TransportRule::Integrity.holds(run));
        }
        if TransportRule::SecondAccepted.rank() < broken.rank() {
            assert(TransportRule::SecondAccepted.holds(run));
        }
        if TransportRule::SecondFrame.rank() < broken.rank() {
            assert(TransportRule::SecondFrame.holds(run));
        }
        if TransportRule::ReplayProgress.rank() < broken.rank() {
            assert(TransportRule::ReplayProgress.holds(run));
        }
    }
}

/// A decoder that asks for bytes is given them if there are enough, and starves otherwise. One
/// that asks for nothing is asked for a frame, and stalls at the third time in a row.
pub proof fn law_next_move(asked: usize, idle: u8, left: usize, r: Move)
    requires
        call_ensures(next_move, (asked, idle, left), r),
    ensures
        r == Move::Feed <==> 0 < asked <= left,
        r == Move::Starved <==> asked > left,
        r == Move::Ask <==> asked == 0 && idle <= 1,
        r == Move::Stalled <==> asked == 0 && idle >= 2,
{
}

/// Fewer than 22 bytes are no ciphertext of a frame: a decoder that holds nothing rejects them.
pub proof fn law_short_ciphertext(receiver: CipherState, ciphertext: Seq<u8>)
    requires
        ciphertext.len() < 22,
    ensures
        decoding(fresh_decoder(), receiver, ciphertext, 0, 0).decoded is Rejected,
{
}

/// Flipping a bit changes one byte, in one bit, and nothing else; flipping it again undoes it.
pub proof fn law_flip_bit(
    ciphertext: &Vec<u8>,
    byte: u32,
    bit: u8,
    once: Vec<u8>,
    twice: Vec<u8>,
)
    requires
        ciphertext@.len() > 0,
        call_ensures(flip_bit, (ciphertext, byte, bit), once),
        call_ensures(flip_bit, (&once, byte, bit), twice),
    ensures
        once@.len() == ciphertext@.len(),
        ({
            let place = byte as int % ciphertext@.len() as int;
            &&& once@[place] ^ ciphertext@[place] == 1u8 << (bit % 8)
            &&& forall|i: int|
                0 <= i < once@.len() && i != place ==> once@[i] == ciphertext@[i]
        }),
        once@ != ciphertext@,
        twice@ == ciphertext@,
{
    let place = byte as int % ciphertext@.len() as int;
    let x = ciphertext@[place];
    let m = 1u8 << (bit % 8);
    assert((x ^ m) ^ x == m && (x ^ m) ^ m == x) by (bit_vector);
    assert(twice@ =~= ciphertext@);
}

/// A whole check gets the verdict of its first part that fails: the handshake that may be
/// corrupted, the first handshake, and, only if that was accepted, its session and the second
/// handshake; and at last, only if that was accepted too, nothing may come of the ciphertext
/// that is out of order.
pub proof fn law_noise(
    input: &NoiseInput,
    data: &[u8],
    seen: &NoiseRun,
    corrupted: Result<(), HandshakeRule>,
    first: Result<(), HandshakeRule>,
    transport: Result<(), TransportRule>,
    second: Result<(), HandshakeRule>,
    verdict: Result<(), NoiseRule>,
)
    requires
        call_ensures(judge_noise, (input, data, seen), verdict),
        call_ensures(
            judge_handshake,
            (input, input.handshake_corruption is Some, &seen.corrupted),
            corrupted,
        ),
        call_ensures(judge_handshake, (input, false, &seen.first), first),
        seen.transport matches Some(run) ==> call_ensures(
            judge_transport,
            (input, data, &run),
            transport,
        ),
        seen.second matches Some(run) ==> call_ensures(
            judge_handshake,
            (input, false, &run),
            second,
        ),
    ensures
        ({
            let open = seen.first.finish == Some(Finish::Accepted);
            let open_again = seen.second is Some && seen.second->0.finish == Some(
                Finish::Accepted,
            );
            if let Err(rule) = corrupted {
                verdict == Err::<(), NoiseRule>(NoiseRule::Corrupted(rule))
            } else if let Err(rule) = first {
                verdict == Err::<(), NoiseRule>(NoiseRule::First(rule))
            } else if !open {
                verdict is Ok
            } else if seen.transport is None {
                verdict is Err
            } else if let Err(rule) = transport {
                verdict == Err::<(), NoiseRule>(NoiseRule::Transport(rule))
            } else if seen.second is None {
                verdict is Err
            } else if let Err(rule) = second {
                verdict == Err::<(), NoiseRule>(NoiseRule::Second(rule))
            } else if open_again && !(seen.out_of_order is Some && seen.out_of_order->0 is Rejected) {
                verdict == Err::<(), NoiseRule>(NoiseRule::OutOfOrder)
            } else {
                verdict is Ok
            }
        }),
{
    let run = (*input, data@, *seen);
    let open = seen.first.finish == Some(Finish::Accepted);
    if let Err(rule) = corrupted {
        lemma_names_first(verdict, NoiseRule::Corrupted(rule), run);
    } else if let Err(rule) = first {
        lemma_names_first(verdict, NoiseRule::First(rule), run);
    } else if open && seen.transport is None {
        assert(!NoiseRule::Transport(TransportRule::Encrypts).holds(run));
    } else if open && transport is Err {
        lemma_names_first(verdict, NoiseRule::Transport(transport->Err_0), run);
    } else if open && seen.second is None {
        assert(!NoiseRule::Second(HandshakeRule::Act1).holds(run));
    } else if open && second is Err {
        lemma_names_first(verdict, NoiseRule::Second(second->Err_0), run);
    } else if !NoiseRule::OutOfOrder.holds(run) {
        lemma_names_first(verdict, NoiseRule::OutOfOrder, run);
    } else {
        if let Err(broken) = verdict {
            match broken {
                NoiseRule::Corrupted(rule) => {
                    assert(rule.holds((*input, input.handshake_corruption is Some, seen.corrupted)));
                },
                NoiseRule::First(rule) => {
                    assert(rule.holds((*input, false, seen.first)));
                },
                NoiseRule::Transport(rule) => {
                    if open {
                        assert(rule.holds((*input, data@, seen.transport->0)));
                    }
                },
                NoiseRule::Second(rule) => {
                    if open {
                        assert(rule.holds((*input, false, seen.second->0)));
                    }
                },
                NoiseRule::OutOfOrder => {},
            }
        }
    }
}

/// A verdict names the first rule that is broken.
proof fn lemma_names_first(
    verdict: Result<(), NoiseRule>,
    rule: NoiseRule,
    run: (NoiseInput, Seq<u8>, NoiseRun),
)
    requires
        decides(verdict, run),
        !rule.holds(run),
        forall|lower: NoiseRule| lower.rank() < rule.rank() ==> #[trigger] lower.holds(run),
    ensures
        verdict == Err::<(), NoiseRule>(rule),
{
    if let Err(broken) = verdict {
        if broken.rank() < rule.rank() {
            assert(broken.holds(run));
        } else if rule.rank() < broken.rank() {
            assert(rule.holds(run));
        }
        assert(broken.rank() == rule.rank());
    } else {
        assert(rule.holds(run));
    }
}

/// A frame that is encrypted twice in a row is encrypted with the count where the cipher stands,
/// and then with the one behind all pieces of the first; both are as long as the pieces say, and
/// each gives back the frame to a receiver that stands at its count, and leaves it at the next.
pub proof fn law_encrypt_twice(
    transport: Transport,
    data: &[u8],
    pieces: int,
    r: Option<Ciphertexts>,
)
    requires
        is_frame(data@),
        65519 * (pieces - 1) < data@.len() - 6 <= 65519 * pieces,
        call_ensures(encrypt_twice, (transport, data), r),
    ensures
        ({
            let cipher = transport_state(transport).sending;
            let next = CipherState { key: cipher.key, count: cipher.count + 1 + pieces };
            let last = CipherState { key: cipher.key, count: cipher.count + 2 + 2 * pieces };
            &&& cipher.count >= 0 ==> (r is Some <==> last.count <= 0xffff_ffff_ffff_ffff)
            &&& cipher.count >= 0 ==> (r matches Some(sent) ==> {
                &&& sent.first@ == sealed(cipher, data@)
                &&& sent.second@ == sealed(next, data@)
                &&& sent.first@.len() == 22 + (data@.len() - 6) + 16 * pieces
                &&& sent.second@.len() == sent.first@.len()
                &&& decoding(fresh_decoder(), cipher, sent.first@, 0, 0) == (DecodeEnd {
                    decoded: DecodedView::Frame {
                        bytes: data@,
                        consumed: sent.first@.len() as int,
                    },
                    decoder: fresh_decoder(),
                    receiver: Some(next),
                })
                &&& decoding(fresh_decoder(), next, sent.second@, 0, 0) == (DecodeEnd {
                    decoded: DecodedView::Frame {
                        bytes: data@,
                        consumed: sent.second@.len() as int,
                    },
                    decoder: fresh_decoder(),
                    receiver: Some(last),
                })
            })
        }),
{
    lemma_frame_is_short(data@);
    assert(frame_pieces(data@) == 1 + pieces);
}

/// A decoder gives a frame exactly with the receiving half that can go on, takes no more bytes
/// than there are, and makes nothing of fewer than 22 bytes if it held none.
pub proof fn law_decode(
    decoder: &mut CipherDecoder,
    state: TransportDecryptState,
    ciphertext: &[u8],
    r: (Decoded, Option<TransportDecryptState>),
)
    requires
        call_ensures(decode, (decoder, state, ciphertext), r),
    ensures
        r.0 is Frame <==> r.1 is Some,
        r.0 matches Decoded::Frame(_, consumed) ==> consumed <= ciphertext@.len(),
        decoder_view(*old(decoder)) == fresh_decoder() ==> !(r.0 is Stalled),
        decoder_view(*old(decoder)) == fresh_decoder() && ciphertext@.len() < 22 ==> r.0 is Rejected,
        decoder_view(*old(decoder)) == fresh_decoder() && r.0 is Frame ==> decoder_view(
            *final(decoder),
        ) == fresh_decoder(),
{
}

/// Between two sides that agree, the first ciphertext gives the frame back and is used up; so
/// does the second if no bit was flipped, and then the first is sent once more, to a decoder that
/// holds nothing and a receiver that stands behind both. If a bit was flipped, what the decoder
/// gets differs from the second ciphertext in that bit.
pub proof fn law_observe_transport(
    input: &NoiseInput,
    data: &[u8],
    initiator: Transport,
    responder: Transport,
    pieces: int,
    sent: Option<Ciphertexts>,
    seen: TransportRun,
)
    requires
        is_frame(data@),
        65519 * (pieces - 1) < data@.len() - 6 <= 65519 * pieces,
        agree(transport_state(initiator), transport_state(responder)),
        call_ensures(encrypt_twice, (initiator, data), sent),
        call_ensures(observe_transport, (input, data, initiator, responder), seen),
    ensures
        ({
            let key = transport_state(initiator).sending.key;
            let next = CipherState { key, count: 1 + pieces };
            let last = CipherState { key, count: 2 + 2 * pieces };
            &&& seen.sent matches Some(sent) && {
                &&& sent.first@ == sealed(CipherState { key, count: 0 }, data@)
                &&& sent.second@ == sealed(next, data@)
                &&& seen.first matches Decoded::Frame(bytes, consumed) && bytes@ == data@ && consumed
                    == sent.first@.len()
                &&& input.transport_corruption is None ==> {
                    &&& seen.second matches Decoded::Frame(bytes, consumed) && bytes@ == data@
                        && consumed == sent.second@.len()
                    &&& seen.replayed matches Some(replayed) && replayed@ == decoding(
                        fresh_decoder(),
                        last,
                        sent.first@,
                        0,
                        0,
                    ).decoded
                }
                &&& input.transport_corruption matches Some((byte, bit)) ==> {
                    let place = byte as int % sent.second@.len() as int;
                    &&& seen.replayed is None
                    &&& seen.second@ == decoding(
                        fresh_decoder(),
                        next,
                        sent.second@.update(place, sent.second@[place] ^ (1u8 << (bit % 8))),
                        0,
                        0,
                    ).decoded
                }
            }
        }),
{
    lemma_frame_is_short(data@);
    assert(frame_pieces(data@) == 1 + pieces);
    let cipher = transport_state(initiator).sending;
    assert(cipher == (CipherState { key: cipher.key, count: 0 }));
    law_encrypt_twice(initiator, data, pieces, sent);
}

/// A whole check is made exactly if filler and payload together are at most 0xffffff bytes long.
/// If both sides do what they should, it can fail in nothing but what rests on the strength of
/// cipher and signature: a corrupted or foreign certificate that is accepted, two ciphertexts
/// that are the same, or a frame that comes of a flipped, repeated or early ciphertext.
pub proof fn law_check_noise(input: &NoiseInput, r: Option<(NoiseRun, Result<(), NoiseRule>)>)
    requires
        call_ensures(check_noise, (input,), r),
    ensures
        r is Some <==> 65519 * (input.extra_chunks % 3) + input.payload@.len() <= 0xff_ffff,
        r matches Some((seen, Err(rule))) ==> match rule {
            NoiseRule::Corrupted(rule) => rule == HandshakeRule::Corrupted || rule
                == HandshakeRule::WrongAuthority,
            NoiseRule::First(rule) => rule == HandshakeRule::Corrupted || rule
                == HandshakeRule::WrongAuthority,
            NoiseRule::Transport(rule) => rule == TransportRule::Fresh || rule
                == TransportRule::Integrity || rule == TransportRule::Replay,
            NoiseRule::Second(rule) => rule == HandshakeRule::Corrupted || rule
                == HandshakeRule::WrongAuthority,
            NoiseRule::OutOfOrder => true,
        },
        r matches Some((seen, Ok(()))) ==> {
            &&& input.handshake_corruption is Some ==> seen.corrupted.finish != Some(
                Finish::Accepted,
            )
            &&& input.authority == crate::noise::Authority::Wrong ==> seen.first.finish != Some(
                Finish::Accepted,
            )
            &&& seen.first.finish == Some(Finish::Accepted) ==> {
                &&& seen.out_of_order matches Some(decoded) && decoded is Rejected
                &&& seen.transport matches Some(transport) && {
                    &&& transport.sent matches Some(sent) && sent.first@ != sent.second@
                    &&& input.transport_corruption is Some ==> transport.second is Rejected
                    &&& input.transport_corruption is None ==> (
                    transport.replayed matches Some(replayed) && replayed is Rejected)
                }
            }
        },
{
    assert(input.filled_payload().len() == 65519 * (input.extra_chunks % 3) + input.payload@.len());
    if let Some((seen, verdict)) = r {
        let data = frame(input.ext_type, input.msg_type, input.filled_payload());
        let run = (*input, data, seen);
        if verdict is Ok {
            assert(NoiseRule::Corrupted(HandshakeRule::Corrupted).holds(run));
            assert(NoiseRule::First(HandshakeRule::WrongAuthority).holds(run));
            assert(NoiseRule::OutOfOrder.holds(run));
            assert(NoiseRule::Transport(TransportRule::Encrypts).holds(run));
            assert(NoiseRule::Transport(TransportRule::Fresh).holds(run));
            assert(NoiseRule::Transport(TransportRule::SecondProgress).holds(run));
            assert(NoiseRule::Transport(TransportRule::Integrity).holds(run));
            assert(NoiseRule::Transport(TransportRule::ReplayProgress).holds(run));
            assert(NoiseRule::Transport(TransportRule::Replay).holds(run));
        }
    }
}

/// In a whole check, the first handshake is the one whose second message may be corrupted, and
/// the other two are not; the session runs over what the second of them gives, and what comes too
/// early is the second ciphertext, at a decoder that holds nothing and a receiver that has
/// received nothing. Without a completed handshake nothing is sent.
pub proof fn law_observe_noise(
    input: &NoiseInput,
    data: &[u8],
    disturbed: (HandshakeSeen, Option<Session>),
    plain: (HandshakeSeen, Option<Session>),
    sent: Option<Ciphertexts>,
    seen: NoiseRun,
)
    requires
        is_frame(data@),
        call_ensures(handshake, (input, true), disturbed),
        call_ensures(handshake, (input, false), plain),
        plain.1 matches Some(session) ==> call_ensures(
            encrypt_twice,
            (session.initiator, data),
            sent,
        ),
        call_ensures(observe_noise, (input, data), seen),
    ensures
        seen.corrupted == disturbed.0,
        seen.first == plain.0,
        plain.1 is None ==> seen.transport is None && seen.second is None && seen.out_of_order is
            None,
        plain.1 matches Some(session) ==> {
            let key = transport_state(session.initiator).sending.key;
            &&& seen.second == Some(plain.0)
            &&& seen.transport matches Some(transport) && transport.sent is Some
            &&& sent matches Some(texts) && {
                &&& (seen.transport->0).sent->0.first@ == texts.first@
                &&& (seen.transport->0).sent->0.second@ == texts.second@
                &&& (seen.transport->0).first matches Decoded::Frame(bytes, _) && bytes@ == data@
                &&& seen.out_of_order matches Some(decoded) && decoded@ == decoding(
                    fresh_decoder(),
                    CipherState { key, count: 0 },
                    texts.second@,
                    0,
                    0,
                ).decoded
            }
        },
{
    if let Some(session) = plain.1 {
        let cipher = transport_state(session.initiator).sending;
        assert(cipher == (CipherState { key: cipher.key, count: 0 }));
    }
}

} // verus!
