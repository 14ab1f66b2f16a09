//! The streaming decoder: frames out of a byte stream, request by request.

use crate::bytes::{join, same_bytes};
#[allow(unused_imports)]
use crate::bytes::seen;
use crate::frames::HEADER_LEN;
#[allow(unused_imports)]
use crate::frames::{is_frame, lemma_frame_is_short, lemma_short_numbers, wire_len};
#[allow(unused_imports)]
use crate::rules::{decides, decides_between, Rule};
use codec_sv2::{Decoded, Decoder, Encoder};
use framing_sv2::framing::SerializedFrame;
use vstd::prelude::*;

verus! {

/// The most bytes that the decoder asks for at once.
pub const MAX_REQUEST: usize = 65535;

/// The decoder of `codec_sv2` for frames that are not encrypted.
#[verifier::external_body]
pub struct FrameDecoder {
    inner: Decoder,
}

/// The bytes that a decoder holds and has not handed out.
pub uninterp spec fn buffered(decoder: FrameDecoder) -> Seq<u8>;

/// How many bytes a decoder still needs before it can go on.
pub uninterp spec fn wanted(decoder: FrameDecoder) -> int;

/// How many of the bytes that are needed are asked for at once.
pub open spec fn request(needed: int) -> int {
    if needed < MAX_REQUEST {
        needed
    } else {
        MAX_REQUEST as int
    }
}

/// How many bytes are missing from the frame that `bytes` begin: the rest of the
/// header, or the rest of the frame.
pub open spec fn missing(bytes: Seq<u8>) -> int {
    if bytes.len() < HEADER_LEN {
        HEADER_LEN - bytes.len()
    } else {
        HEADER_LEN + wire_len(bytes) - bytes.len()
    }
}

/// What asking a decoder for a frame led to.
pub enum Outcome {
    /// The bytes of a frame.
    Frame(Vec<u8>),
    /// A request for that many bytes more.
    Missing(usize),
    /// A failure.
    Failed,
    /// It was not asked: its request for bytes could not be met.
    Unfed,
}

/// Calls `Decoder::new` of `codec_sv2`: a decoder that holds nothing and waits for
/// a header.
#[verifier::external_body]
fn new_decoder() -> (r: FrameDecoder)
    ensures
        buffered(r) == Seq::<u8>::empty(),
        wanted(r) == HEADER_LEN,
{
    FrameDecoder { inner: Decoder::new() }
}

/// Calls `Decoder::writable_len` of `codec_sv2`: how many bytes it asks for.
#[verifier::external_body]
fn writable_len(decoder: &FrameDecoder) -> (r: usize)
    ensures
        r == request(wanted(*decoder)),
{
    decoder.inner.writable_len()
}

/// Calls `Decoder::writable` of `codec_sv2` and fills the buffer that it hands out,
/// which is as long as the request: the bytes are put behind those already held.
#[verifier::external_body]
fn fill(decoder: &mut FrameDecoder, chunk: &[u8])
    requires
        chunk@.len() == request(wanted(*old(decoder))),
    ensures
        buffered(*final(decoder)) == buffered(*old(decoder)) + chunk@,
        wanted(*final(decoder)) == wanted(*old(decoder)),
{
    decoder.inner.writable().copy_from_slice(chunk);
}

/// Calls `Decoder::next_frame` of `codec_sv2`. Once a whole frame is held, it comes
/// out, what follows it stays, and a header is waited for. Until then the decoder
/// asks for what is missing. It never fails.
#[verifier::external_body]
fn next_frame(decoder: &mut FrameDecoder) -> (r: Outcome)
    ensures
        ({
            let bytes = buffered(*old(decoder));
            let needed = missing(bytes);
            if needed > 0 {
                &&& r == Outcome::Missing(request(needed) as usize)
                &&& buffered(*final(decoder)) == bytes
                &&& wanted(*final(decoder)) == needed
            } else {
                let end = bytes.len() + needed;
                let kept = bytes.skip(end);
                &&& r matches Outcome::Frame(out) && out@ == bytes.take(end)
                &&& buffered(*final(decoder)) == kept
                &&& wanted(*final(decoder)) == (if kept.len() < HEADER_LEN {
                    HEADER_LEN - kept.len()
                } else {
                    0
                })
            }
        }),
{
    match decoder.inner.next_frame() {
        Ok(Decoded::Frame(frame)) => Outcome::Frame(frame.as_bytes().to_vec()),
        Ok(Decoded::Incomplete(missing)) => Outcome::Missing(missing),
        Err(_) => Outcome::Failed,
    }
}

/// Calls `Encoder::encode` of `codec_sv2` on the frame that `data` is: it gives the
/// bytes of the frame back. There is nothing to encode if `data` is no frame.
#[verifier::external_body]
fn encode(data: &[u8]) -> (r: Option<Vec<u8>>)
    ensures
        seen(r) == (if is_frame(data@) {
            Some(data@)
        } else {
            None
        }),
{
    let frame = SerializedFrame::from_bytes(data.to_vec()).ok()?;
    Encoder::new().encode(frame).ok()
}

/// One request of a decoder, and what came of meeting it.
pub struct Step {
    pub asked: usize,
    pub outcome: Outcome,
}

/// A decoder that is given a header alone: its first request, what came of the
/// header, and its next request.
pub struct TruncatedRun {
    pub asked: usize,
    pub outcome: Outcome,
    pub asked_next: usize,
}

/// What the encoder and the decoder did with a frame: the encoding, the requests
/// for a stream of two such frames, and the requests for a header alone.
pub struct StreamRun {
    pub encoded: Option<Vec<u8>>,
    pub steps: Vec<Step>,
    pub truncated: Option<TruncatedRun>,
}

/// How many bytes the first `n` requests took from the stream.
pub open spec fn taken(steps: Seq<Step>, n: int) -> int
    decreases n,
{
    if n <= 0 {
        0
    } else {
        taken(steps, n - 1) + steps[n - 1].asked
    }
}

/// How many frames the first `n` requests brought.
pub open spec fn frames_out(steps: Seq<Step>, n: int) -> int
    decreases n,
{
    if n <= 0 {
        0
    } else {
        frames_out(steps, n - 1) + if steps[n - 1].outcome is Frame {
            1int
        } else {
            0
        }
    }
}

/// What must hold of one request, in the order of checking.
#[derive(Clone, Copy, Debug, PartialEq, Eq, Structural)]
pub enum StepRule {
    /// The decoder asks for something while there is data left.
    Asks,
    /// The decoder does not ask for bytes past the end.
    Boundary,
    /// A frame that comes out is the one that went in, and a request for more
    /// bytes is for at least one. There is no other outcome.
    Outcome,
}

impl StepRule {
    /// The place of a rule in the order of checking.
    pub open spec fn place(self) -> int {
        match self {
            StepRule::Asks => 0,
            StepRule::Boundary => 1,
            StepRule::Outcome => 2,
        }
    }

    /// What the rule says of request `i`.
    pub open spec fn says(self, data: Seq<u8>, steps: Seq<Step>, i: int) -> bool {
        match self {
            StepRule::Asks => steps[i].asked > 0,
            StepRule::Boundary => taken(steps, i) + steps[i].asked <= 2 * data.len(),
            StepRule::Outcome => match steps[i].outcome {
                Outcome::Frame(bytes) => bytes@ == data,
                Outcome::Missing(missing) => missing > 0,
                Outcome::Failed => false,
                Outcome::Unfed => false,
            },
        }
    }
}

/// What must hold of encoder and decoder, in the order of checking.
#[derive(Clone, Copy, Debug, PartialEq, Eq, Structural)]
pub enum StreamRule {
    /// Encoding a frame gives the bytes that it was made from.
    Encoder,
    /// The rules about one request.
    Step(usize, StepRule),
    /// Two frames in, two frames out.
    FrameCount,
    /// One request for a frame without payload, two for any other.
    RequestCount,
    /// A decoder asks for a header first.
    HeaderRequest,
    /// A header alone is no frame: exactly the announced length is missing.
    HeaderAlone,
    /// Then the decoder asks for exactly that.
    PayloadRequest,
}

/// The rank of the first rule after those about single requests.
pub open spec fn after_steps() -> int {
    1int + 3 * 0x1_0000_0000_0000_0000
}

impl Rule for StreamRule {
    type Run = (Seq<u8>, StreamRun);

    open spec fn rank(self) -> int {
        match self {
            StreamRule::Encoder => 0,
            StreamRule::Step(i, rule) => 1 + 3 * i + rule.place(),
            StreamRule::FrameCount => after_steps(),
            StreamRule::RequestCount => after_steps() + 1,
            StreamRule::HeaderRequest => after_steps() + 2,
            StreamRule::HeaderAlone => after_steps() + 3,
            StreamRule::PayloadRequest => after_steps() + 4,
        }
    }

    open spec fn holds(self, run: (Seq<u8>, StreamRun)) -> bool {
        let data = run.0;
        let steps = run.1.steps@;
        let payload_len = data.len() - HEADER_LEN;
        let cut = payload_len > 0;
        match self {
            StreamRule::Encoder => seen(run.1.encoded) == Some(data),
            StreamRule::Step(i, rule) => i < steps.len() ==> rule.says(data, steps, i as int),
            StreamRule::FrameCount => frames_out(steps, steps.len() as int) == 2,
            StreamRule::RequestCount => steps.len() == (if payload_len == 0 {
                2int
            } else {
                4
            }),
            StreamRule::HeaderRequest => cut ==> run.1.truncated is Some
                && run.1.truncated->0.asked == HEADER_LEN,
            StreamRule::HeaderAlone => cut && run.1.truncated is Some
                ==> run.1.truncated->0.outcome == Outcome::Missing(payload_len as usize),
            StreamRule::PayloadRequest => cut && run.1.truncated is Some
                ==> run.1.truncated->0.asked_next == payload_len,
        }
    }
}

/// Judges the requests one by one.
fn judge_steps(data: &[u8], run: &StreamRun) -> (r: Result<(), StreamRule>)
    requires
        data@.len() <= usize::MAX / 2,
    ensures
        decides_between(r, (data@, *run), 1, after_steps()),
{
    let total: usize = 2 * data.len();
    let mut pos: usize = 0;
    let mut i: usize = 0;
    while i < run.steps.len()
        invariant
            data@.len() <= usize::MAX / 2,
            total == 2 * data@.len(),
            i <= run.steps@.len(),
            pos == taken(run.steps@, i as int),
            pos <= total,
            forall|rule: StreamRule|
                1 <= rule.rank() < 1 + 3 * i ==> #[trigger] rule.holds((data@, *run)),
        decreases run.steps@.len() - i,
    {
        let step = &run.steps[i];
        let broken = if step.asked == 0 {
            Some(StepRule::Asks)
        } else if step.asked > total - pos {
            Some(StepRule::Boundary)
        } else {
            let fine = match &step.outcome {
                Outcome::Frame(bytes) => same_bytes(bytes.as_slice(), data),
                Outcome::Missing(missing) => *missing > 0,
                Outcome::Failed => false,
                Outcome::Unfed => false,
            };
            if fine {
                None
            } else {
                Some(StepRule::Outcome)
            }
        };
        if let Some(rule) = broken {
            let verdict = StreamRule::Step(i, rule);
            proof {
                assert(!verdict.holds((data@, *run)));
                assert forall|rule: StreamRule| 1 <= rule.rank() < verdict.rank() implies #[trigger] rule.holds(
                (data@, *run)) by {
                    if rule.rank() >= 1 + 3 * i {
                        assert(rule matches StreamRule::Step(k, _) && k == i);
                    }
                }
            }
            return Err(verdict);
        }
        proof {
            assert forall|rule: StreamRule| 1 <= rule.rank() < 1 + 3 * (i + 1) implies #[trigger] rule.holds(
            (data@, *run)) by {
                if rule.rank() >= 1 + 3 * i {
                    assert(rule matches StreamRule::Step(k, _) && k == i);
                }
            }
        }
        pos = pos + step.asked;
        i += 1;
    }
    proof {
        assert forall|rule: StreamRule| 1 <= rule.rank() < after_steps() implies #[trigger] rule.holds(
        (data@, *run)) by {
            assert(rule is Step);
        }
    }
    Ok(())
}

/// How many frames came out.
fn count_frames(steps: &Vec<Step>) -> (r: usize)
    ensures
        r == frames_out(steps@, steps@.len() as int),
{
    let mut r: usize = 0;
    let mut i: usize = 0;
    while i < steps.len()
        invariant
            i <= steps@.len(),
            r == frames_out(steps@, i as int),
            r <= i,
        decreases steps@.len() - i,
    {
        if let Outcome::Frame(_) = &steps[i].outcome {
            r += 1;
        }
        i += 1;
    }
    r
}

/// Judges what encoder and decoder did with a frame: the first rule that is
/// broken, if there is one.
pub fn judge_stream(data: &[u8], run: &StreamRun) -> (r: Result<(), StreamRule>)
    requires
        HEADER_LEN <= data@.len() <= usize::MAX / 2,
    ensures
        decides(r, (data@, *run)),
{
    let encoded = match &run.encoded {
        Some(bytes) => same_bytes(bytes.as_slice(), data),
        None => false,
    };
    if !encoded {
        assert(!StreamRule::Encoder.holds((data@, *run)));
        return Err(StreamRule::Encoder);
    }
    match judge_steps(data, run) {
        Err(rule) => {
            return Err(rule);
        },
        Ok(()) => {},
    }
    if count_frames(&run.steps) != 2 {
        assert(!StreamRule::FrameCount.holds((data@, *run)));
        return Err(StreamRule::FrameCount);
    }
    let payload_len: usize = data.len() - HEADER_LEN;
    let expected: usize = if payload_len == 0 {
        2
    } else {
        4
    };
    if run.steps.len() != expected {
        assert(!StreamRule::RequestCount.holds((data@, *run)));
        return Err(StreamRule::RequestCount);
    }
    if payload_len > 0 {
        match &run.truncated {
            None => {
                assert(!StreamRule::HeaderRequest.holds((data@, *run)));
                return Err(StreamRule::HeaderRequest);
            },
            Some(truncated) => {
                if truncated.asked != HEADER_LEN {
                    assert(!StreamRule::HeaderRequest.holds((data@, *run)));
                    return Err(StreamRule::HeaderRequest);
                }
                let alone = match &truncated.outcome {
                    Outcome::Missing(missing) => *missing == payload_len,
                    _ => false,
                };
                if !alone {
                    assert(!StreamRule::HeaderAlone.holds((data@, *run)));
                    return Err(StreamRule::HeaderAlone);
                }
                if truncated.asked_next != payload_len {
                    assert(!StreamRule::PayloadRequest.holds((data@, *run)));
                    return Err(StreamRule::PayloadRequest);
                }
            },
        }
    }
    Ok(())
}

/// How many requests a frame takes: one for the header, and one for each part of
/// the payload that is asked for at once.
pub open spec fn schedule(payload_len: int) -> int {
    1 + (payload_len + MAX_REQUEST - 1) / (MAX_REQUEST as int)
}

/// A frame takes one request exactly if it has no payload, and two exactly if its
/// payload can be asked for at once.
pub proof fn lemma_schedule(payload_len: int)
    requires
        payload_len >= 0,
    ensures
        schedule(payload_len) == 1 <==> payload_len == 0,
        schedule(payload_len) == 2 <==> 0 < payload_len <= MAX_REQUEST,
        schedule(payload_len) > 2 <==> payload_len > MAX_REQUEST,
{
}

/// What is missing from the beginning of a frame is what follows there.
proof fn lemma_missing(data: Seq<u8>, o: int)
    requires
        is_frame(data),
        HEADER_LEN <= o <= data.len(),
    ensures
        missing(data.take(o)) == data.len() - o,
{
    assert(data.take(o).subrange(3, 6) =~= data.subrange(3, 6));
}

/// Steps taken before stay as they were when one more is recorded.
proof fn lemma_record(steps: Seq<Step>, step: Step, n: int)
    requires
        0 <= n <= steps.len(),
    ensures
        taken(steps.push(step), n) == taken(steps, n),
        frames_out(steps.push(step), n) == frames_out(steps, n),
    decreases n,
{
    if n > 0 {
        lemma_record(steps, step, n - 1);
    }
}

/// What a decoder does with a stream of two frames: each takes as many requests as
/// the schedule says, none of them for nothing or past the end, and comes out as
/// it went in.
pub open spec fn two_frames(data: Seq<u8>, steps: Seq<Step>) -> bool {
    &&& steps.len() == 2 * schedule(data.len() - HEADER_LEN)
    &&& taken(steps, steps.len() as int) == 2 * data.len()
    &&& frames_out(steps, steps.len() as int) == 2
    &&& forall|i: int, rule: StepRule|
        0 <= i < steps.len() ==> #[trigger] rule.says(data, steps, i)
}

/// Feeds a decoder a stream of two copies of a frame, each request as it comes.
fn feed_twice(data: &[u8]) -> (steps: Vec<Step>)
    requires
        is_frame(data@),
        data@.len() <= usize::MAX / 2,
    ensures
        two_frames(data@, steps@),
{
    let stream = join(data, data);
    let mut decoder = new_decoder();
    let mut steps: Vec<Step> = Vec::new();
    let mut pos: usize = 0;
    let ghost len = data@.len() as int;
    let ghost per_frame = schedule(len - HEADER_LEN);
    // Frames that came out, and requests for parts of a payload since.
    let ghost mut k: int = 0;
    let ghost mut m: int = 0;
    assert(data@.take(0) =~= Seq::<u8>::empty());
    while pos < stream.len()
        invariant
            is_frame(data@),
            len == data@.len(),
            per_frame == schedule(len - HEADER_LEN),
            data@.len() <= usize::MAX / 2,
            stream@ == data@ + data@,
            pos <= stream@.len(),
            0 <= k <= 2,
            m >= 0,
            k * len <= pos,
            pos - k * len < len,
            k == 2 ==> pos == 2 * len,
            ({
                let o = pos - k * len;
                &&& buffered(decoder) == data@.take(o)
                &&& o == 0 ==> wanted(decoder) == HEADER_LEN && steps@.len() == k * per_frame && m
                    == 0
                &&& o != 0 ==> {
                    &&& o == HEADER_LEN + MAX_REQUEST * m
                    &&& wanted(decoder) == len - o
                    &&& steps@.len() == k * per_frame + 1 + m
                }
            }),
            taken(steps@, steps@.len() as int) == pos,
            frames_out(steps@, steps@.len() as int) == k,
            forall|i: int, rule: StepRule|
                0 <= i < steps@.len() ==> #[trigger] rule.says(data@, steps@, i),
        decreases stream@.len() - pos,
    {
        let asked: usize = writable_len(&decoder);
        assert(k == 0 || k == 1);
        assert(0 < asked <= stream@.len() - pos);
        if asked == 0 || asked > stream.len() - pos {
            steps.push(Step { asked, outcome: Outcome::Unfed });
            return steps;
        }
        let ghost o = pos - k * len;
        let ghost before = steps@;
        let chunk = &stream.as_slice()[pos..pos + asked];
        proof {
            assert(chunk@ =~= data@.subrange(o, o + asked)) by {
                assert forall|i: int| 0 <= i < asked implies chunk@[i] == data@[o + i] by {
                    assert(chunk@[i] == stream@[pos + i]);
                }
            }
            assert(data@.take(o) + chunk@ =~= data@.take(o + asked));
        }
        fill(&mut decoder, chunk);
        proof {
            lemma_missing(data@, o + asked);
        }
        let outcome = next_frame(&mut decoder);
        pos = pos + asked;
        let step = Step { asked, outcome };
        proof {
            assert(data@.take(len) =~= data@);
            assert(data@.take(len).take(len) =~= data@);
            assert(data@.take(len).skip(len) =~= data@.take(0));
            lemma_record(before, step, before.len() as int);
            assert forall|i: int, rule: StepRule| 0 <= i < before.push(step).len() implies #[trigger] rule.says(
                data@,
                before.push(step),
                i,
            ) by {
                if i < before.len() {
                    assert(rule.says(data@, before, i));
                    lemma_record(before, step, i);
                }
            }
            if o + asked == len {
                k = k + 1;
                m = 0;
            } else if o > 0 {
                m = m + 1;
            }
        }
        steps.push(step);
    }
    steps
}

/// Gives a decoder the header of a frame and nothing more. It does not yield a
/// frame: it asks for the header, and then for the payload, or as much of it as it
/// asks for at once.
fn feed_header(data: &[u8]) -> (r: TruncatedRun)
    requires
        is_frame(data@),
        data@.len() > HEADER_LEN,
    ensures
        r.asked == HEADER_LEN,
        r.outcome == Outcome::Missing(request(data@.len() - HEADER_LEN) as usize),
        r.asked_next == request(data@.len() - HEADER_LEN),
{
    let mut decoder = new_decoder();
    let asked: usize = writable_len(&decoder);
    let header = &data[0..HEADER_LEN];
    fill(&mut decoder, header);
    proof {
        assert(buffered(decoder) =~= data@.take(HEADER_LEN as int));
        lemma_missing(data@, HEADER_LEN as int);
    }
    let outcome = next_frame(&mut decoder);
    let asked_next: usize = writable_len(&decoder);
    TruncatedRun { asked, outcome, asked_next }
}

/// `run` is what encoder and decoder do with `data`: there is a run exactly if it is a
/// frame, and then the encoding is the frame, two frames come out of a stream of two, and
/// a header alone is answered with a request for the payload, or as much of it as is asked
/// for at once.
pub open spec fn is_stream_run(data: Seq<u8>, run: Option<StreamRun>) -> bool {
    &&& run is Some <==> is_frame(data)
    &&& run matches Some(run) ==> {
        &&& seen(run.encoded) == Some(data)
        &&& two_frames(data, run.steps@)
        &&& run.truncated is Some <==> data.len() > HEADER_LEN
        &&& run.truncated matches Some(truncated) ==> {
            &&& truncated.asked == HEADER_LEN
            &&& truncated.outcome == Outcome::Missing(request(data.len() - HEADER_LEN) as usize)
            &&& truncated.asked_next == request(data.len() - HEADER_LEN)
        }
    }
}

/// Runs encoder and decoder on a frame; there is no run if `data` is none.
pub fn observe_stream(data: &[u8]) -> (r: Option<StreamRun>)
    ensures
        is_stream_run(data@, r),
{
    let encoded = match encode(data) {
        Some(encoded) => encoded,
        None => {
            return None;
        },
    };
    proof {
        lemma_frame_is_short(data@);
    }
    let steps = feed_twice(data);
    let truncated = if data.len() > HEADER_LEN {
        Some(feed_header(data))
    } else {
        None
    };
    Some(StreamRun { encoded: Some(encoded), steps, truncated })
}

/// The verdict on what encoder and decoder do with a frame: no rule is broken if the payload
/// can be asked for at once, and otherwise the one about the number of requests.
proof fn lemma_stream_verdict(data: Seq<u8>, run: StreamRun, verdict: Result<(), StreamRule>)
    requires
        is_frame(data),
        is_stream_run(data, Some(run)),
        decides(verdict, (data, run)),
    ensures
        match verdict {
            Ok(()) => data.len() - HEADER_LEN <= MAX_REQUEST,
            Err(rule) => data.len() - HEADER_LEN > MAX_REQUEST && rule
                == StreamRule::RequestCount,
        },
{
    lemma_frame_is_short(data);
    lemma_schedule(data.len() - HEADER_LEN);
    assert(StreamRule::Encoder.holds((data, run)));
    assert forall|i: usize, rule: StepRule| #[trigger] StreamRule::Step(i, rule).holds(
        (data, run),
    ) by {
        if i < run.steps@.len() {
            assert(rule.says(data, run.steps@, i as int));
        }
    }
    assert(StreamRule::FrameCount.holds((data, run)));
    match verdict {
        Ok(()) => {
            assert(StreamRule::RequestCount.holds((data, run)));
        },
        Err(StreamRule::Step(i, step)) => {
            assert(StreamRule::Step(i, step).holds((data, run)));
        },
        Err(_) => {
            if data.len() - HEADER_LEN > MAX_REQUEST {
                assert(!StreamRule::RequestCount.holds((data, run)));
            }
        },
    }
}

/// Checks encoder and decoder on a frame. The run comes back with the verdict on it; there
/// is none if `data` is no frame. A frame whose payload is longer than the decoder asks for
/// at once takes more requests than one for the header and one for the payload; no other
/// rule is broken before that one, and no rule at all by a shorter frame.
pub fn check_stream(data: &[u8]) -> (r: (Option<StreamRun>, Result<(), StreamRule>))
    ensures
        is_stream_run(data@, r.0),
        r.0 matches Some(run) ==> decides(r.1, (data@, run)),
        r.1 == if is_frame(data@) && data@.len() - HEADER_LEN > MAX_REQUEST {
            Err(StreamRule::RequestCount)
        } else {
            Ok(())
        },
{
    match observe_stream(data) {
        None => (None, Ok(())),
        Some(run) => {
            proof {
                lemma_frame_is_short(data@);
            }
            let verdict = judge_stream(data, &run);
            proof {
                lemma_stream_verdict(data@, run, verdict);
            }
            match verdict {
                Ok(()) => (Some(run), Ok(())),
                Err(rule) => (Some(run), Err(rule)),
            }
        },
    }
}

/// The requests of a stream take what was asked for, one after the other, and bring as many
/// frames as there are outcomes that are one.
pub proof fn law_taken(steps: Seq<Step>, n: int)
    requires
        0 <= n < steps.len(),
    ensures
        taken(steps, 0) == 0,
        taken(steps, n + 1) == taken(steps, n) + steps[n].asked,
        frames_out(steps, 0) == 0,
        steps[n].outcome is Frame ==> frames_out(steps, n + 1) == frames_out(steps, n) + 1,
        !(steps[n].outcome is Frame) ==> frames_out(steps, n + 1) == frames_out(steps, n),
{
}

/// A run passes exactly if the encoding is the frame, and a stream of two frames was asked for
/// in two requests if there is no payload, and in four otherwise: each for at least one byte,
/// none past the end, each answered with the frame or with a request for more, and the frame
/// twice; and if, given a header with a payload to come, the decoder asked for six bytes first,
/// brought no frame, and then asked for exactly the payload.
pub proof fn law_stream(data: &[u8], run: &StreamRun, j: int, verdict: Result<(), StreamRule>)
    requires
        6 <= data@.len() <= usize::MAX / 2,
        call_ensures(judge_stream, (data, run), verdict),
    ensures
        verdict is Ok <==> {
            let steps = run.steps@;
            let payload = data@.len() - 6;
            let one = |i: int|
                if steps[i].outcome is Frame {
                    1int
                } else {
                    0
                };
            &&& run.encoded is Some
            &&& run.encoded->0@ == data@
            &&& steps.len() == (if payload == 0 {
                2int
            } else {
                4
            })
            &&& forall|i: int|
                0 <= i < steps.len() ==> (#[trigger] steps[i]).asked > 0 && match steps[i].outcome {
                    Outcome::Frame(bytes) => bytes@ == data@,
                    Outcome::Missing(missing) => missing > 0,
                    Outcome::Failed => false,
                    Outcome::Unfed => false,
                }
            &&& payload == 0 ==> one(0) + one(1) == 2 && steps[0].asked + steps[1].asked <= 2
                * data@.len()
            &&& payload > 0 ==> {
                &&& one(0) + one(1) + one(2) + one(3) == 2
                &&& steps[0].asked + steps[1].asked + steps[2].asked + steps[3].asked <= 2
                    * data@.len()
                &&& run.truncated is Some
                &&& run.truncated->0.asked == 6
                &&& run.truncated->0.outcome matches Outcome::Missing(missing) && missing
                    == payload
                &&& run.truncated->0.asked_next == payload
            }
        },
        verdict matches Err(rule) ==> {
            let payload = data@.len() - 6;
            if !(run.encoded is Some && run.encoded->0@ == data@) {
                rule == StreamRule::Encoder
            } else if let StreamRule::Step(i, broken) = rule {
                let step = run.steps@[i as int];
                &&& i < run.steps@.len()
                &&& broken == StepRule::Asks <==> step.asked == 0
                &&& broken == StepRule::Boundary <==> step.asked > 0 && taken(run.steps@, i as int)
                    + step.asked > 2 * data@.len()
                &&& broken == StepRule::Outcome ==> match step.outcome {
                    Outcome::Frame(bytes) => bytes@ != data@,
                    Outcome::Missing(missing) => missing == 0,
                    Outcome::Failed => true,
                    Outcome::Unfed => true,
                }
            } else if frames_out(run.steps@, run.steps@.len() as int) != 2 {
                rule == StreamRule::FrameCount
            } else if run.steps@.len() != (if payload == 0 {
                2int
            } else {
                4
            }) {
                rule == StreamRule::RequestCount
            } else if !(run.truncated is Some && run.truncated->0.asked == 6) {
                rule == StreamRule::HeaderRequest
            } else if !(run.truncated->0.outcome matches Outcome::Missing(missing) && missing
                == payload) {
                rule == StreamRule::HeaderAlone
            } else {
                rule == StreamRule::PayloadRequest
            }
        },
        verdict matches Err(rule) ==> {
            let end = match rule {
                StreamRule::Encoder => 0,
                StreamRule::Step(i, _) => i as int,
                _ => run.steps@.len() as int,
            };
            0 <= j < end ==> {
                let step = run.steps@[j];
                &&& step.asked > 0
                &&& taken(run.steps@, j) + step.asked <= 2 * data@.len()
                &&& match step.outcome {
                    Outcome::Frame(bytes) => bytes@ == data@,
                    Outcome::Missing(missing) => missing > 0,
                    Outcome::Failed => false,
                    Outcome::Unfed => false,
                }
            }
        },
{
    let steps = run.steps@;
    let seen = (data@, *run);
    reveal_with_fuel(taken, 5);
    reveal_with_fuel(frames_out, 5);
    if verdict is Ok {
        assert(StreamRule::Encoder.holds(seen));
        assert(StreamRule::FrameCount.holds(seen));
        assert(StreamRule::RequestCount.holds(seen));
        assert(StreamRule::HeaderRequest.holds(seen));
        assert(StreamRule::HeaderAlone.holds(seen));
        assert(StreamRule::PayloadRequest.holds(seen));
        assert forall|i: int| 0 <= i < steps.len() implies (#[trigger] steps[i]).asked > 0
            && match steps[i].outcome {
            Outcome::Frame(bytes) => bytes@ == data@,
            Outcome::Missing(missing) => missing > 0,
            Outcome::Failed => false,
            Outcome::Unfed => false,
        } by {
            assert(StreamRule::Step(i as usize, StepRule::Asks).holds(seen));
            assert(StreamRule::Step(i as usize, StepRule::Outcome).holds(seen));
        }
        assert(StreamRule::Step((steps.len() - 1) as usize, StepRule::Boundary).holds(seen));
    }
    if let Err(rule) = verdict {
        if StreamRule::Encoder.rank() < rule.rank() {
            assert(StreamRule::Encoder.holds(seen));
        }
        if StreamRule::FrameCount.rank() < rule.rank() {
            assert(StreamRule::FrameCount.holds(seen));
        }
        if StreamRule::RequestCount.rank() < rule.rank() {
            assert(StreamRule::RequestCount.holds(seen));
        }
        if StreamRule::HeaderRequest.rank() < rule.rank() {
            assert(StreamRule::HeaderRequest.holds(seen));
        }
        if StreamRule::HeaderAlone.rank() < rule.rank() {
            assert(StreamRule::HeaderAlone.holds(seen));
        }
        if let StreamRule::Step(i, broken) = rule {
            if broken != StepRule::Asks {
                assert(StreamRule::Step(i, StepRule::Asks).holds(seen));
            }
            if broken == StepRule::Outcome {
                assert(StreamRule::Step(i, StepRule::Boundary).holds(seen));
            }
        }
        let end = match rule {
            StreamRule::Encoder => 0,
            StreamRule::Step(i, _) => i as int,
            _ => steps.len() as int,
        };
        assert(steps.len() == run.steps.len());
        if 0 <= j < end {
            assert(StreamRule::Step(j as usize, StepRule::Asks).holds(seen));
            assert(StreamRule::Step(j as usize, StepRule::Boundary).holds(seen));
            assert(StreamRule::Step(j as usize, StepRule::Outcome).holds(seen));
        }
    }
}

/// A stream of two frames passes exactly if it holds frames with a payload that can be asked
/// for at once; what comes out is what went in.
pub proof fn law_check_stream(data: &[u8], r: (Option<StreamRun>, Result<(), StreamRule>))
    requires
        call_ensures(check_stream, (data,), r),
    ensures
        r.0 is Some <==> data@.len() >= 6 && data@.len() == 6 + data@[3] + 0x100 * data@[4]
            + 0x1_0000 * data@[5],
        r.1 is Ok <==> r.0 is None || data@.len() - 6 <= 65535,
        r.1 is Err ==> r.1 == Err::<(), StreamRule>(StreamRule::RequestCount),
        r.0 matches Some(run) ==> {
            &&& run.encoded is Some && run.encoded->0@ == data@
            &&& frames_out(run.steps@, run.steps@.len() as int) == 2
            &&& taken(run.steps@, run.steps@.len() as int) == 2 * data@.len()
            &&& data@.len() == 6 ==> run.steps@.len() == 2
            &&& 6 < data@.len() <= 65541 ==> run.steps@.len() == 4
            &&& forall|i: int|
                0 <= i < run.steps@.len() ==> ((#[trigger] run.steps@[i]).outcome matches Outcome::Frame(
                    bytes,
                ) ==> bytes@ == data@)
        },
{
    if data@.len() >= 6 {
        lemma_short_numbers(data@);
    }
    if let Some(run) = r.0 {
        lemma_schedule(data@.len() - 6);
        assert forall|i: int| 0 <= i < run.steps@.len() implies ((#[trigger] run.steps@[i]).outcome matches Outcome::Frame(
            bytes,
        ) ==> bytes@ == data@) by {
            assert(StepRule::Outcome.says(data@, run.steps@, i));
        }
    }
}

} // verus!
