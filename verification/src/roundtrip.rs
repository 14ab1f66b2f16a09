//! Round trips: what decoding, encoding and decoding again must give.

use crate::bytes::{cap, join, same_bytes, starts_with};
#[allow(unused_imports)]
use crate::rules::{decides, Rule};
use crate::structure::{prefix_cuts, TRAILING_JUNK};
#[allow(unused_imports)]
use crate::structure::cut_lengths;
use vstd::prelude::*;

verus! {

/// An encoding with [`TRAILING_JUNK`] behind it.
pub fn with_trailing(encoded: &[u8]) -> (r: Vec<u8>)
    ensures
        r@ == encoded@ + TRAILING_JUNK@,
{
    join(encoded, TRAILING_JUNK.as_slice())
}

/// The strict prefixes of an encoding that are worth trying to decode, shortest first.
pub fn truncations(encoded: &[u8]) -> (r: Vec<Vec<u8>>)
    ensures
        r@.len() == cut_lengths(encoded@.len() as usize).len(),
        forall|i: int|
            0 <= i < r@.len() ==> (#[trigger] r@[i])@ == encoded@.take(
                cut_lengths(encoded@.len() as usize)[i] as int,
            ),
{
    let cuts = prefix_cuts(encoded.len());
    let mut out: Vec<Vec<u8>> = Vec::new();
    let mut i: usize = 0;
    assert(encoded.len() == encoded@.len() as usize);
    while i < cuts.len()
        invariant
            i == out@.len(),
            i <= cuts@.len(),
            cuts@ == cut_lengths(encoded@.len() as usize),
            encoded@.len() <= usize::MAX,
            forall|j: int|
                0 <= j < i ==> (#[trigger] out@[j])@ == encoded@.take(
                    cut_lengths(encoded@.len() as usize)[j] as int,
                ),
        decreases cuts@.len() - i,
    {
        out.push(cap(encoded, cuts[i]));
        i += 1;
    }
    out
}

/// What was seen of a message that was decoded again.
pub struct MessageAgain {
    /// How the message is displayed.
    pub display: String,
    /// How long the message says its encoding is.
    pub size: usize,
    /// The encoding, if there is one.
    pub encoded: Option<Vec<u8>>,
}

/// What was seen of a message that was decoded from some bytes.
pub struct MessageTrip {
    /// How many bytes it was decoded from.
    pub input_len: usize,
    /// The message itself.
    pub first: MessageAgain,
    /// The message decoded from its encoding.
    pub second: Option<MessageAgain>,
    /// The message decoded from its encoding with bytes behind it.
    pub trailing: Option<MessageAgain>,
    /// Whether each strict prefix of the encoding that was tried is a message.
    pub prefixes: Vec<bool>,
}

/// The rules about the round trip of a message, in the order in which they are checked.
#[derive(Clone, Copy, Debug, PartialEq, Eq, Structural)]
pub enum MessageTripRule {
    /// A message is no longer than the bytes it was decoded from.
    Size,
    /// It can be encoded.
    Encodes,
    /// Its encoding can be decoded.
    Decodes,
    /// What is decoded can be encoded.
    EncodesAgain,
    /// Both encodings are the same.
    Stable,
    /// Both messages are displayed the same.
    Display,
    /// Bytes behind the encoding do not keep it from being decoded.
    TrailingDecodes,
    /// Bytes behind the encoding do not change how the message is displayed.
    TrailingDisplay,
    /// Bytes behind the encoding do not change how long the message is.
    TrailingSize,
    /// No strict prefix of the encoding is a message.
    NoPrefix,
}

/// No strict prefix that was tried could be decoded.
pub open spec fn none_decoded(prefixes: Seq<bool>) -> bool {
    forall|i: int| 0 <= i < prefixes.len() ==> !#[trigger] prefixes[i]
}

/// The encoding of a message that was decoded again, if there is one.
pub open spec fn again(message: Option<MessageAgain>) -> Option<Seq<u8>> {
    match message {
        Some(message) => match message.encoded {
            Some(encoded) => Some(encoded@),
            None => None,
        },
        None => None,
    }
}

impl Rule for MessageTripRule {
    type Run = MessageTrip;

    open spec fn rank(self) -> int {
        match self {
            MessageTripRule::Size => 0,
            MessageTripRule::Encodes => 1,
            MessageTripRule::Decodes => 2,
            MessageTripRule::EncodesAgain => 3,
            MessageTripRule::Stable => 4,
            MessageTripRule::Display => 5,
            MessageTripRule::TrailingDecodes => 6,
            MessageTripRule::TrailingDisplay => 7,
            MessageTripRule::TrailingSize => 8,
            MessageTripRule::NoPrefix => 9,
        }
    }

    open spec fn holds(self, run: MessageTrip) -> bool {
        match self {
            MessageTripRule::Size => run.first.size <= run.input_len,
            MessageTripRule::Encodes => run.first.encoded is Some,
            MessageTripRule::Decodes => run.second is Some,
            MessageTripRule::EncodesAgain => again(run.second) is Some,
            MessageTripRule::Stable => again(run.second) == again(Some(run.first)),
            MessageTripRule::Display => run.second matches Some(message) ==> message.display@
                == run.first.display@,
            MessageTripRule::TrailingDecodes => run.trailing is Some,
            MessageTripRule::TrailingDisplay => run.trailing matches Some(message)
                ==> message.display@ == run.first.display@,
            MessageTripRule::TrailingSize => run.trailing matches Some(message) ==> message.size
                == run.first.size,
            MessageTripRule::NoPrefix => none_decoded(run.prefixes@),
        }
    }
}

/// Whether some strict prefix that was tried could be decoded.
fn any_decoded(prefixes: &Vec<bool>) -> (r: bool)
    ensures
        r == !none_decoded(prefixes@),
{
    let mut i: usize = 0;
    while i < prefixes.len()
        invariant
            i <= prefixes@.len(),
            forall|j: int| 0 <= j < i ==> !#[trigger] prefixes@[j],
        decreases prefixes@.len() - i,
    {
        if prefixes[i] {
            return true;
        }
        i += 1;
    }
    false
}

/// Judges the round trip of a message: the first rule that it breaks, if there is one.
pub fn judge_message_trip(run: &MessageTrip) -> (r: Result<(), MessageTripRule>)
    ensures
        decides(r, *run),
{
    if run.first.size > run.input_len {
        assert(!MessageTripRule::Size.holds(*run));
        return Err(MessageTripRule::Size);
    }
    let encoded = match &run.first.encoded {
        Some(encoded) => encoded,
        None => {
            assert(!MessageTripRule::Encodes.holds(*run));
            return Err(MessageTripRule::Encodes);
        },
    };
    let second = match &run.second {
        Some(second) => second,
        None => {
            assert(!MessageTripRule::Decodes.holds(*run));
            return Err(MessageTripRule::Decodes);
        },
    };
    let encoded_again = match &second.encoded {
        Some(encoded) => encoded,
        None => {
            assert(!MessageTripRule::EncodesAgain.holds(*run));
            return Err(MessageTripRule::EncodesAgain);
        },
    };
    if !same_bytes(encoded_again.as_slice(), encoded.as_slice()) {
        assert(!MessageTripRule::Stable.holds(*run));
        return Err(MessageTripRule::Stable);
    }
    if second.display != run.first.display {
        assert(!MessageTripRule::Display.holds(*run));
        return Err(MessageTripRule::Display);
    }
    let trailing = match &run.trailing {
        Some(trailing) => trailing,
        None => {
            assert(!MessageTripRule::TrailingDecodes.holds(*run));
            return Err(MessageTripRule::TrailingDecodes);
        },
    };
    if trailing.display != run.first.display {
        assert(!MessageTripRule::TrailingDisplay.holds(*run));
        return Err(MessageTripRule::TrailingDisplay);
    }
    if trailing.size != run.first.size {
        assert(!MessageTripRule::TrailingSize.holds(*run));
        return Err(MessageTripRule::TrailingSize);
    }
    if any_decoded(&run.prefixes) {
        assert(!MessageTripRule::NoPrefix.holds(*run));
        return Err(MessageTripRule::NoPrefix);
    }
    Ok(())
}

/// What was seen of a value that was decoded from some bytes.
pub struct ValueTrip {
    pub input: Vec<u8>,
    /// The encoding of the value, if there is one.
    pub encoded: Option<Vec<u8>>,
    /// Whether the value decoded from its encoding is the same, if there is one.
    pub same: Option<bool>,
    /// Whether the value decoded from its encoding with bytes behind it is the same, if
    /// there is one.
    pub trailing_same: Option<bool>,
    /// Whether each strict prefix of the encoding that was tried is a value.
    pub prefixes: Vec<bool>,
}

/// The rules about the round trip of a value, in the order in which they are checked.
#[derive(Clone, Copy, Debug, PartialEq, Eq, Structural)]
pub enum ValueTripRule {
    /// A value can be encoded.
    Encodes,
    /// Its encoding can be decoded.
    Decodes,
    /// What is decoded is the same value.
    Same,
    /// The encoding is what the value was decoded from.
    Canonical,
    /// Bytes behind the encoding do not keep it from being decoded.
    TrailingDecodes,
    /// Bytes behind the encoding do not change the value.
    TrailingSame,
    /// No strict prefix of the encoding is a value.
    NoPrefix,
}

/// `encoded` is what `input` begins with.
pub open spec fn is_canonical(input: Seq<u8>, encoded: Option<Vec<u8>>) -> bool {
    encoded matches Some(encoded) ==> encoded@.is_prefix_of(input)
}

impl Rule for ValueTripRule {
    type Run = ValueTrip;

    open spec fn rank(self) -> int {
        match self {
            ValueTripRule::Encodes => 0,
            ValueTripRule::Decodes => 1,
            ValueTripRule::Same => 2,
            ValueTripRule::Canonical => 3,
            ValueTripRule::TrailingDecodes => 4,
            ValueTripRule::TrailingSame => 5,
            ValueTripRule::NoPrefix => 6,
        }
    }

    open spec fn holds(self, run: ValueTrip) -> bool {
        match self {
            ValueTripRule::Encodes => run.encoded is Some,
            ValueTripRule::Decodes => run.same is Some,
            ValueTripRule::Same => run.same != Some(false),
            ValueTripRule::Canonical => is_canonical(run.input@, run.encoded),
            ValueTripRule::TrailingDecodes => run.trailing_same is Some,
            ValueTripRule::TrailingSame => run.trailing_same != Some(false),
            ValueTripRule::NoPrefix => none_decoded(run.prefixes@),
        }
    }
}

/// Judges the round trip of a value: the first rule that it breaks, if there is one.
pub fn judge_value_trip(run: &ValueTrip) -> (r: Result<(), ValueTripRule>)
    ensures
        decides(r, *run),
{
    let encoded = match &run.encoded {
        Some(encoded) => encoded,
        None => {
            assert(!ValueTripRule::Encodes.holds(*run));
            return Err(ValueTripRule::Encodes);
        },
    };
    match run.same {
        None => {
            assert(!ValueTripRule::Decodes.holds(*run));
            return Err(ValueTripRule::Decodes);
        },
        Some(same) => {
            if !same {
                assert(!ValueTripRule::Same.holds(*run));
                return Err(ValueTripRule::Same);
            }
        },
    }
    if !starts_with(run.input.as_slice(), encoded.as_slice()) {
        assert(!ValueTripRule::Canonical.holds(*run));
        return Err(ValueTripRule::Canonical);
    }
    match run.trailing_same {
        None => {
            assert(!ValueTripRule::TrailingDecodes.holds(*run));
            return Err(ValueTripRule::TrailingDecodes);
        },
        Some(same) => {
            if !same {
                assert(!ValueTripRule::TrailingSame.holds(*run));
                return Err(ValueTripRule::TrailingSame);
            }
        },
    }
    if any_decoded(&run.prefixes) {
        assert(!ValueTripRule::NoPrefix.holds(*run));
        return Err(ValueTripRule::NoPrefix);
    }
    Ok(())
}

/// What was seen of a floating-point number that was decoded from some bytes. Numbers are
/// told apart by their bits, so that what is not a number has to come back unchanged too.
pub struct FloatTrip {
    pub input: Vec<u8>,
    pub bits: u32,
    /// The encoding of the number, if there is one.
    pub encoded: Option<Vec<u8>>,
    /// The bits of the number decoded from its encoding, if there is one.
    pub bits_again: Option<u32>,
}

/// The rules about the round trip of a floating-point number or of a truth value, in the
/// order in which they are checked.
#[derive(Clone, Copy, Debug, PartialEq, Eq, Structural)]
pub enum ScalarTripRule {
    /// A value can be encoded.
    Encodes,
    /// Its encoding can be decoded.
    Decodes,
    /// What is decoded is the same value.
    Same,
    /// The encoding is what the value was decoded from. Of the byte that a truth value is
    /// decoded from, only the lowest bit counts.
    Canonical,
}

/// What was seen of a truth value that was decoded from some bytes.
pub struct BoolTrip {
    pub input: Vec<u8>,
    pub value: bool,
    /// The encoding of the value, if there is one.
    pub encoded: Option<Vec<u8>>,
    /// The value decoded from its encoding, if there is one.
    pub value_again: Option<bool>,
}

/// What was seen of a value that is told apart by something simpler.
pub enum ScalarTrip {
    Float(FloatTrip),
    Bool(BoolTrip),
}

/// `encoded` begins with the lowest bit of what `input` begins with.
pub open spec fn is_lowest_bit(input: Seq<u8>, encoded: Option<Vec<u8>>) -> bool {
    encoded matches Some(encoded) ==> {
        &&& input.len() > 0
        &&& encoded@.len() > 0
        &&& encoded@[0] == input[0] & 1
    }
}

impl Rule for ScalarTripRule {
    type Run = ScalarTrip;

    open spec fn rank(self) -> int {
        match self {
            ScalarTripRule::Encodes => 0,
            ScalarTripRule::Decodes => 1,
            ScalarTripRule::Same => 2,
            ScalarTripRule::Canonical => 3,
        }
    }

    open spec fn holds(self, run: ScalarTrip) -> bool {
        match run {
            ScalarTrip::Float(run) => match self {
                ScalarTripRule::Encodes => run.encoded is Some,
                ScalarTripRule::Decodes => run.bits_again is Some,
                ScalarTripRule::Same => run.bits_again matches Some(bits) ==> bits == run.bits,
                ScalarTripRule::Canonical => is_canonical(run.input@, run.encoded),
            },
            ScalarTrip::Bool(run) => match self {
                ScalarTripRule::Encodes => run.encoded is Some,
                ScalarTripRule::Decodes => run.value_again is Some,
                ScalarTripRule::Same => run.value_again matches Some(value) ==> value == run.value,
                ScalarTripRule::Canonical => is_lowest_bit(run.input@, run.encoded),
            },
        }
    }
}

/// Judges the round trip of a floating-point number or of a truth value: the first rule
/// that it breaks, if there is one.
pub fn judge_scalar_trip(run: &ScalarTrip) -> (r: Result<(), ScalarTripRule>)
    ensures
        decides(r, *run),
{
    let (encoded, same): (&Option<Vec<u8>>, Option<bool>) = match run {
        ScalarTrip::Float(run) => (
            &run.encoded,
            match run.bits_again {
                Some(bits) => Some(bits == run.bits),
                None => None,
            },
        ),
        ScalarTrip::Bool(run) => (
            &run.encoded,
            match run.value_again {
                Some(value) => Some(value == run.value),
                None => None,
            },
        ),
    };
    let encoded = match encoded {
        Some(encoded) => encoded,
        None => {
            assert(!ScalarTripRule::Encodes.holds(*run));
            return Err(ScalarTripRule::Encodes);
        },
    };
    match same {
        None => {
            assert(!ScalarTripRule::Decodes.holds(*run));
            return Err(ScalarTripRule::Decodes);
        },
        Some(same) => {
            if !same {
                assert(!ScalarTripRule::Same.holds(*run));
                return Err(ScalarTripRule::Same);
            }
        },
    }
    let canonical = match run {
        ScalarTrip::Float(run) => starts_with(run.input.as_slice(), encoded.as_slice()),
        ScalarTrip::Bool(run) => run.input.len() > 0 && encoded.len() > 0 && encoded[0]
            == run.input[0] & 1,
    };
    if !canonical {
        assert(!ScalarTripRule::Canonical.holds(*run));
        return Err(ScalarTripRule::Canonical);
    }
    Ok(())
}

/// Junk behind an encoding leaves the encoding where it is, and is these six bytes.
pub proof fn law_with_trailing(encoded: &[u8], r: Vec<u8>)
    requires
        call_ensures(with_trailing, (encoded,), r),
    ensures
        r@.len() == encoded@.len() + 6,
        r@.take(encoded@.len() as int) == encoded@,
        r@.skip(encoded@.len() as int) == seq![0xabu8, 0xcd, 0x00, 0xff, 0x7f, 0x01],
{
    assert(r@.take(encoded@.len() as int) =~= encoded@);
    assert(TRAILING_JUNK@ =~= seq![0xabu8, 0xcd, 0x00, 0xff, 0x7f, 0x01]);
    assert(r@.skip(encoded@.len() as int) =~= TRAILING_JUNK@);
}

/// What is tried are beginnings of the encoding, each shorter than it, and each longer than the
/// one before; the empty one, the half and all but the last byte are among them.
pub proof fn law_truncations(encoded: &[u8], cut: usize, r: Vec<Vec<u8>>)
    requires
        call_ensures(truncations, (encoded,), r),
    ensures
        forall|i: int|
            0 <= i < r@.len() ==> (#[trigger] r@[i])@.len() < encoded@.len() && r@[i]@
                == encoded@.take(r@[i]@.len() as int),
        forall|i: int, j: int|
            0 <= i < j < r@.len() ==> (#[trigger] r@[i])@.len() < (#[trigger] r@[j])@.len(),
        encoded@.len() > 0 && (cut == 0 || cut == encoded@.len() / 2 || cut == encoded@.len() - 1)
            ==> exists|i: int| 0 <= i < r@.len() && (#[trigger] r@[i])@.len() == cut,
{
    let len = encoded@.len() as usize;
    assert(encoded.len() == encoded@.len());
    let cuts = cut_lengths(len);
    assert forall|i: int| 0 <= i < r@.len() implies (#[trigger] r@[i])@.len() == cuts[i] by {}
    if encoded@.len() > 0 && (cut == 0 || cut == encoded@.len() / 2 || cut == encoded@.len() - 1) {
        if cut == 0 {
            assert(r@[0]@.len() == cut);
        } else if cut == encoded@.len() / 2 {
            assert(r@[1]@.len() == cut);
        } else {
            assert(r@[2]@.len() == cut);
        }
    }
}

/// The round trip of a message passes exactly if it is no longer than its input, its encoding
/// is decoded to a message with that encoding that is displayed the same, junk behind the
/// encoding changes neither how it is displayed nor how long it is, and no beginning of the
/// encoding that was tried is a message. If not, the verdict names the first of these things
/// that is wrong.
pub proof fn law_message_trip(run: &MessageTrip, verdict: Result<(), MessageTripRule>)
    requires
        call_ensures(judge_message_trip, (run,), verdict),
    ensures
        verdict is Ok <==> {
            &&& run.first.size <= run.input_len
            &&& run.first.encoded is Some
            &&& run.second is Some
            &&& run.second->0.encoded is Some
            &&& run.second->0.encoded->0@ == run.first.encoded->0@
            &&& run.second->0.display@ == run.first.display@
            &&& run.trailing is Some
            &&& run.trailing->0.display@ == run.first.display@
            &&& run.trailing->0.size == run.first.size
            &&& forall|i: int| 0 <= i < run.prefixes@.len() ==> run.prefixes@[i] == false
        },
        verdict matches Err(rule) ==> rule == (if run.first.size > run.input_len {
            MessageTripRule::Size
        } else if run.first.encoded is None {
            MessageTripRule::Encodes
        } else if run.second is None {
            MessageTripRule::Decodes
        } else if run.second->0.encoded is None {
            MessageTripRule::EncodesAgain
        } else if run.second->0.encoded->0@ != run.first.encoded->0@ {
            MessageTripRule::Stable
        } else if run.second->0.display@ != run.first.display@ {
            MessageTripRule::Display
        } else if run.trailing is None {
            MessageTripRule::TrailingDecodes
        } else if run.trailing->0.display@ != run.first.display@ {
            MessageTripRule::TrailingDisplay
        } else if run.trailing->0.size != run.first.size {
            MessageTripRule::TrailingSize
        } else {
            MessageTripRule::NoPrefix
        }),
{
    if forall|i: int| 0 <= i < run.prefixes@.len() ==> run.prefixes@[i] == false {
        assert(none_decoded(run.prefixes@));
    }
    if verdict is Ok {
        assert(MessageTripRule::Size.holds(*run));
        assert(MessageTripRule::Encodes.holds(*run));
        assert(MessageTripRule::Decodes.holds(*run));
        assert(MessageTripRule::EncodesAgain.holds(*run));
        assert(MessageTripRule::Stable.holds(*run));
        assert(MessageTripRule::Display.holds(*run));
        assert(MessageTripRule::TrailingDecodes.holds(*run));
        assert(MessageTripRule::TrailingDisplay.holds(*run));
        assert(MessageTripRule::TrailingSize.holds(*run));
        assert(MessageTripRule::NoPrefix.holds(*run));
    }
    if let Err(broken) = verdict {
        if MessageTripRule::Size.rank() < broken.rank() {
            assert(MessageTripRule::Size.holds(*run));
        }
        if MessageTripRule::Encodes.rank() < broken.rank() {
            assert(MessageTripRule::Encodes.holds(*run));
        }
        if MessageTripRule::Decodes.rank() < broken.rank() {
            assert(MessageTripRule::Decodes.holds(*run));
        }
        if MessageTripRule::EncodesAgain.rank() < broken.rank() {
            assert(MessageTripRule::EncodesAgain.holds(*run));
        }
        if MessageTripRule::Stable.rank() < broken.rank() {
            assert(MessageTripRule::Stable.holds(*run));
        }
        if MessageTripRule::Display.rank() < broken.rank() {
            assert(MessageTripRule::Display.holds(*run));
        }
        if MessageTripRule::TrailingDecodes.rank() < broken.rank() {
            assert(MessageTripRule::TrailingDecodes.holds(*run));
        }
        if MessageTripRule::TrailingDisplay.rank() < broken.rank() {
            assert(MessageTripRule::TrailingDisplay.holds(*run));
        }
        if MessageTripRule::TrailingSize.rank() < broken.rank() {
            assert(MessageTripRule::TrailingSize.holds(*run));
        }
    }
}

/// The round trip of a value passes exactly if its encoding is what the input begins with, is
/// decoded to the same value, also with junk behind it, and no beginning of it that was tried is
/// a value. If not, the verdict names the first of these things that is wrong.
pub proof fn law_value_trip(run: &ValueTrip, verdict: Result<(), ValueTripRule>)
    requires
        call_ensures(judge_value_trip, (run,), verdict),
    ensures
        verdict is Ok <==> {
            &&& run.encoded is Some
            &&& run.same is Some && run.same->0
            &&& run.encoded->0@.is_prefix_of(run.input@)
            &&& run.trailing_same is Some && run.trailing_same->0
            &&& forall|i: int| 0 <= i < run.prefixes@.len() ==> run.prefixes@[i] == false
        },
        verdict matches Err(rule) ==> rule == (if run.encoded is None {
            ValueTripRule::Encodes
        } else if run.same is None {
            ValueTripRule::Decodes
        } else if run.same == Some(false) {
            ValueTripRule::Same
        } else if !run.encoded->0@.is_prefix_of(run.input@) {
            ValueTripRule::Canonical
        } else if run.trailing_same is None {
            ValueTripRule::TrailingDecodes
        } else if run.trailing_same == Some(false) {
            ValueTripRule::TrailingSame
        } else {
            ValueTripRule::NoPrefix
        }),
{
    if forall|i: int| 0 <= i < run.prefixes@.len() ==> run.prefixes@[i] == false {
        assert(none_decoded(run.prefixes@));
    }
    if verdict is Ok {
        assert(ValueTripRule::Encodes.holds(*run));
        assert(ValueTripRule::Decodes.holds(*run));
        assert(ValueTripRule::Same.holds(*run));
        assert(ValueTripRule::Canonical.holds(*run));
        assert(ValueTripRule::TrailingDecodes.holds(*run));
        assert(ValueTripRule::TrailingSame.holds(*run));
        assert(ValueTripRule::NoPrefix.holds(*run));
    }
    if let Err(broken) = verdict {
        if ValueTripRule::Encodes.rank() < broken.rank() {
            assert(ValueTripRule::Encodes.holds(*run));
        }
        if ValueTripRule::Decodes.rank() < broken.rank() {
            assert(ValueTripRule::Decodes.holds(*run));
        }
        if ValueTripRule::Same.rank() < broken.rank() {
            assert(ValueTripRule::Same.holds(*run));
        }
        if ValueTripRule::Canonical.rank() < broken.rank() {
            assert(ValueTripRule::Canonical.holds(*run));
        }
        if ValueTripRule::TrailingDecodes.rank() < broken.rank() {
            assert(ValueTripRule::TrailingDecodes.holds(*run));
        }
        if ValueTripRule::TrailingSame.rank() < broken.rank() {
            assert(ValueTripRule::TrailingSame.holds(*run));
        }
    }
}

/// The round trip of a number passes exactly if its encoding is what the input begins with and
/// gives back the same bits; that of a truth value, if its encoding begins with the lowest bit
/// of the input, and nothing but that, and gives back the same value. If not, the verdict names
/// the first of these things that is wrong.
pub proof fn law_scalar_trip(run: &ScalarTrip, verdict: Result<(), ScalarTripRule>)
    requires
        call_ensures(judge_scalar_trip, (run,), verdict),
    ensures
        *run matches ScalarTrip::Float(trip) ==> (verdict is Ok <==> {
            &&& trip.encoded is Some
            &&& trip.bits_again == Some(trip.bits)
            &&& trip.encoded->0@.is_prefix_of(trip.input@)
        }),
        *run matches ScalarTrip::Bool(trip) ==> (verdict is Ok <==> {
            &&& trip.encoded is Some
            &&& trip.value_again == Some(trip.value)
            &&& trip.input@.len() > 0
            &&& trip.encoded->0@.len() > 0
            &&& trip.encoded->0@[0] == trip.input@[0] % 2
        }),
        verdict matches Err(rule) ==> {
            let encoded = match run {
                ScalarTrip::Float(trip) => trip.encoded,
                ScalarTrip::Bool(trip) => trip.encoded,
            };
            let same = match run {
                ScalarTrip::Float(trip) => match trip.bits_again {
                    Some(bits) => Some(bits == trip.bits),
                    None => None,
                },
                ScalarTrip::Bool(trip) => match trip.value_again {
                    Some(value) => Some(value == trip.value),
                    None => None,
                },
            };
            rule == (if encoded is None {
                ScalarTripRule::Encodes
            } else if same is None {
                ScalarTripRule::Decodes
            } else if same == Some(false) {
                ScalarTripRule::Same
            } else {
                ScalarTripRule::Canonical
            })
        },
{
    if let ScalarTrip::Bool(trip) = *run {
        let b = trip.input@[0];
        assert(b & 1 == b % 2) by (bit_vector);
    }
    if verdict is Ok {
        assert(ScalarTripRule::Encodes.holds(*run));
        assert(ScalarTripRule::Decodes.holds(*run));
        assert(ScalarTripRule::Same.holds(*run));
        assert(ScalarTripRule::Canonical.holds(*run));
    }
    if let Err(broken) = verdict {
        if ScalarTripRule::Encodes.rank() < broken.rank() {
            assert(ScalarTripRule::Encodes.holds(*run));
        }
        if ScalarTripRule::Decodes.rank() < broken.rank() {
            assert(ScalarTripRule::Decodes.holds(*run));
        }
        if ScalarTripRule::Same.rank() < broken.rank() {
            assert(ScalarTripRule::Same.holds(*run));
        }
    }
}

} // verus!
