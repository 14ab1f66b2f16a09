//! Random JSON values of bounded depth.

#[allow(unused_imports)]
use crate::bytes::le_value;
use arbitrary::Unstructured;
use vstd::prelude::*;

verus! {

/// A JSON value. A fraction is held as the bits of its double-precision form, and the
/// members of an object in the order in which their keys came up first.
pub enum JsonValue {
    Null,
    Bool(bool),
    Integer(i64),
    Fraction(u64),
    Text(String),
    Array(Vec<JsonValue>),
    Object(Vec<(String, JsonValue)>),
}

/// The same, with sequences for vectors and strings.
pub enum JsonView {
    Null,
    Bool(bool),
    Integer(i64),
    Fraction(u64),
    Text(Seq<char>),
    Array(Seq<JsonView>),
    Object(Seq<(Seq<char>, JsonView)>),
}

/// `value` is what `view` describes.
pub open spec fn shows(value: JsonValue, view: JsonView) -> bool
    decreases value,
{
    match (value, view) {
        (JsonValue::Null, JsonView::Null) => true,
        (JsonValue::Bool(a), JsonView::Bool(b)) => a == b,
        (JsonValue::Integer(a), JsonView::Integer(b)) => a == b,
        (JsonValue::Fraction(a), JsonView::Fraction(b)) => a == b,
        (JsonValue::Text(a), JsonView::Text(b)) => a@ == b,
        (JsonValue::Array(a), JsonView::Array(b)) => {
            &&& a@.len() == b.len()
            &&& forall|i: int| 0 <= i < a@.len() ==> shows(#[trigger] a@[i], b[i])
        },
        (JsonValue::Object(a), JsonView::Object(b)) => {
            &&& a@.len() == b.len()
            &&& forall|i: int|
                0 <= i < a@.len() ==> (#[trigger] a@[i]).0@ == b[i].0 && shows(a@[i].1, b[i].1)
        },
        _ => false,
    }
}

/// `Unstructured` of `arbitrary`: a source of bytes to make values of.
#[verifier::external_type_specification]
#[verifier::external_body]
pub struct ExUnstructured<'a>(arbitrary::Unstructured<'a>);

/// The bytes of a source that are not used up.
pub uninterp spec fn unread(source: Unstructured<'_>) -> Seq<u8>;

/// What is drawn from some bytes as a string, and the bytes that are left.
pub uninterp spec fn text_draw(bytes: Seq<u8>) -> (Seq<char>, Seq<u8>);

/// The first `n` bytes, with zeros for those that are not there.
pub open spec fn padded(bytes: Seq<u8>, n: nat) -> Seq<u8> {
    Seq::new(
        n,
        |i: int|
            if i < bytes.len() {
                bytes[i]
            } else {
                0
            },
    )
}

/// What follows the first `n` bytes.
pub open spec fn after(bytes: Seq<u8>, n: int) -> Seq<u8> {
    bytes.skip(
        if bytes.len() < n {
            bytes.len() as int
        } else {
            n
        },
    )
}

/// The source would not give a value.
#[derive(Clone, Copy, Debug, PartialEq, Eq, Structural)]
pub struct DrawError;

/// Calls `Unstructured::int_in_range` of `arbitrary` for a number from zero to `last`,
/// which takes one byte, or none if there is none, and reduces it.
#[verifier::external_body]
fn draw_number(source: &mut Unstructured<'_>, last: u8) -> (r: Result<u8, DrawError>)
    requires
        0 < last < u8::MAX,
    ensures
        r == Ok::<u8, DrawError>((padded(unread(*old(source)), 1)[0] as int % (last + 1)) as u8),
        unread(*final(source)) == after(unread(*old(source)), 1),
{
    source.int_in_range(0..=last).map_err(|_| DrawError)
}

/// Calls `Unstructured::arbitrary` of `arbitrary` for a truth value, which is the lowest
/// bit of the next byte.
#[verifier::external_body]
fn draw_bool(source: &mut Unstructured<'_>) -> (r: Result<bool, DrawError>)
    ensures
        r == Ok::<bool, DrawError>(padded(unread(*old(source)), 1)[0] % 2 == 1),
        unread(*final(source)) == after(unread(*old(source)), 1),
{
    source.arbitrary().map_err(|_| DrawError)
}

/// Calls `Unstructured::arbitrary` of `arbitrary` for a number of 64 bits, which the next
/// eight bytes spell, least significant byte first.
#[verifier::external_body]
fn draw_word(source: &mut Unstructured<'_>) -> (r: Result<u64, DrawError>)
    ensures
        r == Ok::<u64, DrawError>(le_value(padded(unread(*old(source)), 8)) as u64),
        unread(*final(source)) == after(unread(*old(source)), 8),
{
    source.arbitrary().map_err(|_| DrawError)
}

/// Calls `Unstructured::arbitrary` of `arbitrary` for a string, which depends on the
/// bytes of the source alone.
#[verifier::external_body]
fn draw_text(source: &mut Unstructured<'_>) -> (r: Result<String, DrawError>)
    ensures
        r matches Ok(text) && text@ == text_draw(unread(*old(source))).0,
        unread(*final(source)) == text_draw(unread(*old(source))).1,
{
    source.arbitrary().map_err(|_| DrawError)
}

/// The integer whose bits are those of `word`.
pub open spec fn signed(word: u64) -> i64 {
    if word < 0x8000_0000_0000_0000 {
        word as i64
    } else {
        (word - 0x1_0000_0000_0000_0000) as i64
    }
}

/// The double-precision number with these bits is neither infinite nor undefined.
pub open spec fn is_finite(bits: u64) -> bool {
    (bits / 0x10_0000_0000_0000) % 0x800 != 0x7ff
}

/// The members of an object after a key was given a value: the value replaces an
/// earlier one of the same key, and a new key comes last.
pub open spec fn inserted(
    members: Seq<(Seq<char>, JsonView)>,
    key: Seq<char>,
    value: JsonView,
) -> Seq<(Seq<char>, JsonView)>
    decreases members.len(),
{
    if members.len() == 0 {
        seq![(key, value)]
    } else if members[0].0 == key {
        members.update(0, (key, value))
    } else {
        seq![members[0]] + inserted(members.skip(1), key, value)
    }
}

/// The value of at most the given depth that is drawn from some bytes, and the bytes
/// that are left. The first byte says of which kind it is.
pub open spec fn drawn(bytes: Seq<u8>, depth: nat) -> (JsonView, Seq<u8>)
    decreases depth, 0nat,
{
    let kind = padded(bytes, 1)[0] % 8;
    let rest = after(bytes, 1);
    let word = le_value(padded(rest, 8)) as u64;
    let count = (padded(rest, 1)[0] % 4) as nat;
    if depth == 0 {
        (JsonView::Null, bytes)
    } else if kind == 0 {
        (JsonView::Null, rest)
    } else if kind == 1 {
        (JsonView::Bool(padded(rest, 1)[0] % 2 == 1), after(rest, 1))
    } else if kind == 2 {
        (JsonView::Integer(signed(word)), after(rest, 8))
    } else if kind == 3 {
        (
            if is_finite(word) {
                JsonView::Fraction(word)
            } else {
                JsonView::Null
            },
            after(rest, 8),
        )
    } else if kind == 4 {
        (JsonView::Text(text_draw(rest).0), text_draw(rest).1)
    } else if kind == 5 {
        let items = drawn_items(after(rest, 1), (depth - 1) as nat, count);
        (JsonView::Array(items.0), items.1)
    } else {
        let members = drawn_members(after(rest, 1), (depth - 1) as nat, count);
        (JsonView::Object(members.0), members.1)
    }
}

/// The `count` values that are drawn one after the other.
pub open spec fn drawn_items(bytes: Seq<u8>, depth: nat, count: nat) -> (Seq<JsonView>, Seq<u8>)
    decreases depth, count + 1,
{
    if count == 0 {
        (Seq::empty(), bytes)
    } else {
        let before = drawn_items(bytes, depth, (count - 1) as nat);
        let next = drawn(before.1, depth);
        (before.0.push(next.0), next.1)
    }
}

/// The members of the object into which `count` pairs of a key and a value are put that
/// are drawn one after the other.
pub open spec fn drawn_members(bytes: Seq<u8>, depth: nat, count: nat) -> (
    Seq<(Seq<char>, JsonView)>,
    Seq<u8>,
)
    decreases depth, count + 1,
{
    if count == 0 {
        (Seq::empty(), bytes)
    } else {
        let before = drawn_members(bytes, depth, (count - 1) as nat);
        let key = text_draw(before.1);
        let value = drawn(key.1, depth);
        (inserted(before.0, key.0, value.0), value.1)
    }
}

/// A value of at most the given depth: nothing but null at depth zero, and arrays and
/// objects of at most three values each of which is one level shallower.
pub open spec fn fits(value: JsonView, depth: nat) -> bool
    decreases depth,
{
    match value {
        JsonView::Array(items) => depth > 0 && items.len() <= 3 && forall|i: int|
            0 <= i < items.len() ==> fits(#[trigger] items[i], (depth - 1) as nat),
        JsonView::Object(members) => depth > 0 && members.len() <= 3 && forall|i: int|
            0 <= i < members.len() ==> fits((#[trigger] members[i]).1, (depth - 1) as nat),
        JsonView::Null => true,
        _ => depth > 0,
    }
}

/// `members` is what `view` describes.
pub open spec fn shows_members(
    members: Seq<(String, JsonValue)>,
    view: Seq<(Seq<char>, JsonView)>,
) -> bool {
    &&& members.len() == view.len()
    &&& forall|i: int|
        0 <= i < members.len() ==> (#[trigger] members[i]).0@ == view[i].0 && shows(
            members[i].1,
            view[i].1,
        )
}

/// Where a key is among the members: its first place.
fn find_key(members: &Vec<(String, JsonValue)>, key: &String) -> (r: Option<usize>)
    ensures
        match r {
            Some(i) => {
                &&& i < members@.len()
                &&& members@[i as int].0@ == key@
                &&& forall|j: int| 0 <= j < i ==> (#[trigger] members@[j]).0@ != key@
            },
            None => forall|j: int| 0 <= j < members@.len() ==> (#[trigger] members@[j]).0@ != key@,
        },
{
    let mut i: usize = 0;
    while i < members.len()
        invariant
            i <= members@.len(),
            forall|j: int| 0 <= j < i ==> (#[trigger] members@[j]).0@ != key@,
        decreases members@.len() - i,
    {
        if members[i].0 == *key {
            return Some(i);
        }
        i += 1;
    }
    None
}

/// What giving a key a value comes to: the value goes to the first place of the key, or
/// behind all members if there is none.
proof fn lemma_inserted(
    members: Seq<(Seq<char>, JsonView)>,
    key: Seq<char>,
    value: JsonView,
    place: int,
)
    requires
        0 <= place <= members.len(),
        place < members.len() ==> members[place].0 == key,
        forall|j: int| 0 <= j < place ==> (#[trigger] members[j]).0 != key,
    ensures
        inserted(members, key, value) == (if place < members.len() {
            members.update(place, (key, value))
        } else {
            members.push((key, value))
        }),
    decreases members.len(),
{
    if place > 0 {
        let rest = members.skip(1);
        assert forall|j: int| 0 <= j < place - 1 implies (#[trigger] rest[j]).0 != key by {
            assert(rest[j] == members[j + 1]);
        }
        lemma_inserted(rest, key, value, place - 1);
        assert(members[0].0 != key);
        if place < members.len() {
            assert(seq![members[0]] + rest.update(place - 1, (key, value)) =~= members.update(
                place,
                (key, value),
            ));
        } else {
            assert(seq![members[0]] + rest.push((key, value)) =~= members.push((key, value)));
        }
    } else if members.len() == 0 {
        assert(members.push((key, value)) =~= seq![(key, value)]);
    }
}

/// Gives a key a value.
fn insert(members: &mut Vec<(String, JsonValue)>, key: String, value: JsonValue, Ghost(view): Ghost<
    (Seq<(Seq<char>, JsonView)>, JsonView),
>)
    requires
        shows_members(old(members)@, view.0),
        shows(value, view.1),
    ensures
        shows_members(final(members)@, inserted(view.0, key@, view.1)),
{
    let place = find_key(members, &key);
    assert forall|j: int| 0 <= j < view.0.len() implies (#[trigger] view.0[j]).0 == members@[j].0@ by {}
    match place {
        Some(i) => {
            proof {
                lemma_inserted(view.0, key@, view.1, i as int);
            }
            members.set(i, (key, value));
        },
        None => {
            proof {
                lemma_inserted(view.0, key@, view.1, view.0.len() as int);
            }
            members.push((key, value));
        },
    }
}

/// The number whose bits are those of `word`, as an integer with a sign.
fn to_signed(word: u64) -> (r: i64)
    ensures
        r == signed(word),
{
    if word < 0x8000_0000_0000_0000 {
        word as i64
    } else {
        let below: u64 = 0xffff_ffff_ffff_ffff - word;
        -1 - (below as i64)
    }
}

/// Draws a JSON value of at most the given depth.
pub fn gen_json_value(source: &mut Unstructured<'_>, depth: u8) -> (r: Result<JsonValue, DrawError>)
    ensures
        r matches Ok(value) && shows(value, drawn(unread(*old(source)), depth as nat).0),
        unread(*final(source)) == drawn(unread(*old(source)), depth as nat).1,
    decreases depth,
{
    if depth == 0 {
        return Ok(JsonValue::Null);
    }
    match draw_number(source, 7)? {
        0 => Ok(JsonValue::Null),
        1 => Ok(JsonValue::Bool(draw_bool(source)?)),
        2 => Ok(JsonValue::Integer(to_signed(draw_word(source)?))),
        3 => {
            let bits: u64 = draw_word(source)?;
            if (bits / 0x10_0000_0000_0000) % 0x800 != 0x7ff {
                Ok(JsonValue::Fraction(bits))
            } else {
                Ok(JsonValue::Null)
            }
        },
        4 => Ok(JsonValue::Text(draw_text(source)?)),
        5 => {
            let count: u8 = draw_number(source, 3)?;
            let ghost start = unread(*source);
            let mut items: Vec<JsonValue> = Vec::new();
            let mut i: u8 = 0;
            while i < count
                invariant
                    i <= count,
                    depth > 0,
                    unread(*source) == drawn_items(start, (depth - 1) as nat, i as nat).1,
                    shows(
                        JsonValue::Array(items),
                        JsonView::Array(drawn_items(start, (depth - 1) as nat, i as nat).0),
                    ),
                decreases count - i,
            {
                let item = gen_json_value(source, depth - 1)?;
                items.push(item);
                i += 1;
            }
            Ok(JsonValue::Array(items))
        },
        _ => {
            let count: u8 = draw_number(source, 3)?;
            let ghost start = unread(*source);
            let mut members: Vec<(String, JsonValue)> = Vec::new();
            let mut i: u8 = 0;
            while i < count
                invariant
                    i <= count,
                    depth > 0,
                    unread(*source) == drawn_members(start, (depth - 1) as nat, i as nat).1,
                    shows_members(
                        members@,
                        drawn_members(start, (depth - 1) as nat, i as nat).0,
                    ),
                decreases count - i,
            {
                let ghost before = drawn_members(start, (depth - 1) as nat, i as nat);
                let key = draw_text(source)?;
                let value = gen_json_value(source, depth - 1)?;
                insert(
                    &mut members,
                    key,
                    value,
                    Ghost((before.0, drawn(text_draw(before.1).1, (depth - 1) as nat).0)),
                );
                i += 1;
            }
            Ok(JsonValue::Object(members))
        },
    }
}

/// No two members have the same key.
pub open spec fn keys_distinct(members: Seq<(Seq<char>, JsonView)>) -> bool {
    forall|i: int, j: int|
        0 <= i < j < members.len() ==> (#[trigger] members[i]).0 != (#[trigger] members[j]).0
}

/// The first place of a key, or the number of members.
spec fn first_place(members: Seq<(Seq<char>, JsonView)>, key: Seq<char>) -> int
    decreases members.len(),
{
    if members.len() == 0 || members[0].0 == key {
        0
    } else {
        1 + first_place(members.skip(1), key)
    }
}

proof fn lemma_first_place(members: Seq<(Seq<char>, JsonView)>, key: Seq<char>)
    ensures
        ({
            let place = first_place(members, key);
            &&& 0 <= place <= members.len()
            &&& place < members.len() ==> members[place].0 == key
            &&& forall|j: int| 0 <= j < place ==> (#[trigger] members[j]).0 != key
        }),
    decreases members.len(),
{
    if members.len() > 0 && members[0].0 != key {
        lemma_first_place(members.skip(1), key);
        assert forall|j: int| 0 <= j < first_place(members, key) implies (#[trigger] members[j]).0
            != key by {
            if j > 0 {
                assert(members.skip(1)[j - 1] == members[j]);
            }
        }
    }
}

/// An object never holds a key twice, whatever is put into it.
pub proof fn lemma_inserted_distinct(
    members: Seq<(Seq<char>, JsonView)>,
    key: Seq<char>,
    value: JsonView,
)
    requires
        keys_distinct(members),
    ensures
        keys_distinct(inserted(members, key, value)),
{
    let place = first_place(members, key);
    lemma_first_place(members, key);
    lemma_inserted(members, key, value, place);
    let after = inserted(members, key, value);
    assert forall|i: int, j: int| 0 <= i < j < after.len() implies (#[trigger] after[i]).0 != (
    #[trigger] after[j]).0 by {
        if place < members.len() {
            assert(after[i].0 == members[i].0);
            assert(after[j].0 == members[j].0);
        } else if j < members.len() {
            assert(after[i] == members[i] && after[j] == members[j]);
        } else {
            assert(after[i] == members[i]);
        }
    }
}

proof fn lemma_items_fit(bytes: Seq<u8>, depth: nat, count: nat)
    ensures
        drawn_items(bytes, depth, count).0.len() == count,
        forall|i: int|
            0 <= i < count ==> fits(#[trigger] drawn_items(bytes, depth, count).0[i], depth),
    decreases depth, count + 1,
{
    if count > 0 {
        lemma_items_fit(bytes, depth, (count - 1) as nat);
        lemma_drawn_fits(drawn_items(bytes, depth, (count - 1) as nat).1, depth);
    }
}

proof fn lemma_members_fit(bytes: Seq<u8>, depth: nat, count: nat)
    ensures
        drawn_members(bytes, depth, count).0.len() <= count,
        keys_distinct(drawn_members(bytes, depth, count).0),
        forall|i: int|
            0 <= i < drawn_members(bytes, depth, count).0.len() ==> fits(
                (#[trigger] drawn_members(bytes, depth, count).0[i]).1,
                depth,
            ),
    decreases depth, count + 1,
{
    if count > 0 {
        let before = drawn_members(bytes, depth, (count - 1) as nat);
        let key = text_draw(before.1);
        let value = drawn(key.1, depth);
        lemma_members_fit(bytes, depth, (count - 1) as nat);
        lemma_drawn_fits(key.1, depth);
        lemma_first_place(before.0, key.0);
        lemma_inserted(before.0, key.0, value.0, first_place(before.0, key.0));
        lemma_inserted_distinct(before.0, key.0, value.0);
    }
}

/// A value that is drawn is no deeper than asked for, and its arrays and objects hold at
/// most three values each.
pub proof fn lemma_drawn_fits(bytes: Seq<u8>, depth: nat)
    ensures
        fits(drawn(bytes, depth).0, depth),
        drawn(bytes, depth).0 matches JsonView::Object(members) ==> keys_distinct(members),
    decreases depth, 0nat,
{
    if depth > 0 {
        let rest = after(bytes, 1);
        let count = (padded(rest, 1)[0] % 4) as nat;
        lemma_items_fit(after(rest, 1), (depth - 1) as nat, count);
        lemma_members_fit(after(rest, 1), (depth - 1) as nat, count);
    }
}

/// After a key was given a value, it has that value, once; the other members keep their places
/// and values, and a key that was not there comes last.
pub proof fn law_inserted(
    members: Seq<(Seq<char>, JsonView)>,
    key: Seq<char>,
    value: JsonView,
    i: int,
)
    requires
        keys_distinct(members),
    ensures
        ({
            let after = inserted(members, key, value);
            let known = exists|j: int| 0 <= j < members.len() && (#[trigger] members[j]).0 == key;
            &&& keys_distinct(after)
            &&& after.len() == (if known {
                members.len()
            } else {
                members.len() + 1
            })
            &&& 0 <= i < members.len() ==> after[i] == (if members[i].0 == key {
                (key, value)
            } else {
                members[i]
            })
            &&& !known ==> after.last() == (key, value)
        }),
{
    lemma_inserted_distinct(members, key, value);
    lemma_first_place(members, key);
    let place = first_place(members, key);
    lemma_inserted(members, key, value, place);
    if exists|j: int| 0 <= j < members.len() && (#[trigger] members[j]).0 == key {
        let j = choose|j: int| 0 <= j < members.len() && (#[trigger] members[j]).0 == key;
        assert(place <= j);
    }
}

/// A number of 64 bits is read as the one with a sign that is the same modulo two to the 64th.
pub proof fn law_signed(word: u64)
    ensures
        signed(word) == word || signed(word) == word - 0x1_0000_0000_0000_0000,
        signed(word) < 0 <==> word >= 0x8000_0000_0000_0000,
{
}

/// What is drawn from bytes that are there depends on the first of them: null, a truth value
/// from the lowest bit of the next, an integer or a fraction from the next eight, a string, an
/// array of as many values as the next byte says, modulo four, or an object of at most as many.
/// A fraction whose eleven exponent bits are all set is none, and null is drawn instead. At
/// depth zero there is null, and nothing is used up.
pub proof fn law_drawn(bytes: Seq<u8>, depth: nat)
    requires
        bytes.len() >= 9,
    ensures
        drawn(bytes, 0) == (JsonView::Null, bytes),
        depth > 0 ==> {
            let kind = bytes[0] % 8;
            let r = drawn(bytes, depth);
            let word = le_value(bytes.subrange(1, 9));
            let fraction = word / 0x10_0000_0000_0000 % 0x800 != 0x7ff;
            &&& kind == 0 ==> r == (JsonView::Null, bytes.skip(1))
            &&& kind == 1 ==> r == (JsonView::Bool(bytes[1] % 2 == 1), bytes.skip(2))
            &&& kind == 2 ==> r.1 == bytes.skip(9) && (r.0 matches JsonView::Integer(value) && (
            value - word) % 0x1_0000_0000_0000_0000 == 0)
            &&& kind == 3 && fraction ==> r.1 == bytes.skip(9) && (
            r.0 matches JsonView::Fraction(bits) && bits == word)
            &&& kind == 3 && !fraction ==> r == (JsonView::Null, bytes.skip(9))
            &&& kind == 4 ==> r == (
                JsonView::Text(text_draw(bytes.skip(1)).0),
                text_draw(bytes.skip(1)).1,
            )
            &&& kind == 5 ==> (r.0 matches JsonView::Array(items) && items.len() == bytes[1] % 4)
            &&& kind > 5 ==> (r.0 matches JsonView::Object(members) && members.len() <= bytes[1] % 4
                && keys_distinct(members))
        },
{
    if depth > 0 {
        let rest = after(bytes, 1);
        assert(rest =~= bytes.skip(1));
        assert(padded(bytes, 1)[0] == bytes[0]);
        assert(padded(rest, 1)[0] == bytes[1]);
        assert(padded(rest, 8) =~= bytes.subrange(1, 9));
        assert(after(rest, 8) =~= bytes.skip(9));
        assert(after(rest, 1) =~= bytes.skip(2));
        let word = le_value(bytes.subrange(1, 9));
        crate::bytes::lemma_le_value_bound(bytes.subrange(1, 9));
        reveal_with_fuel(crate::bytes::span, 9);
        law_signed(word as u64);
        let count = (bytes[1] % 4) as nat;
        lemma_items_fit(after(rest, 1), (depth - 1) as nat, count);
        lemma_members_fit(after(rest, 1), (depth - 1) as nat, count);
    }
}

/// Arrays and objects draw their values one after the other, each from where the one before
/// ended; in an object, each behind its key.
pub proof fn law_drawn_in_order(bytes: Seq<u8>, depth: nat, count: nat)
    ensures
        drawn_items(bytes, depth, 0) == (Seq::<JsonView>::empty(), bytes),
        ({
            let before = drawn_items(bytes, depth, count);
            let next = drawn(before.1, depth);
            drawn_items(bytes, depth, count + 1) == (before.0.push(next.0), next.1)
        }),
        drawn_members(bytes, depth, 0) == (Seq::<(Seq<char>, JsonView)>::empty(), bytes),
        ({
            let before = drawn_members(bytes, depth, count);
            let key = text_draw(before.1);
            let value = drawn(key.1, depth);
            drawn_members(bytes, depth, count + 1) == (
                inserted(before.0, key.0, value.0),
                value.1,
            )
        }),
{
}

/// A value of one kind shows only what is of that kind and says the same; an array or an object
/// shows its values one by one, and an object its keys.
pub proof fn law_shows(value: JsonValue, view: JsonView, i: int)
    requires
        shows(value, view),
    ensures
        value is Null <==> view is Null,
        value matches JsonValue::Bool(a) ==> view == JsonView::Bool(a),
        value matches JsonValue::Integer(a) ==> view == JsonView::Integer(a),
        value matches JsonValue::Fraction(a) ==> view == JsonView::Fraction(a),
        value matches JsonValue::Text(a) ==> view == JsonView::Text(a@),
        value matches JsonValue::Array(a) ==> (view matches JsonView::Array(b) && a@.len() == b.len()
            && (0 <= i < a@.len() ==> shows(a@[i], b[i]))),
        value matches JsonValue::Object(a) ==> (view matches JsonView::Object(b) && a@.len()
            == b.len() && (0 <= i < a@.len() ==> a@[i].0@ == b[i].0 && shows(a@[i].1, b[i].1))),
{
}

/// A value is always drawn, and it is what the bytes of the source spell; the bytes that it
/// takes are used up.
pub proof fn law_gen_json_value(
    source: &mut Unstructured<'_>,
    depth: u8,
    r: Result<JsonValue, DrawError>,
)
    requires
        call_ensures(gen_json_value, (source, depth), r),
    ensures
        r is Ok,
        depth == 0 ==> r->Ok_0 is Null && unread(*final(source)) == unread(*old(source)),
        depth > 0 && unread(*old(source)).len() >= 9 ==> {
            let bytes = unread(*old(source));
            let left = unread(*final(source));
            let kind = bytes[0] % 8;
            let word = le_value(bytes.subrange(1, 9));
            let fraction = word / 0x10_0000_0000_0000 % 0x800 != 0x7ff;
            let value = r->Ok_0;
            &&& kind == 0 ==> value is Null && left == bytes.skip(1)
            &&& kind == 1 ==> value == JsonValue::Bool(bytes[1] % 2 == 1) && left == bytes.skip(2)
            &&& kind == 2 ==> (value matches JsonValue::Integer(n) && (n - word)
                % 0x1_0000_0000_0000_0000 == 0) && left == bytes.skip(9)
            &&& kind == 3 && fraction ==> (value matches JsonValue::Fraction(bits) && bits == word)
                && left == bytes.skip(9)
            &&& kind == 3 && !fraction ==> value is Null && left == bytes.skip(9)
            &&& kind == 4 ==> (value matches JsonValue::Text(text) && text@ == text_draw(
                bytes.skip(1),
            ).0) && left == text_draw(bytes.skip(1)).1
            &&& kind == 5 ==> (value matches JsonValue::Array(items) && items@.len() == bytes[1] % 4)
            &&& kind > 5 ==> (value matches JsonValue::Object(members) && members@.len() <= bytes[1]
                % 4)
        },
{
    let bytes = unread(*old(source));
    if bytes.len() >= 9 {
        law_drawn(bytes, depth as nat);
    }
}

} // verus!
