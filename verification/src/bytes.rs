//! Byte strings: little-endian numbers, prefixes and comparisons.

#[allow(unused_imports)]
use vstd::arithmetic::power::pow;
use vstd::prelude::*;

verus! {

/// The `width` low bytes of `value`, least significant byte first.
pub open spec fn le(value: int, width: nat) -> Seq<u8>
    decreases width,
{
    if width == 0 {
        Seq::empty()
    } else {
        seq![(value % 256) as u8] + le(value / 256, (width - 1) as nat)
    }
}

/// The `width` low bytes of `value`, most significant byte first.
pub open spec fn be(value: int, width: nat) -> Seq<u8> {
    le(value, width).reverse()
}

/// The number that `bytes` spell, least significant byte first.
pub open spec fn le_value(bytes: Seq<u8>) -> int
    decreases bytes.len(),
{
    if bytes.len() == 0 {
        0
    } else {
        bytes[0] + 256 * le_value(bytes.skip(1))
    }
}

/// 256 to the power of `width`: how many numbers `width` bytes can spell.
pub open spec fn span(width: nat) -> int
    decreases width,
{
    if width == 0 {
        1
    } else {
        256 * span((width - 1) as nat)
    }
}

/// `count` zero bytes.
pub open spec fn zeros(count: nat) -> Seq<u8> {
    Seq::new(count, |i: int| 0u8)
}

/// The first `n` bytes of `v`, or all of them if there are fewer.
pub open spec fn capped(v: Seq<u8>, n: int) -> Seq<u8> {
    v.take(if v.len() < n { v.len() as int } else { n })
}

/// The bytes that came back, if any did.
pub open spec fn seen(bytes: Option<Vec<u8>>) -> Option<Seq<u8>> {
    match bytes {
        Some(bytes) => Some(bytes@),
        None => None,
    }
}

/// Neither byte string is the beginning of the other.
pub open spec fn prefix_free(a: Seq<u8>, b: Seq<u8>) -> bool {
    !b.is_prefix_of(a) && !a.is_prefix_of(b)
}

/// An encoding of fixed width has that width.
pub proof fn lemma_le_len(value: int, width: nat)
    ensures
        le(value, width).len() == width,
    decreases width,
{
    if width > 0 {
        lemma_le_len(value / 256, (width - 1) as nat);
    }
}

/// Reading back the little-endian bytes of a number that fits yields the number.
pub proof fn lemma_le_round_trip(value: int, width: nat)
    requires
        0 <= value < span(width),
    ensures
        le_value(le(value, width)) == value,
    decreases width,
{
    if width > 0 {
        lemma_le_len(value, width);
        lemma_le_round_trip(value / 256, (width - 1) as nat);
        assert(le(value, width).skip(1) =~= le(value / 256, (width - 1) as nat));
    }
}

/// Reading back the big-endian bytes of a number that fits yields the number.
pub proof fn lemma_be_round_trip(value: int, width: nat)
    requires
        0 <= value < span(width),
    ensures
        be(value, width).len() == width,
        le_value(be(value, width).reverse()) == value,
{
    lemma_le_len(value, width);
    lemma_le_round_trip(value, width);
    assert(be(value, width).reverse() =~= le(value, width));
}

/// Writing out the number that some bytes spell yields the bytes.
pub proof fn lemma_le_bytes_of_value(bytes: Seq<u8>)
    ensures
        le(le_value(bytes), bytes.len()) =~= bytes,
    decreases bytes.len(),
{
    if bytes.len() > 0 {
        lemma_le_bytes_of_value(bytes.skip(1));
        assert(le_value(bytes) / 256 == le_value(bytes.skip(1)));
        assert(le_value(bytes) % 256 == bytes[0]);
        assert(seq![bytes[0]] + bytes.skip(1) =~= bytes);
    }
}

/// Byte strings of the same length that spell the same number are the same.
pub proof fn lemma_le_value_injective(a: Seq<u8>, b: Seq<u8>)
    requires
        a.len() == b.len(),
    ensures
        le_value(a) == le_value(b) ==> a == b,
{
    lemma_le_bytes_of_value(a);
    lemma_le_bytes_of_value(b);
}

/// The number that `n` bytes spell lies below 256 to the power of `n`.
pub proof fn lemma_le_value_bound(bytes: Seq<u8>)
    ensures
        0 <= le_value(bytes) < span(bytes.len()),
    decreases bytes.len(),
{
    if bytes.len() > 0 {
        lemma_le_value_bound(bytes.skip(1));
    }
}

/// The last byte of a number is its most significant one.
pub(crate) proof fn lemma_le_value_last(bytes: Seq<u8>)
    requires
        bytes.len() > 0,
    ensures
        le_value(bytes) == le_value(bytes.drop_last()) + span((bytes.len() - 1) as nat)
            * bytes.last(),
    decreases bytes.len(),
{
    if bytes.len() > 1 {
        let rest = bytes.skip(1);
        lemma_le_value_last(rest);
        assert(rest.drop_last() =~= bytes.drop_last().skip(1));
        assert(rest.last() == bytes.last());
        let p = span((rest.len() - 1) as nat);
        let l = bytes.last() as int;
        assert(256 * (p * l) == (256 * p) * l) by (nonlinear_arith);
    } else {
        assert(bytes.drop_last() =~= Seq::<u8>::empty());
        assert(bytes.skip(1) =~= Seq::<u8>::empty());
        assert(span(0) == 1);
    }
}

/// Whether two byte strings are the same.
pub fn same_bytes(a: &[u8], b: &[u8]) -> (r: bool)
    ensures
        r == (a@ == b@),
{
    if a.len() != b.len() {
        return false;
    }
    let mut i: usize = 0;
    while i < a.len()
        invariant
            i <= a.len(),
            a.len() == b.len(),
            forall|j: int| 0 <= j < i ==> a@[j] == b@[j],
        decreases a.len() - i,
    {
        if a[i] != b[i] {
            return false;
        }
        i += 1;
    }
    assert(a@ =~= b@);
    true
}

/// Whether every byte is zero.
pub fn zeros_only(bytes: &[u8]) -> (r: bool)
    ensures
        r == (bytes@ == zeros(bytes@.len())),
{
    let mut i: usize = 0;
    while i < bytes.len()
        invariant
            i <= bytes@.len(),
            forall|j: int| 0 <= j < i ==> bytes@[j] == 0,
        decreases bytes@.len() - i,
    {
        if bytes[i] != 0 {
            assert(bytes@[i as int] != zeros(bytes@.len())[i as int]);
            return false;
        }
        i += 1;
    }
    assert(bytes@ =~= zeros(bytes@.len()));
    true
}

/// Whether `bytes` begins with `prefix`.
pub fn starts_with(bytes: &[u8], prefix: &[u8]) -> (r: bool)
    ensures
        r == prefix@.is_prefix_of(bytes@),
{
    if prefix.len() > bytes.len() {
        return false;
    }
    let mut i: usize = 0;
    while i < prefix.len()
        invariant
            i <= prefix.len() <= bytes.len(),
            forall|j: int| 0 <= j < i ==> prefix@[j] == bytes@[j],
        decreases prefix.len() - i,
    {
        if prefix[i] != bytes[i] {
            assert(bytes@.subrange(0, prefix@.len() as int)[i as int] == bytes@[i as int]);
            return false;
        }
        i += 1;
    }
    assert(prefix@ =~= bytes@.subrange(0, prefix@.len() as int));
    true
}

/// Whether neither of two byte strings is the beginning of the other, so that
/// the search spaces they head are disjoint.
pub fn is_prefix_free(a: &[u8], b: &[u8]) -> (r: bool)
    ensures
        r == prefix_free(a@, b@),
{
    !starts_with(a, b) && !starts_with(b, a)
}

/// Extensions of prefix-free byte strings never meet: no byte string begins
/// with both.
pub proof fn lemma_prefix_free_disjoint(a: Seq<u8>, b: Seq<u8>, whole: Seq<u8>)
    requires
        prefix_free(a, b),
    ensures
        !(a.is_prefix_of(whole) && b.is_prefix_of(whole)),
{
    if a.is_prefix_of(whole) && b.is_prefix_of(whole) {
        if a.len() <= b.len() {
            assert(a =~= b.subrange(0, a.len() as int));
        } else {
            assert(b =~= a.subrange(0, b.len() as int));
        }
    }
}

/// A copy of the first `n` bytes of `v`, or of all of them if there are fewer.
pub fn cap(v: &[u8], n: usize) -> (r: Vec<u8>)
    ensures
        r@ == capped(v@, n as int),
{
    let mut r: Vec<u8> = Vec::new();
    let mut i: usize = 0;
    while i < v.len() && i < n
        invariant
            i <= v.len(),
            i <= n,
            r@ =~= v@.take(i as int),
        decreases v.len() - i,
    {
        r.push(v[i]);
        i += 1;
    }
    r
}

/// `a` followed by `b`.
pub fn join(a: &[u8], b: &[u8]) -> (r: Vec<u8>)
    ensures
        r@ == a@ + b@,
{
    let mut r: Vec<u8> = Vec::new();
    r.extend_from_slice(a);
    r.extend_from_slice(b);
    assert(r@ =~= a@ + b@);
    r
}

/// Appends the `width` low bytes of `value`, least significant byte first.
pub fn push_le(out: &mut Vec<u8>, value: u64, width: usize)
    ensures
        final(out)@ == old(out)@ + le(value as int, width as nat),
{
    let mut rest: u64 = value;
    let mut i: usize = 0;
    while i < width
        invariant
            i <= width,
            out@ + le(rest as int, (width - i) as nat) == old(out)@ + le(
                value as int,
                width as nat,
            ),
        decreases width - i,
    {
        let ghost before = out@;
        let byte: u8 = (rest % 256) as u8;
        out.push(byte);
        proof {
            assert(before + le(rest as int, (width - i) as nat) =~= out@ + le(
                rest as int / 256,
                (width - i - 1) as nat,
            ));
        }
        rest = rest / 256;
        i += 1;
    }
    assert(out@ + le(rest as int, 0) =~= out@);
}

/// The number that `width` bytes from offset `at` on spell, least significant
/// byte first.
pub fn read_le(bytes: &[u8], at: usize, width: usize) -> (r: u64)
    requires
        at + width <= bytes@.len(),
        width <= 8,
    ensures
        r == le_value(bytes@.subrange(at as int, at + width)),
{
    let mut r: u64 = 0;
    let mut i: usize = width;
    let ghost whole = bytes@.subrange(at as int, at + width);
    proof {
        reveal_with_fuel(span, 9);
        assert(whole.skip(width as int) =~= Seq::<u8>::empty());
    }
    while i > 0
        invariant
            i <= width <= 8,
            at + width <= bytes.len(),
            whole == bytes@.subrange(at as int, at + width),
            r == le_value(whole.skip(i as int)),
        decreases i,
    {
        i -= 1;
        proof {
            lemma_le_value_bound(whole.skip(i + 1));
            reveal_with_fuel(span, 9);
            assert(whole.skip(i as int).skip(1) =~= whole.skip(i + 1));
            assert(whole.skip(i as int)[0] == bytes@[at + i]);
        }
        r = (bytes[at + i] as u64) + 256 * r;
    }
    assert(whole.skip(0) =~= whole);
    r
}

/// Compares two numbers of the same width, both spelled least significant byte
/// first.
pub fn le_at_most(a: &[u8], b: &[u8]) -> (r: bool)
    requires
        a@.len() == b@.len(),
    ensures
        r == (le_value(a@) <= le_value(b@)),
{
    let mut i: usize = a.len();
    proof {
        assert(a@.take(i as int) =~= a@);
        assert(b@.take(i as int) =~= b@);
    }
    while i > 0
        invariant
            i <= a@.len(),
            a@.len() == b@.len(),
            (le_value(a@) <= le_value(b@)) == (le_value(a@.take(i as int)) <= le_value(
                b@.take(i as int),
            )),
        decreases i,
    {
        i -= 1;
        proof {
            let x = a@.take(i + 1);
            let y = b@.take(i + 1);
            lemma_le_value_last(x);
            lemma_le_value_last(y);
            assert(x.drop_last() =~= a@.take(i as int));
            assert(y.drop_last() =~= b@.take(i as int));
            lemma_le_value_bound(x.drop_last());
            lemma_le_value_bound(y.drop_last());
            let p = span(i as nat);
            let u = x.last() as int;
            let v = y.last() as int;
            if u < v {
                assert(p * u + p <= p * v) by (nonlinear_arith)
                    requires
                        u + 1 <= v,
                        p >= 0,
                ;
            } else if v < u {
                assert(p * v + p <= p * u) by (nonlinear_arith)
                    requires
                        v + 1 <= u,
                        p >= 0,
                ;
            }
        }
        if a[i] < b[i] {
            return true;
        }
        if a[i] > b[i] {
            return false;
        }
    }
    true
}

/// A number is the sum of its bytes, each weighted by the power of 256 that its place stands
/// for: the first byte counts once, and one more byte on top counts 256 times as much as the
/// one below it.
pub proof fn law_le_value(bytes: Seq<u8>, top: u8)
    ensures
        le_value(Seq::empty()) == 0,
        le_value(bytes.push(top)) == le_value(bytes) + pow(256, bytes.len()) * top,
{
    lemma_le_value_last(bytes.push(top));
    assert(bytes.push(top).drop_last() =~= bytes);
    lemma_span_pow(bytes.len());
}

/// Zeros spell zero.
pub proof fn lemma_zeros_value(count: nat)
    ensures
        le_value(zeros(count)) == 0,
    decreases count,
{
    if count > 0 {
        lemma_zeros_value((count - 1) as nat);
        assert(zeros(count) =~= zeros((count - 1) as nat).push(0));
        law_le_value(zeros((count - 1) as nat), 0);
    }
}

/// `span` is a power of 256.
proof fn lemma_span_pow(width: nat)
    ensures
        span(width) == pow(256, width),
    decreases width,
{
    reveal(pow);
    if width > 0 {
        lemma_span_pow((width - 1) as nat);
    }
}

/// The byte at place `i` of a number says how often the power of 256 of that place goes into
/// it, up to 255 times.
pub proof fn law_le(value: int, width: nat, i: int)
    requires
        0 <= value,
        0 <= i < width,
    ensures
        le(value, width).len() == width,
        le(value, width)[i] == (value / pow(256, i as nat)) % 256,
        be(value, width)[width - 1 - i] == le(value, width)[i],
    decreases width,
{
    lemma_le_len(value, width);
    reveal(pow);
    if i > 0 {
        law_le(value / 256, (width - 1) as nat, i - 1);
        let p = pow(256, (i - 1) as nat);
        vstd::arithmetic::power::lemma_pow_positive(256, (i - 1) as nat);
        vstd::arithmetic::div_mod::lemma_div_denominator(value, 256, p);
        assert(256 * p == pow(256, i as nat));
    }
}

/// Numbers of the same width compare as their highest bytes do where they differ.
pub proof fn law_le_order(a: Seq<u8>, b: Seq<u8>, i: int)
    requires
        a.len() == b.len(),
        0 <= i < a.len(),
        a[i] < b[i],
        forall|j: int| i < j < a.len() ==> a[j] == b[j],
    ensures
        le_value(a) < le_value(b),
    decreases a.len(),
{
    lemma_le_value_last(a);
    lemma_le_value_last(b);
    let p = span((a.len() - 1) as nat);
    if i == a.len() - 1 {
        lemma_le_value_bound(a.drop_last());
        lemma_le_value_bound(b.drop_last());
        let u = a.last() as int;
        let v = b.last() as int;
        assert(p * u + p <= p * v) by (nonlinear_arith)
            requires
                u + 1 <= v,
                p >= 0,
        ;
    } else {
        law_le_order(a.drop_last(), b.drop_last(), i);
    }
}

/// One number is at most another exactly if they are the same, or if the first is smaller at
/// the highest byte where they differ.
pub proof fn law_le_at_most(a: &[u8], b: &[u8], r: bool)
    requires
        a@.len() == b@.len(),
        call_ensures(le_at_most, (a, b), r),
    ensures
        r <==> a@ == b@ || exists|i: int|
            0 <= i < a@.len() && #[trigger] a@[i] < b@[i] && forall|j: int|
                i < j < a@.len() ==> a@[j] == b@[j],
{
    if a@ != b@ {
        let i = lemma_highest_difference(a@, b@);
        if a@[i] < b@[i] {
            law_le_order(a@, b@, i);
        } else {
            law_le_order(b@, a@, i);
            assert forall|k: int|
                0 <= k < a@.len() && #[trigger] a@[k] < b@[k] && (forall|j: int|
                    k < j < a@.len() ==> a@[j] == b@[j]) implies false by {
                law_le_order(a@, b@, k);
            }
        }
    }
}

/// The highest place where two byte strings of the same length differ.
proof fn lemma_highest_difference(a: Seq<u8>, b: Seq<u8>) -> (i: int)
    requires
        a.len() == b.len(),
        a != b,
    ensures
        0 <= i < a.len(),
        a[i] != b[i],
        forall|j: int| i < j < a.len() ==> a[j] == b[j],
    decreases a.len(),
{
    if a.len() == 0 {
        assert(a =~= b);
        0
    } else if a.last() != b.last() {
        a.len() - 1
    } else {
        if a.drop_last() == b.drop_last() {
            assert(a =~= a.drop_last().push(a.last()));
            assert(b =~= b.drop_last().push(b.last()));
        }
        let i = lemma_highest_difference(a.drop_last(), b.drop_last());
        assert forall|j: int| i < j < a.len() implies a[j] == b[j] by {
            if j < a.len() - 1 {
                assert(a.drop_last()[j] == b.drop_last()[j]);
            }
        }
        i
    }
}

/// Two byte strings are found the same exactly if they are as long and have the same byte at
/// every place.
pub proof fn law_same_bytes(a: &[u8], b: &[u8], r: bool)
    requires
        call_ensures(same_bytes, (a, b), r),
    ensures
        r <==> a@.len() == b@.len() && forall|i: int| 0 <= i < a@.len() ==> a@[i] == b@[i],
{
    if a@.len() == b@.len() && forall|i: int| 0 <= i < a@.len() ==> a@[i] == b@[i] {
        assert(a@ =~= b@);
    }
}

/// Bytes are found to be zeros exactly if each of them is zero.
pub proof fn law_zeros_only(bytes: &[u8], r: bool)
    requires
        call_ensures(zeros_only, (bytes,), r),
    ensures
        r <==> forall|i: int| 0 <= i < bytes@.len() ==> bytes@[i] == 0,
{
    if forall|i: int| 0 <= i < bytes@.len() ==> bytes@[i] == 0 {
        assert(bytes@ =~= zeros(bytes@.len()));
    }
}

/// `count` zero bytes are that many, and each of them is zero.
pub proof fn law_zeros(count: nat)
    ensures
        zeros(count).len() == count,
        forall|i: int| 0 <= i < count ==> zeros(count)[i] == 0,
{
}

/// One byte string is found to begin with another exactly if something put behind the other
/// makes it.
pub proof fn law_starts_with(bytes: &[u8], prefix: &[u8], r: bool)
    requires
        call_ensures(starts_with, (bytes, prefix), r),
    ensures
        r <==> exists|rest: Seq<u8>| bytes@ == #[trigger] (prefix@ + rest),
{
    if r {
        let rest = bytes@.skip(prefix@.len() as int);
        assert(bytes@ =~= prefix@ + rest);
    }
    if exists|rest: Seq<u8>| bytes@ == #[trigger] (prefix@ + rest) {
        let rest = choose|rest: Seq<u8>| bytes@ == #[trigger] (prefix@ + rest);
        assert(prefix@ =~= bytes@.subrange(0, prefix@.len() as int));
    }
}

/// Two byte strings are found prefix-free exactly if no byte string begins with both, that is,
/// if they differ at a place that both have.
pub proof fn law_is_prefix_free(a: &[u8], b: &[u8], r: bool)
    requires
        call_ensures(is_prefix_free, (a, b), r),
    ensures
        r <==> exists|i: int| 0 <= i < a@.len() && i < b@.len() && #[trigger] a@[i] != b@[i],
        r <==> forall|x: Seq<u8>, y: Seq<u8>| #[trigger] (a@ + x) != #[trigger] (b@ + y),
{
    lemma_prefix_free_differs(a@, b@);
    if exists|i: int| 0 <= i < a@.len() && i < b@.len() && #[trigger] a@[i] != b@[i] {
        let i = choose|i: int| 0 <= i < a@.len() && i < b@.len() && #[trigger] a@[i] != b@[i];
        assert forall|x: Seq<u8>, y: Seq<u8>| #[trigger] (a@ + x) != #[trigger] (b@ + y) by {
            assert((a@ + x)[i] == a@[i]);
            assert((b@ + y)[i] == b@[i]);
        }
    } else {
        let x = b@.skip(if a@.len() <= b@.len() { a@.len() as int } else { b@.len() as int });
        let y = a@.skip(if b@.len() <= a@.len() { b@.len() as int } else { a@.len() as int });
        assert(a@ + x =~= b@ + y);
    }
}

/// Byte strings are prefix-free exactly if they differ at a place that both have.
pub proof fn lemma_prefix_free_differs(a: Seq<u8>, b: Seq<u8>)
    ensures
        prefix_free(a, b) <==> exists|i: int|
            0 <= i < a.len() && i < b.len() && #[trigger] a[i] != b[i],
        prefix_free(a, b) == prefix_free(b, a),
{
    if forall|i: int| 0 <= i < a.len() && i < b.len() ==> #[trigger] a[i] == b[i] {
        if a.len() <= b.len() {
            assert(a =~= b.subrange(0, a.len() as int));
        } else {
            assert(b =~= a.subrange(0, b.len() as int));
        }
    } else {
        let i = choose|i: int| 0 <= i < a.len() && i < b.len() && #[trigger] a[i] != b[i];
        if a.is_prefix_of(b) {
            assert(b.subrange(0, a.len() as int)[i] == b[i]);
        }
        if b.is_prefix_of(a) {
            assert(a.subrange(0, b.len() as int)[i] == a[i]);
        }
    }
}

/// What is cut to `n` bytes keeps its first bytes, all of them if there are no more than `n`.
pub proof fn law_cap(v: &[u8], n: usize, r: Vec<u8>)
    requires
        call_ensures(cap, (v, n), r),
    ensures
        r@.len() <= n,
        r@.len() < n ==> r@.len() == v@.len(),
        r@.len() <= v@.len(),
        forall|i: int| 0 <= i < r@.len() ==> r@[i] == v@[i],
{
}

/// Two byte strings that are joined are both there, one behind the other.
pub proof fn law_join(a: &[u8], b: &[u8], r: Vec<u8>)
    requires
        call_ensures(join, (a, b), r),
    ensures
        r@.len() == a@.len() + b@.len(),
        forall|i: int| 0 <= i < a@.len() ==> r@[i] == a@[i],
        forall|i: int| 0 <= i < b@.len() ==> #[trigger] r@[a@.len() + i] == b@[i],
{
}

/// Reading a number back gives the one whose bytes, least significant first, stand at the
/// offset: changing the byte at place `i` changes it by that many times the power of 256 of
/// that place.
pub proof fn law_read_le(bytes: &[u8], at: usize, width: usize, value: u64, r: u64)
    requires
        at + width <= bytes@.len(),
        width <= 8,
        call_ensures(read_le, (bytes, at, width), r),
    ensures
        value < pow(256, width as nat) ==> (value == r <==> forall|i: int|
            0 <= i < width ==> #[trigger] bytes@[at + i] == (value as int / pow(256, i as nat))
                % 256),
{
    let part = bytes@.subrange(at as int, at + width);
    lemma_span_pow(width as nat);
    if value < pow(256, width as nat) {
        lemma_le_round_trip(value as int, width as nat);
        lemma_le_bytes_of_value(part);
        assert forall|i: int| 0 <= i < width implies le(value as int, width as nat)[i] == (
        value as int / #[trigger] pow(256, i as nat)) % 256 by {
            law_le(value as int, width as nat, i);
        }
        lemma_le_len(value as int, width as nat);
        if value == r {
            assert forall|i: int| 0 <= i < width implies #[trigger] bytes@[at + i] == (
            value as int / pow(256, i as nat)) % 256 by {
                assert(part[i] == bytes@[at + i]);
            }
        }
        if forall|i: int|
            0 <= i < width ==> #[trigger] bytes@[at + i] == (value as int / pow(256, i as nat))
                % 256 {
            assert forall|i: int| 0 <= i < width implies part[i] == le(
                value as int,
                width as nat,
            )[i] by {
                assert(part[i] == bytes@[at + i]);
            }
            assert(part =~= le(value as int, width as nat));
        }
    }
}

/// Appending a number leaves what was there, and puts as many bytes behind it as it is wide: the
/// byte at place `i` says how often the power of 256 of that place goes into it, up to 255 times.
pub proof fn law_push_le(out: &mut Vec<u8>, value: u64, width: usize, i: int, r: ())
    requires
        call_ensures(push_le, (out, value, width), r),
    ensures
        final(out)@.len() == old(out)@.len() + width,
        final(out)@.take(old(out)@.len() as int) == old(out)@,
        0 <= i < width ==> final(out)@[old(out)@.len() + i] == (value as int / pow(256, i as nat))
            % 256,
{
    lemma_le_len(value as int, width as nat);
    if 0 <= i < width {
        law_le(value as int, width as nat, i);
    }
    assert(final(out)@.take(old(out)@.len() as int) =~= old(out)@);
}

} // verus!
