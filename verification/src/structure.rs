//! Structural rules of the protocol: prefix lengths worth trying, the message
//! table, and the alphabet of error codes.

use vstd::prelude::*;
#[allow(unused_imports)]
use vstd::string::StringSliceAdditionalSpecFns;

verus! {

/// Bytes appended after a complete encoding to check that they are ignored.
pub const TRAILING_JUNK: [u8; 6] = [0xAB, 0xCD, 0x00, 0xFF, 0x7F, 0x01];

/// The empty buffer, the midpoint, and one byte short of `len` bytes, each once.
pub open spec fn cut_lengths(len: usize) -> Seq<usize> {
    if len == 0 {
        seq![]
    } else if len == 1 {
        seq![0]
    } else if len == 2 {
        seq![0, 1]
    } else {
        seq![0, len / 2, (len - 1) as usize]
    }
}

/// The strict-prefix lengths worth checking for an encoding of `len` bytes, in
/// ascending order: the empty buffer, the midpoint, and one byte short.
pub fn prefix_cuts(len: usize) -> (r: Vec<usize>)
    ensures
        r@ == cut_lengths(len),
        forall|cut: usize| #[trigger]
            r@.contains(cut) <==> len > 0 && (cut == 0 || cut == len / 2 || cut == len - 1),
        forall|i: int, j: int| 0 <= i < j < r@.len() ==> r@[i] < r@[j],
{
    let mut cuts: Vec<usize> = Vec::new();
    if len == 0 {
        return cuts;
    }
    cuts.push(0);
    if len / 2 > 0 {
        cuts.push(len / 2);
    }
    if len - 1 > len / 2 {
        cuts.push(len - 1);
    }
    proof {
        assert(cuts@[0] == 0);
        assert(len > 1 ==> cuts@[1] == len / 2);
        assert(len > 2 ==> cuts@[2] == len - 1);
        assert(cuts@ =~= cut_lengths(len));
    }
    cuts
}

/// The message types that the protocol defines.
pub open spec fn is_defined(msg_type: u8) -> bool {
    ||| msg_type <= 0x04
    ||| 0x10 <= msg_type <= 0x1d
    ||| 0x1f <= msg_type <= 0x25
    ||| msg_type == 0x50
    ||| msg_type == 0x51
    ||| 0x55 <= msg_type <= 0x59
    ||| msg_type == 0x60
    ||| 0x70 <= msg_type <= 0x76
}

/// The message types that address one channel: `ChannelEndpointChanged`, and the
/// mining messages from `NewMiningJob` to `SetCustomMiningJob.Error`, in between
/// which one type is reserved.
pub open spec fn is_channel_message(msg_type: u8) -> bool {
    ||| msg_type == 0x03
    ||| 0x15 <= msg_type <= 0x1d
    ||| 0x1f <= msg_type <= 0x24
}

/// What the message table says of a message type: whether it addresses a channel, and nothing
/// of a type that is not defined.
pub open spec fn table_bit(msg_type: u8) -> Option<bool> {
    if is_defined(msg_type) {
        Some(is_channel_message(msg_type))
    } else {
        None
    }
}

/// The `channel_msg` bit that each core message type must carry; none for the
/// types that the protocol does not define (including `0x1e`, which is reserved).
pub fn spec_channel_bit(msg_type: u8) -> (r: Option<bool>)
    ensures
        r == table_bit(msg_type),
{
    match msg_type {
        // Common: only ChannelEndpointChanged addresses a channel.
        0x00 | 0x01 | 0x02 | 0x04 => Some(false),
        0x03 => Some(true),
        // Mining: opening a channel, and SetGroupChannel, address none.
        0x10 | 0x11 | 0x12 | 0x13 | 0x14 | 0x25 => Some(false),
        0x15 | 0x16 | 0x17 | 0x18 | 0x19 | 0x1a | 0x1b | 0x1c | 0x1d => Some(true),
        0x1f | 0x20 | 0x21 | 0x22 | 0x23 | 0x24 => Some(true),
        // Job Declaration
        0x50 | 0x51 | 0x55 | 0x56 | 0x57 | 0x58 | 0x59 | 0x60 => Some(false),
        // Template Distribution
        0x70 | 0x71 | 0x72 | 0x73 | 0x74 | 0x75 | 0x76 => Some(false),
        _ => None,
    }
}

/// A printable ASCII character.
pub open spec fn printable(byte: u8) -> bool {
    0x20 <= byte <= 0x7e
}

/// Printable ASCII without control characters, one to 255 bytes of it.
pub open spec fn valid_error_code(code: Seq<u8>) -> bool {
    &&& 0 < code.len() <= 255
    &&& forall|i: int| 0 <= i < code.len() ==> printable(#[trigger] code[i])
}

/// Whether `code` can stand as an error code (or as another human-readable code,
/// such as the reason for closing a channel).
pub fn is_valid_error_code(code: &str) -> (r: bool)
    ensures
        r == valid_error_code(code.spec_bytes()),
{
    let bytes = code.as_bytes();
    if bytes.len() == 0 || bytes.len() > 255 {
        return false;
    }
    let mut i: usize = 0;
    while i < bytes.len()
        invariant
            bytes@ == code.spec_bytes(),
            i <= bytes@.len(),
            forall|j: int| 0 <= j < i ==> printable(#[trigger] bytes@[j]),
        decreases bytes@.len() - i,
    {
        if bytes[i] < 0x20 || bytes[i] > 0x7e {
            assert(!printable(bytes@[i as int]));
            return false;
        }
        i += 1;
    }
    true
}

/// The message table: these types address a channel, these do not, and no others are defined.
pub proof fn law_channel_bit(msg_type: u8, r: Option<bool>)
    requires
        call_ensures(spec_channel_bit, (msg_type,), r),
    ensures
        r == Some(true) <==> seq![
                0x03u8, 0x15u8, 0x16u8, 0x17u8, 0x18u8, 0x19u8, 0x1au8, 0x1bu8,
                0x1cu8, 0x1du8, 0x1fu8, 0x20u8, 0x21u8, 0x22u8, 0x23u8, 0x24u8,
            ].contains(msg_type),
        r == Some(false) <==> seq![
                0x00u8, 0x01u8, 0x02u8, 0x04u8, 0x10u8, 0x11u8, 0x12u8, 0x13u8,
                0x14u8, 0x25u8, 0x50u8, 0x51u8, 0x55u8, 0x56u8, 0x57u8, 0x58u8,
                0x59u8, 0x60u8, 0x70u8, 0x71u8, 0x72u8, 0x73u8, 0x74u8, 0x75u8,
                0x76u8,
            ].contains(msg_type),
{
    let with_bit = seq![
                0x03u8, 0x15u8, 0x16u8, 0x17u8, 0x18u8, 0x19u8, 0x1au8, 0x1bu8,
                0x1cu8, 0x1du8, 0x1fu8, 0x20u8, 0x21u8, 0x22u8, 0x23u8, 0x24u8,
            ];
    let without = seq![
                0x00u8, 0x01u8, 0x02u8, 0x04u8, 0x10u8, 0x11u8, 0x12u8, 0x13u8,
                0x14u8, 0x25u8, 0x50u8, 0x51u8, 0x55u8, 0x56u8, 0x57u8, 0x58u8,
                0x59u8, 0x60u8, 0x70u8, 0x71u8, 0x72u8, 0x73u8, 0x74u8, 0x75u8,
                0x76u8,
            ];
    assert(with_bit[0] == 0x03);
    assert(with_bit[1] == 0x15);
    assert(with_bit[2] == 0x16);
    assert(with_bit[3] == 0x17);
    assert(with_bit[4] == 0x18);
    assert(with_bit[5] == 0x19);
    assert(with_bit[6] == 0x1a);
    assert(with_bit[7] == 0x1b);
    assert(with_bit[8] == 0x1c);
    assert(with_bit[9] == 0x1d);
    assert(with_bit[10] == 0x1f);
    assert(with_bit[11] == 0x20);
    assert(with_bit[12] == 0x21);
    assert(with_bit[13] == 0x22);
    assert(with_bit[14] == 0x23);
    assert(with_bit[15] == 0x24);
    assert(without[0] == 0x00);
    assert(without[1] == 0x01);
    assert(without[2] == 0x02);
    assert(without[3] == 0x04);
    assert(without[4] == 0x10);
    assert(without[5] == 0x11);
    assert(without[6] == 0x12);
    assert(without[7] == 0x13);
    assert(without[8] == 0x14);
    assert(without[9] == 0x25);
    assert(without[10] == 0x50);
    assert(without[11] == 0x51);
    assert(without[12] == 0x55);
    assert(without[13] == 0x56);
    assert(without[14] == 0x57);
    assert(without[15] == 0x58);
    assert(without[16] == 0x59);
    assert(without[17] == 0x60);
    assert(without[18] == 0x70);
    assert(without[19] == 0x71);
    assert(without[20] == 0x72);
    assert(without[21] == 0x73);
    assert(without[22] == 0x74);
    assert(without[23] == 0x75);
    assert(without[24] == 0x76);
}

/// The lengths worth trying are strictly increasing, all below `len`, and each of them is
/// nothing, half, or all but one byte; each of these three is among them, unless there is
/// nothing to cut.
pub proof fn law_prefix_cuts(len: usize, r: Vec<usize>)
    requires
        call_ensures(prefix_cuts, (len,), r),
    ensures
        len == 0 ==> r@.len() == 0,
        forall|i: int, j: int| 0 <= i < j < r@.len() ==> r@[i] < r@[j],
        forall|i: int|
            0 <= i < r@.len() ==> #[trigger] r@[i] < len && (r@[i] == 0 || r@[i] == len / 2
                || r@[i] == len - 1),
        len > 0 ==> r@.contains(0) && r@.contains((len / 2) as usize) && r@.contains(
            (len - 1) as usize,
        ),
{
    assert forall|i: int| 0 <= i < r@.len() implies #[trigger] r@[i] < len && (r@[i] == 0 || r@[i]
        == len / 2 || r@[i] == len - 1) by {
        assert(r@.contains(r@[i]));
    }
}

/// A code is valid exactly if it has one to 255 bytes, each from the space to the tilde.
pub proof fn law_error_code(code: &str, r: bool)
    requires
        call_ensures(is_valid_error_code, (code,), r),
    ensures
        r <==> {
            let bytes = code.spec_bytes();
            &&& 1 <= bytes.len() <= 255
            &&& forall|i: int| 0 <= i < bytes.len() ==> 0x20 <= #[trigger] bytes[i] <= 0x7e
        },
{
    let bytes = code.spec_bytes();
    if forall|i: int| 0 <= i < bytes.len() ==> 0x20 <= #[trigger] bytes[i] <= 0x7e {
        assert forall|i: int| 0 <= i < bytes.len() implies printable(#[trigger] bytes[i]) by {}
    }
    if valid_error_code(bytes) {
        assert forall|i: int| 0 <= i < bytes.len() implies 0x20 <= #[trigger] bytes[i] <= 0x7e by {
            assert(printable(bytes[i]));
        }
    }
}

} // verus!
