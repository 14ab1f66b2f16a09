use sv2_conformance::bytes::{
    cap, is_prefix_free, join, le_at_most, push_le, read_le, same_bytes, starts_with, zeros_only,
};
use sv2_conformance::codes::{check_error_codes, first_invalid_code};
use sv2_conformance::messages::{channel_id_of, Message};
use sv2_conformance::roundtrip::{truncations, with_trailing};
use sv2_conformance::structure::{
    is_valid_error_code, prefix_cuts, spec_channel_bit, TRAILING_JUNK,
};

#[test]
fn prefix_cuts_are_short_middle_and_almost_whole() {
    assert_eq!(prefix_cuts(0), Vec::<usize>::new());
    assert_eq!(prefix_cuts(1), vec![0]);
    assert_eq!(prefix_cuts(2), vec![0, 1]);
    assert_eq!(prefix_cuts(3), vec![0, 1, 2]);
    assert_eq!(prefix_cuts(10), vec![0, 5, 9]);
    assert_eq!(prefix_cuts(11), vec![0, 5, 10]);
}

#[test]
fn message_table_says_which_messages_address_a_channel() {
    assert_eq!(spec_channel_bit(0x00), Some(false));
    assert_eq!(spec_channel_bit(0x03), Some(true));
    assert_eq!(spec_channel_bit(0x04), Some(false));
    assert_eq!(spec_channel_bit(0x05), None);
    assert_eq!(spec_channel_bit(0x0f), None);
    assert_eq!(spec_channel_bit(0x14), Some(false));
    assert_eq!(spec_channel_bit(0x15), Some(true));
    assert_eq!(spec_channel_bit(0x1d), Some(true));
    assert_eq!(spec_channel_bit(0x1e), None);
    assert_eq!(spec_channel_bit(0x1f), Some(true));
    assert_eq!(spec_channel_bit(0x24), Some(true));
    assert_eq!(spec_channel_bit(0x25), Some(false));
    assert_eq!(spec_channel_bit(0x26), None);
    assert_eq!(spec_channel_bit(0x50), Some(false));
    assert_eq!(spec_channel_bit(0x52), None);
    assert_eq!(spec_channel_bit(0x59), Some(false));
    assert_eq!(spec_channel_bit(0x60), Some(false));
    assert_eq!(spec_channel_bit(0x6f), None);
    assert_eq!(spec_channel_bit(0x70), Some(false));
    assert_eq!(spec_channel_bit(0x76), Some(false));
    assert_eq!(spec_channel_bit(0x77), None);
    assert_eq!(spec_channel_bit(0xff), None);
}

#[test]
fn message_table_has_forty_one_entries() {
    let mut defined = 0;
    let mut channel = 0;
    for msg_type in 0..=255u8 {
        match spec_channel_bit(msg_type) {
            Some(true) => {
                defined += 1;
                channel += 1;
            }
            Some(false) => defined += 1,
            None => {}
        }
    }
    assert_eq!(defined, 41);
    assert_eq!(channel, 16);
}

#[test]
fn error_codes_are_printable_and_short() {
    assert!(is_valid_error_code("invalid-job-id"));
    assert!(is_valid_error_code(" ~"));
    assert!(!is_valid_error_code(""));
    assert!(!is_valid_error_code("tab\there"));
    assert!(!is_valid_error_code("\u{7f}"));
    assert!(!is_valid_error_code("caf\u{e9}"));
    assert!(is_valid_error_code(&"a".repeat(255)));
    assert!(!is_valid_error_code(&"a".repeat(256)));
}

#[test]
fn shipped_error_codes_are_valid() {
    let codes = check_error_codes().unwrap();
    assert_eq!(codes.len(), 39);
    for code in &codes {
        assert!(is_valid_error_code(code));
    }
    assert!(codes.contains(&"invalid-job-id"));
    assert!(codes.contains(&"difficulty-too-low"));
    assert!(codes.contains(&"unsupported-protocol"));
}

#[test]
fn first_invalid_code_is_found() {
    assert_eq!(first_invalid_code(&vec!["good", "also good"]), None);
    assert_eq!(first_invalid_code(&vec!["good", "", "bad\n"]), Some(1));
    assert_eq!(first_invalid_code(&vec![]), None);
}

#[test]
fn channel_messages_carry_their_channel() {
    assert_eq!(channel_id_of(&Message::ChannelEndpointChanged(1)), Some(1));
    assert_eq!(channel_id_of(&Message::CloseChannel(2)), Some(2));
    assert_eq!(channel_id_of(&Message::NewExtendedMiningJob(3)), Some(3));
    assert_eq!(channel_id_of(&Message::NewMiningJob(4)), Some(4));
    assert_eq!(channel_id_of(&Message::SetCustomMiningJob(5)), Some(5));
    assert_eq!(channel_id_of(&Message::SetCustomMiningJobError(6)), Some(6));
    assert_eq!(channel_id_of(&Message::SetCustomMiningJobSuccess(7)), Some(7));
    assert_eq!(channel_id_of(&Message::SetExtranoncePrefix(8)), Some(8));
    assert_eq!(channel_id_of(&Message::SetNewPrevHash(9)), Some(9));
    assert_eq!(channel_id_of(&Message::SetTarget(10)), Some(10));
    assert_eq!(channel_id_of(&Message::SubmitSharesError(11)), Some(11));
    assert_eq!(channel_id_of(&Message::SubmitSharesExtended(12)), Some(12));
    assert_eq!(channel_id_of(&Message::SubmitSharesStandard(13)), Some(13));
    assert_eq!(channel_id_of(&Message::SubmitSharesSuccess(14)), Some(14));
    assert_eq!(channel_id_of(&Message::UpdateChannel(15)), Some(15));
    assert_eq!(channel_id_of(&Message::UpdateChannelError(16)), Some(16));
    assert_eq!(channel_id_of(&Message::Other), None);
}

#[test]
fn byte_strings_are_cut_and_joined() {
    assert_eq!(cap(&[1, 2, 3], 2), vec![1, 2]);
    assert_eq!(cap(&[1, 2, 3], 3), vec![1, 2, 3]);
    assert_eq!(cap(&[1, 2, 3], 9), vec![1, 2, 3]);
    assert_eq!(cap(&[], 9), Vec::<u8>::new());
    assert_eq!(join(&[1], &[2, 3]), vec![1, 2, 3]);
    assert!(same_bytes(&[1, 2], &[1, 2]));
    assert!(!same_bytes(&[1, 2], &[1, 2, 3]));
    assert!(starts_with(&[1, 2, 3], &[1, 2]));
    assert!(starts_with(&[1, 2, 3], &[]));
    assert!(!starts_with(&[1, 2], &[1, 2, 3]));
    assert!(zeros_only(&[0, 0]));
    assert!(zeros_only(&[]));
    assert!(!zeros_only(&[0, 1]));
}

#[test]
fn prefix_free_means_neither_begins_the_other() {
    assert!(is_prefix_free(&[1, 2], &[1, 3]));
    assert!(!is_prefix_free(&[1, 2], &[1]));
    assert!(!is_prefix_free(&[1], &[1, 2]));
    assert!(!is_prefix_free(&[1], &[1]));
    assert!(!is_prefix_free(&[], &[1]));
}

#[test]
fn little_endian_numbers_come_back() {
    let mut out: Vec<u8> = vec![9];
    push_le(&mut out, 0x0102_0304, 3);
    assert_eq!(out, vec![9, 4, 3, 2]);
    assert_eq!(read_le(&out, 1, 3), 0x02_0304);
    assert_eq!(read_le(&[0xff; 8], 0, 8), u64::MAX);
    assert!(le_at_most(&[5, 1], &[4, 2]));
    assert!(!le_at_most(&[4, 2], &[5, 1]));
    assert!(le_at_most(&[4, 2], &[4, 2]));
    assert!(le_at_most(&[], &[]));
}

#[test]
fn truncations_and_trailing_bytes_of_an_encoding() {
    assert_eq!(with_trailing(&[7]), vec![7, 0xAB, 0xCD, 0x00, 0xFF, 0x7F, 0x01]);
    assert_eq!(with_trailing(&[]), TRAILING_JUNK.to_vec());
    assert_eq!(
        truncations(&[1, 2, 3, 4]),
        vec![vec![], vec![1, 2], vec![1, 2, 3]]
    );
    assert_eq!(truncations(&[1]), vec![Vec::<u8>::new()]);
    assert_eq!(truncations(&[]), Vec::<Vec<u8>>::new());
}
