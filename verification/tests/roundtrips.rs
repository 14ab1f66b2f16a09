use sv2_conformance::roundtrip::{
    judge_message_trip, judge_scalar_trip, judge_value_trip, BoolTrip, FloatTrip, MessageAgain,
    MessageTrip, MessageTripRule, ScalarTrip, ScalarTripRule, ValueTrip, ValueTripRule,
};

fn message(encoded: Option<Vec<u8>>) -> MessageAgain {
    MessageAgain { display: "message".to_string(), size: 3, encoded }
}

fn message_trip(change: fn(&mut MessageTrip)) -> Result<(), MessageTripRule> {
    let mut run = MessageTrip {
        input_len: 4,
        first: message(Some(vec![1, 2, 3])),
        second: Some(message(Some(vec![1, 2, 3]))),
        trailing: Some(message(None)),
        prefixes: vec![false, false, false],
    };
    change(&mut run);
    judge_message_trip(&run)
}

#[test]
fn every_rule_about_the_round_trip_of_a_message_can_be_broken() {
    assert_eq!(message_trip(|_| {}), Ok(()));
    assert_eq!(message_trip(|run| run.input_len = 3), Ok(()));
    assert_eq!(message_trip(|run| run.input_len = 2), Err(MessageTripRule::Size));
    assert_eq!(message_trip(|run| run.first.encoded = None), Err(MessageTripRule::Encodes));
    assert_eq!(message_trip(|run| run.second = None), Err(MessageTripRule::Decodes));
    assert_eq!(
        message_trip(|run| run.second.as_mut().unwrap().encoded = None),
        Err(MessageTripRule::EncodesAgain)
    );
    assert_eq!(
        message_trip(|run| run.second.as_mut().unwrap().encoded = Some(vec![1, 2])),
        Err(MessageTripRule::Stable)
    );
    assert_eq!(
        message_trip(|run| run.second.as_mut().unwrap().display = String::new()),
        Err(MessageTripRule::Display)
    );
    assert_eq!(message_trip(|run| run.trailing = None), Err(MessageTripRule::TrailingDecodes));
    assert_eq!(
        message_trip(|run| run.trailing.as_mut().unwrap().display = String::new()),
        Err(MessageTripRule::TrailingDisplay)
    );
    assert_eq!(
        message_trip(|run| run.trailing.as_mut().unwrap().size = 4),
        Err(MessageTripRule::TrailingSize)
    );
    assert_eq!(message_trip(|run| run.prefixes[1] = true), Err(MessageTripRule::NoPrefix));
}

fn value_trip(change: fn(&mut ValueTrip)) -> Result<(), ValueTripRule> {
    let mut run = ValueTrip {
        input: vec![1, 2, 3],
        encoded: Some(vec![1, 2]),
        same: Some(true),
        trailing_same: Some(true),
        prefixes: vec![false, false],
    };
    change(&mut run);
    judge_value_trip(&run)
}

#[test]
fn every_rule_about_the_round_trip_of_a_value_can_be_broken() {
    assert_eq!(value_trip(|_| {}), Ok(()));
    assert_eq!(value_trip(|run| run.encoded = None), Err(ValueTripRule::Encodes));
    assert_eq!(value_trip(|run| run.same = None), Err(ValueTripRule::Decodes));
    assert_eq!(value_trip(|run| run.same = Some(false)), Err(ValueTripRule::Same));
    assert_eq!(value_trip(|run| run.encoded = Some(vec![1, 3])), Err(ValueTripRule::Canonical));
    assert_eq!(value_trip(|run| run.input = vec![1]), Err(ValueTripRule::Canonical));
    assert_eq!(value_trip(|run| run.trailing_same = None), Err(ValueTripRule::TrailingDecodes));
    assert_eq!(
        value_trip(|run| run.trailing_same = Some(false)),
        Err(ValueTripRule::TrailingSame)
    );
    assert_eq!(value_trip(|run| run.prefixes[0] = true), Err(ValueTripRule::NoPrefix));
}

fn float_trip(change: fn(&mut FloatTrip)) -> Result<(), ScalarTripRule> {
    let bits = f32::NAN.to_bits();
    let mut run = FloatTrip {
        input: bits.to_le_bytes().to_vec(),
        bits,
        encoded: Some(bits.to_le_bytes().to_vec()),
        bits_again: Some(bits),
    };
    change(&mut run);
    judge_scalar_trip(&ScalarTrip::Float(run))
}

#[test]
fn every_rule_about_the_round_trip_of_a_float_can_be_broken() {
    assert_eq!(float_trip(|_| {}), Ok(()));
    assert_eq!(float_trip(|run| run.encoded = None), Err(ScalarTripRule::Encodes));
    assert_eq!(float_trip(|run| run.bits_again = None), Err(ScalarTripRule::Decodes));
    assert_eq!(float_trip(|run| run.bits_again = Some(0)), Err(ScalarTripRule::Same));
    assert_eq!(float_trip(|run| run.input[0] ^= 1), Err(ScalarTripRule::Canonical));
}

fn bool_trip(change: fn(&mut BoolTrip)) -> Result<(), ScalarTripRule> {
    let mut run = BoolTrip {
        input: vec![0xff, 2],
        value: true,
        encoded: Some(vec![1]),
        value_again: Some(true),
    };
    change(&mut run);
    judge_scalar_trip(&ScalarTrip::Bool(run))
}

#[test]
fn every_rule_about_the_round_trip_of_a_truth_value_can_be_broken() {
    assert_eq!(bool_trip(|_| {}), Ok(()));
    assert_eq!(bool_trip(|run| run.encoded = None), Err(ScalarTripRule::Encodes));
    assert_eq!(bool_trip(|run| run.value_again = None), Err(ScalarTripRule::Decodes));
    assert_eq!(bool_trip(|run| run.value_again = Some(false)), Err(ScalarTripRule::Same));
    assert_eq!(bool_trip(|run| run.encoded = Some(vec![0xff])), Err(ScalarTripRule::Canonical));
    assert_eq!(bool_trip(|run| run.encoded = Some(vec![])), Err(ScalarTripRule::Canonical));
    assert_eq!(bool_trip(|run| run.input = vec![]), Err(ScalarTripRule::Canonical));
    assert_eq!(bool_trip(|run| run.input = vec![0]), Err(ScalarTripRule::Canonical));
}
