use arbitrary::Unstructured;
use sv2_conformance::json::{gen_json_value, JsonValue};

fn value(bytes: &[u8], depth: u8) -> JsonValue {
    let mut source = Unstructured::new(bytes);
    gen_json_value(&mut source, depth).unwrap()
}

#[test]
fn nothing_but_null_at_depth_zero() {
    let mut source = Unstructured::new(&[1, 1]);
    assert!(matches!(gen_json_value(&mut source, 0), Ok(JsonValue::Null)));
    assert_eq!(source.len(), 2);
}

#[test]
fn scalars_follow_their_first_byte() {
    assert!(matches!(value(&[0], 1), JsonValue::Null));
    assert!(matches!(value(&[8], 1), JsonValue::Null));
    assert!(matches!(value(&[1, 3], 1), JsonValue::Bool(true)));
    assert!(matches!(value(&[1, 2], 1), JsonValue::Bool(false)));
    assert!(matches!(value(&[2, 5, 1, 0, 0, 0, 0, 0, 0], 1), JsonValue::Integer(261)));
    assert!(matches!(
        value(&[2, 0xff, 0xff, 0xff, 0xff, 0xff, 0xff, 0xff, 0xff], 1),
        JsonValue::Integer(-1)
    ));
    assert!(matches!(value(&[2, 9], 1), JsonValue::Integer(9)));
}

#[test]
fn fractions_are_finite() {
    let mut bytes = vec![3];
    bytes.extend_from_slice(&1.5f64.to_bits().to_le_bytes());
    match value(&bytes, 1) {
        JsonValue::Fraction(bits) => assert_eq!(f64::from_bits(bits), 1.5),
        _ => panic!("no fraction"),
    }
    for odd in [f64::INFINITY, f64::NEG_INFINITY, f64::NAN] {
        let mut bytes = vec![3];
        bytes.extend_from_slice(&odd.to_bits().to_le_bytes());
        assert!(matches!(value(&bytes, 1), JsonValue::Null));
    }
    let mut bytes = vec![3];
    bytes.extend_from_slice(&f64::MAX.to_bits().to_le_bytes());
    assert!(matches!(value(&bytes, 1), JsonValue::Fraction(_)));
}

#[test]
fn texts_are_drawn_from_the_source() {
    let bytes = [4, b'h', b'i', 2];
    let mut plain = Unstructured::new(&bytes[1..]);
    let expected: String = plain.arbitrary().unwrap();
    match value(&bytes, 1) {
        JsonValue::Text(text) => assert_eq!(text, expected),
        _ => panic!("no text"),
    }
}

#[test]
fn arrays_are_one_level_shallower() {
    match value(&[5, 2, 1, 1, 5, 1, 0], 2) {
        JsonValue::Array(items) => {
            assert_eq!(items.len(), 2);
            assert!(matches!(items[0], JsonValue::Bool(true)));
            match &items[1] {
                JsonValue::Array(inner) => {
                    assert_eq!(inner.len(), 1);
                    assert!(matches!(inner[0], JsonValue::Null));
                }
                _ => panic!("no array"),
            }
        }
        _ => panic!("no array"),
    }
    match value(&[5, 3, 1, 1], 1) {
        JsonValue::Array(items) => {
            assert_eq!(items.len(), 3);
            for item in &items {
                assert!(matches!(item, JsonValue::Null));
            }
        }
        _ => panic!("no array"),
    }
}

#[test]
fn a_key_that_comes_again_replaces_its_value() {
    // Three members whose keys are all empty, as there is no byte left for them.
    match value(&[6, 3], 2) {
        JsonValue::Object(members) => {
            assert_eq!(members.len(), 1);
            assert_eq!(members[0].0, "");
            assert!(matches!(members[0].1, JsonValue::Null));
        }
        _ => panic!("no object"),
    }
    assert!(matches!(value(&[7, 0], 2), JsonValue::Object(members) if members.is_empty()));
}

#[test]
fn an_empty_source_gives_null() {
    assert!(matches!(value(&[], 5), JsonValue::Null));
}
