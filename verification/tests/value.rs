//! Values: hashing, the order and equality of doubles on bit patterns, truthiness.

use rlox::value::{
    hash_string, is_falsey, number_greater, number_is_nan, number_less, number_negate,
    numbers_equal, LoxObject, LoxObjectKind, ObjRef, Value, ValueType,
};

#[test]
fn hash_of_known_texts() {
    assert_eq!(hash_string(""), 2166136261);
    assert_eq!(hash_string("a"), 0xe40c292c);
    assert_eq!(hash_string("foobar"), 0xbf9cf968);
    assert_eq!(hash_string("é"), {
        let mut hash = 2166136261u32;
        for byte in [0xc3u8, 0xa9] {
            hash ^= byte as u32;
            hash = hash.wrapping_mul(16777619);
        }
        hash
    });
}

#[test]
fn a_string_object_carries_its_hash() {
    let object = LoxObject::new_string(String::from("foobar"));
    assert_eq!(object.kind(), LoxObjectKind::String);
    let (text, hash) = object.as_string().unwrap();
    assert_eq!(text, "foobar");
    assert_eq!(*hash, 0xbf9cf968);
}

fn samples() -> Vec<f64> {
    vec![
        0.0,
        -0.0,
        1.0,
        -1.0,
        0.5,
        -0.5,
        2.0,
        1e308,
        -1e308,
        5e-324,
        -5e-324,
        f64::MIN_POSITIVE,
        f64::MAX,
        f64::MIN,
        f64::INFINITY,
        f64::NEG_INFINITY,
        f64::NAN,
        -f64::NAN,
        3.141592653589793,
        255.0,
        256.0,
    ]
}

#[test]
fn order_and_equality_agree_with_the_doubles() {
    for a in samples() {
        for b in samples() {
            let (x, y) = (a.to_bits(), b.to_bits());
            assert_eq!(numbers_equal(x, y), a == b, "{} == {}", a, b);
            assert_eq!(number_less(x, y), a < b, "{} < {}", a, b);
            assert_eq!(number_greater(x, y), a > b, "{} > {}", a, b);
        }
    }
}

#[test]
fn negation_and_nan_agree_with_the_doubles() {
    for a in samples() {
        assert_eq!(number_negate(a.to_bits()), (-a).to_bits());
        assert_eq!(number_is_nan(a.to_bits()), a.is_nan());
    }
}

#[test]
fn exact_bits_of_some_comparisons() {
    let one = 0x3ff0_0000_0000_0000u64;
    let two = 0x4000_0000_0000_0000u64;
    let minus_zero = 0x8000_0000_0000_0000u64;
    let nan = 0x7ff8_0000_0000_0000u64;
    assert!(number_less(one, two));
    assert!(!number_less(two, one));
    assert!(numbers_equal(0, minus_zero));
    assert!(!numbers_equal(nan, nan));
    assert_eq!(number_negate(one), 0xbff0_0000_0000_0000);
}

#[test]
fn only_nil_and_false_are_falsey_values() {
    assert!(is_falsey(Value::Nil));
    assert!(is_falsey(Value::Bool(false)));
    assert!(!is_falsey(Value::Bool(true)));
    assert!(!is_falsey(Value::Number(0)));
    assert!(!is_falsey(Value::Number(0x8000_0000_0000_0000)));
    assert!(!is_falsey(Value::Object(ObjRef { index: 0, hash: 2166136261 })));
}

#[test]
fn values_are_equal_within_their_kind_only() {
    let a = ObjRef { index: 0, hash: 7 };
    let b = ObjRef { index: 1, hash: 7 };
    assert!(Value::Nil == Value::Nil);
    assert!(Value::Bool(true) == Value::Bool(true));
    assert!(Value::Bool(true) != Value::Bool(false));
    assert!(Value::Number(1.5f64.to_bits()) == Value::Number(1.5f64.to_bits()));
    assert!(Value::Number(0) == Value::Number(0x8000_0000_0000_0000));
    assert!(Value::Number(f64::NAN.to_bits()) != Value::Number(f64::NAN.to_bits()));
    assert!(Value::Object(a) == Value::Object(a));
    assert!(Value::Object(a) != Value::Object(b));
    assert!(Value::Nil != Value::Bool(false));
    assert!(Value::Number(0) != Value::Bool(false));
    assert!(Value::Number(0) != Value::Nil);
    assert!(Value::Object(a) != Value::Number(0));
}

#[test]
fn kinds_and_projections() {
    let handle = ObjRef { index: 3, hash: 9 };
    assert_eq!(Value::Bool(true).get_type(), ValueType::Bool);
    assert_eq!(Value::Number(0).get_type(), ValueType::Number);
    assert_eq!(Value::Nil.get_type(), ValueType::Nil);
    assert_eq!(Value::Object(handle).get_type(), ValueType::Object);
    assert!(Value::Nil.is_nil());
    assert!(!Value::Bool(false).is_nil());
    assert_eq!(Value::Bool(true).as_bool(), Some(true));
    assert_eq!(Value::Nil.as_bool(), None);
    assert_eq!(Value::Number(42).as_number(), Some(42));
    assert_eq!(Value::Nil.as_number(), None);
    assert_eq!(Value::Object(handle).as_object(), Some(handle));
    assert_eq!(Value::Number(1).as_object(), None);
}
