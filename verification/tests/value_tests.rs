use luacore::value::{NativeFn, Value};

#[test]
fn string_tier_boundaries() {
    let v14 = Value::from_bytes(vec![97u8; 14]);
    assert!(matches!(v14, Value::ShortStr(14, _)));

    let v15 = Value::from_bytes(vec![97u8; 15]);
    assert!(matches!(v15, Value::MidStr(_)));

    let v47 = Value::from_bytes(vec![97u8; 47]);
    assert!(matches!(v47, Value::MidStr(_)));

    let v48 = Value::from_bytes(vec![97u8; 48]);
    assert!(matches!(v48, Value::LongStr(_)));
}

#[test]
fn same_content_same_tier_values_are_equal() {
    for len in [0usize, 1, 14, 15, 30, 47, 48, 100] {
        let a = Value::from_bytes(vec![120u8; len]);
        let b = Value::from_bytes(vec![120u8; len]);
        assert_eq!(a, b, "length {len}");
    }
    let a = Value::from_bytes(b"abc".to_vec());
    let b = Value::from_bytes(b"abd".to_vec());
    assert!(a != b);
}

#[test]
fn string_round_trip_all_tiers() {
    for len in [0usize, 5, 14, 15, 40, 47, 48, 200] {
        let content: Vec<u8> = (0..len).map(|i| (i % 251) as u8 + 1).collect();
        let v = Value::from_bytes(content.clone());
        assert_eq!(v.as_str_bytes().unwrap(), content, "length {len}");
    }
}

#[test]
fn non_strings_have_no_bytes() {
    assert!(Value::Nil.as_str_bytes().is_none());
    assert!(Value::Integer(3).as_str_bytes().is_none());
    assert!(Value::Boolean(true).as_str_bytes().is_none());
    assert!(Value::Function(NativeFn::Print).as_str_bytes().is_none());
}

#[test]
fn value_equality_follows_kind() {
    assert_eq!(Value::Nil, Value::Nil);
    assert_eq!(Value::Integer(7), Value::Integer(7));
    assert!(Value::Integer(7) != Value::Integer(8));
    assert!(Value::Integer(1) != Value::Boolean(true));
    assert!(Value::Nil != Value::Boolean(false));
    assert_eq!(Value::Table(3), Value::Table(3));
    assert!(Value::Table(3) != Value::Table(4));
    assert_eq!(
        Value::Function(NativeFn::Print),
        Value::Function(NativeFn::Print)
    );
    assert_eq!(
        Value::Float(b"1.5".to_vec()),
        Value::Float(b"1.5".to_vec())
    );
    assert!(Value::Float(b"1.5".to_vec()) != Value::Float(b"2.5".to_vec()));
}

#[test]
fn display_forms() {
    assert_eq!(Value::Nil.display_bytes(), b"nil".to_vec());
    assert_eq!(Value::Boolean(true).display_bytes(), b"true".to_vec());
    assert_eq!(Value::Boolean(false).display_bytes(), b"false".to_vec());
    assert_eq!(Value::Integer(10).display_bytes(), b"10".to_vec());
    assert_eq!(Value::Integer(0).display_bytes(), b"0".to_vec());
    assert_eq!(Value::Integer(-42).display_bytes(), b"-42".to_vec());
    assert_eq!(
        Value::Integer(i64::MAX).display_bytes(),
        b"9223372036854775807".to_vec()
    );
    assert_eq!(
        Value::Integer(i64::MIN).display_bytes(),
        b"-9223372036854775808".to_vec()
    );
    assert_eq!(Value::Float(b"123.45".to_vec()).display_bytes(), b"123.45".to_vec());
    assert_eq!(
        Value::from_bytes(b"hello".to_vec()).display_bytes(),
        b"hello".to_vec()
    );
    assert_eq!(Value::Table(2).display_bytes(), b"table: 2".to_vec());
    assert_eq!(
        Value::Function(NativeFn::Print).display_bytes(),
        b"function".to_vec()
    );
}

#[test]
fn clone_preserves_value() {
    let v = Value::from_bytes(b"a string long enough for the shared heap tier, well past".to_vec());
    let c = v.clone();
    assert_eq!(v, c);
    let w = Value::Float(b"3.25".to_vec());
    assert_eq!(w.clone(), w);
}
