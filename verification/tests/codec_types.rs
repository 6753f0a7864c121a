use std::cmp::Ordering;

use vddb::types::{
    sanitize_sql, validate_column_name, validate_table_name, DataType, DbError, SecurityContext,
    User, Value,
};

fn roundtrip(v: Value) -> Value {
    let dt = v.data_type();
    let bytes = v.serialize();
    Value::deserialize(&dt, &bytes).expect("roundtrip decode")
}

#[test]
fn codec_round_trip_int() {
    assert_eq!(roundtrip(Value::Int32(0)), Value::Int32(0));
    assert_eq!(roundtrip(Value::Int32(-1)), Value::Int32(-1));
    assert_eq!(roundtrip(Value::Int32(i32::MIN)), Value::Int32(i32::MIN));
    assert_eq!(roundtrip(Value::Int32(i32::MAX)), Value::Int32(i32::MAX));
}

#[test]
fn codec_round_trip_float() {
    let bits = 2.5f32.to_bits();
    assert_eq!(roundtrip(Value::Float32(bits)), Value::Float32(bits));
    let neg = (-0.0f32).to_bits();
    match roundtrip(Value::Float32(neg)) {
        Value::Float32(b) => assert_eq!(b, neg),
        other => panic!("wrong tag: {:?}", other),
    }
}

#[test]
fn codec_round_trip_string() {
    assert_eq!(
        roundtrip(Value::String("hello".to_string())),
        Value::String("hello".to_string())
    );
    assert_eq!(roundtrip(Value::String(String::new())), Value::String(String::new()));
    assert_eq!(
        roundtrip(Value::String("héllo wörld".to_string())),
        Value::String("héllo wörld".to_string())
    );
}

#[test]
fn codec_layout_is_little_endian() {
    let bytes = Value::Int32(1).serialize();
    assert_eq!(bytes, vec![1, 0, 0, 0]);
    let s = Value::String("ab".to_string()).serialize();
    assert_eq!(s, vec![2, 0, 0, 0, b'a', b'b']);
}

#[test]
fn codec_short_buffer_fails() {
    assert!(matches!(
        Value::deserialize(&DataType::Int32, &[1, 2, 3]),
        Err(DbError::SerializationError(_))
    ));
    assert!(matches!(
        Value::deserialize(&DataType::Float32, &[]),
        Err(DbError::SerializationError(_))
    ));
    // declared string length demands more bytes than supplied
    assert!(matches!(
        Value::deserialize(&DataType::String, &[5, 0, 0, 0, b'a']),
        Err(DbError::SerializationError(_))
    ));
    // shorter than the length prefix itself
    assert!(matches!(
        Value::deserialize(&DataType::String, &[5, 0]),
        Err(DbError::SerializationError(_))
    ));
}

#[test]
fn codec_invalid_utf8_fails() {
    assert!(matches!(
        Value::deserialize(&DataType::String, &[2, 0, 0, 0, 0xff, 0xfe]),
        Err(DbError::SerializationError(_))
    ));
}

#[test]
fn serialized_size_matches_output() {
    for v in [
        Value::Int32(7),
        Value::Float32(1.5f32.to_bits()),
        Value::String("héllo".to_string()),
    ] {
        assert_eq!(v.serialized_size(), v.serialize().len());
    }
}

#[test]
fn value_equality_semantics() {
    assert_eq!(Value::Int32(3), Value::Int32(3));
    assert_ne!(Value::Int32(3), Value::Int32(4));
    assert_ne!(Value::Int32(3), Value::String("3".to_string()));
    // negative and positive zero are equal; NaN equals NaN
    assert_eq!(
        Value::Float32((-0.0f32).to_bits()),
        Value::Float32(0.0f32.to_bits())
    );
    assert_eq!(
        Value::Float32(f32::NAN.to_bits()),
        Value::Float32(f32::NAN.to_bits())
    );
}

#[test]
fn value_ordering_semantics() {
    let a = Value::Int32(1);
    let b = Value::Int32(2);
    assert_eq!(a.compare(&b), Ordering::Less);
    assert_eq!(b.compare(&a), Ordering::Greater);
    // NaN is greater than every number under the total order
    let nan = Value::Float32(f32::NAN.to_bits());
    let one = Value::Float32(1.0f32.to_bits());
    assert_eq!(nan.compare(&one), Ordering::Greater);
    assert_eq!(one.compare(&nan), Ordering::Less);
    assert_eq!(nan.compare(&nan), Ordering::Equal);
    // negative numbers sort below positive ones at the bit level too
    let neg = Value::Float32((-3.5f32).to_bits());
    let pos = Value::Float32(2.0f32.to_bits());
    assert_eq!(neg.compare(&pos), Ordering::Less);
    // strings compare lexicographically
    let s1 = Value::String("abc".to_string());
    let s2 = Value::String("abd".to_string());
    assert_eq!(s1.compare(&s2), Ordering::Less);
    // cross-tag comparison is undefined: try_compare refuses it
    assert_eq!(a.try_compare(&s1), None);
}

#[test]
fn sanitize_sql_strips_markers() {
    assert_eq!(sanitize_sql("a'b;c--d/*e*/f"), "a''bcdef".to_string());
    assert_eq!(sanitize_sql("plain"), "plain".to_string());
}

#[test]
fn validate_names() {
    assert!(validate_table_name("users_2").is_ok());
    assert!(matches!(
        validate_table_name(""),
        Err(DbError::ValidationError(_))
    ));
    assert!(matches!(
        validate_table_name("bad name"),
        Err(DbError::ValidationError(_))
    ));
    assert!(validate_column_name("col_1").is_ok());
    assert!(matches!(
        validate_column_name("semi;colon"),
        Err(DbError::ValidationError(_))
    ));
}

#[test]
fn security_context_permissions() {
    let mut ctx = SecurityContext::new();
    assert!(!ctx.has_permission("read"));
    ctx.permissions
        .push(("admin".to_string(), vec!["read".to_string(), "write".to_string()]));
    ctx.current_user = Some(User {
        username: "ann".to_string(),
        password_hash: "not-a-real-hash".to_string(),
        roles: vec!["admin".to_string()],
    });
    assert!(ctx.has_permission("read"));
    assert!(ctx.has_permission("write"));
    assert!(!ctx.has_permission("drop"));
}

#[test]
fn error_messages() {
    assert_eq!(DbError::TypeMismatch.message(), "Type Mismatch".to_string());
    assert_eq!(
        DbError::InvalidData("oops".to_string()).message(),
        "Invalid Data: oops".to_string()
    );
    assert_eq!(
        DbError::SchemaError("t".to_string()).message(),
        "Schema Error: t".to_string()
    );
}

#[test]
fn decimal_rendering() {
    assert_eq!(vddb::types::u64_to_string(0), "0".to_string());
    assert_eq!(vddb::types::u64_to_string(42), "42".to_string());
    assert_eq!(
        vddb::types::u64_to_string(18446744073709551615),
        "18446744073709551615".to_string()
    );
}
