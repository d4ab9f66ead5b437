//! The value codec: round trips, boundary payloads, and data errors.

use kvstore::{decode, encode, DataError, DataType, Value};

fn round_trip(v: Value) {
    let bytes = encode(&v);
    assert_eq!(decode(bytes.as_slice()), Ok(v));
}

#[test]
fn round_trip_null() {
    round_trip(Value::Null);
}

#[test]
fn round_trip_bool() {
    round_trip(Value::Bool(false));
    round_trip(Value::Bool(true));
}

#[test]
fn round_trip_i64() {
    round_trip(Value::I64(0));
    round_trip(Value::I64(1));
    round_trip(Value::I64(-1));
    round_trip(Value::I64(i64::MIN));
    round_trip(Value::I64(i64::MAX));
    round_trip(Value::I64(-123456789));
}

#[test]
fn round_trip_f64_bits() {
    round_trip(Value::F64(0f64.to_bits()));
    round_trip(Value::F64((-0f64).to_bits()));
    round_trip(Value::F64(1.5f64.to_bits()));
    round_trip(Value::F64(f64::NAN.to_bits()));
    round_trip(Value::F64(f64::INFINITY.to_bits()));
    round_trip(Value::F64(f64::NEG_INFINITY.to_bits()));
    round_trip(Value::F64(f64::MIN_POSITIVE.to_bits()));
}

#[test]
fn round_trip_str() {
    round_trip(Value::Str(String::new()));
    round_trip(Value::Str("hello".to_owned()));
    round_trip(Value::Str("snowman \u{2603} and \u{1F600}".to_owned()));
}

#[test]
fn round_trip_blob() {
    round_trip(Value::Blob(Vec::new()));
    round_trip(Value::Blob(vec![0, 1, 2, 255, 254]));
}

#[test]
fn encoding_is_tagged() {
    assert_eq!(encode(&Value::Null), vec![0]);
    assert_eq!(encode(&Value::Bool(true)), vec![1, 1]);
    assert_eq!(encode(&Value::I64(1)), vec![2, 1, 0, 0, 0, 0, 0, 0, 0]);
    assert_eq!(encode(&Value::Str("ab".to_owned())), vec![4, 0x61, 0x62]);
    assert_eq!(encode(&Value::Blob(vec![9])), vec![5, 9]);
}

#[test]
fn decode_empty_input_is_error() {
    assert_eq!(decode(&[]), Err(DataError::DecodingError));
}

#[test]
fn decode_unknown_tag() {
    assert_eq!(decode(&[6]), Err(DataError::UnknownType(6)));
    assert_eq!(decode(&[200, 1, 2]), Err(DataError::UnknownType(200)));
}

#[test]
fn decode_length_mismatch() {
    // A Null with payload, a Bool with none, integers short of 8 bytes.
    assert_eq!(decode(&[0, 0]), Err(DataError::DecodingError));
    assert_eq!(decode(&[1]), Err(DataError::DecodingError));
    assert_eq!(decode(&[1, 2]), Err(DataError::DecodingError));
    assert_eq!(decode(&[2, 1, 0, 0]), Err(DataError::DecodingError));
    assert_eq!(decode(&[3, 1, 0, 0, 0, 0, 0, 0]), Err(DataError::DecodingError));
    assert_eq!(decode(&[2, 1, 0, 0, 0, 0, 0, 0, 0, 0]), Err(DataError::DecodingError));
}

#[test]
fn decode_invalid_utf8_is_error() {
    assert_eq!(decode(&[4, 0xFF, 0xFE]), Err(DataError::DecodingError));
}

#[test]
fn data_type_codes() {
    assert_eq!(DataType::INT32.code(), 2);
    assert_eq!(DataType::DOUBLE.code(), 9);
    assert_eq!(DataType::BOOL.code(), 10);
    assert_eq!(DataType::VOID.code(), 13);
    assert_eq!(DataType::WSTRING.code(), 21);
    assert_eq!(DataType::EMPTY.code(), 255);
    assert_eq!(DataType::from_code(9), Some(DataType::DOUBLE));
    assert_eq!(DataType::from_code(3), None);
}
