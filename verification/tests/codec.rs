use peermsg::codec::{decode, encode};
use peermsg::error::Error;
use peermsg::value::Value;

fn obj(fields: Vec<(&str, Value)>) -> Value {
    Value::Object(fields.into_iter().map(|(k, v)| (k.to_string(), v)).collect())
}

#[test]
fn round_trip_scalars() {
    for v in [
        Value::Null,
        Value::Bool(true),
        Value::Bool(false),
        Value::Number(0),
        Value::Number(1),
        Value::Number(u64::MAX),
        Value::String(String::new()),
        Value::String("hello".to_string()),
        Value::Bytes(vec![]),
        Value::Bytes(vec![0, 1, 2, 255]),
    ] {
        let bytes = encode(&v);
        assert_eq!(decode(&bytes), Ok(v));
    }
}

#[test]
fn round_trip_nested() {
    let v = obj(vec![
        ("cmd", Value::String("getFile".to_string())),
        ("req_id", Value::Number(7)),
        (
            "params",
            obj(vec![
                ("site", Value::String("siteA".to_string())),
                ("body", Value::Bytes(vec![1, 2, 3])),
                (
                    "list",
                    Value::Array(vec![
                        Value::Null,
                        Value::Bool(true),
                        Value::Array(vec![Value::Number(42)]),
                    ]),
                ),
            ]),
        ),
    ]);
    let bytes = encode(&v);
    assert_eq!(decode(&bytes), Ok(v));
}

#[test]
fn round_trip_non_ascii_string() {
    let v = Value::String("héllo wörld \u{1F310}".to_string());
    let bytes = encode(&v);
    assert_eq!(decode(&bytes), Ok(v));
}

#[test]
fn strings_and_bytes_stay_distinct() {
    let s = Value::String("ab".to_string());
    let b = Value::Bytes(vec![b'a', b'b']);
    let es = encode(&s);
    let eb = encode(&b);
    assert_ne!(es, eb);
    assert_eq!(decode(&es), Ok(Value::String("ab".to_string())));
    assert_eq!(decode(&eb), Ok(Value::Bytes(vec![b'a', b'b'])));
}

#[test]
fn empty_input_is_rejected() {
    assert_eq!(decode(&[]), Err(Error::UnexpectedEnd));
}

#[test]
fn unknown_marker_is_rejected() {
    assert_eq!(decode(&[0x00]), Err(Error::UnknownTag));
}

#[test]
fn truncated_number_is_rejected() {
    // An integer unit is nine bytes; cut it short.
    let mut bytes = encode(&Value::Number(500));
    assert_eq!(bytes.len(), 9);
    bytes.pop();
    assert_eq!(decode(&bytes), Err(Error::UnexpectedEnd));
}

#[test]
fn truncated_payload_is_rejected() {
    let mut bytes = encode(&Value::Bytes(vec![1, 2, 3]));
    bytes.pop();
    assert_eq!(decode(&bytes), Err(Error::UnexpectedEnd));
}

#[test]
fn invalid_utf8_is_rejected() {
    // A string unit whose one payload byte is not UTF-8.
    let mut bytes = vec![0xdb];
    bytes.extend_from_slice(&1u64.to_be_bytes());
    bytes.push(0xff);
    assert_eq!(decode(&bytes), Err(Error::InvalidUtf8));
    // The same payload as a byte buffer is fine: the type marker decides.
    let mut ok = vec![0xc6];
    ok.extend_from_slice(&1u64.to_be_bytes());
    ok.push(0xff);
    assert_eq!(decode(&ok), Ok(Value::Bytes(vec![0xff])));
}

#[test]
fn trailing_bytes_are_rejected() {
    let mut bytes = encode(&Value::Bool(true));
    bytes.push(0xc0);
    assert_eq!(decode(&bytes), Err(Error::TrailingBytes));
}

#[test]
fn map_with_non_string_key_is_rejected() {
    // A map of one entry whose key is a number, not a string.
    let mut bytes = vec![0xdf];
    bytes.extend_from_slice(&1u64.to_be_bytes());
    bytes.extend_from_slice(&encode(&Value::Number(1)));
    bytes.extend_from_slice(&encode(&Value::Null));
    assert_eq!(decode(&bytes), Err(Error::NonStringKey));
}

#[test]
fn default_value_is_null() {
    assert_eq!(Value::default(), Value::Null);
}

#[test]
fn integer_encoding_is_big_endian() {
    let bytes = encode(&Value::Number(0x0102030405060708));
    assert_eq!(bytes, vec![0xcf, 1, 2, 3, 4, 5, 6, 7, 8]);
}

#[test]
fn error_descriptions_are_distinct() {
    let errors = [
        Error::UnexpectedEnd,
        Error::UnknownTag,
        Error::InvalidUtf8,
        Error::NonStringKey,
        Error::TrailingBytes,
        Error::NumberTooLarge,
        Error::WrongShape,
        Error::MissingIdentifiers,
    ];
    for (i, a) in errors.iter().enumerate() {
        for (j, b) in errors.iter().enumerate() {
            assert_eq!(i == j, a.describe() == b.describe());
        }
    }
}
