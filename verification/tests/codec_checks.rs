//! The codec and the value model: round-trip fidelity for all variants,
//! the exact serialized form, the escaping rules, the number grammar, the
//! checksum bytes, and typed extraction.

use rust_kvs::codec::{decode, encode};
use rust_kvs::{ErrorCode, InstanceId, Kvs, KvMap, OpenNeedDefaults, OpenNeedKvs, Value};

fn num(x: f64) -> Value {
    Value::Number(format!("{}", x))
}

fn open_plain(data: Option<&str>) -> Result<Kvs, ErrorCode> {
    Kvs::open(
        InstanceId::new(0),
        OpenNeedDefaults::Optional,
        OpenNeedKvs::Optional,
        data.map(|s| s.to_string()),
        None,
        None,
    )
}

/// Create a key-value-storage without defaults, fill every variant, and
/// read everything back through the serialized form.
#[test]
fn kvs_without_defaults_builder() -> Result<(), ErrorCode> {
    let mut kvs = open_plain(None)?;

    kvs.set_value("number".to_string(), num(123.0))?;
    kvs.set_value("bool".to_string(), Value::Boolean(true))?;
    kvs.set_value("string".to_string(), Value::Text("Hello".to_string()))?;
    kvs.set_value("null".to_string(), Value::Null)?;
    kvs.set_value(
        "array".to_string(),
        Value::Array(vec![num(456.0), Value::Boolean(false), Value::Text("Bye".to_string())]),
    )?;
    kvs.set_value(
        "object".to_string(),
        Value::Object(vec![
            (String::from("sub-number"), num(789.0)),
            ("sub-bool".to_string(), Value::Boolean(true)),
            ("sub-string".to_string(), Value::Text("Hi".to_string())),
            ("sub-null".to_string(), Value::Null),
            (
                "sub-array".to_string(),
                Value::Array(vec![
                    num(1246.0),
                    Value::Boolean(false),
                    Value::Text("Moin".to_string()),
                ]),
            ),
        ]),
    )?;

    // write out and reopen through the serialized document
    let flushed = kvs.flush()?;
    let kvs = Kvs::open(
        InstanceId::new(0),
        OpenNeedDefaults::Optional,
        OpenNeedKvs::Required,
        None,
        Some(flushed.data),
        Some(flushed.hash),
    )?;

    assert_eq!(kvs.get_value("number")?, num(123.0));
    assert!(kvs.get_value("bool")?.as_bool()?);
    assert_eq!(kvs.get_value("string")?.as_string()?, "Hello");
    assert!(kvs.get_value("null")?.is_null());

    let array_value = kvs.get_value("array")?;
    let json_array = array_value.as_array()?;
    assert_eq!(json_array[0], num(456.0));
    assert_eq!(json_array[1], Value::Boolean(false));
    assert_eq!(json_array[2], Value::Text("Bye".to_string()));

    let object_value = kvs.get_value("object")?;
    let json_map = object_value.as_object()?;
    let lookup = |key: &str| -> &Value {
        &json_map.iter().find(|p| p.0 == key).expect("missing sub-key").1
    };
    assert_eq!(lookup("sub-number"), &num(789.0));
    assert_eq!(lookup("sub-bool"), &Value::Boolean(true));
    assert_eq!(lookup("sub-string"), &Value::Text("Hi".to_string()));
    assert!(lookup("sub-null").is_null());

    let json_sub_array = lookup("sub-array");
    assert!(matches!(json_sub_array, Value::Array(_)), "Expected sub-array to be an Array");
    if let Value::Array(arr) = json_sub_array {
        assert_eq!(arr[0], num(1246.0));
        assert_eq!(arr[1], Value::Boolean(false));
        assert_eq!(arr[2], Value::Text("Moin".to_string()));
    }

    // test for non-existent values
    assert_eq!(kvs.get_value("non-existent").err(), Some(ErrorCode::KeyNotFound));

    Ok(())
}

/// The exact serialized form: compact, ordered, with known checksum
/// bytes for the empty store.
#[test]
fn codec_exact_document() -> Result<(), ErrorCode> {
    let empty = KvMap::new();
    assert_eq!(encode(&empty)?, "{}");

    // Adler-32 of "{}" is 0x017500F9, stored big-endian
    let kvs = open_plain(None)?;
    let flushed = kvs.flush()?;
    assert_eq!(flushed.data, "{}");
    assert_eq!(flushed.hash, vec![0x01, 0x75, 0x00, 0xF9]);

    let mut m = KvMap::new();
    m.insert("a".to_string(), num(1.0));
    m.insert("b".to_string(), Value::Array(vec![Value::Null, Value::Boolean(true)]));
    assert_eq!(encode(&m)?, "{\"a\":1,\"b\":[null,true]}");

    Ok(())
}

/// Decoding inverts encoding for every variant, nesting included.
#[test]
fn codec_roundtrip_nested() -> Result<(), ErrorCode> {
    let mut m = KvMap::new();
    m.insert("number".to_string(), Value::Number("-12.5e3".to_string()));
    m.insert("text".to_string(), Value::Text("a \"quoted\" \\ line\nbreak\ttab".to_string()));
    m.insert("null".to_string(), Value::Null);
    m.insert(
        "nested".to_string(),
        Value::Object(vec![(
            "inner".to_string(),
            Value::Array(vec![Value::Object(vec![("deep".to_string(), num(7.0))]), Value::Null]),
        )]),
    );

    let text = encode(&m)?;
    let back = decode(&text)?;

    for key in ["number", "text", "null", "nested"] {
        assert_eq!(back.get(key), m.get(key), "key '{}' must survive the round trip", key);
    }
    assert_eq!(back.len(), m.len());

    Ok(())
}

/// The reader accepts whitespace, both hexadecimal cases in `\u` escapes,
/// and the standard two-character escapes.
#[test]
fn codec_reader_flexibility() -> Result<(), ErrorCode> {
    let text = " {\r\n  \"k\" :\t\"\\u0041\\u00e9\\u00E9\\n\\t\\\"\\\\\\/\" , \"n\" : -0.5e2 }  ";
    let m = decode(text)?;
    assert_eq!(m.get("k"), Some(&Value::Text("Aéé\n\t\"\\/".to_string())));
    assert_eq!(m.get("n"), Some(&Value::Number("-0.5e2".to_string())));
    Ok(())
}

/// Documents that are not a single well-formed JSON object are rejected
/// with a parser error.
#[test]
fn codec_rejects_malformed_documents() {
    for text in [
        "",
        "{",
        "{\"a\":}",
        "{\"a\":True}",
        "[1,2]",
        "123",
        "{\"a\":1,}",
        "{\"a\":01}",
        "{\"a\":1}x",
        "{\"a\":\"\\u12\"}",
        "{\"a\":\"\\uD800\"}",
        "{\"a\" 1}",
    ] {
        assert_eq!(
            decode(text).err(),
            Some(ErrorCode::JsonParserError),
            "document {:?} must be rejected",
            text
        );
    }
}

/// A later entry with a repeated key wins, as with insertions in order.
#[test]
fn codec_repeated_key_last_wins() -> Result<(), ErrorCode> {
    let m = decode("{\"a\":1,\"a\":2}")?;
    assert_eq!(m.get("a"), Some(&Value::Number("2".to_string())));
    assert_eq!(m.len(), 1);
    Ok(())
}

/// Only valid JSON number lexemes serialize; everything else is a
/// generator error.
#[test]
fn codec_number_lexemes() -> Result<(), ErrorCode> {
    for lexeme in ["0", "-0", "12.75", "-12.5e3", "4E-2", "1e+10"] {
        let mut m = KvMap::new();
        m.insert("n".to_string(), Value::Number(lexeme.to_string()));
        let text = encode(&m)?;
        assert_eq!(text, format!("{{\"n\":{}}}", lexeme));
        assert_eq!(decode(&text)?.get("n"), Some(&Value::Number(lexeme.to_string())));
    }
    for lexeme in ["", "01", "1.", ".5", "+1", "1e", "--2", "not-a-number", "NaN"] {
        let mut m = KvMap::new();
        m.insert("n".to_string(), Value::Number(lexeme.to_string()));
        assert_eq!(
            encode(&m).err(),
            Some(ErrorCode::JsonGeneratorError),
            "lexeme {:?} must be rejected",
            lexeme
        );
    }
    Ok(())
}

/// Typed extraction succeeds only on the matching variant.
#[test]
fn value_extraction() {
    let v = num(1.5);
    assert_eq!(v.as_number().unwrap(), "1.5");
    assert_eq!(v.as_bool().err(), Some(ErrorCode::ConversionFailed));
    assert_eq!(v.as_string().err(), Some(ErrorCode::ConversionFailed));
    assert_eq!(v.as_array().err(), Some(ErrorCode::ConversionFailed));
    assert_eq!(v.as_object().err(), Some(ErrorCode::ConversionFailed));
    assert!(!v.is_null());

    let b = Value::Boolean(true);
    assert!(b.as_bool().unwrap());
    assert_eq!(b.as_number().err(), Some(ErrorCode::ConversionFailed));

    assert!(Value::Null.is_null());
}

/// The filenames of the generations follow the documented layout.
#[test]
fn kvs_filenames() -> Result<(), ErrorCode> {
    let kvs = Kvs::open(
        InstanceId::new(7),
        OpenNeedDefaults::Optional,
        OpenNeedKvs::Optional,
        None,
        None,
        None,
    )?;
    assert_eq!(kvs.get_kvs_filename(rust_kvs::SnapshotId::new(0)), "kvs_7_0.json");
    assert_eq!(kvs.get_hash_filename(rust_kvs::SnapshotId::new(2)), "kvs_7_2.hash");
    assert_eq!(Kvs::snapshot_max_count(), 3);
    Ok(())
}

/// The integrity layer: checksum bytes verify only when they are exactly
/// four and name the text's checksum.
#[test]
fn integrity_verify_checksum() {
    // Adler-32 of "{}" is 0x017500F9
    let good = vec![0x01, 0x75, 0x00, 0xF9];
    assert!(rust_kvs::integrity::verify_checksum("{}", &good));
    assert!(!rust_kvs::integrity::verify_checksum("{ }", &good));
    assert!(!rust_kvs::integrity::verify_checksum("{}", &vec![0x01, 0x75, 0x00]));
    assert!(!rust_kvs::integrity::verify_checksum("{}", &vec![0x01, 0x75, 0x00, 0xF9, 0x00]));
    assert_eq!(
        rust_kvs::integrity::u32_to_be_bytes(rust_kvs::integrity::checksum_of("{}")),
        good
    );
}

/// Defaults files written by another JSON producer load correctly.
#[test]
fn codec_reads_foreign_producer() -> Result<(), ErrorCode> {
    let mut data = std::collections::HashMap::new();
    data.insert("greeting".to_string(), tinyjson::JsonValue::from("héllo\n".to_string()));
    data.insert("count".to_string(), tinyjson::JsonValue::from(42.0));
    let json = tinyjson::JsonValue::from(data);
    let mut buf = Vec::new();
    let mut gen = tinyjson::JsonGenerator::new(&mut buf).indent("  ");
    gen.generate(&json).unwrap();
    let text = String::from_utf8(buf).unwrap();

    let kvs = open_plain(Some(&text))?;
    assert_eq!(
        kvs.get_value("greeting")?,
        Value::Text("héllo\n".to_string())
    );
    assert_eq!(kvs.get_value("count")?, Value::Number("42".to_string()));
    Ok(())
}
