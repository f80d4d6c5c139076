use sam_rewritten::key_value::{KeyValue, KeyValueError, KeyValueType};


fn node(tag: u8, name: &str, value: &[u8]) -> Vec<u8> {
    let mut out = vec![tag];
    out.extend_from_slice(name.as_bytes());
    out.push(0);
    out.extend_from_slice(value);
    out
}

#[test]
fn end_tag_only_decodes_to_empty_root() {
    let kv = KeyValue::load_from_bytes(&vec![0x08]).expect("end tag alone is a whole stream");
    assert_eq!(kv.name, "<root>");
    assert!(kv.valid);
    assert_eq!(kv.children.len(), 0);
}

#[test]
fn string_node_decodes_and_coerces() {
    let mut bytes = node(1, "foo", b"bar\0");
    bytes.push(0x08);
    let kv = KeyValue::load_from_bytes(&bytes).expect("one string node should decode");
    assert_eq!(kv.children.len(), 1);
    let child = kv.get("foo");
    assert!(child.valid);
    assert_eq!(child.as_string("x"), "bar");
    // A non-numeric string fails to parse; the default stands in.
    assert_eq!(child.as_i32(-1), -1);
}

#[test]
fn wide_string_tag_fails_decoding() {
    let mut bytes = node(1, "ok", b"fine\0");
    bytes.extend_from_slice(&node(5, "wide", b""));
    bytes.push(0x08);
    match KeyValue::load_from_bytes(&bytes) {
        Err(KeyValueError::UnsupportedType(t)) => assert_eq!(t, KeyValueType::WideText),
        other => panic!("expected the unsupported-type failure, got {other:?}"),
    }
}

#[test]
fn truncated_stream_is_an_io_error() {
    // Missing End tag entirely.
    assert!(matches!(KeyValue::load_from_bytes(&Vec::new()), Err(KeyValueError::Io)));
    // Name starts but never terminates.
    assert!(matches!(
        KeyValue::load_from_bytes(&vec![1, b'f', b'o']),
        Err(KeyValueError::Io)
    ));
    // Int32 leaf with too few value bytes.
    let mut bytes = node(2, "n", &[1, 2]);
    bytes.push(0x08);
    assert!(matches!(KeyValue::load_from_bytes(&bytes), Err(KeyValueError::Io)));
}

#[test]
fn unknown_tag_is_a_format_error() {
    let bytes = vec![9u8, b'x', 0, 0x08];
    match KeyValue::load_from_bytes(&bytes) {
        Err(KeyValueError::Format(t)) => assert_eq!(t, 9),
        other => panic!("expected the format failure, got {other:?}"),
    }
}

#[test]
fn numeric_leaves_decode_little_endian() {
    let mut bytes = Vec::new();
    bytes.extend_from_slice(&node(2, "int", &(-5i32).to_le_bytes()));
    bytes.extend_from_slice(&node(7, "big", &0x1122_3344_5566_7788u64.to_le_bytes()));
    bytes.extend_from_slice(&node(6, "color", &0xAABB_CCDDu32.to_le_bytes()));
    bytes.extend_from_slice(&node(3, "ratio", &2.5f32.to_bits().to_le_bytes()));
    bytes.push(0x08);
    let kv = KeyValue::load_from_bytes(&bytes).expect("leaves should decode");
    assert_eq!(kv.children.len(), 4);
    assert_eq!(kv.get("int").as_i32(0), -5);
    assert_eq!(kv.get("int").as_string(""), "-5");
    assert_eq!(kv.get("big").as_string(""), "1234605616436508552");
    assert_eq!(kv.get("color").as_string(""), format!("{}", 0xAABB_CCDDu32));
    // A float leaf truncates toward zero, as the cast would.
    assert_eq!(kv.get("ratio").as_i32(0), 2);
}

#[test]
fn containers_nest_and_lookups_chain() {
    let mut inner = node(1, "name", b"deep\0");
    inner.extend_from_slice(&node(2, "count", &7i32.to_le_bytes()));
    inner.push(0x08);
    let mut bytes = node(0, "outer", &inner);
    bytes.push(0x08);
    let kv = KeyValue::load_from_bytes(&bytes).expect("nested containers should decode");
    let outer = kv.get("outer");
    assert!(outer.valid);
    assert_eq!(outer.children.len(), 2);
    assert_eq!(outer.get("name").as_string(""), "deep");
    assert_eq!(outer.get("count").as_i32(0), 7);
}

#[test]
fn same_named_sibling_overwrites_in_place() {
    let mut bytes = Vec::new();
    bytes.extend_from_slice(&node(1, "k", b"first\0"));
    bytes.extend_from_slice(&node(1, "other", b"kept\0"));
    bytes.extend_from_slice(&node(1, "k", b"second\0"));
    bytes.push(0x08);
    let kv = KeyValue::load_from_bytes(&bytes).expect("duplicates should decode");
    assert_eq!(kv.children.len(), 2);
    // Last write wins, in the first occurrence's place.
    assert_eq!(kv.children[0].name, "k");
    assert_eq!(kv.get("k").as_string(""), "second");
    assert_eq!(kv.get("other").as_string(""), "kept");
}

#[test]
fn missing_lookup_returns_the_invalid_sentinel() {
    let kv = KeyValue::load_from_bytes(&vec![0x08]).expect("empty root");
    let missing = kv.get("nope");
    assert!(!missing.valid);
    // The sentinel always hands the caller's default back.
    assert!(missing.as_bool(true));
    assert!(!missing.as_bool(false));
    assert_eq!(missing.as_i32(42), 42);
    assert_eq!(missing.as_string("fallback"), "fallback");
}

#[test]
fn string_coercions_match_integer_parsing() {
    let cases: &[(&[u8], i32, i32)] = &[
        (b"123\0", 0, 123),
        (b"-2147483648\0", 0, i32::MIN),
        (b"2147483647\0", 0, i32::MAX),
        (b"2147483648\0", 9, 9),      // overflow: default
        (b"-2147483649\0", 9, 9),     // underflow: default
        (b"+12\0", 0, 12),
        (b"0000123\0", 0, 123),
        (b"12x\0", 7, 7),             // stray character: default
        (b"\0", 7, 7),                // empty: default
        (b"-\0", 7, 7),               // sign alone: default
    ];
    for (raw, default, expect) in cases {
        let mut bytes = node(1, "v", raw);
        bytes.push(0x08);
        let kv = KeyValue::load_from_bytes(&bytes).expect("string leaf");
        assert_eq!(kv.get("v").as_i32(*default), *expect, "input {raw:?}");
        // The same parse backs the boolean coercion.
        let s = std::str::from_utf8(&raw[..raw.len() - 1]).unwrap();
        let expect_bool = s.parse::<i32>().map(|v| v != 0).unwrap_or(*default != 0);
        assert_eq!(kv.get("v").as_bool(*default != 0), expect_bool, "input {raw:?}");
    }
}

#[test]
fn float_truncation_matches_the_native_cast() {
    let cases = [
        0.0f32, -0.0, 0.5, -0.5, 1.0, -1.0, 2.9, -2.9, 123456.78, -123456.78,
        f32::NAN, f32::INFINITY, f32::NEG_INFINITY, f32::MAX, f32::MIN,
        2147483647.0, -2147483648.0, 3e9, -3e9, 8388607.5, 16777216.0,
    ];
    for f in cases {
        let mut bytes = node(3, "f", &f.to_bits().to_le_bytes());
        bytes.push(0x08);
        let kv = KeyValue::load_from_bytes(&bytes).expect("float leaf");
        assert_eq!(kv.get("f").as_i32(0), f as i32, "input {f}");
        assert_eq!(kv.get("f").as_bool(false), f != 0.0, "input {f}");
    }
}

#[test]
fn invalid_name_utf8_decodes_to_empty_name() {
    // The decoder keeps going: a name that is not UTF-8 becomes empty.
    let mut bytes = vec![1u8, 0xFF, 0xFE, 0, b'v', 0];
    bytes.push(0x08);
    let kv = KeyValue::load_from_bytes(&bytes).expect("invalid name bytes still decode");
    assert_eq!(kv.children.len(), 1);
    assert_eq!(kv.children[0].name, "");
    assert_eq!(kv.get("").as_string(""), "v");
}

#[test]
fn tag_bytes_name_their_types() {
    assert_eq!(KeyValueType::from_tag(0), Some(KeyValueType::Container));
    assert_eq!(KeyValueType::from_tag(1), Some(KeyValueType::Text));
    assert_eq!(KeyValueType::from_tag(2), Some(KeyValueType::Int32));
    assert_eq!(KeyValueType::from_tag(3), Some(KeyValueType::Float32));
    assert_eq!(KeyValueType::from_tag(4), Some(KeyValueType::Pointer));
    assert_eq!(KeyValueType::from_tag(5), Some(KeyValueType::WideText));
    assert_eq!(KeyValueType::from_tag(6), Some(KeyValueType::Color));
    assert_eq!(KeyValueType::from_tag(7), Some(KeyValueType::UInt64));
    assert_eq!(KeyValueType::from_tag(8), Some(KeyValueType::End));
    assert_eq!(KeyValueType::from_tag(9), None);
    assert_eq!(KeyValueType::from_tag(255), None);
}

#[test]
fn pointer_tag_decodes_like_color() {
    let mut bytes = node(4, "ptr", &0x01020304u32.to_le_bytes());
    bytes.push(0x08);
    let kv = KeyValue::load_from_bytes(&bytes).expect("pointer leaf should decode");
    assert_eq!(kv.get("ptr").as_string(""), format!("{}", 0x01020304u32));
}

#[test]
fn deep_copy_is_indistinguishable() {
    let mut inner = node(2, "n", &5i32.to_le_bytes());
    inner.push(0x08);
    let mut bytes = node(0, "c", &inner);
    bytes.push(0x08);
    let kv = KeyValue::load_from_bytes(&bytes).expect("tree should decode");
    let copy = kv.deep_copy();
    assert_eq!(copy.name, kv.name);
    assert_eq!(copy.valid, kv.valid);
    assert_eq!(copy.children.len(), kv.children.len());
    assert_eq!(copy.get("c").get("n").as_i32(0), 5);
}
