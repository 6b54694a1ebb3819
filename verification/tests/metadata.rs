use columnar::metadata::{FieldMeta, FieldType, MetaError, Metadata};

fn field(name: &str, ft: FieldType) -> FieldMeta {
    FieldMeta::new(name.to_string(), ft)
}

fn encode(meta: &Metadata) -> Vec<u8> {
    let mut buf: Vec<u8> = Vec::new();
    meta.write_bytes(&mut buf);
    buf
}

#[test]
fn metadata_encodes_exact_layout() {
    // two fields: 2u64, then 5,"hello",1 then 5,"there",0
    let meta = Metadata::new(
        2,
        vec![field("hello", FieldType::Text), field("there", FieldType::Numeric)],
    );
    let mut expected: Vec<u8> = Vec::new();
    expected.extend_from_slice(&2u64.to_le_bytes());
    expected.extend_from_slice(&5u64.to_le_bytes());
    expected.extend_from_slice(b"hello");
    expected.push(1);
    expected.extend_from_slice(&5u64.to_le_bytes());
    expected.extend_from_slice(b"there");
    expected.push(0);

    assert_eq!(encode(&meta), expected);
}

#[test]
fn metadata_decodes_exact_layout() {
    let mut buf: Vec<u8> = Vec::new();
    buf.extend_from_slice(&2u64.to_le_bytes());
    buf.extend_from_slice(&5u64.to_le_bytes());
    buf.extend_from_slice(b"hello");
    buf.push(1);
    buf.extend_from_slice(&5u64.to_le_bytes());
    buf.extend_from_slice(b"there");
    buf.push(0);

    let meta = Metadata::from_slice(&buf).unwrap();
    assert_eq!(meta.num_fields(), 2);
    assert_eq!(
        meta,
        Metadata::new(
            2,
            vec![field("hello", FieldType::Text), field("there", FieldType::Numeric)],
        )
    );
}

#[test]
fn metadata_round_trip_empty() {
    let meta = Metadata::new(0, vec![]);
    let buf = encode(&meta);
    assert_eq!(buf, vec![0u8; 8]);
    assert_eq!(Metadata::from_slice(&buf).unwrap(), Metadata::new(0, vec![]));
}

#[test]
fn metadata_round_trip_empty_and_duplicate_names() {
    let fields = vec![
        field("", FieldType::Numeric),
        field("x", FieldType::Text),
        field("x", FieldType::Text),
        field("", FieldType::Numeric),
    ];
    let meta = Metadata::new(4, fields);
    let decoded = Metadata::from_slice(&encode(&meta)).unwrap();
    assert_eq!(decoded, meta);
}

#[test]
fn metadata_round_trip_multibyte_names() {
    let meta = Metadata::new(1, vec![field("prix en \u{20ac}", FieldType::Numeric)]);
    let decoded = Metadata::from_slice(&encode(&meta)).unwrap();
    assert_eq!(decoded, meta);
}

#[test]
fn metadata_trailing_bytes_are_ignored() {
    let meta = Metadata::new(1, vec![field("a", FieldType::Text)]);
    let mut buf = encode(&meta);
    buf.extend_from_slice(&[9, 9, 9, 9]);
    assert_eq!(Metadata::from_slice(&buf).unwrap(), meta);
}

#[test]
fn metadata_truncated_buffer() {
    // too short for the count
    assert_eq!(Metadata::from_slice(&[1, 2, 3]), Err(MetaError::TruncatedBuffer));

    // count says one field, but nothing follows
    let buf = 1u64.to_le_bytes().to_vec();
    assert_eq!(Metadata::from_slice(&buf), Err(MetaError::TruncatedBuffer));

    // the name length overruns the buffer
    let mut buf: Vec<u8> = Vec::new();
    buf.extend_from_slice(&1u64.to_le_bytes());
    buf.extend_from_slice(&5u64.to_le_bytes());
    buf.extend_from_slice(b"hi");
    assert_eq!(Metadata::from_slice(&buf), Err(MetaError::TruncatedBuffer));
}

#[test]
fn metadata_invalid_utf8() {
    let mut buf: Vec<u8> = Vec::new();
    buf.extend_from_slice(&1u64.to_le_bytes());
    buf.extend_from_slice(&2u64.to_le_bytes());
    buf.extend_from_slice(&[0xFF, 0xFE]);
    buf.push(0);
    assert_eq!(Metadata::from_slice(&buf), Err(MetaError::InvalidUtf8));
}

#[test]
fn metadata_invalid_type_tag() {
    let mut buf: Vec<u8> = Vec::new();
    buf.extend_from_slice(&1u64.to_le_bytes());
    buf.extend_from_slice(&1u64.to_le_bytes());
    buf.extend_from_slice(b"a");
    buf.push(7);
    assert_eq!(Metadata::from_slice(&buf), Err(MetaError::InvalidTypeTag));
}

#[test]
fn field_type_tags() {
    assert_eq!(FieldType::Numeric.tag(), 0);
    assert_eq!(FieldType::Text.tag(), 1);
    assert_eq!(FieldType::from_tag(0), Some(FieldType::Numeric));
    assert_eq!(FieldType::from_tag(1), Some(FieldType::Text));
    assert_eq!(FieldType::from_tag(2), None);
}

#[test]
fn field_meta_accessors() {
    let f = field("hello", FieldType::Text);
    assert_eq!(f.name(), "hello");
    assert_eq!(f.field_type(), FieldType::Text);
}
