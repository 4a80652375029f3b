use flaredb::coders::row::{BeamRow, FieldValue, RowCoder};
use flaredb::coders::wire::ByteReader;

#[test]
fn test_non_nullable_row_vector() {
    // Schema: str: STRING, i32: INT32, f64: DOUBLE, arr: ARRAY<STRING>
    let payload = b"\n\t\n\x03str\x1a\x02\x10\x07\n\t\n\x03i32\x1a\x02\x10\x03\n\t\n\x03f64\x1a\x02\x10\x06\n\r\n\x03arr\x1a\x06\x1a\x04\n\x02\x10\x07\x12$4e5e554c-d4c1-4a5d-b5e1-f3293a6b9f05";
    let coder = RowCoder::from_payload(payload).unwrap();

    let row = BeamRow::new(vec![
        Some(FieldValue::String("foo".into())),
        Some(FieldValue::Int32(9001)),
        Some(FieldValue::Double(0.1f64.to_bits())),
        Some(FieldValue::Array(vec![
            Some(FieldValue::String("foo".into())),
            Some(FieldValue::String("bar".into())),
            Some(FieldValue::String("baz".into())),
        ])),
    ]);

    let mut buf: Vec<u8> = Vec::new();
    coder.encode(&row, &mut buf).unwrap();

    let expected_wire = b"\x04\x00\x03foo\xa9F?\xb9\x99\x99\x99\x99\x99\x9a\x00\x00\x00\x03\x03foo\x03bar\x03baz";
    assert_eq!(buf.as_slice(), expected_wire.as_slice());

    let decoded = coder.decode(&mut ByteReader::new(buf)).unwrap();
    assert_eq!(decoded, row);
}

#[test]
fn test_nullable_row_vector() {
    // Schema: str: nullable STRING, i32: nullable INT32, f64: nullable DOUBLE
    let payload = b"\n\x0b\n\x03str\x1a\x04\x08\x01\x10\x07\n\x0b\n\x03i32\x1a\x04\x08\x01\x10\x03\n\x0b\n\x03f64\x1a\x04\x08\x01\x10\x06\x12$b20c6545-57af-4bc8-b2a9-51ace21c7393";
    let coder = RowCoder::from_payload(payload).unwrap();

    // 1. All null
    let all_null_row = BeamRow::new(vec![None, None, None]);
    let mut buf: Vec<u8> = Vec::new();
    coder.encode(&all_null_row, &mut buf).unwrap();
    assert_eq!(buf.as_slice(), b"\x03\x01\x07".as_slice());

    let decoded = coder.decode(&mut ByteReader::new(buf)).unwrap();
    assert_eq!(decoded, all_null_row);

    // 2. Partial null: {str: "foo", i32: 9001, f64: null}
    let partial_null_row = BeamRow::new(vec![
        Some(FieldValue::String("foo".into())),
        Some(FieldValue::Int32(9001)),
        None,
    ]);
    let mut buf: Vec<u8> = Vec::new();
    coder.encode(&partial_null_row, &mut buf).unwrap();
    assert_eq!(buf.as_slice(), b"\x03\x01\x04\x03foo\xa9F".as_slice());

    let decoded = coder.decode(&mut ByteReader::new(buf)).unwrap();
    assert_eq!(decoded, partial_null_row);

    // 3. No nulls: {str: "foo", i32: 9001, f64: 0.1}
    let no_null_row = BeamRow::new(vec![
        Some(FieldValue::String("foo".into())),
        Some(FieldValue::Int32(9001)),
        Some(FieldValue::Double(0.1f64.to_bits())),
    ]);
    let mut buf: Vec<u8> = Vec::new();
    coder.encode(&no_null_row, &mut buf).unwrap();
    assert_eq!(
        buf.as_slice(),
        b"\x03\x00\x03foo\xa9F?\xb9\x99\x99\x99\x99\x99\x9a".as_slice()
    );

    let decoded = coder.decode(&mut ByteReader::new(buf)).unwrap();
    assert_eq!(decoded, no_null_row);
}

#[test]
fn test_bool_bytes_row_vector() {
    // Schema: f_bool: BOOLEAN, f_bytes: nullable BYTES
    let payload = b"\n\x0c\n\x06f_bool\x1a\x02\x10\x08\n\x0f\n\x07f_bytes\x1a\x04\x08\x01\x10\t\x12$eea1b747-7571-43d3-aafa-9255afdceafb";
    let coder = RowCoder::from_payload(payload).unwrap();

    // {f_bool: true, f_bytes: null}
    let row1 = BeamRow::new(vec![Some(FieldValue::Boolean(true)), None]);
    let mut buf: Vec<u8> = Vec::new();
    coder.encode(&row1, &mut buf).unwrap();
    assert_eq!(buf.as_slice(), b"\x02\x01\x02\x01".as_slice());
    let decoded1 = coder.decode(&mut ByteReader::new(buf)).unwrap();
    assert_eq!(decoded1, row1);

    // {f_bool: false, f_bytes: "ab\0c"}
    let row2 = BeamRow::new(vec![
        Some(FieldValue::Boolean(false)),
        Some(FieldValue::Bytes(b"ab\0c".to_vec())),
    ]);
    let mut buf: Vec<u8> = Vec::new();
    coder.encode(&row2, &mut buf).unwrap();
    assert_eq!(buf.as_slice(), b"\x02\x00\x00\x04ab\x00c".as_slice());
    let decoded2 = coder.decode(&mut ByteReader::new(buf)).unwrap();
    assert_eq!(decoded2, row2);
}

#[test]
fn test_map_row_vector() {
    // Schema: f_map: MAP<STRING, nullable INT64>
    let payload = b"\n\x15\n\x05f_map\x1a\x0c*\n\n\x02\x10\x07\x12\x04\x08\x01\x10\x04\x12$d8c8f969-14e6-457f-a8b5-62a1aec7f1cd";
    let coder = RowCoder::from_payload(payload).unwrap();

    // Empty map
    let empty_map_row = BeamRow::new(vec![Some(FieldValue::BeamMap(vec![]))]);
    let mut buf: Vec<u8> = Vec::new();
    coder.encode(&empty_map_row, &mut buf).unwrap();
    assert_eq!(buf.as_slice(), b"\x01\x00\x00\x00\x00\x00".as_slice());
    let decoded = coder.decode(&mut ByteReader::new(buf)).unwrap();
    assert_eq!(decoded, empty_map_row);

    // Map with values
    let map_row = BeamRow::new(vec![Some(FieldValue::BeamMap(vec![
        (
            Some(FieldValue::String("foo".into())),
            Some(FieldValue::Int64(9001)),
        ),
        (
            Some(FieldValue::String("bar".into())),
            Some(FieldValue::Int64(i64::MAX)),
        ),
    ]))]);
    let mut buf: Vec<u8> = Vec::new();
    coder.encode(&map_row, &mut buf).unwrap();
    assert_eq!(
        buf.as_slice(),
        b"\x01\x00\x00\x00\x00\x02\x03foo\x01\xa9F\x03bar\x01\xff\xff\xff\xff\xff\xff\xff\xff\x7f".as_slice()
    );
    let decoded = coder.decode(&mut ByteReader::new(buf)).unwrap();
    assert_eq!(decoded, map_row);
}

#[test]
fn test_reordered_fields_vector() {
    // Schema with encoding_positions_set = true
    // Fields in proto: str (pos 1), f_bool (pos 2), i32 (pos 0, nullable)
    let payload = b"\n\x0b\n\x03str\x1a\x02\x10\x07(\x01\n\x0e\n\x06f_bool\x1a\x02\x10\x08(\x02\n\x0b\n\x03i32\x1a\x04\x08\x01\x10\x03\x12$30ea5a25-dcd8-4cdb-abeb-5332d15ab4b9 \x01";
    let coder = RowCoder::from_payload(payload).unwrap();

    // Row values in schema definition order: str: "str2", f_bool: false, i32: 21
    let row = BeamRow::new(vec![
        Some(FieldValue::String("str2".into())),
        Some(FieldValue::Boolean(false)),
        Some(FieldValue::Int32(21)),
    ]);

    let mut buf: Vec<u8> = Vec::new();
    coder.encode(&row, &mut buf).unwrap();
    // Encoded wire order: i32 (pos 0) -> \x15, str (pos 1) -> \x04str2, f_bool (pos 2) -> \x00
    assert_eq!(buf.as_slice(), b"\x03\x00\x15\x04str2\x00".as_slice());

    let decoded = coder.decode(&mut ByteReader::new(buf)).unwrap();
    assert_eq!(decoded, row);
}

#[test]
fn test_logical_types_vector() {
    // Schema: f_char: fixed_char(5), f_varchar: var_char(5), f_bytes: fixed_bytes(5), f_varbytes: var_bytes(5)
    let payload = b"\n=\n\x06f_char\x1a3\x08\x01:/\n\x1fbeam:logical_type:fixed_char:v1\x1a\x02\x10\x07\"\x02\x10\x03*\x04\n\x02\x18\x05\nB\n\tf_varchar\x1a1\x08\x01:-\n\x1dbeam:logical_type:var_char:v1\x1a\x02\x10\x07\"\x02\x10\x03*\x04\n\x02\x18\n \x01(\x01\nC\n\x07f_bytes\x1a4\x08\x01:0\n beam:logical_type:fixed_bytes:v1\x1a\x02\x10\t\"\x02\x10\x03*\x04\n\x02\x18\x05 \x02(\x02\nD\n\nf_varbytes\x1a2\x08\x01:.\n\x1ebeam:logical_type:var_bytes:v1\x1a\x02\x10\t\"\x02\x10\x03*\x04\n\x02\x18\n \x03(\x03\x12$f0ffb3a4-f46f-41ca-a942-85e3e939452a";
    let coder = RowCoder::from_payload(payload).unwrap();

    let row = BeamRow::new(vec![
        Some(FieldValue::String("ABCDE".into())),
        Some(FieldValue::String("ABCDE".into())),
        Some(FieldValue::Bytes(b"ABCDE".to_vec())),
        Some(FieldValue::Bytes(b"ABCDE".to_vec())),
    ]);

    let mut buf: Vec<u8> = Vec::new();
    coder.encode(&row, &mut buf).unwrap();
    assert_eq!(
        buf.as_slice(),
        b"\x04\x00\x05ABCDE\x05ABCDE\x05ABCDE\x05ABCDE".as_slice()
    );

    let decoded = coder.decode(&mut ByteReader::new(buf)).unwrap();
    // Decoded values will be wrapped in FieldValue::Logical
    assert_eq!(
        decoded.fields[0],
        Some(FieldValue::Logical(Box::new(FieldValue::String(
            "ABCDE".into()
        ))))
    );
}

#[test]
fn rows_that_do_not_fit_are_told_why() {
    let payload = b"\n\t\n\x03str\x1a\x02\x10\x07\n\t\n\x03i32\x1a\x02\x10\x03\n\t\n\x03f64\x1a\x02\x10\x06\n\r\n\x03arr\x1a\x06\x1a\x04\n\x02\x10\x07\x12$4e5e554c-d4c1-4a5d-b5e1-f3293a6b9f05";
    let coder = RowCoder::from_payload(payload).unwrap();
    let mut buf: Vec<u8> = Vec::new();
    let short = BeamRow::new(vec![None]);
    let e = coder.encode(&short, &mut buf).unwrap_err();
    assert!(e
        .message()
        .ends_with("row field count mismatch: schema expects 4, row has 1"));
    assert!(buf.is_empty());
    let null = BeamRow::new(vec![Some(FieldValue::String("a".into())), None, None, None]);
    let e = coder.encode(&null, &mut buf).unwrap_err();
    assert!(e
        .message()
        .ends_with("field 'i32' is not nullable but row value is null"));
    let mut items = null.clone();
    items.set(1, Some(FieldValue::Int32(1)));
    items.set(2, Some(FieldValue::Double(0)));
    items.set(3, Some(FieldValue::Array(vec![None])));
    let e = coder.encode(&items, &mut buf).unwrap_err();
    assert!(e
        .message()
        .ends_with("null element for non-nullable element type"));
    items.set(1, Some(FieldValue::String("x".into())));
    let e = coder.encode(&items, &mut buf).unwrap_err();
    assert!(e
        .message()
        .ends_with("type mismatch: expected Int32, got String(\"x\")"));
}

#[test]
fn copies_write_the_same() {
    let payload = b"\n\x0b\n\x03str\x1a\x04\x08\x01\x10\x07\n\x0b\n\x03i32\x1a\x04\x08\x01\x10\x03\n\x0b\n\x03f64\x1a\x04\x08\x01\x10\x06\x12$b20c6545-57af-4bc8-b2a9-51ace21c7393";
    let coder = RowCoder::from_payload(payload).unwrap();
    let row = BeamRow::new(vec![Some(FieldValue::String("a".into())), None, None]);
    let (mut one, mut two): (Vec<u8>, Vec<u8>) = (Vec::new(), Vec::new());
    coder.encode(&row, &mut one).unwrap();
    coder.clone().encode(&row.clone(), &mut two).unwrap();
    assert_eq!(one, two);
}
