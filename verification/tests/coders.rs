use flaredb::coders::primitives::{
    BoolCoder, BytesCoder, DoubleCoder, IterableCoder, LengthPrefixCoder, NullableCoder,
    PickleCoder, StringUtf8Coder, TupleCoder, VarInt32Coder, VarIntCoder, VoidCoder,
    WindowedValue, WindowedValueCoder,
};
use flaredb::coders::wire::ByteReader;
use flaredb::coders::{BeamCoder, StandardBeamCoders};
use flaredb::store::record::{
    BeamGbk, BeamKV, BeamRecord, IterableValue, PrimitiveValue, TupleValue,
};

fn roundtrip(coder: &StandardBeamCoders, value: BeamRecord) -> BeamRecord {
    let mut buf: Vec<u8> = Vec::new();

    coder.encode(value.clone(), &mut buf);

    let mut bytes = ByteReader::new(buf);
    coder.decode(&mut bytes).unwrap()
}

fn str_value(s: &str) -> PrimitiveValue {
    PrimitiveValue::String(s.to_string())
}

fn bytes_value(v: &[u8]) -> PrimitiveValue {
    PrimitiveValue::Bytes(v.to_vec())
}

fn records(values: Vec<PrimitiveValue>) -> Vec<BeamRecord> {
    values.into_iter().map(BeamRecord::PRIMITIVE).collect()
}

#[test]
fn string_utf8_roundtrip() {
    let coder = StandardBeamCoders::StringUtf8(StringUtf8Coder);

    let decoded = roundtrip(&coder, BeamRecord::PRIMITIVE(str_value("hello beam")));

    match decoded {
        BeamRecord::PRIMITIVE(PrimitiveValue::String(v)) => {
            assert_eq!(v, "hello beam");
        }
        _ => panic!("expected string"),
    }
}

#[test]
fn bytes_roundtrip() {
    let coder = StandardBeamCoders::Bytes(BytesCoder);

    let decoded = roundtrip(&coder, BeamRecord::PRIMITIVE(bytes_value(&[1, 2, 3, 4, 5])));

    match decoded {
        BeamRecord::PRIMITIVE(PrimitiveValue::Bytes(v)) => {
            assert_eq!(v, vec![1, 2, 3, 4, 5]);
        }
        _ => panic!("expected bytes"),
    }
}

#[test]
fn varint_roundtrip() {
    let coder = StandardBeamCoders::VarInt(VarIntCoder);

    let values = [0, 1, -1, 42, 1000, i64::MAX, i64::MIN + 1];

    for value in values {
        let decoded = roundtrip(&coder, BeamRecord::PRIMITIVE(PrimitiveValue::Int64(value)));

        match decoded {
            BeamRecord::PRIMITIVE(PrimitiveValue::Int64(v)) => {
                assert_eq!(v, value);
            }
            _ => panic!("expected int"),
        }
    }
}

#[test]
fn varint32_roundtrip() {
    let coder = StandardBeamCoders::VarInt32(VarInt32Coder);

    let values = [0, 1, -1, 42, 1000, i32::MAX as i64, i32::MIN as i64];

    for value in values {
        let decoded = roundtrip(&coder, BeamRecord::PRIMITIVE(PrimitiveValue::Int64(value)));

        match decoded {
            BeamRecord::PRIMITIVE(PrimitiveValue::Int64(v)) => {
                assert_eq!(v, value, "roundtrip mismatch for {value}");
            }
            other => panic!("expected int64, got {other:?}"),
        }
    }
}

#[test]
fn varint32_matches_java_wire_format() {
    // Byte-for-byte the encodings produced by Java's VarIntCoder.
    let coder = VarInt32Coder;
    let cases: [(i64, &[u8]); 6] = [
        (0, &[0x00]),
        (1, &[0x01]),
        (42, &[0x2A]),
        (127, &[0x7F]),
        (128, &[0x80, 0x01]),
        // Java zero-extends the 32-bit pattern: -1 -> 0xFFFFFFFF (5 bytes).
        (-1, &[0xFF, 0xFF, 0xFF, 0xFF, 0x0F]),
    ];

    for (value, expected) in cases {
        let mut buf: Vec<u8> = Vec::new();
        coder.encode(value, &mut buf);
        assert_eq!(buf.as_slice(), expected, "encoding mismatch for {value}");

        let mut bytes = ByteReader::new(buf);
        assert_eq!(coder.decode(&mut bytes).unwrap(), value);
    }
}

#[test]
fn varint32_agrees_with_varlong_for_non_negative_values() {
    // Both coders share the LEB128 algorithm for non-negative values.
    let varlong = StandardBeamCoders::VarInt(VarIntCoder);
    let varint32 = StandardBeamCoders::VarInt32(VarInt32Coder);

    for value in [0i64, 1, 127, 128, 1000, i32::MAX as i64] {
        let record = BeamRecord::PRIMITIVE(PrimitiveValue::Int64(value));

        let mut a: Vec<u8> = Vec::new();
        varlong.encode(record.clone(), &mut a);
        let mut b: Vec<u8> = Vec::new();
        varint32.encode(record, &mut b);

        assert_eq!(a.as_slice(), b.as_slice(), "mismatch for {value}");
    }
}

#[test]
fn varint32_rejects_out_of_range_value() {
    // 2^32 = 0x1_0000_0000 -> LEB128 80 80 80 80 10
    let mut bytes = ByteReader::new(vec![0x80, 0x80, 0x80, 0x80, 0x10]);
    assert!(VarInt32Coder.decode(&mut bytes).is_err());
}

#[test]
fn bool_roundtrip() {
    let coder = StandardBeamCoders::Bool(BoolCoder);

    for value in [true, false] {
        let decoded = roundtrip(&coder, BeamRecord::PRIMITIVE(PrimitiveValue::Bool(value)));

        match decoded {
            BeamRecord::PRIMITIVE(PrimitiveValue::Bool(v)) => {
                assert_eq!(v, value);
            }
            _ => panic!("expected bool"),
        }
    }
}

#[test]
fn void_roundtrip() {
    let coder = StandardBeamCoders::Void(VoidCoder);

    let decoded = roundtrip(&coder, BeamRecord::PRIMITIVE(PrimitiveValue::Void));

    assert!(matches!(
        decoded,
        BeamRecord::PRIMITIVE(PrimitiveValue::Void)
    ));
}

#[test]
fn is_void_only_for_void_coder() {
    assert!(StandardBeamCoders::Void(VoidCoder).is_void());
    assert!(!StandardBeamCoders::Bytes(BytesCoder).is_void());
    assert!(
        !StandardBeamCoders::Iterable(IterableCoder::new(StandardBeamCoders::Void(VoidCoder)))
            .is_void()
    );
}

#[test]
fn opaque_void_frames_slice_back_to_exact_wire_bytes() {
    // The opaque path locates each VoidCoder element frame by decoding the
    // WindowedValue framing, then preserves the original bytes untouched.
    // Reassembling those slices must reproduce the input wire bytes exactly.
    let coder = WindowedValueCoder::new(StandardBeamCoders::Void(VoidCoder));

    let mut buf: Vec<u8> = Vec::new();
    coder.encode_value(BeamRecord::PRIMITIVE(PrimitiveValue::Void), &mut buf);
    coder.encode_value(BeamRecord::PRIMITIVE(PrimitiveValue::Void), &mut buf);
    coder.encode_value(BeamRecord::PRIMITIVE(PrimitiveValue::Void), &mut buf);
    let wire = buf;

    let mut cursor = ByteReader::new(wire.clone());
    let mut frames: Vec<Vec<u8>> = Vec::new();
    while cursor.pos < wire.len() {
        let start = cursor.pos;
        coder.decode(&mut cursor).unwrap();
        let end = cursor.pos;
        frames.push(wire[start..end].to_vec());
    }

    assert_eq!(frames.len(), 3);
    assert_eq!(frames.concat(), wire.to_vec());
}

#[test]
fn iterable_varint_roundtrip() {
    let coder = StandardBeamCoders::Iterable(IterableCoder::new(StandardBeamCoders::VarInt(
        VarIntCoder,
    )));

    let original = BeamRecord::ITERABLE(IterableValue::new(vec![
        PrimitiveValue::Int64(1),
        PrimitiveValue::Int64(2),
        PrimitiveValue::Int64(3),
        PrimitiveValue::Int64(100),
    ]));

    let decoded = roundtrip(&coder, original);

    match decoded {
        BeamRecord::ITERABLE(values) => {
            assert_eq!(
                values.list,
                records(vec![
                    PrimitiveValue::Int64(1),
                    PrimitiveValue::Int64(2),
                    PrimitiveValue::Int64(3),
                    PrimitiveValue::Int64(100),
                ])
            );
        }
        _ => panic!("expected iterable"),
    }
}

#[test]
fn empty_iterable_roundtrip() {
    let coder = StandardBeamCoders::Iterable(IterableCoder::new(
        StandardBeamCoders::StringUtf8(StringUtf8Coder),
    ));

    let original = BeamRecord::ITERABLE(IterableValue { list: Vec::new() });

    let decoded = roundtrip(&coder, original);

    match decoded {
        BeamRecord::ITERABLE(values) => {
            assert!(values.list.is_empty());
        }
        _ => panic!("expected iterable"),
    }
}

#[test]
fn tuple_roundtrip() {
    let coder = StandardBeamCoders::Tuple(TupleCoder::new(vec![
        StandardBeamCoders::StringUtf8(StringUtf8Coder),
        StandardBeamCoders::VarInt(VarIntCoder),
        StandardBeamCoders::Double(DoubleCoder),
    ]));

    let original = BeamRecord::TUPLE(TupleValue::new(vec![
        str_value("hello"),
        PrimitiveValue::Int64(42),
        PrimitiveValue::Float64(1.5f64.to_bits()),
    ]));

    let decoded = roundtrip(&coder, original);

    match decoded {
        BeamRecord::TUPLE(values) => {
            assert_eq!(
                values.values.as_slice(),
                [
                    str_value("hello"),
                    PrimitiveValue::Int64(42),
                    PrimitiveValue::Float64(1.5f64.to_bits()),
                ]
            );
        }
        _ => panic!("expected tuple"),
    }
}

#[test]
fn tuple_with_nullable_component_roundtrip() {
    // Mirrors the reshuffle metadata tuple: `(bytes, nullable[opaque], opaque)`.
    // Regression test for encoding a tuple whose component coder is composite
    // (`Nullable` / `length_prefix`) rather than a bare primitive.
    let coder = StandardBeamCoders::Tuple(TupleCoder::new(vec![
        StandardBeamCoders::Bytes(BytesCoder),
        StandardBeamCoders::Nullable(NullableCoder::new(StandardBeamCoders::LengthPrefix(
            LengthPrefixCoder,
        ))),
        StandardBeamCoders::LengthPrefix(LengthPrefixCoder),
    ]));

    // Present nullable component.
    let present = roundtrip(
        &coder,
        BeamRecord::TUPLE(TupleValue::new(vec![
            PrimitiveValue::Bytes(b"key".to_vec()),
            PrimitiveValue::Bytes(b"window".to_vec()),
            PrimitiveValue::Bytes(b"pane".to_vec()),
        ])),
    );
    match present {
        BeamRecord::TUPLE(values) => assert_eq!(
            values.values,
            vec![
                PrimitiveValue::Bytes(b"key".to_vec()),
                PrimitiveValue::Bytes(b"window".to_vec()),
                PrimitiveValue::Bytes(b"pane".to_vec()),
            ]
        ),
        other => panic!("expected tuple, got {other:?}"),
    }

    // Null nullable component.
    let null = roundtrip(
        &coder,
        BeamRecord::TUPLE(TupleValue::new(vec![
            PrimitiveValue::Bytes(b"key".to_vec()),
            PrimitiveValue::Void,
            PrimitiveValue::Bytes(b"pane".to_vec()),
        ])),
    );
    match null {
        BeamRecord::TUPLE(values) => assert_eq!(
            values.values,
            vec![
                PrimitiveValue::Bytes(b"key".to_vec()),
                PrimitiveValue::Void,
                PrimitiveValue::Bytes(b"pane".to_vec()),
            ]
        ),
        other => panic!("expected tuple, got {other:?}"),
    }
}

#[test]
fn pickle_roundtrip_preserves_raw_bytes() {
    let coder = StandardBeamCoders::Pickle(PickleCoder);

    // A byte sequence that begins with a pickle protocol-5 opcode stream.
    let payload = vec![0x80, 0x05, 0x95, 0x00, 0x01, 0x00, 0x00, 0x00, 0x2e];
    let decoded = roundtrip(
        &coder,
        BeamRecord::PRIMITIVE(PrimitiveValue::Bytes(payload.clone())),
    );

    match decoded {
        BeamRecord::PRIMITIVE(PrimitiveValue::Bytes(v)) => {
            assert_eq!(v, payload);
        }
        _ => panic!("expected bytes"),
    }
}

#[test]
fn nullable_roundtrip_matches_standard_coder() {
    // Matches standard_coders.yaml for `beam:coder:nullable:v1` with a bytes
    // component: "\u0001\u0003abc" -> "abc", "\u0000" -> null.
    let coder =
        StandardBeamCoders::Nullable(NullableCoder::new(StandardBeamCoders::Bytes(BytesCoder)));

    // null encodes as a single 0x00 byte.
    let mut buf: Vec<u8> = Vec::new();
    coder.encode(BeamRecord::PRIMITIVE(PrimitiveValue::Void), &mut buf);
    assert_eq!(buf.as_slice(), b"\x00");

    // present "abc" encodes as 0x01 followed by the nested bytes coder.
    let mut buf: Vec<u8> = Vec::new();
    coder.encode(
        BeamRecord::PRIMITIVE(PrimitiveValue::Bytes(b"abc".to_vec())),
        &mut buf,
    );
    assert_eq!(buf.as_slice(), b"\x01\x03abc");

    // decoding the yaml example yields "abc".
    let mut present = ByteReader::new(b"\x01\x03abc".to_vec());
    match coder.decode(&mut present).unwrap() {
        BeamRecord::PRIMITIVE(PrimitiveValue::Bytes(v)) => assert_eq!(v, b"abc"),
        other => panic!("expected bytes, got {other:?}"),
    }

    // decoding the null example yields Void.
    let mut null = ByteReader::new(b"\x00".to_vec());
    assert!(matches!(
        coder.decode(&mut null).unwrap(),
        BeamRecord::PRIMITIVE(PrimitiveValue::Void)
    ));
}

#[test]
fn kv_roundtrip() {
    let coder = StandardBeamCoders::Kv(
        Box::new(StandardBeamCoders::StringUtf8(StringUtf8Coder)),
        Box::new(StandardBeamCoders::VarInt(VarIntCoder)),
    );

    let original = BeamRecord::KV(BeamKV {
        key: str_value("user-1"),
        value: Box::new(BeamRecord::PRIMITIVE(PrimitiveValue::Int64(42))),
    });

    let decoded = roundtrip(&coder, original);

    match decoded {
        BeamRecord::KV(kv) => {
            assert_eq!(kv.key, str_value("user-1"));
            assert!(matches!(
                *kv.value,
                BeamRecord::PRIMITIVE(PrimitiveValue::Int64(42))
            ));
        }
        _ => panic!("expected kv"),
    }
}

#[test]
fn gbk_roundtrip() {
    let coder = StandardBeamCoders::Gbk(
        Box::new(StandardBeamCoders::StringUtf8(StringUtf8Coder)),
        IterableCoder::new(StandardBeamCoders::VarInt(VarIntCoder)),
    );

    let original = BeamRecord::GBK(BeamGbk {
        key: str_value("group"),
        value: IterableValue::new(vec![
            PrimitiveValue::Int64(10),
            PrimitiveValue::Int64(20),
            PrimitiveValue::Int64(30),
        ]),
    });

    let decoded = roundtrip(&coder, original);

    match decoded {
        BeamRecord::GBK(gbk) => {
            assert_eq!(gbk.key, str_value("group"));

            assert_eq!(
                gbk.value.list,
                records(vec![
                    PrimitiveValue::Int64(10),
                    PrimitiveValue::Int64(20),
                    PrimitiveValue::Int64(30),
                ])
            );
        }
        _ => panic!("expected gbk"),
    }
}

#[test]
fn windowed_value_roundtrip() {
    let coder = WindowedValueCoder::new(StandardBeamCoders::VarInt(VarIntCoder));

    let original = WindowedValue::global(BeamRecord::PRIMITIVE(PrimitiveValue::Int64(12345)));

    let mut buf: Vec<u8> = Vec::new();
    coder.encode(WindowedValue::global(original.value.clone()), &mut buf);

    let mut bytes = ByteReader::new(buf);
    let decoded = coder.decode(&mut bytes).unwrap();

    assert_eq!(decoded.timestamp_millis, original.timestamp_millis);
    assert_eq!(decoded.windows, original.windows);
    assert_eq!(decoded.pane.is_first, original.pane.is_first);
    assert_eq!(decoded.pane.is_last, original.pane.is_last);

    match decoded.value {
        BeamRecord::PRIMITIVE(PrimitiveValue::Int64(v)) => {
            assert_eq!(v, 12345);
        }
        _ => panic!("expected int"),
    }
}

#[test]
fn encode_value_helper() {
    let coder = WindowedValueCoder::new(StandardBeamCoders::StringUtf8(StringUtf8Coder));

    let mut buf: Vec<u8> = Vec::new();

    coder.encode_value(BeamRecord::PRIMITIVE(str_value("beam")), &mut buf);

    let mut bytes = ByteReader::new(buf);
    let decoded = coder.decode(&mut bytes).unwrap();

    match decoded.value {
        BeamRecord::PRIMITIVE(PrimitiveValue::String(s)) => {
            assert_eq!(s, "beam");
        }
        _ => panic!("expected string"),
    }
}

#[test]
fn iterable_unknown_length_encoding() {
    let coder = IterableCoder::new(StandardBeamCoders::VarInt(VarIntCoder));

    let values = vec![
        PrimitiveValue::Int64(1),
        PrimitiveValue::Int64(2),
        PrimitiveValue::Int64(3),
    ];

    let mut buf: Vec<u8> = Vec::new();
    coder.encode(records(values.clone()), &mut buf);

    let mut bytes = ByteReader::new(buf);
    let decoded = coder.decode(&mut bytes).unwrap();

    assert_eq!(decoded, records(values));
}

#[test]
fn beam_varint_wire_encode() {
    let coder = VarIntCoder;

    let cases = [
        (0, vec![0x00]),
        (1, vec![0x01]),
        (10, vec![0x0A]),
        (200, vec![0xC8, 0x01]),
        (1000, vec![0xE8, 0x07]),
        (
            -1,
            vec![0xFF, 0xFF, 0xFF, 0xFF, 0xFF, 0xFF, 0xFF, 0xFF, 0xFF, 0x01],
        ),
    ];

    for (value, expected) in cases {
        let mut buf: Vec<u8> = Vec::new();
        coder.encode(value, &mut buf);

        assert_eq!(buf.as_slice(), expected.as_slice());
    }
}

#[test]
fn beam_varint_wire_decode() {
    let coder = VarIntCoder;

    let cases = [
        (vec![0x00], 0),
        (vec![0x01], 1),
        (vec![0x0A], 10),
        (vec![0xC8, 0x01], 200),
        (vec![0xE8, 0x07], 1000),
        (
            vec![0xFF, 0xFF, 0xFF, 0xFF, 0xFF, 0xFF, 0xFF, 0xFF, 0xFF, 0x01],
            -1,
        ),
    ];

    for (encoded, expected) in cases {
        let mut bytes = ByteReader::new(encoded);
        assert_eq!(coder.decode(&mut bytes).unwrap(), expected);
    }
}

#[test]
fn beam_bool_wire_encode() {
    let coder = BoolCoder;

    let mut buf: Vec<u8> = Vec::new();
    coder.encode(true, &mut buf);
    assert_eq!(buf.as_slice(), [0x01]);

    buf.clear();

    coder.encode(false, &mut buf);
    assert_eq!(buf.as_slice(), [0x00]);
}

#[test]
fn beam_bool_wire_decode() {
    let coder = BoolCoder;

    let mut bytes = ByteReader::new(vec![0x01]);
    assert!(coder.decode(&mut bytes).unwrap());

    let mut bytes = ByteReader::new(vec![0x00]);
    assert!(!coder.decode(&mut bytes).unwrap());
}

#[test]
fn beam_string_wire_encode() {
    let coder = StringUtf8Coder;

    let mut buf: Vec<u8> = Vec::new();
    coder.encode("abc".to_string(), &mut buf);

    assert_eq!(buf.as_slice(), [0x03, b'a', b'b', b'c']);
}

#[test]
fn beam_string_wire_decode() {
    let coder = StringUtf8Coder;

    let mut bytes = ByteReader::new(vec![0x03, b'a', b'b', b'c']);

    assert_eq!(coder.decode(&mut bytes).unwrap(), "abc");
}

#[test]
fn beam_bytes_wire_encode() {
    let coder = BytesCoder;

    let mut buf: Vec<u8> = Vec::new();
    coder.encode(vec![1, 2, 3], &mut buf);

    assert_eq!(buf.as_slice(), [0x03, 1, 2, 3]);
}

#[test]
fn beam_bytes_wire_decode() {
    let coder = BytesCoder;

    let mut bytes = ByteReader::new(vec![0x03, 1, 2, 3]);

    assert_eq!(coder.decode(&mut bytes).unwrap(), vec![1, 2, 3]);
}

#[test]
fn beam_kv_wire_encode() {
    let coder = StandardBeamCoders::Kv(
        Box::new(StandardBeamCoders::StringUtf8(StringUtf8Coder)),
        Box::new(StandardBeamCoders::VarInt(VarIntCoder)),
    );

    let mut buf: Vec<u8> = Vec::new();

    coder.encode(
        BeamRecord::KV(BeamKV {
            key: str_value("abc"),
            value: Box::new(BeamRecord::PRIMITIVE(PrimitiveValue::Int64(10))),
        }),
        &mut buf,
    );

    assert_eq!(buf.as_slice(), [0x03, b'a', b'b', b'c', 0x0A,]);
}

#[test]
fn beam_kv_wire_decode() {
    let coder = StandardBeamCoders::Kv(
        Box::new(StandardBeamCoders::StringUtf8(StringUtf8Coder)),
        Box::new(StandardBeamCoders::VarInt(VarIntCoder)),
    );

    let mut bytes = ByteReader::new(vec![0x03, b'a', b'b', b'c', 0x0A]);

    match coder.decode(&mut bytes).unwrap() {
        BeamRecord::KV(kv) => {
            assert_eq!(kv.key, str_value("abc"));
            assert!(matches!(
                *kv.value,
                BeamRecord::PRIMITIVE(PrimitiveValue::Int64(10))
            ));
        }
        _ => panic!("expected kv"),
    }
}

#[test]
fn beam_iterable_wire_encode() {
    let coder = IterableCoder::new(StandardBeamCoders::VarInt(VarIntCoder));

    let values = vec![
        PrimitiveValue::Int64(1),
        PrimitiveValue::Int64(10),
        PrimitiveValue::Int64(200),
        PrimitiveValue::Int64(1000),
    ];

    let mut buf: Vec<u8> = Vec::new();
    coder.encode(records(values), &mut buf);

    assert_eq!(
        buf.as_slice(),
        [0x00, 0x00, 0x00, 0x04, 0x01, 0x0A, 0xC8, 0x01, 0xE8, 0x07,]
    );
}

#[test]
fn beam_iterable_wire_decode() {
    let coder = IterableCoder::new(StandardBeamCoders::VarInt(VarIntCoder));

    let mut bytes =
        ByteReader::new(vec![0x00, 0x00, 0x00, 0x04, 0x01, 0x0A, 0xC8, 0x01, 0xE8, 0x07]);

    let decoded = coder.decode(&mut bytes).unwrap();

    assert_eq!(
        decoded,
        records(vec![
            PrimitiveValue::Int64(1),
            PrimitiveValue::Int64(10),
            PrimitiveValue::Int64(200),
            PrimitiveValue::Int64(1000),
        ])
    );
}
