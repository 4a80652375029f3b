use flaredb::store::batch::{
    beamrecords_to_record_batch, iterable_value_from_array_row, iterable_values_to_array,
    primitive_value_from_array_row, primitive_values_to_array, record_batch_to_beamrecords,
};
use flaredb::store::columns::{Cells, Column, DataType, ListColumn, TableField};
use flaredb::store::record::{BeamGbk, BeamKV, BeamRecord, IterableValue, PrimitiveValue};
use flaredb::store::table::{derive_table_schema, RecordTableSchema, TableType};
use flaredb::store::{KEY_COLUMN, VALUE_COLUMN};

// helpers

fn s(v: &str) -> PrimitiveValue {
    PrimitiveValue::String(v.to_string())
}

fn i(v: i64) -> PrimitiveValue {
    PrimitiveValue::Int64(v)
}

fn b(v: bool) -> PrimitiveValue {
    PrimitiveValue::Bool(v)
}

fn bytes(v: &[u8]) -> PrimitiveValue {
    PrimitiveValue::Bytes(v.to_vec())
}

fn kv_value(v: PrimitiveValue) -> Box<BeamRecord> {
    Box::new(BeamRecord::PRIMITIVE(v))
}

fn records(values: &[PrimitiveValue]) -> Vec<BeamRecord> {
    values.iter().cloned().map(BeamRecord::PRIMITIVE).collect()
}

fn text_column(values: Vec<Option<&str>>) -> Column {
    Column::Cells(Cells::Utf8(values.into_iter().map(|v| v.map(|s| s.to_string())).collect()))
}

fn int_column(values: Vec<i64>) -> Column {
    Column::Cells(Cells::Int64(values.into_iter().map(Some).collect()))
}

fn length_of(list: &ListColumn, row: usize) -> i32 {
    list.offsets[row + 1] - list.offsets[row]
}

fn ints_of(list: &ListColumn, row: usize) -> Vec<i64> {
    let Cells::Int64(items) = &list.items else {
        panic!("another type of column");
    };
    let start = list.offsets[row] as usize;
    let end = list.offsets[row + 1] as usize;
    items[start..end].iter().map(|v| v.unwrap()).collect()
}

fn field_named<'a>(schema: &'a RecordTableSchema, name: &str) -> &'a TableField {
    let at = schema.arrow_schema.index_of(name).unwrap();
    &schema.arrow_schema.fields[at]
}

fn assert_primitive(record: &BeamRecord, expected: &PrimitiveValue) {
    match record {
        BeamRecord::PRIMITIVE(v) => assert_eq!(v, expected),
        other => panic!("expected PRIMITIVE, got {other:?}"),
    }
}

fn assert_kv(record: &BeamRecord, key: &PrimitiveValue, value: &PrimitiveValue) {
    match record {
        BeamRecord::KV(kv) => {
            assert_eq!(&kv.key, key);
            assert_primitive(&kv.value, value);
        }
        other => panic!("expected KV, got {other:?}"),
    }
}

fn assert_iterable(record: &BeamRecord, expected: &[PrimitiveValue]) {
    match record {
        BeamRecord::ITERABLE(it) => assert_eq!(it.list, records(expected)),
        other => panic!("expected ITERABLE, got {other:?}"),
    }
}

fn assert_gbk(record: &BeamRecord, key: &PrimitiveValue, values: &[PrimitiveValue]) {
    match record {
        BeamRecord::GBK(gbk) => {
            assert_eq!(&gbk.key, key);
            assert_eq!(gbk.value.list, records(values));
        }
        other => panic!("expected GBK, got {other:?}"),
    }
}

// PrimitiveValue equality

#[test]
fn primitive_value_eq_same_variant() {
    assert_eq!(s("a"), s("a"));
    assert_ne!(s("a"), s("b"));
    assert_eq!(i(5), i(5));
    assert_ne!(i(5), i(6));
    assert_eq!(b(true), b(true));
    assert_ne!(b(true), b(false));
    assert_eq!(bytes(&[1, 2]), bytes(&[1, 2]));
    assert_ne!(bytes(&[1, 2]), bytes(&[1, 3]));
    assert_eq!(PrimitiveValue::Void, PrimitiveValue::Void);
}

#[test]
fn primitive_value_eq_across_variants_is_false() {
    // Same "logical" content, different variant -> not equal.
    assert_ne!(i(1), PrimitiveValue::Bool(true));
    assert_ne!(s("1"), i(1));
}

// TableType

#[test]
fn table_type_as_str_from_str_roundtrip() {
    for tt in [
        TableType::Primitive,
        TableType::Iterable,
        TableType::Kv,
        TableType::Gbk,
    ] {
        assert_eq!(TableType::from_str(tt.as_str()).unwrap(), tt);
    }
}

#[test]
fn table_type_from_str_unknown_errors() {
    assert!(TableType::from_str("bogus").is_err());
}

// BeamRecord accessors

#[test]
fn beam_record_get_primitive_happy_and_wrong_variant() {
    assert_eq!(BeamRecord::PRIMITIVE(i(7)).get_primitive().unwrap(), i(7));
    let kv = BeamRecord::KV(BeamKV {
        key: i(1),
        value: kv_value(i(2)),
    });
    assert!(kv.get_primitive().is_err());
}

#[test]
fn beam_record_get_kv_happy_and_wrong_variant() {
    let kv = BeamRecord::KV(BeamKV {
        key: s("k"),
        value: kv_value(i(9)),
    });
    let extracted = kv.clone().get_kv().unwrap();
    assert_eq!(extracted.key, s("k"));
    assert_eq!(*extracted.value, BeamRecord::PRIMITIVE(i(9)));
    assert!(BeamRecord::PRIMITIVE(i(1)).get_kv().is_err());
}

#[test]
fn beam_record_get_gbk_happy_and_wrong_variant() {
    let gbk = BeamRecord::GBK(BeamGbk {
        key: s("k"),
        value: IterableValue::new(vec![i(1), i(2)]),
    });
    let extracted = gbk.clone().get_gbk().unwrap();
    assert_eq!(extracted.key, s("k"));
    assert_eq!(extracted.value.list, records(&[i(1), i(2)]));
    assert!(BeamRecord::PRIMITIVE(i(1)).get_gbk().is_err());
}

#[test]
fn beam_record_get_iterable_happy_and_wrong_variant() {
    let it = BeamRecord::ITERABLE(IterableValue::new(vec![i(1)]));
    assert_eq!(it.get_iterable().unwrap().list, records(&[i(1)]));
    assert!(BeamRecord::PRIMITIVE(i(1)).get_iterable().is_err());
}

// primitive_values_to_array

#[test]
fn primitive_values_to_array_utf8() {
    let values = vec![s("a"), s("b"), s("c")];
    let array = primitive_values_to_array(&values, &DataType::Utf8).unwrap();
    let Cells::Utf8(arr) = array else {
        panic!("another type of column");
    };
    assert_eq!(arr.len(), 3);
    assert_eq!(arr[0].as_deref(), Some("a"));
    assert_eq!(arr[2].as_deref(), Some("c"));
}

#[test]
fn primitive_values_to_array_binary() {
    let values = vec![bytes(&[1, 2]), bytes(&[3])];
    let array = primitive_values_to_array(&values, &DataType::Binary).unwrap();
    let Cells::Binary(arr) = array else {
        panic!("another type of column");
    };
    assert_eq!(arr[0], Some(vec![1, 2]));
    assert_eq!(arr[1], Some(vec![3]));
}

#[test]
fn primitive_values_to_array_int64() {
    let values = vec![i(10), i(-5), i(0)];
    let array = primitive_values_to_array(&values, &DataType::Int64).unwrap();
    let Cells::Int64(arr) = array else {
        panic!("another type of column");
    };
    assert_eq!(arr, vec![Some(10), Some(-5), Some(0)]);
}

#[test]
fn primitive_values_to_array_boolean() {
    let values = vec![b(true), b(false), b(true)];
    let array = primitive_values_to_array(&values, &DataType::Boolean).unwrap();
    let Cells::Boolean(arr) = array else {
        panic!("another type of column");
    };
    assert_eq!(arr[0], Some(true));
    assert_eq!(arr[1], Some(false));
}

#[test]
fn primitive_values_to_array_null_with_non_void_errors() {
    let values = vec![PrimitiveValue::Void, i(1)];
    assert!(primitive_values_to_array(&values, &DataType::Null).is_err());
}

#[test]
fn primitive_values_to_array_mixed_variant_errors() {
    let values = vec![s("a"), i(1)];
    assert!(primitive_values_to_array(&values, &DataType::Utf8).is_err());
}

#[test]
fn primitive_values_to_array_unsupported_storage_type_errors() {
    let values = vec![i(1)];
    assert!(primitive_values_to_array(&values, &DataType::Float64).is_err());
}

#[test]
fn primitive_values_to_array_empty_slice() {
    let values: Vec<PrimitiveValue> = vec![];
    let array = primitive_values_to_array(&values, &DataType::Int64).unwrap();
    assert_eq!(array.len(), 0);
}

// iterable_values_to_array

#[test]
fn iterable_values_to_array_varying_lengths() {
    let iterables = vec![
        IterableValue::new(vec![i(1), i(2)]),
        IterableValue::new(vec![]),
        IterableValue::new(vec![i(3)]),
    ];
    let list = iterable_values_to_array(&iterables, &DataType::Int64).unwrap();
    assert_eq!(list.there.len(), 3);
    assert_eq!(length_of(&list, 0), 2);
    assert_eq!(length_of(&list, 1), 0);
    assert_eq!(length_of(&list, 2), 1);

    assert_eq!(ints_of(&list, 0), vec![1, 2]);
    assert_eq!(ints_of(&list, 2), vec![3]);
}

#[test]
fn iterable_values_to_array_all_empty() {
    let iterables = vec![IterableValue::new(vec![]), IterableValue::new(vec![])];
    // infer_iterable_item_data_type would fall back to Null here.
    let list = iterable_values_to_array(&iterables, &DataType::Null).unwrap();
    assert_eq!(list.there.len(), 2);
    assert_eq!(length_of(&list, 0), 0);
    assert_eq!(length_of(&list, 1), 0);
}

#[test]
fn iterable_values_to_array_no_rows() {
    let iterables: Vec<IterableValue> = vec![];
    let array = iterable_values_to_array(&iterables, &DataType::Int64).unwrap();
    assert_eq!(array.there.len(), 0);
}

// primitive_value_from_array_row

#[test]
fn primitive_value_from_array_row_all_types() {
    let strings = text_column(vec![Some("x"), Some("y")]);
    assert_eq!(
        primitive_value_from_array_row(&strings, &DataType::Utf8, 1).unwrap(),
        s("y")
    );

    let ints = int_column(vec![10, 20]);
    assert_eq!(
        primitive_value_from_array_row(&ints, &DataType::Int64, 0).unwrap(),
        i(10)
    );

    let bools = Column::Cells(Cells::Boolean(vec![Some(true), Some(false)]));
    assert_eq!(
        primitive_value_from_array_row(&bools, &DataType::Boolean, 1).unwrap(),
        b(false)
    );

    let bin = Column::Cells(Cells::Binary(vec![Some(b"hi".to_vec()), Some(b"lo".to_vec())]));
    assert_eq!(
        primitive_value_from_array_row(&bin, &DataType::Binary, 0).unwrap(),
        bytes(b"hi")
    );
}

#[test]
fn primitive_value_from_array_row_null_becomes_void() {
    let strings = text_column(vec![Some("x"), None]);
    assert_eq!(
        primitive_value_from_array_row(&strings, &DataType::Utf8, 1).unwrap(),
        PrimitiveValue::Void
    );
}

#[test]
fn primitive_value_from_array_row_wrong_downcast_errors() {
    let ints = int_column(vec![1, 2]);
    // Claiming Utf8 for an Int64Array should fail the downcast.
    assert!(primitive_value_from_array_row(&ints, &DataType::Utf8, 0).is_err());
}

#[test]
fn primitive_value_from_array_row_unsupported_type_errors() {
    let ints = int_column(vec![1]);
    assert!(primitive_value_from_array_row(&ints, &DataType::Other("Float32".to_string()), 0).is_err());
}

//  iterable_value_from_array_row

#[test]
fn iterable_value_from_array_row_roundtrips_via_builder() {
    let iterables = vec![
        IterableValue::new(vec![i(1), i(2), i(3)]),
        IterableValue::new(vec![]),
    ];
    let array = Column::List(iterable_values_to_array(&iterables, &DataType::Int64).unwrap());
    let list_type = DataType::List(Box::new(DataType::Int64), false);

    let row0 = iterable_value_from_array_row(&array, &list_type, 0).unwrap();
    assert_eq!(row0.list, records(&[i(1), i(2), i(3)]));

    let row1 = iterable_value_from_array_row(&array, &list_type, 1).unwrap();
    assert_eq!(row1.list, Vec::<BeamRecord>::new());
}

#[test]
fn iterable_value_from_array_row_null_row_yields_empty_list() {
    let list = Column::List(ListColumn {
        offsets: vec![0, 0],
        there: vec![false], // row 0 is null
        items: Cells::Int64(vec![]),
        item_nullable: false,
    });

    let list_type = DataType::List(Box::new(DataType::Int64), false);
    let result = iterable_value_from_array_row(&list, &list_type, 0).unwrap();
    assert_eq!(result.list, Vec::<BeamRecord>::new());
}

#[test]
fn iterable_value_from_array_row_non_list_type_errors() {
    let ints = int_column(vec![1]);
    assert!(iterable_value_from_array_row(&ints, &DataType::Int64, 0).is_err());
}

//  derive_table_schema

#[test]
fn records_without_a_layout_are_told_why() {
    let text = |records: Vec<BeamRecord>| derive_table_schema("pc", &records).unwrap_err().message();
    let list = |values: Vec<PrimitiveValue>| BeamRecord::ITERABLE(IterableValue::new(values));
    let kv = |k: PrimitiveValue, v: PrimitiveValue| {
        BeamRecord::KV(BeamKV {
            key: k,
            value: kv_value(v),
        })
    };
    let one = BeamRecord::PRIMITIVE(i(1));
    for (records, why) in [
        (vec![], "cannot derive schema for empty pcollection pc"),
        (
            records(&[s("a"), i(1), b(true)]),
            "mixed primitive types in pcollection pc: expected Utf8, found Int64",
        ),
        (
            vec![one.clone(), list(vec![])],
            "mixed BeamRecord variants in pcollection pc: expected primitive",
        ),
        (
            vec![list(vec![]), one.clone()],
            "mixed BeamRecord variants in pcollection pc: expected iterable",
        ),
        (
            vec![list(vec![]), list(vec![i(1), s("x")])],
            "mixed iterable item types in pcollection pc: expected Int64, found Utf8",
        ),
        (
            vec![kv(s("k"), i(1)), kv(i(2), i(2))],
            "mixed KV key types in pcollection pc: expected Utf8, found Int64",
        ),
        (
            vec![kv(s("k"), i(1)), kv(s("l"), b(true))],
            "mixed KV value types in pcollection pc: expected Int64, found Boolean",
        ),
        (
            vec![kv(s("k"), i(1)), one],
            "mixed BeamRecord variants in pcollection pc: expected kv",
        ),
    ] {
        assert!(text(records).ends_with(why), "{why}");
    }
}

#[test]
fn values_of_another_type_are_shown() {
    let text = |e: flaredb::utils::errors::ElementStoreError| e.message();
    let e = primitive_values_to_array(&vec![s("a"), i(7)], &DataType::Utf8).unwrap_err();
    assert!(text(e).ends_with("mixed primitive variants in batch: expected String, found Int64(7)"));
    let e = primitive_values_to_array(&vec![i(7), s("a")], &DataType::Int64).unwrap_err();
    assert!(text(e).ends_with("expected Int64, found String(\"a\")"));
    let e = primitive_values_to_array(&vec![i(7)], &DataType::Null).unwrap_err();
    assert!(text(e).ends_with("mixed primitive variants in batch: expected Void values"));
    let other = DataType::Other("Date32".to_string());
    let e = primitive_values_to_array(&vec![i(7)], &other).unwrap_err();
    assert!(text(e).ends_with("unsupported primitive storage type: Date32"));
    let list = DataType::List(Box::new(DataType::Int64), false);
    let e = primitive_values_to_array(&vec![i(7)], &list).unwrap_err();
    assert!(text(e)
        .ends_with("unsupported primitive storage type: List(Field { data_type: Int64 })"));
    let lists = DataType::List(Box::new(DataType::List(Box::new(DataType::Null), true)), false);
    let e = primitive_values_to_array(&vec![i(7)], &lists).unwrap_err();
    assert!(text(e).ends_with(
        "List(Field { data_type: List(Field { data_type: Null, nullable: true }) })"
    ));
    let lists = vec![
        IterableValue::new(vec![i(1)]),
        IterableValue::new(vec![i(2), b(true), s("x")]),
    ];
    let e = iterable_values_to_array(&lists, &DataType::Int64).unwrap_err();
    assert!(text(e).ends_with("expected Int64, found Bool(true)"));
    let e = iterable_value_from_array_row(&int_column(vec![1]), &DataType::Int64, 0).unwrap_err();
    assert!(text(e).ends_with("expected List column for iterable, found Int64"));
}

#[test]
fn derive_table_schema_primitive() {
    let records = vec![BeamRecord::PRIMITIVE(s("a")), BeamRecord::PRIMITIVE(s("b"))];
    let schema = derive_table_schema("pc1", &records).unwrap();
    assert_eq!(schema.table_type, TableType::Primitive);
    assert_eq!(schema.arrow_schema.fields.len(), 1);
    let field = field_named(&schema, VALUE_COLUMN);
    assert_eq!(&field.data_type, &DataType::Utf8);
    assert!(!field.nullable);
}

#[test]
fn derive_table_schema_primitive_mixed_types_errors() {
    let records = vec![BeamRecord::PRIMITIVE(s("a")), BeamRecord::PRIMITIVE(i(1))];
    assert!(derive_table_schema("pc1", &records).is_err());
}

#[test]
fn derive_table_schema_iterable() {
    let records = vec![
        BeamRecord::ITERABLE(IterableValue::new(vec![i(1), i(2)])),
        BeamRecord::ITERABLE(IterableValue::new(vec![])),
    ];
    let schema = derive_table_schema("pc2", &records).unwrap();
    assert_eq!(schema.table_type, TableType::Iterable);
    let field = field_named(&schema, VALUE_COLUMN);
    match &field.data_type {
        DataType::List(item, _) => assert_eq!(&**item, &DataType::Int64),
        other => panic!("expected List, got {other:?}"),
    }
}

#[test]
fn derive_table_schema_iterable_mixed_item_types_errors() {
    let records = vec![BeamRecord::ITERABLE(IterableValue::new(vec![i(1), s("x")]))];
    assert!(derive_table_schema("pc2", &records).is_err());
}

#[test]
fn derive_table_schema_kv() {
    let records = vec![
        BeamRecord::KV(BeamKV {
            key: s("k1"),
            value: kv_value(i(1)),
        }),
        BeamRecord::KV(BeamKV {
            key: s("k2"),
            value: kv_value(i(2)),
        }),
    ];
    let schema = derive_table_schema("pc3", &records).unwrap();
    assert_eq!(schema.table_type, TableType::Kv);
    assert_eq!(
        &field_named(&schema, KEY_COLUMN).data_type,
        &DataType::Utf8
    );
    assert_eq!(
        &field_named(&schema, VALUE_COLUMN).data_type,
        &DataType::Int64
    );
}

#[test]
fn derive_table_schema_kv_mixed_key_types_errors() {
    let records = vec![
        BeamRecord::KV(BeamKV {
            key: s("k1"),
            value: kv_value(i(1)),
        }),
        BeamRecord::KV(BeamKV {
            key: i(9),
            value: kv_value(i(2)),
        }),
    ];
    assert!(derive_table_schema("pc3", &records).is_err());
}

#[test]
fn derive_table_schema_kv_mixed_value_types_errors() {
    let records = vec![
        BeamRecord::KV(BeamKV {
            key: s("k1"),
            value: kv_value(i(1)),
        }),
        BeamRecord::KV(BeamKV {
            key: s("k2"),
            value: kv_value(s("oops")),
        }),
    ];
    assert!(derive_table_schema("pc3", &records).is_err());
}

#[test]
fn derive_table_schema_gbk() {
    let records = vec![
        BeamRecord::GBK(BeamGbk {
            key: i(1),
            value: IterableValue::new(vec![s("a"), s("b")]),
        }),
        BeamRecord::GBK(BeamGbk {
            key: i(2),
            value: IterableValue::new(vec![]),
        }),
    ];
    let schema = derive_table_schema("pc4", &records).unwrap();
    assert_eq!(schema.table_type, TableType::Gbk);
    assert_eq!(
        &field_named(&schema, KEY_COLUMN).data_type,
        &DataType::Int64
    );
    match &field_named(&schema, VALUE_COLUMN).data_type
    {
        DataType::List(item, _) => assert_eq!(&**item, &DataType::Utf8),
        other => panic!("expected List, got {other:?}"),
    }
}

#[test]
fn derive_table_schema_gbk_mixed_key_types_errors() {
    let records = vec![
        BeamRecord::GBK(BeamGbk {
            key: i(1),
            value: IterableValue::new(vec![]),
        }),
        BeamRecord::GBK(BeamGbk {
            key: s("bad"),
            value: IterableValue::new(vec![]),
        }),
    ];
    assert!(derive_table_schema("pc4", &records).is_err());
}

#[test]
fn derive_table_schema_empty_records_errors() {
    let records: Vec<BeamRecord> = vec![];
    assert!(derive_table_schema("pc5", &records).is_err());
}

#[test]
fn derive_table_schema_mixed_record_variants_errors() {
    let records = vec![
        BeamRecord::PRIMITIVE(i(1)),
        BeamRecord::KV(BeamKV {
            key: i(1),
            value: kv_value(i(2)),
        }),
    ];
    assert!(derive_table_schema("pc6", &records).is_err());
}

//  beamrecords_to_record_batch / record_batch_to_beamrecords roundtrips

#[test]
fn roundtrip_primitive() {
    let records = vec![
        BeamRecord::PRIMITIVE(i(1)),
        BeamRecord::PRIMITIVE(i(2)),
        BeamRecord::PRIMITIVE(i(3)),
    ];
    let schema = derive_table_schema("pc", &records).unwrap();
    let batch = beamrecords_to_record_batch(&records, &schema).unwrap();
    assert_eq!(batch.num_rows(), 3);

    let back = record_batch_to_beamrecords(&batch, &schema).unwrap();
    assert_eq!(back.len(), 3);
    assert_primitive(&back[0], &i(1));
    assert_primitive(&back[1], &i(2));
    assert_primitive(&back[2], &i(3));
}

#[test]
fn roundtrip_kv() {
    let records = vec![
        BeamRecord::KV(BeamKV {
            key: s("a"),
            value: kv_value(i(1)),
        }),
        BeamRecord::KV(BeamKV {
            key: s("b"),
            value: kv_value(i(2)),
        }),
    ];
    let schema = derive_table_schema("pc", &records).unwrap();
    let batch = beamrecords_to_record_batch(&records, &schema).unwrap();
    let back = record_batch_to_beamrecords(&batch, &schema).unwrap();
    assert_kv(&back[0], &s("a"), &i(1));
    assert_kv(&back[1], &s("b"), &i(2));
}

#[test]
fn roundtrip_iterable() {
    let records = vec![
        BeamRecord::ITERABLE(IterableValue::new(vec![i(1), i(2)])),
        BeamRecord::ITERABLE(IterableValue::new(vec![])),
        BeamRecord::ITERABLE(IterableValue::new(vec![i(3)])),
    ];
    let schema = derive_table_schema("pc", &records).unwrap();
    let batch = beamrecords_to_record_batch(&records, &schema).unwrap();
    let back = record_batch_to_beamrecords(&batch, &schema).unwrap();
    assert_iterable(&back[0], &[i(1), i(2)]);
    assert_iterable(&back[1], &[]);
    assert_iterable(&back[2], &[i(3)]);
}

#[test]
fn roundtrip_gbk() {
    let records = vec![
        BeamRecord::GBK(BeamGbk {
            key: s("k1"),
            value: IterableValue::new(vec![i(10), i(20), i(30)]),
        }),
        BeamRecord::GBK(BeamGbk {
            key: s("k2"),
            value: IterableValue::new(vec![]),
        }),
    ];
    let schema = derive_table_schema("pc", &records).unwrap();
    let batch = beamrecords_to_record_batch(&records, &schema).unwrap();
    let back = record_batch_to_beamrecords(&batch, &schema).unwrap();
    assert_gbk(&back[0], &s("k1"), &[i(10), i(20), i(30)]);
    assert_gbk(&back[1], &s("k2"), &[]);
}

#[test]
fn roundtrip_boolean_and_bytes_primitive() {
    let records = vec![
        BeamRecord::PRIMITIVE(b(true)),
        BeamRecord::PRIMITIVE(b(false)),
    ];
    let schema = derive_table_schema("pc", &records).unwrap();
    let batch = beamrecords_to_record_batch(&records, &schema).unwrap();
    let back = record_batch_to_beamrecords(&batch, &schema).unwrap();
    assert_primitive(&back[0], &b(true));
    assert_primitive(&back[1], &b(false));

    let records = vec![
        BeamRecord::PRIMITIVE(bytes(&[1, 2, 3])),
        BeamRecord::PRIMITIVE(bytes(&[])),
    ];
    let schema = derive_table_schema("pc", &records).unwrap();
    let batch = beamrecords_to_record_batch(&records, &schema).unwrap();
    let back = record_batch_to_beamrecords(&batch, &schema).unwrap();
    assert_primitive(&back[0], &bytes(&[1, 2, 3]));
    assert_primitive(&back[1], &bytes(&[]));
}

#[test]
fn beamrecords_to_record_batch_empty_records_errors() {
    let records: Vec<BeamRecord> = vec![];
    // Schema itself can't be derived from empty input either, so build
    // a schema from a throwaway non-empty batch and feed empty records in.
    let seed = vec![BeamRecord::PRIMITIVE(i(1))];
    let schema = derive_table_schema("pc", &seed).unwrap();
    assert!(beamrecords_to_record_batch(&records, &schema).is_err());
}

#[test]
fn beamrecords_to_record_batch_variant_mismatch_errors() {
    // Schema derived as Kv, but records passed in are Primitive.
    let kv_seed = vec![BeamRecord::KV(BeamKV {
        key: i(1),
        value: kv_value(i(2)),
    })];
    let schema = derive_table_schema("pc", &kv_seed).unwrap();
    let wrong_records = vec![BeamRecord::PRIMITIVE(i(1))];
    assert!(beamrecords_to_record_batch(&wrong_records, &schema).is_err());
}

//  large-ish iterable to sanity check offset accumulation

#[test]
fn iterable_values_to_array_many_rows() {
    let iterables: Vec<IterableValue> = (0..100)
        .map(|n| IterableValue::new((0..n % 5).map(i).collect()))
        .collect();
    let total: usize = iterables.iter().map(|it| it.list.len()).sum();
    let list = iterable_values_to_array(&iterables, &DataType::Int64).unwrap();
    assert_eq!(list.there.len(), 100);
    assert_eq!(list.items.len(), total);
}
