use flaredb::store::batch::beamrecords_to_record_batch;
use flaredb::store::columns::{DataType, RecordBatch};
use flaredb::store::element_store::{
    FlareElementStore, FlareSchemaRegistry, NewCollectionRequest, ScanCollectionRequest,
    TableIdentifier,
};
use flaredb::store::record::{BeamGbk, BeamKV, BeamRecord, IterableValue, PrimitiveValue};
use flaredb::store::table::derive_table_schema;
use flaredb::store::VALUE_COLUMN;
use flaredb::utils::errors::ElementStoreError;
use std::collections::HashMap;
use std::sync::Arc;

/// A store with tables in memory: the batches of each table, in order.
struct Tables {
    store: FlareElementStore,
    tables: Vec<(TableIdentifier, Vec<RecordBatch>)>,
}

impl Tables {
    fn new() -> Tables {
        Tables {
            store: FlareElementStore::new("testdb".to_string()),
            tables: Vec::new(),
        }
    }

    fn append(&mut self, table: TableIdentifier, batch: RecordBatch) {
        for (name, batches) in self.tables.iter_mut() {
            if *name == table {
                batches.push(batch);
                return;
            }
        }
        self.tables.push((table, vec![batch]));
    }

    fn write(&mut self, id: &str, elements: Vec<BeamRecord>) -> Result<(), ElementStoreError> {
        let write = self.store.write_beamrecord_batch(NewCollectionRequest {
            pcollection_id: id.to_string(),
            elements,
        })?;
        self.append(write.table, write.batch);
        Ok(())
    }

    fn scan(&self, id: &str) -> Result<Vec<BeamRecord>, ElementStoreError> {
        let scan = self.store.scan_collection(&ScanCollectionRequest {
            pcollection_id: id.to_string(),
        })?;
        for (name, batches) in &self.tables {
            if *name == scan.table {
                return scan.records(batches);
            }
        }
        panic!("no such table");
    }
}

fn int_primitive(v: i64) -> BeamRecord {
    BeamRecord::PRIMITIVE(PrimitiveValue::Int64(v))
}

fn extract_ints(records: &[BeamRecord]) -> Vec<i64> {
    let mut out: Vec<i64> = records
        .iter()
        .map(|r| match r {
            BeamRecord::PRIMITIVE(PrimitiveValue::Int64(v)) => *v,
            other => panic!("expected int64 primitive, got {other:?}"),
        })
        .collect();
    out.sort_unstable();
    out
}

fn extract_kv_map(records: &[BeamRecord]) -> HashMap<String, i64> {
    records
        .iter()
        .map(|r| match r {
            BeamRecord::KV(kv) => {
                let key = match &kv.key {
                    PrimitiveValue::String(s) => s.clone(),
                    other => panic!("expected string key, got {other:?}"),
                };
                let value = match &*kv.value {
                    BeamRecord::PRIMITIVE(PrimitiveValue::Int64(v)) => *v,
                    other => panic!("expected int64 value, got {other:?}"),
                };
                (key, value)
            }
            other => panic!("expected KV record, got {other:?}"),
        })
        .collect()
}

fn extract_gbk_map(records: &[BeamRecord]) -> HashMap<String, Vec<i64>> {
    records
        .iter()
        .map(|r| match r {
            BeamRecord::GBK(gbk) => {
                let key = match &gbk.key {
                    PrimitiveValue::String(s) => s.clone(),
                    other => panic!("expected string key, got {other:?}"),
                };
                (key, extract_ints(&gbk.value.list))
            }
            other => panic!("expected GBK record, got {other:?}"),
        })
        .collect()
}

#[test]
fn registry_get_register_roundtrip() {
    let mut registry = FlareSchemaRegistry::new();
    assert!(registry.get("pc").is_none());

    let records = vec![int_primitive(1)];
    let schema = Arc::new(derive_table_schema("pc", &records).unwrap());
    registry.register("pc", schema.clone());

    assert!(registry.get("pc").is_some());
}

#[test]
fn registry_register_if_absent_does_not_overwrite() {
    let mut registry = FlareSchemaRegistry::new();
    let int_records = vec![int_primitive(1)];
    let int_schema = Arc::new(derive_table_schema("pc", &int_records).unwrap());
    registry.register("pc", int_schema.clone());

    let string_records = vec![BeamRecord::PRIMITIVE(PrimitiveValue::String("x".into()))];
    let string_schema = Arc::new(derive_table_schema("pc", &string_records).unwrap());
    registry.register_if_absent("pc", string_schema);

    // The first schema must still be the one stored.
    let stored = registry.get("pc").unwrap();
    let at = stored.arrow_schema.index_of(VALUE_COLUMN).unwrap();
    assert_eq!(stored.arrow_schema.fields[at].data_type, DataType::Int64);
}

#[test]
fn registry_clear_empties_all_entries() {
    let mut registry = FlareSchemaRegistry::new();
    let records = vec![int_primitive(1)];
    let schema = Arc::new(derive_table_schema("pc", &records).unwrap());
    registry.register("pc", schema);
    assert!(registry.get("pc").is_some());

    registry.clear();
    assert!(registry.get("pc").is_none());
}

#[test]
fn sanitize_pcollection_id_replaces_unsafe_chars() {
    let sanitized = FlareElementStore::sanitize_pcollection_id("a/b c(d).e");
    assert_eq!(sanitized, "a_b_c_d__e");
    assert!(!sanitized.contains('/'));
    assert!(!sanitized.contains(' '));
    assert!(!sanitized.contains('('));
    assert!(!sanitized.contains(')'));
    assert!(!sanitized.contains('.'));
}

#[test]
fn sanitize_pcollection_id_leaves_safe_chars_untouched() {
    let sanitized = FlareElementStore::sanitize_pcollection_id("wordcount_output-1");
    assert_eq!(sanitized, "wordcount_output-1");
}

#[test]
fn sanitizing_twice_is_sanitizing_once() {
    let once = FlareElementStore::sanitize_pcollection_id("ns/pc name (v1).flow");
    assert_eq!(once, "ns_pc_name__v1__flow");
    assert_eq!(FlareElementStore::sanitize_pcollection_id(&once), once);
}

#[test]
fn write_and_scan_primitive_roundtrip() {
    let mut tables = Tables::new();

    let records = vec![int_primitive(1), int_primitive(2), int_primitive(3)];
    tables.write("pc-primitive", records).unwrap();

    let scanned = tables.scan("pc-primitive").unwrap();
    assert_eq!(extract_ints(&scanned), vec![1, 2, 3]);
}

#[test]
fn write_and_scan_kv_roundtrip() {
    let mut tables = Tables::new();

    let records = vec![
        BeamRecord::KV(BeamKV {
            key: PrimitiveValue::String("a".into()),
            value: Box::new(int_primitive(10)),
        }),
        BeamRecord::KV(BeamKV {
            key: PrimitiveValue::String("b".into()),
            value: Box::new(int_primitive(20)),
        }),
    ];
    tables.write("pc-kv", records).unwrap();

    let map = extract_kv_map(&tables.scan("pc-kv").unwrap());
    let mut expected = HashMap::new();
    expected.insert("a".to_string(), 10);
    expected.insert("b".to_string(), 20);
    assert_eq!(map, expected);
}

#[test]
fn write_and_scan_gbk_roundtrip() {
    let mut tables = Tables::new();

    let records = vec![
        BeamRecord::GBK(BeamGbk {
            key: PrimitiveValue::String("k1".into()),
            value: IterableValue::new(vec![
                PrimitiveValue::Int64(1),
                PrimitiveValue::Int64(2),
                PrimitiveValue::Int64(3),
            ]),
        }),
        BeamRecord::GBK(BeamGbk {
            key: PrimitiveValue::String("k2".into()),
            value: IterableValue::new(vec![]),
        }),
    ];
    tables.write("pc-gbk", records).unwrap();

    let map = extract_gbk_map(&tables.scan("pc-gbk").unwrap());
    let mut expected: HashMap<String, Vec<i64>> = HashMap::new();
    expected.insert("k1".to_string(), vec![1, 2, 3]);
    expected.insert("k2".to_string(), vec![]);
    assert_eq!(map, expected);
}

#[test]
fn multiple_writes_to_same_pcollection_append_and_reuse_cached_schema() {
    let mut tables = Tables::new();

    tables.write("pc-append", vec![int_primitive(1), int_primitive(2)]).unwrap();
    tables.write("pc-append", vec![int_primitive(3), int_primitive(4)]).unwrap();

    let scanned = tables.scan("pc-append").unwrap();
    assert_eq!(extract_ints(&scanned), vec![1, 2, 3, 4]);
}

#[test]
fn schema_drift_on_second_write_errors_instead_of_silently_corrupting() {
    let mut tables = Tables::new();

    tables.write("pc-drift", vec![int_primitive(1)]).unwrap();

    // The layout is that of the first write, so strings must be refused.
    let result = tables.write(
        "pc-drift",
        vec![BeamRecord::PRIMITIVE(PrimitiveValue::String("oops".into()))],
    );

    assert!(result.is_err());
}

#[test]
fn scan_without_prior_write_errors() {
    let tables = Tables::new();

    let result = tables.scan("pc-never-written");

    match result {
        Err(ElementStoreError::NotFound(m)) => {
            assert_eq!(m, "table schema not found for pcollection");
        }
        other => panic!("expected not found, got {other:?}"),
    }
}

#[test]
fn different_pcollections_are_isolated() {
    let mut tables = Tables::new();

    tables.write("pc-a", vec![int_primitive(1), int_primitive(2)]).unwrap();
    tables
        .write(
            "pc-b",
            vec![int_primitive(100), int_primitive(200), int_primitive(300)],
        )
        .unwrap();

    assert_eq!(extract_ints(&tables.scan("pc-a").unwrap()), vec![1, 2]);
    assert_eq!(extract_ints(&tables.scan("pc-b").unwrap()), vec![100, 200, 300]);
}

#[test]
fn pcollection_id_with_unsafe_chars_round_trips_end_to_end() {
    let mut tables = Tables::new();
    let pcollection_id = "ns/pc name (v1).flow";

    tables.write(pcollection_id, vec![int_primitive(42)]).unwrap();

    assert_eq!(extract_ints(&tables.scan(pcollection_id).unwrap()), vec![42]);
}

#[test]
fn write_record_batch_prebuilt_roundtrip() {
    let mut tables = Tables::new();
    let pcollection_id = "pc-prebuilt";

    let records = vec![int_primitive(5), int_primitive(6)];
    let schema = Arc::new(derive_table_schema(pcollection_id, &records).unwrap());
    let batch = beamrecords_to_record_batch(&records, &schema).unwrap();

    let write = tables.store.write_record_batch(pcollection_id, batch, schema.clone());
    tables.append(write.table, write.batch);

    // The layout is kept, so that a later scan finds it.
    assert_eq!(extract_ints(&tables.scan(pcollection_id).unwrap()), vec![5, 6]);
}

#[test]
fn write_record_batch_does_not_overwrite_existing_cached_schema() {
    let mut tables = Tables::new();
    let pcollection_id = "pc-prebuilt-existing";

    tables.write(pcollection_id, vec![int_primitive(1)]).unwrap();
    let first = tables.store.registry.get(pcollection_id).unwrap();

    let more_records = vec![int_primitive(2), int_primitive(3)];
    let fresh_schema = Arc::new(derive_table_schema(pcollection_id, &more_records).unwrap());
    let batch = beamrecords_to_record_batch(&more_records, &fresh_schema).unwrap();
    let write = tables.store.write_record_batch(pcollection_id, batch, fresh_schema);
    tables.append(write.table, write.batch);

    let kept = tables.store.registry.get(pcollection_id).unwrap();
    assert!(Arc::ptr_eq(&first, &kept));
    assert_eq!(extract_ints(&tables.scan(pcollection_id).unwrap()), vec![1, 2, 3]);
}

#[test]
fn a_failed_first_write_leaves_no_layout() {
    let mut tables = Tables::new();
    match tables.write("pc", vec![]) {
        Err(ElementStoreError::Schema(m)) => {
            assert_eq!(m, "cannot derive schema for empty pcollection pc");
        }
        other => panic!("expected a schema error, got {other:?}"),
    }
    assert!(tables.store.registry.get("pc").is_none());
}
