//! The record store and the byte store underneath it.

use wess::database::rocksdb;
use wess::database::RocksDB;
use wess::models::{TypeTag, WasmMetadata, WasmModule};

fn sample_module() -> WasmModule {
    WasmModule::new(
        vec![0, 97, 115, 109],
        WasmMetadata::new(
            "main".to_string(),
            vec![Some(TypeTag::I32), None],
            vec![Some(TypeTag::I64), Some(TypeTag::F64)],
        ),
    )
}

#[test]
fn test_add_and_get() {
    let mut db = RocksDB::dev();
    let wasm = WasmModule::default();
    let key = "example_key";

    let _ = db.add(key, wasm.clone()).unwrap();
    let wasm_module = db.get(key).unwrap();

    assert_eq!(wasm_module, wasm);
}

#[test]
fn test_upd_and_del() {
    let mut db = RocksDB::dev();
    let wasm = WasmModule::default();
    let wasm_updated = WasmModule::default();
    let key = "example_key";

    let _ = db.add(key, wasm).unwrap();
    let _ = db.upd(key, wasm_updated.clone()).unwrap();
    let wasm_module = db.get(key).unwrap();

    assert_eq!(wasm_module, wasm_updated);

    let _ = db.del(key).unwrap();
    let wasm_module = db.get(key);

    assert_eq!(wasm_module, None);
}

fn mocked_value(id: u32) -> serde_json::Value {
    let text = format!(
        "{{\"wasm\":[1,2,3],\"metadata\":{{\"owner\":[4,5,6],\"signature\":[7,8,9],\"id\":{},\"fn_main\":\"main\",\"args\":[{{\"value\":{{}},\"name\":\"arg1\",\"type\":\"type1\"}},{{\"value\":{{}},\"name\":\"arg2\",\"type\":\"type2\"}}]}}}}",
        id
    );
    serde_json::from_str(&text).unwrap()
}

#[test]
fn test_put_and_get_data() {
    let data = mocked_value(123);
    let mut db = rocksdb::RocksDB::new();

    let key = "mykey";
    let value = serde_json::to_vec(&data).unwrap();

    db.put(key, value).unwrap();
    let result: serde_json::Value = {
        let result = db.get(key).unwrap();
        serde_json::from_slice(&result).unwrap()
    };

    assert_eq!(data, result);
}

#[test]
fn test_update_data() {
    let data = mocked_value(123);
    let mut db = rocksdb::RocksDB::new();

    let key = "update_key";
    let value = serde_json::to_vec(&data).unwrap();
    db.put(key, value).unwrap();

    let updated_data = mocked_value(456);
    let updated_value = serde_json::to_vec(&updated_data).unwrap();
    db.put(key, updated_value).unwrap();

    let result: serde_json::Value = {
        let result = db.get(key).unwrap();
        serde_json::from_slice(&result).unwrap()
    };
    assert_eq!(updated_data, result);
}

#[test]
fn test_delete_data() {
    let data = mocked_value(123);
    let mut db = rocksdb::RocksDB::new();

    let key = "delete_key";
    let value = serde_json::to_vec(&data).unwrap();

    db.put(key, value).unwrap();
    db.del(key).unwrap();

    let result = db.get(key);
    assert!(result.is_none());
}

#[test]
fn test_record_store_replaces_wholesale() {
    let mut db = RocksDB::new();
    let first = sample_module();
    let second = WasmModule::new(vec![9, 9], WasmMetadata::new("other".to_string(), vec![], vec![]));

    let _ = db.add("k", first).unwrap();
    let _ = db.upd("k", second.clone()).unwrap();
    assert_eq!(db.get("k").unwrap(), second);
    assert_eq!(db.count(), 1);
}

#[test]
fn test_all_lists_each_record() {
    let mut db = RocksDB::new();
    let _ = db.add("a", WasmModule::default()).unwrap();
    let _ = db.add("b", sample_module()).unwrap();
    let all = db.all();
    assert_eq!(all.len(), 2);
    assert!(all.iter().all(|m| m.is_some()));
}

#[test]
fn test_codec_round_trip_keeps_unicode_names() {
    let mut db = RocksDB::new();
    let record = WasmModule::new(
        vec![1, 2, 3, 255, 0],
        WasmMetadata::new(
            "s\u{00fc}m\u{2764}".to_string(),
            vec![None, Some(TypeTag::F32)],
            vec![Some(TypeTag::I32), None, Some(TypeTag::I64)],
        ),
    );
    let _ = db.add("u", record.clone()).unwrap();
    assert_eq!(db.get("u").unwrap(), record);
}

#[test]
fn test_codec_round_trip_empty_record() {
    let mut db = RocksDB::new();
    let _ = db.add("e", WasmModule::default()).unwrap();
    assert_eq!(db.get("e").unwrap(), WasmModule::default());
}
