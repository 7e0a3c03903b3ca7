//! The service end to end: create, read, update, delete, and invoke against
//! the real Wasm engine.

use wess::config::{Config, DatabaseConfig, ReaderConfig, RunnerConfig, ServerConfig, WriterConfig};
use wess::metrics::RequestMetricsMiddleware;
use wess::models::{TypeTag, WasmMetadata, WasmModule};
use wess::wess::Wess;
use wess::wire::{RequestError, WireNumber, WireOut};
use wess::workers::reader::ReadResponse;
use wess::workers::runner::RunResponse;

fn config() -> Config {
    Config::new(
        ServerConfig { port: 3000, address: "127.0.0.1".to_string() },
        DatabaseConfig { db: "wessdb".to_string(), stage: "dev".to_string() },
        ReaderConfig { cache_size: 4, channel_size: 8 },
        WriterConfig { channel_size: 8 },
        RunnerConfig { cache_size: 4, channel_size: 8 },
    )
}

fn drain(w: &mut Wess) {
    while w.writer_tick().is_some() {}
    while w.reader_tick() {}
    while w.runner_tick() {}
}

fn int_arg(i: i64) -> Option<WireNumber> {
    Some(WireNumber { int_value: Some(i), float_text: Some(format!("{}", i)) })
}

fn float_arg(text: &str) -> Option<WireNumber> {
    Some(WireNumber { int_value: None, float_text: Some(text.to_string()) })
}

/// A module exporting `add: (i32, i32) -> i32` that adds its arguments.
fn sum_module() -> WasmModule {
    let bytes: Vec<u8> = vec![
        0x00, 0x61, 0x73, 0x6D, 0x01, 0x00, 0x00, 0x00, // magic, version
        0x01, 0x07, 0x01, 0x60, 0x02, 0x7F, 0x7F, 0x01, 0x7F, // type (i32,i32)->i32
        0x03, 0x02, 0x01, 0x00, // function section
        0x07, 0x07, 0x01, 0x03, 0x61, 0x64, 0x64, 0x00, 0x00, // export "add"
        0x0A, 0x09, 0x01, 0x07, 0x00, 0x20, 0x00, 0x20, 0x01, 0x6A, 0x0B, // code
    ];
    WasmModule::new(
        bytes,
        WasmMetadata::new(
            "add".to_string(),
            vec![Some(TypeTag::I32)],
            vec![Some(TypeTag::I32), Some(TypeTag::I32)],
        ),
    )
}

/// A module exporting `fib: (i32) -> i64`, iterative Fibonacci.
fn fib_module() -> WasmModule {
    let bytes: Vec<u8> = vec![
        0x00, 0x61, 0x73, 0x6D, 0x01, 0x00, 0x00, 0x00, // magic, version
        0x01, 0x06, 0x01, 0x60, 0x01, 0x7F, 0x01, 0x7E, // type (i32)->i64
        0x03, 0x02, 0x01, 0x00, // function section
        0x07, 0x07, 0x01, 0x03, 0x66, 0x69, 0x62, 0x00, 0x00, // export "fib"
        0x0A, 0x40, 0x01, 0x3E, // code section, one body of 62 bytes
        0x02, 0x03, 0x7E, 0x01, 0x7F, // locals: three i64, one i32
        0x20, 0x00, 0x41, 0x01, 0x4C, 0x04, 0x40, 0x20, 0x00, 0xAC, 0x0F,
        0x0B, // if n <= 1 return i64(n)
        0x42, 0x01, 0x21, 0x02, // b = 1
        0x03, 0x40, // loop
        0x20, 0x04, 0x20, 0x00, 0x41, 0x01, 0x6B, 0x48, // i < n - 1
        0x04, 0x40, // if
        0x20, 0x01, 0x21, 0x03, // tmp = a
        0x20, 0x02, 0x21, 0x01, // a = b
        0x20, 0x03, 0x20, 0x02, 0x7C, 0x21, 0x02, // b = tmp + b
        0x20, 0x04, 0x41, 0x01, 0x6A, 0x21, 0x04, // i = i + 1
        0x0C, 0x01, // continue the loop
        0x0B, // end if
        0x0B, // end loop
        0x20, 0x02, // result b
        0x0B, // end
    ];
    WasmModule::new(
        bytes,
        WasmMetadata::new("fib".to_string(), vec![Some(TypeTag::I64)], vec![Some(TypeTag::I32)]),
    )
}

/// A module exporting `cst: () -> i32` returning the given constant.
fn const_module(k: u8) -> WasmModule {
    let bytes: Vec<u8> = vec![
        0x00, 0x61, 0x73, 0x6D, 0x01, 0x00, 0x00, 0x00, // magic, version
        0x01, 0x05, 0x01, 0x60, 0x00, 0x01, 0x7F, // type () -> i32
        0x03, 0x02, 0x01, 0x00, // function section
        0x07, 0x07, 0x01, 0x03, 0x63, 0x73, 0x74, 0x00, 0x00, // export "cst"
        0x0A, 0x06, 0x01, 0x04, 0x00, 0x41, k, 0x0B, // body: i32.const k
    ];
    WasmModule::new(
        bytes,
        WasmMetadata::new("cst".to_string(), vec![Some(TypeTag::I32)], vec![]),
    )
}

#[test]
fn test_sum_invocation() {
    let mut w = Wess::new(&config());
    let id = w.create(sum_module()).unwrap();
    drain(&mut w);
    let r = w.invoke(&id, &vec![int_arg(2), int_arg(3)]);
    assert_eq!(r, RunResponse::Success(vec![WireOut::Int(5)]));
}

#[test]
fn test_fibonacci_invocation() {
    let mut w = Wess::new(&config());
    let id = w.create(fib_module()).unwrap();
    drain(&mut w);
    let r = w.invoke(&id, &vec![int_arg(10)]);
    assert_eq!(r, RunResponse::Success(vec![WireOut::Int(55)]));
}

#[test]
fn test_create_read_round_trip() {
    let mut w = Wess::new(&config());
    let record = sum_module();
    let id = w.create(sum_module()).unwrap();
    drain(&mut w);
    assert_eq!(w.read(Some(&id)), ReadResponse::Module(record));
}

#[test]
fn test_update_supersedes_read_and_invoke() {
    let mut w = Wess::new(&config());
    let id = w.create(const_module(7)).unwrap();
    drain(&mut w);
    assert_eq!(w.invoke(&id, &vec![]), RunResponse::Success(vec![WireOut::Int(7)]));

    let _ = w.update(&id, const_module(9)).unwrap();
    drain(&mut w);
    assert_eq!(w.read(Some(&id)), ReadResponse::Module(const_module(9)));
    assert_eq!(w.invoke(&id, &vec![]), RunResponse::Success(vec![WireOut::Int(9)]));
}

#[test]
fn test_delete_removes_read_and_invoke() {
    let mut w = Wess::new(&config());
    let id = w.create(sum_module()).unwrap();
    drain(&mut w);
    assert!(matches!(w.read(Some(&id)), ReadResponse::Module(_)));

    let _ = w.delete(&id).unwrap();
    drain(&mut w);
    match w.read(Some(&id)) {
        ReadResponse::Fail(e) => assert_eq!(e.status, 404),
        other => panic!("expected a 404 failure, got {:?}", other),
    }
    match w.invoke(&id, &vec![int_arg(2), int_arg(3)]) {
        RunResponse::Fail(RequestError::InvalidId(_)) => {},
        other => panic!("expected an unknown-identifier failure, got {:?}", other),
    }
}

#[test]
fn test_invoke_type_and_arity_errors() {
    let mut w = Wess::new(&config());
    let id = w.create(sum_module()).unwrap();
    drain(&mut w);

    let r = w.invoke(&id, &vec![float_arg("3.14"), int_arg(7)]);
    assert_eq!(r, RunResponse::Fail(RequestError::InvalidType(TypeTag::I32)));

    let r = w.invoke(&id, &vec![int_arg(1), int_arg(2), int_arg(3)]);
    assert_eq!(r, RunResponse::Fail(RequestError::LengthArgsError { expect: 2, found: 3 }));

    let r = w.invoke(&id, &vec![int_arg(1), int_arg(2)]);
    assert_eq!(r, RunResponse::Success(vec![WireOut::Int(3)]));
}

#[test]
fn test_back_to_back_invokes_compile_once() {
    let mut w = Wess::new(&config());
    let id = w.create(sum_module()).unwrap();
    drain(&mut w);
    let before = w.compile_count();
    assert!(matches!(w.invoke(&id, &vec![int_arg(1), int_arg(2)]), RunResponse::Success(_)));
    assert!(matches!(w.invoke(&id, &vec![int_arg(3), int_arg(4)]), RunResponse::Success(_)));
    assert_eq!(w.compile_count(), before + 1);
}

#[test]
fn test_interleaved_updates_and_invokes() {
    let mut w = Wess::new(&config());
    let id = w.create(const_module(7)).unwrap();
    drain(&mut w);

    for round in 0..3u8 {
        let k = if round % 2 == 0 { 9 } else { 7 };
        let _ = w.update(&id, const_module(k)).unwrap();
        match w.invoke(&id, &vec![]) {
            RunResponse::Success(vals) => {
                assert!(vals == vec![WireOut::Int(7)] || vals == vec![WireOut::Int(9)]);
            },
            other => panic!("unexpected invocation outcome {:?}", other),
        }
        let _ = w.writer_tick();
        let _ = w.reader_tick();
        let _ = w.runner_tick();
    }
    drain(&mut w);
    assert_eq!(w.read(Some(&id)), ReadResponse::Module(const_module(9)));
}

#[test]
fn test_size_query_counts_records() {
    let mut w = Wess::new(&config());
    assert_eq!(w.read(None), ReadResponse::Size(0));
    let _ = w.create(sum_module()).unwrap();
    let _ = w.create(const_module(7)).unwrap();
    drain(&mut w);
    assert_eq!(w.read(None), ReadResponse::Size(2));
}

#[test]
fn test_invalid_wasm_is_rejected_on_create() {
    let mut w = Wess::new(&config());
    let bad = WasmModule::new(vec![1, 2, 3], WasmMetadata::new("f".to_string(), vec![], vec![]));
    match w.create(bad) {
        Err(e) => assert_eq!(e.status, 400),
        Ok(id) => panic!("invalid bytecode was accepted as {}", id),
    }
    assert_eq!(w.read(None), ReadResponse::Size(0));
}

#[test]
fn test_update_unknown_identifier_is_404() {
    let mut w = Wess::new(&config());
    let ghost_id = "01234567-89ab-cdef-0123-456789abcdef".to_string();
    match w.update(&ghost_id, sum_module()) {
        Err(e) => assert_eq!(e.status, 404),
        Ok(id) => panic!("update of an unknown identifier was accepted as {}", id),
    }
    match w.delete(&ghost_id) {
        Err(e) => assert_eq!(e.status, 404),
        Ok(id) => panic!("delete of an unknown identifier was accepted as {}", id),
    }
}

#[test]
fn test_metrics_counters_follow_requests() {
    let mut m = RequestMetricsMiddleware::new();
    m.on_request();
    m.on_request();
    assert_eq!(m.http_requests_total, 2);
    assert_eq!(m.concurrent_connections, 2);
    m.on_response();
    assert_eq!(m.concurrent_connections, 1);
    m.on_error();
    assert_eq!(m.errors_total, 1);
    assert_eq!(m.http_requests_total, 2);
}

#[test]
fn test_stale_read_window_is_bounded() {
    let mut w = Wess::new(&config());
    let id = w.create(const_module(7)).unwrap();
    drain(&mut w);
    assert_eq!(w.read(Some(&id)), ReadResponse::Module(const_module(7)));

    let _ = w.update(&id, const_module(9)).unwrap();
    let _ = w.writer_tick();
    // The invalidation is still queued: the cached record may be the old one.
    match w.read(Some(&id)) {
        ReadResponse::Module(m) => assert!(m == const_module(7) || m == const_module(9)),
        other => panic!("expected a record, got {:?}", other),
    }
    // Once the invalidation is processed, the new record is served.
    while w.reader_tick() {}
    assert_eq!(w.read(Some(&id)), ReadResponse::Module(const_module(9)));
}
