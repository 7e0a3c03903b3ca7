//! Typed-argument marshalling, identifiers, and service errors.

use wess::errors::WessError;
use wess::ids::{id_eq, mint_id, validate_id};
use wess::models::TypeTag;
use wess::wire::{
    deserialize_request, filter_present, serialize_wasm_return, RequestError, WasmVal, WireNumber,
    WireOut,
};

fn int_arg(i: i64) -> WireNumber {
    WireNumber { int_value: Some(i), float_text: Some(format!("{}", i)) }
}

fn float_arg(text: &str) -> WireNumber {
    WireNumber { int_value: None, float_text: Some(text.to_string()) }
}

#[test]
fn test_typecheck_rejects_float_for_i32() {
    let tags = vec![Some(TypeTag::I32), Some(TypeTag::I64)];
    let body = vec![Some(float_arg("3.14")), Some(int_arg(7))];
    let r = deserialize_request(&tags, &body);
    assert_eq!(r, Err(RequestError::InvalidType(TypeTag::I32)));
}

#[test]
fn test_typecheck_rejects_wrong_arity() {
    let tags = vec![Some(TypeTag::I32), Some(TypeTag::I64)];
    let body = vec![Some(int_arg(1)), Some(int_arg(2)), Some(int_arg(3))];
    let r = deserialize_request(&tags, &body);
    assert_eq!(r, Err(RequestError::LengthArgsError { expect: 2, found: 3 }));
}

#[test]
fn test_typecheck_accepts_matching_arguments() {
    let tags = vec![Some(TypeTag::I32), Some(TypeTag::I64)];
    let body = vec![Some(int_arg(1)), Some(int_arg(2))];
    let r = deserialize_request(&tags, &body).unwrap();
    assert_eq!(r, vec![WasmVal::I32(1), WasmVal::I64(2)]);
}

#[test]
fn test_null_positions_are_filtered() {
    let tags = vec![Some(TypeTag::I32), None, Some(TypeTag::I64)];
    let body = vec![Some(int_arg(1)), None, Some(int_arg(2))];
    let r = deserialize_request(&tags, &body).unwrap();
    assert_eq!(r, vec![WasmVal::I32(1), WasmVal::I64(2)]);
}

#[test]
fn test_i32_range_is_enforced() {
    let tags = vec![Some(TypeTag::I32)];
    let body = vec![Some(int_arg(0x1_0000_0000))];
    let r = deserialize_request(&tags, &body);
    assert_eq!(r, Err(RequestError::InvalidType(TypeTag::I32)));
}

#[test]
fn test_float_tags_take_any_number() {
    let tags = vec![Some(TypeTag::F32), Some(TypeTag::F64)];
    let body = vec![Some(int_arg(3)), Some(float_arg("2.5"))];
    let r = deserialize_request(&tags, &body).unwrap();
    assert_eq!(r, vec![WasmVal::F32("3".to_string()), WasmVal::F64("2.5".to_string())]);
}

#[test]
fn test_non_number_is_invalid_for_every_tag() {
    let absent = WireNumber { int_value: None, float_text: None };
    for (tag, want) in [
        (TypeTag::I32, TypeTag::I32),
        (TypeTag::I64, TypeTag::I64),
        (TypeTag::F32, TypeTag::F32),
        (TypeTag::F64, TypeTag::F64),
    ] {
        let r = deserialize_request(
            &vec![Some(tag)],
            &vec![Some(WireNumber { int_value: absent.int_value, float_text: None })],
        );
        assert_eq!(r, Err(RequestError::InvalidType(want)));
    }
}

#[test]
fn test_filter_present_keeps_order() {
    let v = vec![None, Some(TypeTag::I64), None, Some(TypeTag::F32)];
    assert_eq!(filter_present(&v), vec![TypeTag::I64, TypeTag::F32]);
}

#[test]
fn test_serialize_return_encodes_each_value() {
    let results = vec![
        Some(WasmVal::I32(-7)),
        Some(WasmVal::I64(5)),
        None,
        Some(WasmVal::F64("1.5".to_string())),
    ];
    let out = serialize_wasm_return(&results);
    assert_eq!(
        out,
        vec![WireOut::Int(-7), WireOut::Int(5), WireOut::Null, WireOut::Float("1.5".to_string())]
    );
}

#[test]
fn test_wess_error_clamps_unknown_status() {
    let e = WessError::new("boom".to_string(), 950);
    assert_eq!(e.status, 500);
    let ok = WessError::new("fine".to_string(), 404);
    assert_eq!(ok.status, 404);
    assert_eq!(ok.msg, "fine".to_string());
}

#[test]
fn test_minted_id_has_token_format() {
    let id = mint_id();
    assert_eq!(id.len(), 36);
    assert!(validate_id(&id));
    let other = mint_id();
    assert!(validate_id(&other));
}

#[test]
fn test_validate_id_rejects_malformed_tokens() {
    assert!(!validate_id(""));
    assert!(!validate_id("abc"));
    assert!(!validate_id("zzzzzzzz-zzzz-zzzz-zzzz-zzzzzzzzzzzz"));
    assert!(validate_id("01234567-89ab-cdef-0123-456789abcdef"));
    assert!(!validate_id("01234567089ab-cdef-0123-456789abcdef"));
}

#[test]
fn test_id_eq_is_character_wise() {
    assert!(id_eq("abc", "abc"));
    assert!(!id_eq("abc", "abd"));
    assert!(!id_eq("abc", "ab"));
    assert!(id_eq("", ""));
}
