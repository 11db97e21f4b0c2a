use iron_mask_proxy::validator::{is_luhn_valid, is_thai_id};

#[test]
fn test_valid_thai_id() {
    assert!(is_thai_id("1103700012346"));
}

#[test]
fn test_invalid_thai_id() {
    assert!(!is_thai_id("1103700012345"));
}

#[test]
fn test_thai_id_shape_rejected() {
    assert!(!is_thai_id("110370001234"));
    assert!(!is_thai_id("11037000123456"));
    assert!(!is_thai_id("110370001234a"));
    assert!(!is_thai_id(""));
}

#[test]
fn test_luhn_valid_card() {
    assert!(is_luhn_valid("4111111111111111"));
    assert!(is_luhn_valid("4111 1111 1111 1111"));
}

#[test]
fn test_luhn_invalid_card() {
    assert!(!is_luhn_valid("4111111111111112"));
}

#[test]
fn test_luhn_length_window() {
    assert!(!is_luhn_valid("0"));
    assert!(!is_luhn_valid("123"));
    assert!(!is_luhn_valid("00000000000000000000"));
}
