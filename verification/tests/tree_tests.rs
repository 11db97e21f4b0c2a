use iron_mask_proxy::config::MaskingConfig;
use iron_mask_proxy::tree::{mask_pii, TreeValue};

fn obj(fields: Vec<(&str, TreeValue)>) -> TreeValue {
    TreeValue::Object(
        fields
            .into_iter()
            .map(|(k, v)| (k.to_string(), v))
            .collect(),
    )
}

fn text(s: &str) -> TreeValue {
    TreeValue::Text(s.to_string())
}

fn config_with(exclude: Vec<&str>, max_depth: u8) -> MaskingConfig {
    MaskingConfig {
        exclude_fields: exclude.iter().map(|s| s.to_string()).collect(),
        max_depth,
    }
}

fn expect_text(v: &TreeValue) -> &str {
    match v {
        TreeValue::Text(s) => s,
        _ => panic!("expected a string leaf"),
    }
}

fn field<'a>(v: &'a TreeValue, key: &str) -> &'a TreeValue {
    match v {
        TreeValue::Object(entries) => {
            for (k, val) in entries {
                if k == key {
                    return val;
                }
            }
            panic!("missing field");
        }
        _ => panic!("expected an object"),
    }
}

#[test]
fn test_nested_json_limit() {
    let mut root = obj(vec![("a", text("PII"))]);
    for _ in 0..100 {
        root = obj(vec![("inner", root)]);
    }
    let config = config_with(vec![], 20);
    let _ = mask_pii(root, 0, &config);
}

#[test]
fn test_string_leaves_run_through_pattern_masker() {
    let config = config_with(vec![], 20);
    let v = obj(vec![("log", text("Phone: 0812345678"))]);
    let masked = mask_pii(v, 0, &config);
    assert!(expect_text(field(&masked, "log")).contains("081XXXXX78"));
}

#[test]
fn test_name_and_user_keys_get_name_rule() {
    let config = config_with(vec![], 20);
    let v = obj(vec![
        ("username", text("somchai")),
        ("FullName", text("Jane Roe")),
        ("note", text("nothing")),
    ]);
    let masked = mask_pii(v, 0, &config);
    assert_eq!(expect_text(field(&masked, "username")), "so***");
    assert_eq!(expect_text(field(&masked, "FullName")), "Ja***");
    assert_eq!(expect_text(field(&masked, "note")), "nothing");
}

#[test]
fn test_excluded_fields_are_skipped() {
    let config = config_with(vec!["username"], 20);
    let v = obj(vec![
        ("username", text("somchai")),
        ("contact", text("0812345678")),
    ]);
    let masked = mask_pii(v, 0, &config);
    assert_eq!(expect_text(field(&masked, "username")), "somchai");
    assert_eq!(expect_text(field(&masked, "contact")), "081XXXXX78");
}

#[test]
fn test_depth_guard_stops_recursion() {
    let config = config_with(vec![], 2);
    let deep = obj(vec![(
        "a",
        obj(vec![("b", obj(vec![("c", text("0812345678"))]))]),
    )]);
    let masked = mask_pii(deep, 0, &config);
    let inner = field(&field(&field(&masked, "a"), "b"), "c");
    assert_eq!(expect_text(inner), "0812345678");
}

#[test]
fn test_arrays_recurse() {
    let config = config_with(vec![], 20);
    let v = TreeValue::Array(vec![text("id 1103700012346"), TreeValue::Number(7)]);
    let masked = mask_pii(v, 0, &config);
    match masked {
        TreeValue::Array(items) => {
            assert!(expect_text(&items[0]).contains("110XXXXXX2346"));
            assert!(matches!(items[1], TreeValue::Number(7)));
        }
        _ => panic!("expected an array"),
    }
}

#[test]
fn test_long_string_leaf_passes_through() {
    let config = config_with(vec![], 20);
    let long = format!("{}0812345678", "a".repeat(4995));
    let v = obj(vec![("blob", text(&long))]);
    let masked = mask_pii(v, 0, &config);
    assert_eq!(expect_text(field(&masked, "blob")), long.as_str());
}
