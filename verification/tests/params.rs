use nautilus_history::messages::{ParamValue, Params};

#[test]
fn test_params_insert_appends_new_keys_in_order() {
    let mut p = Params::new();
    assert!(p.entries.is_empty());
    p.insert("limit".to_string(), ParamValue::Unsigned(u64::MAX));
    p.insert("flag".to_string(), ParamValue::Bool(true));
    p.insert("offset".to_string(), ParamValue::Negative(-3));
    let keys: Vec<&str> = p.entries.iter().map(|e| e.key.as_str()).collect();
    assert_eq!(keys, vec!["limit", "flag", "offset"]);
    assert_eq!(p.get("limit").and_then(|v| v.as_u64()), Some(u64::MAX));
    assert!(matches!(p.get("flag"), Some(ParamValue::Bool(true))));
    assert!(matches!(p.get("offset"), Some(ParamValue::Negative(-3))));
    assert!(p.get("missing").is_none());
}

#[test]
fn test_params_insert_replaces_in_place() {
    let mut p = Params::new();
    p.insert("a".to_string(), ParamValue::Unsigned(1));
    p.insert("b".to_string(), ParamValue::Unsigned(2));
    p.insert("a".to_string(), ParamValue::Text("one".to_string()));
    assert_eq!(p.entries.len(), 2);
    assert_eq!(p.entries[0].key, "a");
    assert!(matches!(p.get("a"), Some(ParamValue::Text(t)) if t == "one"));
    assert_eq!(p.get("b").and_then(|v| v.as_u64()), Some(2));
}

#[test]
fn test_param_value_as_u64_only_for_unsigned() {
    assert_eq!(ParamValue::Unsigned(7).as_u64(), Some(7));
    assert_eq!(ParamValue::Negative(-7).as_u64(), None);
    assert_eq!(ParamValue::Null.as_u64(), None);
    assert_eq!(ParamValue::Bool(true).as_u64(), None);
    assert_eq!(ParamValue::Text("7".to_string()).as_u64(), None);
    assert_eq!(ParamValue::Other("[7]".to_string()).as_u64(), None);
}

#[test]
fn test_params_clone_is_independent() {
    let mut p = Params::new();
    p.insert("k".to_string(), ParamValue::Unsigned(1));
    let c = p.clone();
    p.insert("k".to_string(), ParamValue::Unsigned(2));
    assert_eq!(c.get("k").and_then(|v| v.as_u64()), Some(1));
    assert_eq!(p.get("k").and_then(|v| v.as_u64()), Some(2));
}
