use llm_wiki::params::{check_param_lengths, ParamValue, MAX_PARAM_LEN};
use serde_json::Value;

/// Each argument as the library reads it: a string as it is, a nested object
/// or array as its compact JSON text, any other value as `Other`.
fn params(args: &serde_json::Map<String, Value>) -> Vec<(String, ParamValue)> {
    args.iter()
        .map(|(k, v)| {
            let p = match v {
                Value::String(s) => ParamValue::Text(s.clone()),
                Value::Object(_) | Value::Array(_) => {
                    ParamValue::Nested(serde_json::to_string(v).unwrap_or_default())
                }
                _ => ParamValue::Other,
            };
            (k.clone(), p)
        })
        .collect()
}

fn make_args(key: &str, val: Value) -> serde_json::Map<String, Value> {
    let mut m = serde_json::Map::new();
    m.insert(key.to_string(), val);
    m
}

#[test]
fn test_check_param_lengths_rejects_oversized() {
    let long = "x".repeat(MAX_PARAM_LEN + 1);
    let args = make_args("query", Value::String(long));
    let result = check_param_lengths(&params(&args), MAX_PARAM_LEN);
    assert!(result.is_err(), "expected Err for oversized param");
    assert!(result.unwrap_err().contains("exceeds maximum length"));
}

#[test]
fn test_check_param_lengths_accepts_within_limit() {
    let val = "x".repeat(MAX_PARAM_LEN);
    let args = make_args("query", Value::String(val));
    assert!(check_param_lengths(&params(&args), MAX_PARAM_LEN).is_ok());
}

#[test]
fn test_check_param_lengths_accepts_empty() {
    let args = serde_json::Map::new();
    assert!(check_param_lengths(&params(&args), MAX_PARAM_LEN).is_ok());
}

#[test]
fn test_check_param_lengths_rejects_oversized_nested_object() {
    let long = "x".repeat(MAX_PARAM_LEN + 1);
    let mut inner = serde_json::Map::new();
    inner.insert("body".to_string(), Value::String(long));
    let args = make_args("meta", Value::Object(inner));
    let result = check_param_lengths(&params(&args), MAX_PARAM_LEN);
    assert!(result.is_err(), "expected Err for oversized nested object param");
}

#[test]
fn test_check_param_lengths_accepts_small_nested_object() {
    let mut inner = serde_json::Map::new();
    inner.insert("type".to_string(), Value::String("concept".to_string()));
    let args = make_args("meta", Value::Object(inner));
    assert!(check_param_lengths(&params(&args), MAX_PARAM_LEN).is_ok());
}

#[test]
fn test_check_param_lengths_skips_number_and_bool() {
    let mut args = serde_json::Map::new();
    args.insert("depth".to_string(), Value::from(5));
    args.insert("enabled".to_string(), Value::Bool(true));
    assert!(check_param_lengths(&params(&args), MAX_PARAM_LEN).is_ok());
}

#[test]
fn oversized_parameter_is_named_in_the_error() {
    let r = check_param_lengths(
        &vec![
            ("a".to_string(), ParamValue::Text("abc".to_string())),
            ("b".to_string(), ParamValue::Nested("[\"abcdefgh\"]".to_string())),
            ("c".to_string(), ParamValue::Text("é".repeat(50))),
        ],
        10,
    );
    assert_eq!(r.unwrap_err(), "parameter 'b' exceeds maximum length of 10 bytes");
}

#[test]
fn parameter_size_counts_utf8_bytes() {
    let r = check_param_lengths(&vec![("q".to_string(), ParamValue::Text("éé".to_string()))], 3);
    assert!(r.is_err());
    assert!(check_param_lengths(&vec![("q".to_string(), ParamValue::Text("éé".to_string()))], 4).is_ok());
    assert!(check_param_lengths(&vec![("n".to_string(), ParamValue::Other)], 0).is_ok());
}
