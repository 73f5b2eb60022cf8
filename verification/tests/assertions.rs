use apidock::assertions::{check, compared_texts, AssertionResult, NumOrder};
use apidock::domain::{Assertion, KeyValue};
use apidock::json::{parse_json, JsonValue};
use apidock::jsonpath::json_path;

fn kv(key: &str, value: &str) -> KeyValue {
    KeyValue { key: key.into(), value: value.into(), enabled: true }
}

fn doc(text: &str) -> JsonValue {
    parse_json(text).expect("valid JSON")
}

/// Numeric order of two texts as 64-bit floats (NaN when a text does not parse).
fn num_order(a: &str, b: &str) -> NumOrder {
    let x = a.trim().parse::<f64>().unwrap_or(f64::NAN);
    let y = b.trim().parse::<f64>().unwrap_or(f64::NAN);
    match x.partial_cmp(&y) {
        Some(std::cmp::Ordering::Less) => NumOrder::Less,
        Some(std::cmp::Ordering::Equal) => NumOrder::Equal,
        Some(std::cmp::Ordering::Greater) => NumOrder::Greater,
        None => NumOrder::Unordered,
    }
}

fn run_check(status: u16, time_ms: u64, headers: &[KeyValue], body: &str, assertions: &[Assertion]) -> Vec<AssertionResult> {
    let parsed = parse_json(body);
    let texts = compared_texts(status, time_ms, headers, &parsed, assertions);
    let orders: Vec<NumOrder> = texts.iter().map(|(a, e)| num_order(a, e)).collect();
    check(status, time_ms, headers, body, assertions, &orders)
}

#[test]
fn jsonpath_subset() {
    let root = doc(r#"{
        "data": { "list": [ {"id": 1, "name": "a"}, {"id": 2, "name": "b"} ] },
        "tags": ["x", "y"],
        "nested": { "a": { "b": "leaf" } }
    }"#);
    assert_eq!(json_path(&root, "$.data.list[0].id").first.as_deref(), Some("1"));
    assert_eq!(json_path(&root, "$.data.list[*].name").values, vec!["a", "b"]);
    assert_eq!(json_path(&root, "$.tags[1]").first.as_deref(), Some("y"));
    assert_eq!(json_path(&root, "$.nested['a']['b']").first.as_deref(), Some("leaf"));
    assert_eq!(json_path(&root, "$.data.list[0].id").values, vec!["1"]);
    assert_eq!(json_path(&root, "$.data.list[0].id").found, true);
    assert_eq!(json_path(&root, "$.nonexist").found, false);
}

#[test]
fn assertions_evaluate() {
    let body = r#"{"code":0,"msg":"success","items":[{"id":1}]}"#;
    let headers = vec![kv("content-type", "application/json")];
    let res = run_check(
        200,
        150,
        &headers,
        body,
        &[
            Assertion::StatusCode { op: "eq".into(), expected: 200 },
            Assertion::StatusCode { op: "ne".into(), expected: 500 },
            Assertion::Time { op: "lt".into(), expected_ms: 1000 },
            Assertion::Header { key: "Content-Type".into(), op: "contains".into(), expected: "json".into() },
            Assertion::JsonPath { path: "$.code".into(), op: "eq".into(), expected: "0".into() },
            Assertion::JsonPath { path: "$.items[0].id".into(), op: "eq".into(), expected: "1".into() },
            Assertion::JsonPath { path: "$.nope".into(), op: "eq".into(), expected: "1".into() },
        ],
    );
    assert_eq!(res.len(), 7);
    assert!(res.iter().take(6).all(|r| r.passed));
    assert!(!res[6].passed);
    assert!(res[5].message.contains("1"));
}

#[test]
fn status_message_marks_outcome() {
    let res = run_check(404, 10, &[], "", &[Assertion::StatusCode { op: "eq".into(), expected: 200 }]);
    assert!(!res[0].passed);
    assert_eq!(res[0].message, "状态码 404 等于 200（实际 ✗）");
    let ok = run_check(200, 10, &[], "", &[Assertion::StatusCode { op: "eq".into(), expected: 200 }]);
    assert_eq!(ok[0].message, "状态码 200 等于 200（实际 ✓）");
}

#[test]
fn jsonpath_on_non_json_body_fails() {
    let res = run_check(200, 1, &[], "not json", &[Assertion::JsonPath { path: "$.a".into(), op: "eq".into(), expected: "1".into() }]);
    assert!(!res[0].passed);
    assert_eq!(res[0].message, "响应体不是合法 JSON，无法评估 JSONPath {$.a}");
}

#[test]
fn missing_path_passes_only_for_not_equal() {
    let body = r#"{"a":1}"#;
    let res = run_check(200, 1, &[], body, &[
        Assertion::JsonPath { path: "$.zz".into(), op: "ne".into(), expected: "1".into() },
        Assertion::JsonPath { path: "$.zz".into(), op: "eq".into(), expected: "__NOT_FOUND__".into() },
    ]);
    assert!(res[0].passed);
    assert!(!res[1].passed);
    assert!(res[1].message.contains("路径不存在"));
}

#[test]
fn time_assertion_compares_numbers() {
    let assertions = [Assertion::Time { op: "gte".into(), expected_ms: 100 }];
    let orders = [num_order("150", "100")];
    let res = check(200, 150, &[], "{}", &assertions, &orders);
    assert!(res[0].passed);
}

#[test]
fn wildcard_selects_every_element() {
    let root = doc(r#"{"xs":[1,2,3]}"#);
    let r = json_path(&root, "$.xs[*]");
    assert_eq!(r.values, vec!["1", "2", "3"]);
    assert_eq!(r.first.as_deref(), Some("1"));
}

#[test]
fn wildcard_before_a_wide_character_still_evaluates() {
    let root = doc(r#"{"a": 1}"#);
    let r = json_path(&root, "[*é");
    assert_eq!(r.values, vec!["1"]);
    assert!(r.found);
    assert_eq!(r.first.as_deref(), Some("1"));
    let r = json_path(&root, "[*é.b");
    assert!(!r.found);
    assert!(r.values.is_empty());
}
