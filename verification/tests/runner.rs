use apidock::assertions::{check, compared_texts, AssertionResult, NumOrder};
use apidock::domain::{Assertion, InterfaceFile, KeyValue};
use apidock::json::parse_json;
use apidock::http::SendErrorInfo;
use apidock::runner::{in_group, RunReport};

#[test]
fn report_counts_every_outcome() {
    let mut r = RunReport::new();
    let iface = InterfaceFile::new("ok");
    r.record_response(vec![], "ok".into(), &iface, 200, 5, vec![AssertionResult { passed: true, message: String::new() }]);
    r.record_response(vec![], "bad".into(), &iface, 404, 5, vec![AssertionResult { passed: false, message: String::new() }]);
    r.record_missing(vec!["g".into()], "gone".into());
    r.record_failure(vec![], "x".into(), &iface, &SendErrorInfo { kind: "connect".into(), message: "refused".into() });
    assert_eq!(r.total(), 4);
    assert_eq!(r.passed(), 1);
    assert_eq!(r.failed(), 3);
    assert_eq!(r.items()[2].error.as_deref(), Some("接口 gone 不存在"));
    assert_eq!(r.items()[3].error.as_deref(), Some("请求失败（connect）：refused"));
    assert!(r.items()[0].ok && !r.items()[1].ok);
}

#[test]
fn group_filter_is_a_prefix() {
    let path = vec!["a".to_string(), "b".to_string()];
    assert!(in_group(&path, None));
    assert!(in_group(&path, Some(&vec!["a".to_string()])));
    assert!(!in_group(&path, Some(&vec!["__none__".to_string()])));
    assert!(!in_group(&path, Some(&vec!["a".to_string(), "b".to_string(), "c".to_string()])));
}

/// Numeric order of two texts as 64-bit floats (NaN when a text does not parse).
fn num_order(a: &str, b: &str) -> NumOrder {
    let x = a.trim().parse::<f64>().unwrap_or(f64::NAN);
    let y = b.trim().parse::<f64>().unwrap_or(f64::NAN);
    match x.partial_cmp(&y) {
        Some(std::cmp::Ordering::Less) => NumOrder::Less,
        Some(std::cmp::Ordering::Equal) => NumOrder::Equal,
        Some(std::cmp::Ordering::Greater) => NumOrder::Greater,
        None => NumOrder::Unordered,
    }
}

fn results_of(iface: &InterfaceFile, status: u16, body: &str) -> Vec<AssertionResult> {
    let headers = vec![KeyValue { key: "content-type".into(), value: "application/json".into(), enabled: true }];
    let parsed = parse_json(body);
    let texts = compared_texts(status, 3, &headers, &parsed, &iface.assertions);
    let orders: Vec<NumOrder> = texts.iter().map(|(a, e)| num_order(a, e)).collect();
    check(status, 3, &headers, body, &iface.assertions, &orders)
}

#[test]
fn run_project_end_to_end() {
    // two interfaces: one passes, one fails (404 where 200 is expected)
    let mut ok_iface = InterfaceFile::new("ok");
    ok_iface.url = "http://127.0.0.1:8080/ok".into();
    ok_iface.assertions = vec![Assertion::StatusCode { op: "eq".into(), expected: 200 }];
    let mut bad_iface = InterfaceFile::new("bad");
    bad_iface.url = "http://127.0.0.1:8080/bad".into();
    bad_iface.assertions = vec![
        Assertion::StatusCode { op: "eq".into(), expected: 200 },
        Assertion::JsonPath { path: "$.code".into(), op: "eq".into(), expected: "0".into() },
    ];
    let mut report = RunReport::new();
    for (key, iface, status, body) in [("ok", &ok_iface, 200, r#"{"code":0}"#), ("bad", &bad_iface, 404, r#"{"code":404}"#)] {
        assert!(in_group(&vec![], None));
        let results = results_of(iface, status, body);
        report.record_response(vec![], key.into(), iface, status, 3, results);
    }
    assert_eq!(report.total(), 2);
    assert_eq!(report.passed(), 1);
    assert_eq!(report.failed(), 1);
    let bad = report.items().iter().find(|i| i.key == "bad").unwrap();
    assert!(!bad.ok);
    assert!(!bad.assertion_results.iter().all(|r| r.passed));

    // a group filter that matches nothing runs nothing
    let none = vec!["__none__".to_string()];
    let report2 = RunReport::new();
    assert!(!in_group(&vec![], Some(&none)));
    assert_eq!(report2.total(), 0);
}
