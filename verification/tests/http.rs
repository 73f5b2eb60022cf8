use apidock::domain::{ApiParam, Auth, Body, EnvironmentFile, GlobalParams, InterfaceFile, KeyValue, ProxyConfig};
use apidock::http::{
    exchange_failure, finish_response, method_failure, plan_request, urlencoded_body, AuthPlan, BodyPlan,
    FormPart, ProxyPlan, RedirectPlan, SendOptions, BODY_CAP,
};

fn kv(key: &str, value: &str) -> KeyValue {
    KeyValue { key: key.into(), value: value.into(), enabled: true }
}

fn mock_env() -> EnvironmentFile {
    EnvironmentFile {
        version: 1,
        id: "env".into(),
        file: "env".into(),
        name: "e".into(),
        host: "http://nope.invalid".into(),
        builtin: false,
        variables: Vec::new(),
    }
}

fn param(key: &str, example: &str) -> ApiParam {
    ApiParam { key: key.into(), example: example.into(), enabled: true, ..Default::default() }
}

#[test]
fn unresolved_variable_rejected() {
    let mut iface = InterfaceFile::new("t");
    iface.url = "http://127.0.0.1:1/{{missing}}".into();
    let err = plan_request(&iface, &mock_env(), &[], &GlobalParams::default(), &SendOptions::default()).unwrap_err();
    assert_eq!(err.kind, "unresolved");
    assert!(err.message.contains("missing"));
    assert_eq!(err.message, "存在未解析的变量：missing");
}

#[test]
fn unresolved_names_listed_once_in_order() {
    let mut iface = InterfaceFile::new("t");
    iface.url = "http://h/{{b}}/{{a}}".into();
    iface.headers = vec![param("X", "{{a}}{{c}}")];
    let err = plan_request(&iface, &mock_env(), &[], &GlobalParams::default(), &SendOptions::default()).unwrap_err();
    assert_eq!(err.message, "存在未解析的变量：b, a, c");
}

#[test]
fn url_checks() {
    let mut iface = InterfaceFile::new("t");
    iface.url = "   ".into();
    let e = plan_request(&iface, &mock_env(), &[], &GlobalParams::default(), &SendOptions::default()).unwrap_err();
    assert_eq!((e.kind.as_str(), e.message.as_str()), ("url", "请求地址为空"));
    iface.url = "ftp://x".into();
    let e = plan_request(&iface, &mock_env(), &[], &GlobalParams::default(), &SendOptions::default()).unwrap_err();
    assert_eq!(e.kind, "url");
    assert_eq!(e.message, "URL 需以 http:// 或 https:// 开头（可使用 {{host}} 变量）");
}

#[test]
fn plan_substitutes_and_orders_everything() {
    let mut iface = InterfaceFile::new("t");
    iface.method = " post ".into();
    iface.url = "{{host}}/api/{{tok}}".into();
    iface.headers = vec![param("X-Token", "{{tok}}"), ApiParam { key: "Off".into(), enabled: false, ..Default::default() }];
    iface.query = vec![param("q", "{{tok}}")];
    iface.body = Body { mode: "json".into(), content: r#"{"u":"{{tok}}"}"#.into(), ..Default::default() };
    iface.variables = vec![kv("tok", "abc123")];
    iface.auth = Auth { kind: "bearer".into(), token: "{{tok}}".into(), ..Default::default() };
    let gp = GlobalParams { headers: vec![kv("G", "1")], cookies: vec![kv("sid", "s")], query: vec![kv("gq", "2")] };
    let p = plan_request(&iface, &mock_env(), &[], &gp, &SendOptions::default()).unwrap();
    assert_eq!(p.method, "post");
    assert_eq!(p.url, "http://nope.invalid/api/abc123");
    assert_eq!(p.timeout_ms, 30000);
    assert!(matches!(p.redirect, RedirectPlan::Limited(10)));
    assert!(matches!(p.proxy, ProxyPlan::Off));
    assert_eq!(
        p.headers,
        vec![
            ("G".to_string(), "1".to_string()),
            ("X-Token".to_string(), "abc123".to_string()),
            ("Cookie".to_string(), "sid=s".to_string()),
        ]
    );
    match &p.auth {
        AuthPlan::Header(n, v) => assert_eq!((n.as_str(), v.as_str()), ("Authorization", "Bearer abc123")),
        other => panic!("unexpected {other:?}"),
    }
    assert_eq!(p.query, vec![("gq".to_string(), "2".to_string()), ("q".to_string(), "abc123".to_string())]);
    match &p.body {
        BodyPlan::Text(ct, t) => {
            assert_eq!(ct, "application/json");
            assert_eq!(t, r#"{"u":"abc123"}"#);
        }
        other => panic!("unexpected {other:?}"),
    }
}

#[test]
fn plan_options_and_forms() {
    let mut iface = InterfaceFile::new("t");
    iface.url = "https://h".into();
    iface.timeout_ms = Some(5);
    iface.redirect_limit = Some(0);
    iface.tls_verify = Some(false);
    iface.ca_cert_path = Some("  /ca.pem ".into());
    iface.body = Body {
        mode: "form-data".into(),
        form: vec![param("a", "1"), param("f", "@ /tmp/x "), param("g", "@  ")],
        ..Default::default()
    };
    iface.auth = Auth { kind: "api-key".into(), api_key_name: "k".into(), api_key_value: "v".into(), api_key_in: "query".into(), ..Default::default() };
    let opts = SendOptions {
        proxy: ProxyConfig { enabled: true, kind: "custom".into(), url: " http://p:1 ".into() },
        ..Default::default()
    };
    let p = plan_request(&iface, &mock_env(), &[], &GlobalParams::default(), &opts).unwrap();
    assert_eq!(p.timeout_ms, 100);
    assert!(matches!(p.redirect, RedirectPlan::Off));
    assert!(p.accept_invalid_certs);
    assert_eq!(p.ca_cert, Some(("  /ca.pem ".to_string(), "/ca.pem".to_string())));
    assert!(matches!(&p.proxy, ProxyPlan::Custom(u) if u == "http://p:1"));
    assert!(matches!(&p.auth, AuthPlan::Query(n, v) if n == "k" && v == "v"));
    match &p.body {
        BodyPlan::Multipart(parts) => {
            assert_eq!(parts.len(), 2);
            assert!(matches!(&parts[0], FormPart::Text(k, v) if k == "a" && v == "1"));
            assert!(matches!(&parts[1], FormPart::File(k, path, mime) if k == "f" && path == "/tmp/x" && mime == "application/octet-stream"));
        }
        other => panic!("unexpected {other:?}"),
    }
}

#[test]
fn urlencoded_form_text() {
    let (ct, text) = urlencoded_body(&vec![("a b".to_string(), "1&2".to_string()), ("c".to_string(), "中".to_string())]).unwrap();
    assert_eq!(ct, "application/x-www-form-urlencoded");
    assert_eq!(text, "a+b=1%262&c=%E4%B8%AD");
}

#[test]
fn failures_are_classified() {
    assert_eq!(exchange_failure(true, true, false, "m".into()).kind, "timeout");
    assert_eq!(exchange_failure(false, true, true, "m".into()).kind, "connect");
    assert_eq!(exchange_failure(false, false, true, "m".into()).kind, "redirect");
    assert_eq!(exchange_failure(false, false, false, "m".into()).kind, "http");
    assert_eq!(method_failure("B@D").message, "不支持的方法：B@D");
}

#[test]
fn response_is_capped_and_decoded() {
    let r = finish_response(200, "200 OK".into(), vec![("a".into(), Some("1".into())), ("b".into(), None)], b"hi\xff".to_vec(), 7, "u".into());
    assert_eq!(r.body, "hi\u{fffd}");
    assert_eq!(r.headers[1].value, "<binary>");
    assert!(!r.truncated);
    let big = vec![b'x'; BODY_CAP + 5];
    let r = finish_response(200, "200 OK".into(), Vec::new(), big, 1, "u".into());
    assert!(r.truncated);
    assert_eq!(r.size_bytes, BODY_CAP + 5);
    assert_eq!(r.body.len(), BODY_CAP);
}

#[test]
fn send_basic_json_with_substitution() {
    let mut iface = InterfaceFile::new("t");
    iface.method = "POST".into();
    iface.url = "http://127.0.0.1:8080/api/{{tok}}".into();
    iface.headers = vec![param("X-Token", "{{tok}}")];
    iface.body = Body { mode: "json".into(), content: r#"{"u":"{{tok}}"}"#.into(), ..Default::default() };
    iface.variables = vec![kv("tok", "abc123")];
    let p = plan_request(&iface, &mock_env(), &[], &GlobalParams::default(), &SendOptions::default()).unwrap();
    // what goes out: POST /api/abc123 with the token header and body substituted
    assert_eq!(p.method, "POST");
    assert!(p.url.ends_with("/api/abc123"));
    assert!(p.headers.iter().any(|(k, v)| k.to_lowercase() == "x-token" && v == "abc123"));
    match &p.body {
        BodyPlan::Text(ct, t) => {
            assert_eq!(ct, "application/json");
            assert!(t.contains("\"u\":\"abc123\""));
        }
        other => panic!("unexpected {other:?}"),
    }
    // what comes back
    let res = finish_response(
        200,
        "200 OK".into(),
        vec![("content-type".into(), Some("application/json".into()))],
        br#"{"ok":true}"#.to_vec(),
        3,
        p.resolved_url.clone(),
    );
    assert_eq!(res.status, 200);
    assert!(res.body.contains("true"));
    assert!(res.headers.iter().any(|h| h.key == "content-type" && h.value.contains("application/json")));
}

#[test]
fn connection_refused_classified() {
    let mut iface = InterfaceFile::new("t");
    iface.url = "http://127.0.0.1:9/x".into();
    assert!(plan_request(&iface, &mock_env(), &[], &GlobalParams::default(), &SendOptions::default()).is_ok());
    // a refused connection is a connect error
    let err = exchange_failure(false, true, false, "connection refused".into());
    assert_eq!(err.kind, "connect");
}

#[test]
fn file_parts_carry_the_guessed_mime_type() {
    let mut iface = InterfaceFile::new("t");
    iface.url = "https://h".into();
    iface.body = Body {
        mode: "form-data".into(),
        form: vec![param("j", "@/data/a.json"), param("p", "@/data/b.png")],
        ..Default::default()
    };
    let p = plan_request(&iface, &mock_env(), &[], &GlobalParams::default(), &SendOptions::default()).unwrap();
    match &p.body {
        BodyPlan::Multipart(parts) => {
            assert!(matches!(&parts[0], FormPart::File(_, _, mime) if mime == "application/json"));
            assert!(matches!(&parts[1], FormPart::File(_, _, mime) if mime == "image/png"));
        }
        other => panic!("unexpected {other:?}"),
    }
}
