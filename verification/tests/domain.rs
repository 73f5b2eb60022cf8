use apidock::domain::{sanitize_key, sanitize_lowered, validate_name, ApiParam, BodyField, JsonBody, OpenTab, WorkspaceState};

#[test]
fn domain_sanitize_key_keeps_ascii_dashes() {
    assert_eq!(sanitize_key("Order Service"), "order-service");
    assert_eq!(sanitize_key("  API--Docs  "), "api-docs");
    assert_eq!(sanitize_key("中文团队"), "");
    assert_eq!(sanitize_key("Login_v2!"), "login-v2");
}

#[test]
fn validate_name_rejects_special_chars() {
    assert!(validate_name("订单服务").is_ok());
    assert!(validate_name("User API").is_ok());
    assert!(validate_name("").is_err());
    assert!(validate_name("   ").is_err());
    assert!(validate_name("a/b").is_err());
    assert!(validate_name("a\\b").is_err());
    assert!(validate_name("a:b").is_err());
    assert!(validate_name("a*b").is_err());
    assert!(validate_name("a?b").is_err());
    assert!(validate_name("a\"b").is_err());
    assert!(validate_name("a<b").is_err());
    assert!(validate_name("a>b").is_err());
    assert!(validate_name("a|b").is_err());
    assert_eq!(validate_name("a ").unwrap(), "a"); // trailing spaces are trimmed
    assert!(validate_name("..").is_err());
    assert_eq!(validate_name("  订单服务  ").unwrap(), "订单服务");
}

#[test]
fn validate_name_error_messages() {
    assert_eq!(validate_name(" ").unwrap_err(), "名称不能为空");
    assert_eq!(validate_name(&"x".repeat(121)).unwrap_err(), "名称过长（最多 120 个字符）");
    assert!(validate_name(&"字".repeat(120)).is_ok());
    assert_eq!(validate_name(".").unwrap_err(), "非法名称");
    assert_eq!(
        validate_name("a\tb").unwrap_err(),
        "名称包含特殊字符（不允许 \\ / : * ? \" < > | 及控制字符）"
    );
}

#[test]
fn api_param_send_semantics() {
    let p = ApiParam { key: "  page  ".into(), example: "2".into(), enabled: true, ..Default::default() };
    assert!(p.is_active());
    let disabled = ApiParam { key: "page".into(), enabled: false, ..Default::default() };
    assert!(!disabled.is_active());
    let empty_key = ApiParam { key: "  ".into(), enabled: true, ..Default::default() };
    assert!(!empty_key.is_active());
}

#[test]
fn sanitize_lowered_collapses_runs() {
    assert_eq!(sanitize_lowered("--a__b--"), "a-b");
    assert_eq!(sanitize_lowered("x"), "x");
    assert_eq!(sanitize_lowered("!!!"), "");
}

#[test]
fn tab_id_and_fresh_workspace() {
    let t = OpenTab { team_key: "ops".into(), project_key: "user-api".into() };
    assert_eq!(t.id(), "project:ops:user-api");
    let ws = WorkspaceState::new();
    assert_eq!(ws.version, 1);
    assert!(ws.open_tabs.is_empty());
    assert!(ws.active_tab.is_none());
    assert!(!ws.proxy.enabled);
}

#[test]
fn json_body_emptiness() {
    assert!(JsonBody::default().is_empty());
    assert!(JsonBody::new_root("").is_empty());
    assert!(!JsonBody::new_root("array").is_empty());
    let mut b = JsonBody::default();
    b.root.children.push(BodyField::new("id"));
    assert!(!b.is_empty());
    let f = BodyField::new("k");
    assert_eq!(f.field_type, "string");
    assert_eq!(f.key, "k");
}

#[test]
fn sanitized_keys_are_dash_separated_words() {
    for raw in ["--a--b--", " !!x!! ", "A_B_C", "--", "ÄÖ über 2", "a -- - b", ""] {
        let k = sanitize_key(raw);
        assert!(k.chars().all(|c| c.is_ascii_alphanumeric() || c == '-'), "{k}");
        assert!(!k.starts_with('-') && !k.ends_with('-'), "{k}");
        assert!(!k.contains("--"), "{k}");
    }
    assert_eq!(sanitize_key("--a--b--"), "a-b");
    assert_eq!(sanitize_key("a -- - b"), "a-b");
}

#[test]
fn validate_name_rejects_every_control_character() {
    for c in ['\u{0}', '\u{1f}', '\u{7f}', '\u{80}', '\u{9f}'] {
        let name = format!("a{c}b");
        assert_eq!(
            validate_name(&name).unwrap_err(),
            "名称包含特殊字符（不允许 \\ / : * ? \" < > | 及控制字符）"
        );
    }
    assert_eq!(validate_name("a\u{a0}b").unwrap(), "a\u{a0}b");
}

#[test]
fn sanitizing_a_key_again_keeps_it() {
    for raw in ["Order Service", "  API--Docs  ", "Login_v2!", "中文团队", "-a-", "ÄÖ über 2"] {
        let k = sanitize_key(raw);
        assert_eq!(sanitize_key(&k), k);
    }
}

#[test]
fn new_ids_are_version_four_uuids() {
    for _ in 0..20 {
        let id = apidock::domain::new_id();
        let c: Vec<char> = id.chars().collect();
        assert_eq!(c.len(), 36);
        assert_eq!(c[14], '4');
        assert!(matches!(c[19], '8' | '9' | 'a' | 'b'));
        assert!(c.iter().all(|x| *x == '-' || x.is_ascii_digit() || ('a'..='f').contains(x)));
    }
}

#[test]
fn keys_are_lower_case_and_stable() {
    for raw in ["ABC-Def", "  XYZ  ", "Hello World 2"] {
        let k = sanitize_key(raw);
        assert!(!k.chars().any(|c| c.is_ascii_uppercase()), "{k}");
        assert_eq!(sanitize_key(&k), k);
    }
    assert_eq!(sanitize_key("ABC-Def"), "abc-def");
}
