use apidock::domain::{EnvironmentFile, InterfaceFile, KeyValue};
use apidock::variables::{collect_vars, enabled_pairs, substitute, unresolved, Vars};

fn kv(key: &str, value: &str) -> KeyValue {
    KeyValue { key: key.into(), value: value.into(), enabled: true }
}

#[test]
fn substitute_basic_and_nested() {
    let mut vars = Vars::new();
    vars.insert("host".to_string(), "https://api.example.com".to_string());
    vars.insert("token".to_string(), "{{host}}/t".to_string());
    assert_eq!(substitute("{{host}}/api/login", &vars), "https://api.example.com/api/login");
    // nested resolution
    assert_eq!(substitute("x={{token}}", &vars), "x=https://api.example.com/t");
    // unknown placeholders are kept
    assert_eq!(substitute("{{missing}}/{{host}}", &vars), "{{missing}}/https://api.example.com");
    assert_eq!(unresolved("a={{x}},b={{y}},a={{x}}"), vec!["x".to_string(), "y".to_string()]);
}

#[test]
fn precedence_iface_over_globals_over_env() {
    let iface = InterfaceFile { variables: vec![kv("k", "iface")], ..Default::default() };
    let env = EnvironmentFile {
        version: 1,
        id: "env".into(),
        file: "env".into(),
        name: "e".into(),
        host: "https://env-host".into(),
        builtin: false,
        variables: vec![kv("k", "env"), kv("only-env", "1")],
    };
    let globals = [kv("k", "global"), kv("only-global", "2")];
    let vars = collect_vars(&iface, &env, &globals);
    assert_eq!(vars.get("k").unwrap(), "iface");
    assert_eq!(vars.get("only-global").unwrap(), "2");
    assert_eq!(vars.get("only-env").unwrap(), "1");
    assert_eq!(vars.get("host").unwrap(), "https://env-host");
    // an interface-level host overrides the environment host
    let iface2 = InterfaceFile { variables: vec![kv("host", "https://oops")], ..Default::default() };
    let vars2 = collect_vars(&iface2, &env, &[]);
    assert_eq!(vars2.get("host").unwrap(), "https://oops");
}

#[test]
fn substitute_without_vars_is_identity() {
    let vars = Vars::new();
    assert_eq!(substitute("a {{b}} {{ c }}", &vars), "a {{b}} {{ c }}");
    assert_eq!(substitute("", &vars), "");
}

#[test]
fn substitute_trims_keys_and_handles_unclosed() {
    let mut vars = Vars::new();
    vars.insert("x".to_string(), "1".to_string());
    assert_eq!(substitute("{{ x }}-{{x", &vars), "1-{{x");
    assert_eq!(substitute("{{{x}}}", &vars), "{1}");
    assert_eq!(substitute("中{{x}}文", &vars), "中1文");
}

#[test]
fn substitute_stops_after_ten_rounds() {
    let mut vars = Vars::new();
    vars.insert("a".to_string(), "{{a}}x".to_string());
    let out = substitute("{{a}}", &vars);
    assert_eq!(out, format!("{{{{a}}}}{}", "x".repeat(10)));
}

#[test]
fn unresolved_trims_and_dedups() {
    assert_eq!(unresolved("{{ a }}{{a}}{{b"), vec!["a".to_string()]);
    assert!(unresolved("plain text").is_empty());
}

#[test]
fn later_insert_shadows_earlier() {
    let mut vars = Vars::new();
    vars.insert("k".to_string(), "1".to_string());
    vars.insert("k".to_string(), "2".to_string());
    assert_eq!(vars.get("k").unwrap(), "2");
    assert!(vars.contains_key("k"));
    assert!(!vars.contains_key("j"));
    assert_eq!(vars.get("j"), None);
}

#[test]
fn enabled_pairs_filters_and_substitutes() {
    let mut vars = Vars::new();
    vars.insert("v".to_string(), "42".to_string());
    let list = vec![
        kv("a", "{{v}}"),
        KeyValue { key: "b".into(), value: "x".into(), enabled: false },
        kv("  ", "blank"),
        kv("{{v}}k", "y"),
    ];
    let pairs = enabled_pairs(&list, &vars);
    assert_eq!(
        pairs,
        vec![("a".to_string(), "42".to_string()), ("42k".to_string(), "y".to_string())]
    );
}

#[test]
fn blank_host_is_not_bound_and_keys_are_trimmed() {
    let env = EnvironmentFile {
        host: "   ".into(),
        variables: vec![kv("  spaced  ", "v"), KeyValue { key: "off".into(), value: "x".into(), enabled: false }],
        ..Default::default()
    };
    let vars = collect_vars(&InterfaceFile::default(), &env, &[]);
    assert!(!vars.contains_key("host"));
    assert_eq!(vars.get("spaced").unwrap(), "v");
    assert!(!vars.contains_key("off"));
}
