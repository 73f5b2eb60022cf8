use apidock::storage::{sanitize_key, strip_jsonc, OpenTab, WorkspaceState};

#[test]
fn storage_sanitize_key_keeps_ascii_dashes() {
    assert_eq!(sanitize_key("Order Service"), "order-service");
    assert_eq!(sanitize_key("  API--Docs  "), "api-docs");
    assert_eq!(sanitize_key("中文团队"), "");
    assert_eq!(sanitize_key("Login_v2!"), "login-v2");
}

#[test]
fn storage_strip_jsonc_handles_comments_and_trailing_comma() {
    let src = r#"{
  // 行注释
  "name": "测试 /* 字符串内不减 */",
  "list": [1, 2, 3,],  /* 块注释 */
}"#;
    let text = strip_jsonc(src);
    let v: serde_json::Value = serde_json::from_str(&text).unwrap();
    assert_eq!(v["name"], "测试 /* 字符串内不减 */");
    assert_eq!(v["list"][2], 3);
}

#[test]
fn storage_tab_id_and_workspace() {
    let t = OpenTab { team_key: "ops".into(), project_key: "p".into() };
    assert_eq!(t.id(), "project:ops:p");
    let ws = WorkspaceState::new();
    assert_eq!(ws.version, 1);
    assert!(ws.open_tabs.is_empty());
}
