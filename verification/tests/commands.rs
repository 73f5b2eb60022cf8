use apidock::commands::{detect_spec_kind, dir_keys, new_project_key, unique_copy_key, AppSession};
use apidock::domain::TreeNode;

fn tree() -> Vec<TreeNode> {
    vec![
        TreeNode::Group {
            key: "auth".into(),
            name: "鉴权".into(),
            children: vec![TreeNode::Interface { key: "login".into(), name: "登录".into(), method: "POST".into() }],
        },
        TreeNode::Interface { key: "health".into(), name: "健康".into(), method: "GET".into() },
    ]
}

#[test]
fn dir_keys_lists_one_level() {
    assert_eq!(dir_keys(&tree(), &vec![]), vec!["auth".to_string(), "health".to_string()]);
    assert_eq!(dir_keys(&tree(), &vec!["auth".to_string()]), vec!["login".to_string()]);
    assert!(dir_keys(&tree(), &vec!["nope".to_string()]).is_empty());
}

#[test]
fn copy_keys_count_up() {
    let keys = vec!["a".to_string(), "a-copy".to_string(), "a-copy-2".to_string()];
    assert_eq!(unique_copy_key("a", &keys), "a-copy-3");
    assert_eq!(unique_copy_key("a-copy", &keys), "a-copy-3");
    assert_eq!(unique_copy_key("a-copy-2", &keys), "a-copy-3");
    assert_eq!(unique_copy_key("b", &keys), "b-copy");
    assert_eq!(unique_copy_key("x-copy-v2", &Vec::<String>::new()), "x-copy-v2-copy");
    assert_eq!(unique_copy_key("x-copy-", &Vec::<String>::new()), "x-copy");
}

#[test]
fn spec_kinds() {
    assert_eq!(detect_spec_kind(r#"  {"openapi": "3", "paths": {}}"#), ("openapi", false));
    assert_eq!(detect_spec_kind(r#"{"info": {}, "item": []}"#), ("postman", false));
    assert_eq!(detect_spec_kind("{}"), ("openapi", false));
    assert_eq!(detect_spec_kind("openapi: 3.0.0"), ("openapi", true));
}

#[test]
fn project_keys_for_imports() {
    assert_eq!(new_project_key(" 用户服务 "), "用户服务");
    assert_eq!(new_project_key("a:b"), "a-b");
    let k = new_project_key("///");
    assert!(k.starts_with("imported-"));
    assert_eq!(k.len(), 9 + 36);
}

#[test]
fn session_without_data_is_empty() {
    let s = AppSession::without_data();
    assert!(s.teams.is_empty());
    assert!(s.workspace.open_tabs.is_empty());
}

#[test]
fn quick_request_copies_get_a_new_id_and_name() {
    let mut doc = apidock::domain::InterfaceFile::new("x");
    doc.url = "https://h/a".into();
    let old_id = doc.id.clone();
    let (name, copy) = apidock::commands::quick_request_copy("登录", doc);
    assert_eq!(name, "登录-copy");
    assert_eq!(copy.name, "登录-copy");
    assert_eq!(copy.url, "https://h/a");
    assert_eq!(copy.id.len(), 36);
    assert_ne!(copy.id, old_id);
}
