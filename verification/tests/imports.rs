use apidock::domain::{ApiParam, Auth, Body, TreeNode};
use apidock::imports::{
    flatten_ifaces, import_name, import_report, parse_postman, plan_import, schema_type_of, split_url,
    ImportedIface,
};
use apidock::json::parse_json;
use apidock::imports::postman_from_document;

fn iface(group: &[&str], name: &str) -> ImportedIface {
    ImportedIface {
        group_path: group.iter().map(|s| s.to_string()).collect(),
        key: name.into(),
        name: name.into(),
        method: "GET".into(),
        url: "/x".into(),
        headers: Vec::new(),
        query: Vec::new(),
        body: Body::default(),
        auth: Auth::default(),
        description: String::new(),
    }
}

#[test]
fn postman_parse_nested_groups() {
    let spec = r#"{
  "info": { "name": "订单中心", "schema": "https://schema.getpostman.com/json/collection/v2.1.0/collection.json" },
  "item": [
    { "name": "订单", "item": [
      { "name": "创建订单", "request": { "method": "POST", "url": { "raw": "https://api.x.com/orders", "query": [ { "key": "x", "value": "1" } ] }, "body": { "mode": "raw", "raw": "{\"a\":1}" } } }
    ] },
    { "name": "删除订单", "request": { "method": "DELETE", "url": "https://api.x.com/orders/1" } }
  ]
}"#;
    let (name, list) = parse_postman(spec).unwrap();
    assert_eq!(name, "订单中心");
    assert_eq!(list.len(), 2);
    let create = list.iter().find(|i| i.name == "创建订单").unwrap();
    assert_eq!(create.group_path, vec!["group-0".to_string()]);
    assert_eq!(create.body.mode, "raw");
    assert_eq!(create.query[0].key, "x");
}

#[test]
fn postman_request_fields() {
    let spec = r#"{
  "item": [
    { "name": "Login Api", "request": {
        "method": "post",
        "header": [ { "key": "X-A", "value": "1", "description": "d" }, { "key": "", "value": "skip" } ],
        "url": { "raw": "https://h/login", "query": [ { "key": "q", "value": "v" } ] },
        "body": { "mode": "urlencoded", "urlencoded": [ { "key": "u", "value": "me", "description": "dropped" } ] }
    } },
    { "name": "Folder Name", "item": [ { "request": { "url": "https://h/inner", "body": { "mode": "formdata", "formdata": [ { "key": "f", "value": "@/tmp/a", "description": "file" } ] } } } ] }
  ]
}"#;
    let (name, list) = parse_postman(spec).unwrap();
    assert_eq!(name, "Postman 导入");
    assert_eq!(list.len(), 2);
    let login = &list[0];
    assert_eq!(login.method, "POST");
    assert_eq!(login.url, "https://h/login");
    assert_eq!(login.headers.len(), 1);
    assert_eq!(login.headers[0].key, "X-A");
    assert_eq!(login.headers[0].example, "1");
    assert_eq!(login.headers[0].description, "d");
    assert!(login.headers[0].enabled);
    assert_eq!(login.query[0].example, "v");
    assert_eq!(login.body.mode, "urlencoded");
    assert_eq!(login.body.form[0].key, "u");
    assert_eq!(login.body.form[0].description, "");
    assert!(login.group_path.is_empty());
    let inner = &list[1];
    assert_eq!(inner.name, "unnamed");
    assert_eq!(inner.method, "GET");
    assert_eq!(inner.group_path, vec!["folder-name".to_string()]);
    assert_eq!(inner.body.mode, "form-data");
    assert_eq!(inner.body.form[0].description, "file");
    assert!(inner.query.is_empty());
}

#[test]
fn postman_errors() {
    let e = parse_postman("{").unwrap_err();
    assert!(e.starts_with("JSON 解析失败："));
    assert_eq!(parse_postman(r#"{"item": []}"#).unwrap_err(), "未解析到任何请求");
    let d = parse_json(r#"{"item": [{"name": "only folder", "item": []}]}"#).unwrap();
    assert_eq!(postman_from_document(&d).unwrap_err(), "未解析到任何请求");
}

#[test]
fn import_name_repairs_invalid_names() {
    assert_eq!(import_name("  用户列表 "), "用户列表");
    assert_eq!(import_name("a/b?"), "a-b");
    assert_eq!(import_name("..."), "...");
    assert_eq!(import_name(".."), "导入接口");
    assert_eq!(import_name(""), "导入接口");
}

#[test]
fn plan_renames_duplicate_names_in_same_dir() {
    let list = vec![iface(&[], "同名词条"), iface(&[], "同名词条"), iface(&["g"], "同名词条"), iface(&[], "同名词条")];
    let (items, warnings) = plan_import(list);
    let keys: Vec<&str> = items.iter().map(|i| i.key.as_str()).collect();
    assert_eq!(keys, vec!["同名词条", "同名词条-2", "同名词条", "同名词条-3"]);
    assert_eq!(warnings.len(), 2);
    assert_eq!(warnings[0], "接口名称 同名词条 在本目录重复，已重命名为 同名词条-2");
    assert!(warnings.iter().any(|w| w.contains("同名词条")));
    assert_eq!(items[1].doc.name, "同名词条-2");
    assert_eq!(items[2].group_path, vec!["g".to_string()]);
    assert_ne!(items[0].doc.id, items[1].doc.id);
}

#[test]
fn plan_keeps_request_content() {
    let mut x = iface(&[], "a");
    x.method = "POST".into();
    x.url = "https://h/a".into();
    x.headers = vec![ApiParam { key: "H".into(), example: "v".into(), enabled: true, ..Default::default() }];
    x.description = "desc".into();
    let (items, warnings) = plan_import(vec![x]);
    assert!(warnings.is_empty());
    let d = &items[0].doc;
    assert_eq!(d.method, "POST");
    assert_eq!(d.url, "https://h/a");
    assert_eq!(d.headers[0].key, "H");
    assert_eq!(d.description, "desc");
    assert_eq!(d.id.len(), 36);
}

#[test]
fn report_counts_store_results() {
    let (items, warnings) = plan_import(vec![iface(&[], "a"), iface(&[], "b")]);
    let results = vec![Ok(()), Err("键冲突".to_string())];
    let r = import_report(warnings, &items, &results);
    assert_eq!(r.total, 1);
    assert_eq!(r.skipped, 1);
    assert_eq!(r.warnings, vec!["接口 b 导入失败：键冲突".to_string()]);
}

#[test]
fn split_url_cases() {
    assert_eq!(split_url(" https://api.example.com/v1/users "), ("/v1/users".to_string(), Some("https://api.example.com".to_string())));
    assert_eq!(split_url("http://host"), (String::new(), Some("http://host".to_string())));
    assert_eq!(split_url("/local/path"), ("/local/path".to_string(), None));
}

#[test]
fn schema_types() {
    assert_eq!(schema_type_of("integer"), "integer");
    assert_eq!(schema_type_of("file"), "string");
    assert_eq!(schema_type_of(""), "string");
}

#[test]
fn flatten_walks_tree_in_order() {
    let tree = vec![
        TreeNode::Group {
            key: "g".into(),
            name: "G".into(),
            children: vec![TreeNode::Interface { key: "a".into(), name: "A".into(), method: "GET".into() }],
        },
        TreeNode::Interface { key: "b".into(), name: "B".into(), method: "GET".into() },
    ];
    let mut out = Vec::new();
    flatten_ifaces(&tree, &Vec::new(), &mut out);
    assert_eq!(out, vec![(vec!["g".to_string()], "a".to_string()), (Vec::new(), "b".to_string())]);
}
