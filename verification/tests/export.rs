use apidock::domain::{ApiParam, BodyField, InterfaceFile, JsonBody};
use apidock::export::{build_interface_operation, export_document, export_interface_document, schema_of_field};
use apidock::imports::{parse_openapi, try_parse_openapi};

use serde_json::Value;

fn j(s: &str) -> Value {
    serde_json::from_str(s).unwrap()
}

fn param(key: &str, enabled: bool) -> ApiParam {
    ApiParam {
        key: key.into(),
        example: String::new(),
        required: false,
        param_type: "string".into(),
        description: String::new(),
        enabled,
    }
}

#[test]
fn openapi_export_roundtrip() {
    let mut f = InterfaceFile::new("get-users");
    f.name = "用户列表".into();
    f.url = "https://api.example.com/v1/users".into();
    f.method = "GET".into();
    let refs = vec![(Vec::new(), "get-users".to_string())];
    let all = vec![(Vec::new(), "get-users".to_string(), f)];
    let out = export_document("导出项目", "p", &refs, &all, false).unwrap();
    let v: Value = serde_json::from_str(&out.content).unwrap();
    assert_eq!(v["paths"]["/v1/users"]["get"]["operationId"].as_str().unwrap(), "p-get-users");
    assert_eq!(v["info"]["title"], "导出项目");
    assert_eq!(v["servers"][0]["url"], "https://api.example.com");

    let (_, list) = parse_openapi(&out.content, false).unwrap();
    assert_eq!(list.len(), 1);
    assert_eq!(list[0].url, "https://api.example.com/v1/users");
}

#[test]
fn export_builds_parameters_body_and_security() {
    let mut f = InterfaceFile::new("login");
    f.method = "POST".into();
    f.url = "  http://h.example.com/api/login  ".into();
    f.description = "登录".into();
    let mut page = param("page", true);
    page.param_type = "integer".into();
    page.required = true;
    page.example = "1".into();
    f.query = vec![page, param("off", false), param("  ", true)];
    f.headers = vec![param("Content-Type", true), param("AUTHORIZATION", true), param("X-Trace", true)];
    let mut root = JsonBody::new_root("object");
    let mut id = BodyField::new("id");
    id.field_type = "integer".into();
    id.required = true;
    let mut name = BodyField::new("name");
    name.example = "x".into();
    name.description = "名字".into();
    root.root.children = vec![id, name, BodyField::new("  ")];
    f.body.mode = "json".into();
    f.body.json = root;
    f.body.content = r#"{"id": 7}"#.into();
    f.auth.kind = "bearer".into();

    let mut warnings = Vec::new();
    let (method, path, op, host) = build_interface_operation(&f, "proj", "login", &mut warnings);
    assert_eq!(method, "post");
    assert_eq!(path, "/api/login");
    assert_eq!(host.as_deref(), Some("http://h.example.com"));
    assert!(warnings.is_empty());
    let op: Value = serde_json::from_str(&op.to_text()).unwrap();
    assert_eq!(op["operationId"], "proj-login");
    assert_eq!(op["summary"], "login");
    assert_eq!(op["description"], "登录");
    let params = op["parameters"].as_array().unwrap();
    assert_eq!(params.len(), 2);
    assert_eq!(params[0]["name"], "page");
    assert_eq!(params[0]["in"], "query");
    assert_eq!(params[0]["schema"]["type"], "integer");
    assert_eq!(params[0]["required"], true);
    assert_eq!(params[0]["example"], "1");
    assert_eq!(params[1]["name"], "X-Trace");
    assert_eq!(params[1]["in"], "header");
    let schema = &op["requestBody"]["content"]["application/json"]["schema"];
    assert_eq!(schema["type"], "object");
    assert_eq!(schema["properties"]["id"]["type"], "integer");
    assert_eq!(schema["properties"]["name"]["type"], "string");
    assert_eq!(schema["properties"]["name"]["example"], "x");
    assert_eq!(schema["properties"]["name"]["description"], "名字");
    assert_eq!(schema["required"], j(r#"["id"]"#));
    assert_eq!(schema["example"]["id"], 7);
    assert_eq!(op["security"][0]["apidock_bearer"], j("[]"));
    assert_eq!(op["responses"]["200"]["description"], "成功");
}

#[test]
fn export_raw_body_basic_auth_and_empty_url_warning() {
    let mut f = InterfaceFile::new("raw");
    f.body.mode = "raw".into();
    f.body.content_type = "text/plain".into();
    f.auth.kind = "basic".into();
    let out = export_interface_document("T", "p", &f, "raw", false).unwrap();
    assert_eq!(out.warnings, vec!["接口 raw 的 URL 为空".to_string()]);
    let v: Value = serde_json::from_str(&out.content).unwrap();
    let op = &v["paths"]["/"]["get"];
    assert_eq!(op["requestBody"]["content"]["text/plain"]["schema"]["type"], "string");
    assert_eq!(op["security"][0]["apidock_basic"], j("[]"));
    assert!(v.get("servers").is_none());
    assert_eq!(v["components"]["securitySchemes"]["apidock_basic"]["scheme"], "basic");
    assert_eq!(v["openapi"], "3.0.3");
}

#[test]
fn export_json_body_without_tree_uses_content() {
    let mut f = InterfaceFile::new("j");
    f.url = "/j".into();
    f.body.mode = "json".into();
    f.body.content = r#"{"a": [1, 2]}"#.into();
    let out = export_interface_document("T", "p", &f, "j", false).unwrap();
    let v: Value = serde_json::from_str(&out.content).unwrap();
    assert_eq!(v["paths"]["/j"]["get"]["requestBody"]["content"]["application/json"]["schema"]["a"][1], 2);
    f.body.content = "not json".into();
    let out = export_interface_document("T", "p", &f, "j", false).unwrap();
    let v: Value = serde_json::from_str(&out.content).unwrap();
    assert_eq!(v["paths"]["/j"]["get"]["requestBody"]["content"]["application/json"]["schema"], j("{}"));
}

#[test]
fn export_merges_methods_and_hosts_and_reads_back_as_yaml() {
    let mut a = InterfaceFile::new("a");
    a.url = "https://x.example.com/items".into();
    let mut b = InterfaceFile::new("b");
    b.method = "DELETE".into();
    b.url = "https://x.example.com/items".into();
    let mut c = InterfaceFile::new("c");
    c.url = "https://y.example.com/other".into();
    let refs = vec![
        (Vec::new(), "a".to_string()),
        (vec!["g".to_string()], "b".to_string()),
        (Vec::new(), "missing".to_string()),
        (Vec::new(), "c".to_string()),
    ];
    let all = vec![
        (Vec::new(), "a".to_string(), a),
        (vec!["g".to_string()], "b".to_string(), b),
        (Vec::new(), "c".to_string(), c),
    ];
    let out = export_document("多路径", "p", &refs, &all, true).unwrap();
    let v: Value = serde_yaml_ng::from_str(&out.content).unwrap();
    assert_eq!(v["paths"]["/items"]["get"]["operationId"], "p-a");
    assert_eq!(v["paths"]["/items"]["delete"]["operationId"], "p-b");
    assert_eq!(v["servers"].as_array().unwrap().len(), 2);
    let (title, list) = try_parse_openapi(&out.content, true).unwrap().unwrap();
    assert_eq!(title, "多路径");
    assert_eq!(list.len(), 3);
}

#[test]
fn schema_of_array_field_has_items_and_title() {
    let mut arr = BodyField::new("");
    arr.field_type = "array".into();
    arr.name = "列表".into();
    let mut item = BodyField::new("");
    item.field_type = "boolean".into();
    arr.items = Some(Box::new(item));
    let v: Value = serde_json::from_str(&schema_of_field(&arr).to_text()).unwrap();
    assert_eq!(v, j(r#"{ "type": "array", "items": { "type": "boolean" }, "title": "列表" }"#));
}
