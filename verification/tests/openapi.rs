use apidock::imports::{import_report, parse_openapi, plan_import, try_parse_openapi};
use apidock::json::{parse_json, JsonValue};
use apidock::openapi::normalize_type_arrays;
use serde_json::Value;

const SPEC: &str = r#"{
  "openapi": "3.0.3",
  "info": { "title": "用户服务", "version": "1.0" },
  "servers": [ { "url": "https://api.example.com/v1" } ],
  "components": { "securitySchemes": { "auth": { "type": "http", "scheme": "bearer" } } },
  "security": [ { "auth": [] } ],
  "paths": {
    "/users": {
      "get": {
        "tags": ["users"],
        "operationId": "listUsers",
        "summary": "用户列表",
        "parameters": [ { "name": "page", "in": "query", "schema": { "type": "integer" } } ],
        "responses": {}
      },
      "post": {
        "tags": ["users"],
        "operationId": "createUser",
        "requestBody": { "content": { "application/json": { "example": { "name": "x" } } } },
        "responses": {}
      }
    }
  }
}"#;

fn parse(spec: &str, is_yaml: bool) -> Result<(String, Vec<apidock::imports::ImportedIface>), String> {
    try_parse_openapi(spec, is_yaml).expect("import should come to an end")
}

#[test]
fn openapi_parse_maps_paths_and_auth() {
    let (name, list) = parse_openapi(SPEC, false).unwrap();
    assert_eq!(name, "用户服务");
    assert_eq!(list.len(), 2);
    let get = list.iter().find(|i| i.name == "用户列表").unwrap();
    assert_eq!(get.key, "用户列表");
    assert_eq!(get.method, "GET");
    assert_eq!(get.url, "https://api.example.com/v1/users");
    assert_eq!(get.group_path, vec!["users".to_string()]);
    assert_eq!(get.auth.kind, "bearer");
    assert_eq!(get.query[0].key, "page");
    let post = list.iter().find(|i| i.key == "createUser").unwrap();
    assert_eq!(post.body.mode, "json");
    assert!(post.body.content.contains("name"));
}

#[test]
fn openapi_schema_becomes_example_body() {
    let spec = r##"{
  "openapi": "3.0.3",
  "info": { "title": "t", "version": "1" },
  "components": { "schemas": { "Card": { "type": "object", "properties": { "id": { "type": "integer" }, "ok": { "type": "boolean", "default": true } }, "required": ["id"] } } },
  "paths": {
    "/cmd": {
      "post": {
        "summary": "下发",
        "requestBody": { "content": { "application/json": { "schema": { "type": "array", "items": { "$ref": "#/components/schemas/Card" } } } } },
        "responses": {}
      }
    }
  }
}"##;
    let (_, list) = parse_openapi(spec, false).unwrap();
    let content = &list[0].body.content;
    assert!(content.contains("id"));
    assert!(content.contains("ok"));
    assert!(!content.contains("required"));
    assert!(!content.contains("$ref"));
    let v: Value = serde_json::from_str(content).unwrap();
    assert_eq!(v[0]["id"], 0);
    assert_eq!(v[0]["ok"], true);
}

#[test]
fn openapi_resolves_ref_parameters_and_type_array() {
    let spec = r##"{
  "openapi": "3.0.3",
  "info": { "title": "t", "version": "1" },
  "components": {
    "parameters": {
      "PlantId": { "in": "query", "name": "plant_id", "required": true, "schema": { "type": "integer", "example": 2012 } }
    },
    "schemas": {
      "Error": { "type": "object", "properties": { "detail": { "type": ["string", "null"] } } },
      "Robot": { "type": "object", "required": ["name"], "properties": { "name": { "type": "string" }, "port": { "type": "integer" } } }
    }
  },
  "paths": {
    "/robots": {
      "get": {
        "summary": "查询机器人",
        "tags": ["robot"],
        "parameters": [ { "$ref": "#/components/parameters/PlantId" } ],
        "responses": {}
      },
      "post": {
        "summary": "新增机器人",
        "tags": ["robot"],
        "requestBody": { "content": { "application/json": { "schema": { "type": "array", "items": { "$ref": "#/components/schemas/Robot" } } } } },
        "responses": {}
      }
    }
  }
}"##;
    let (_, list) = parse_openapi(spec, false).unwrap();
    let get = list.iter().find(|i| i.name == "查询机器人").unwrap();
    assert_eq!(get.query.len(), 1);
    assert_eq!(get.query[0].key, "plant_id");
    assert_eq!(get.query[0].param_type, "integer");
    assert_eq!(get.query[0].example, "2012");
    assert!(get.query[0].required);
    let post = list.iter().find(|i| i.name == "新增机器人").unwrap();
    assert_eq!(post.body.mode, "json");
    assert_eq!(post.body.json.root.field_type, "array");
    let item = post.body.json.root.items.as_ref().unwrap();
    assert_eq!(item.field_type, "object");
    let keys: Vec<&str> = item.children.iter().map(|c| c.key.as_str()).collect();
    assert_eq!(keys, vec!["name", "port"]);
    assert!(item.children.iter().any(|c| c.key == "name" && c.required));
    let v: Value = serde_json::from_str(&post.body.content).unwrap();
    assert_eq!(v[0]["port"], 0);
}

#[test]
fn openapi_try_parse_matches_parse() {
    let (name, list) = parse(SPEC, false).unwrap();
    assert_eq!(name, "用户服务");
    assert_eq!(list.len(), 2);
    // no tag → no group; no summary and no operation id → the path names it
    let spec = r#"{ "openapi": "3.0.3", "info": { "title": "t", "version": "1" },
      "paths": { "/ping": { "head": { "tags": ["default"], "responses": {} } } } }"#;
    let (_, list) = parse(spec, false).unwrap();
    assert_eq!(list[0].name, "/ping");
    assert_eq!(list[0].method, "HEAD");
    assert_eq!(list[0].url, "/ping");
    assert!(list[0].group_path.is_empty());
    assert_eq!(list[0].auth.kind, "");
    assert_eq!(list[0].body.mode, "");
}

#[test]
fn openapi_reports_parse_errors() {
    let e = parse("{ not json", false).unwrap_err();
    assert!(e.starts_with("JSON 解析失败："), "{e}");
    let e = parse("a: [", true).unwrap_err();
    assert!(e.starts_with("YAML 解析失败："), "{e}");
    let e = parse(r#"{ "openapi": "3.0.3" }"#, false).unwrap_err();
    assert!(e.starts_with("OpenAPI 文档解析失败："), "{e}");
    let e = parse(r#"{ "openapi": "3.0.3", "info": { "title": "t", "version": "1" }, "paths": {} }"#, false)
        .unwrap_err();
    assert_eq!(e, "未解析到任何 paths 接口");
}

#[test]
fn openapi_yaml_with_basic_and_api_key_auth() {
    let spec = "openapi: 3.0.3\ninfo:\n  title: Y\n  version: '1'\nservers:\n  - url: ' http://h.example.com/// '\ncomponents:\n  securitySchemes:\n    b:\n      type: http\n      scheme: basic\n    k:\n      type: apiKey\n      in: header\n      name: X-Key\nsecurity:\n  - b: []\n  - k: []\npaths:\n  /a:\n    post:\n      operationId: postA\n      requestBody:\n        content:\n          text/plain:\n            example: hello\n      responses: {}\n";
    let (name, list) = parse(spec, true).unwrap();
    assert_eq!(name, "Y");
    assert_eq!(list[0].url, "http://h.example.com/a");
    // the last requirement with a known scheme decides
    assert_eq!(list[0].auth.kind, "api-key");
    assert_eq!(list[0].auth.api_key_name, "X-API-Key");
    assert_eq!(list[0].auth.api_key_in, "header");
    assert_eq!(list[0].auth.api_key_value, "{{api_key}}");
    assert_eq!(list[0].body.mode, "raw");
    assert_eq!(list[0].body.content, "hello");
    assert_eq!(list[0].body.content_type, "text/plain");
}

#[test]
fn openapi_duplicate_parameters_keep_the_first() {
    let spec = r#"{ "openapi": "3.0.3", "info": { "title": "t", "version": "1" },
      "paths": { "/p": {
        "parameters": [ { "name": "q", "in": "query", "description": "shared", "schema": { "type": "string" } } ],
        "get": { "summary": "g", "parameters": [
          { "name": "q", "in": "query", "description": "own", "schema": { "type": "string" } },
          { "name": "X-A", "in": "header", "example": "v", "schema": { "type": "string" } },
          { "name": "id", "in": "path", "required": true, "schema": { "type": "string" } } ],
          "responses": {} } } } }"#;
    let (_, list) = parse(spec, false).unwrap();
    assert_eq!(list[0].query.len(), 1);
    assert_eq!(list[0].query[0].description, "shared");
    assert_eq!(list[0].headers.len(), 1);
    assert_eq!(list[0].headers[0].key, "X-A");
    assert_eq!(list[0].headers[0].example, "v");
}

#[test]
fn openapi_self_referencing_example_has_no_end() {
    let spec = r##"{ "openapi": "3.0.3", "info": { "title": "t", "version": "1" },
      "components": { "schemas": { "Node": { "type": "object", "properties": { "next": { "$ref": "#/components/schemas/Node" } } } } },
      "paths": { "/n": { "post": { "summary": "n",
        "requestBody": { "content": { "application/json": { "schema": { "$ref": "#/components/schemas/Node" } } } },
        "responses": {} } } } }"##;
    assert!(try_parse_openapi(spec, false).is_none());
}

#[test]
fn normalize_turns_type_arrays_into_nullable() {
    let v = parse_json(r#"{ "a": { "type": ["string", "null"] }, "b": [ { "type": ["null", "integer"] } ] }"#).unwrap();
    let n = normalize_type_arrays(&v);
    let expected = parse_json(
        r#"{ "a": { "type": "string", "nullable": true }, "b": [ { "type": "integer", "nullable": true } ] }"#,
    )
    .unwrap();
    assert_eq!(n.to_text(), expected.to_text());
    assert!(matches!(n, JsonValue::Object(_)));
}

#[test]
fn import_names_files_by_display_name() {
    let spec = r#"{
  "openapi": "3.0.3",
  "info": { "title": "默认模块", "version": "1.0" },
  "paths": {
    "/api/iot/command-v2": {
      "post": {
        "summary": "数据下发V2",
        "requestBody": { "content": { "application/json": { "schema": { "type": "array", "items": { "type": "object", "properties": { "command_type": { "type": "string" }, "payload": { "type": "object", "properties": {} }, "count": { "type": "integer" } }, "required": ["command_type", "payload"] } } } } },
        "responses": {}
      }
    }
  }
}"#;
    let (_, list) = parse_openapi(spec, false).unwrap();
    let (items, warnings) = plan_import(list);
    let results: Vec<Result<(), String>> = items.iter().map(|_| Ok(())).collect();
    let report = import_report(warnings, &items, &results);
    assert_eq!(report.total, 1);
    // the key is the (Chinese) name
    assert_eq!(items[0].key, "数据下发V2");
    assert_eq!(items[0].doc.name, "数据下发V2");
    // the body holds example values, not the schema
    let v: Value = serde_json::from_str(&items[0].doc.body.content).unwrap();
    assert_eq!(v[0]["command_type"], "");
    assert_eq!(v[0]["count"], 0);
    assert!(v[0].as_object().unwrap().contains_key("payload"));
}

#[test]
fn import_renames_duplicate_names_in_same_dir() {
    let spec = r#"{
  "openapi": "3.0.3",
  "info": { "title": "t", "version": "1" },
  "paths": {
    "/a": { "get": { "summary": "同名词条", "responses": {} } },
    "/b": { "get": { "summary": "同名词条", "responses": {} } }
  }
}"#;
    let (_, list) = parse_openapi(spec, false).unwrap();
    let (items, warnings) = plan_import(list);
    let results: Vec<Result<(), String>> = items.iter().map(|_| Ok(())).collect();
    let report = import_report(warnings, &items, &results);
    assert_eq!(report.total, 2);
    assert!(report.warnings.iter().any(|w| w.contains("同名词条")));
    let keys: Vec<&str> = items.iter().map(|i| i.key.as_str()).collect();
    assert!(keys.iter().any(|k| *k == "同名词条"));
    assert!(keys.iter().any(|k| *k == "同名词条-2"));
}
