use apidock::domain::{Body, BodyField, JsonBody};
use apidock::examples::{example_value, json_example_payload, numeric_examples};
use apidock::json::JsonValue;
use apidock::schemas::value_to_field;
use serde_json::Value;

fn leaf(key: &str, field_type: &str, example: &str) -> BodyField {
    let mut f = BodyField::new(key);
    f.field_type = field_type.into();
    f.example = example.into();
    f
}

fn tree() -> BodyField {
    let mut root = leaf("", "object", "");
    let mut arr = leaf("arr", "array", "");
    arr.items = Some(Box::new(leaf("", "integer", "7")));
    root.children = vec![
        leaf("a", "integer", "5"),
        leaf("b", "number", "1.5"),
        leaf("c", "boolean", " Yes "),
        leaf("d", "null", ""),
        leaf("e", "string", "hi"),
        leaf("  ", "integer", "9"),
        arr,
        leaf("obj2", "object", ""),
        leaf("f", "boolean", "off"),
    ];
    root
}

#[test]
fn numeric_leaves_in_payload_order() {
    let leaves = numeric_examples(&tree());
    assert_eq!(
        leaves,
        vec![(true, "5".to_string()), (false, "1.5".to_string()), (true, "7".to_string())]
    );
}

#[test]
fn example_payload_of_a_tree() {
    let table = vec![
        (true, "5".to_string(), "5".to_string()),
        (false, "1.5".to_string(), "1.5".to_string()),
        (true, "7".to_string(), "7".to_string()),
    ];
    let v = example_value(&tree(), &table);
    let got: Value = serde_json::from_str(&v.to_text()).unwrap();
    let want: Value =
        serde_json::from_str(r#"{"a":5,"b":1.5,"c":true,"d":null,"e":"hi","arr":[7],"obj2":{},"f":false}"#).unwrap();
    assert_eq!(got, want);
    let pretty: Value = serde_json::from_str(&v.to_pretty_text().unwrap()).unwrap();
    assert_eq!(pretty, want);
}

#[test]
fn numbers_missing_from_the_table_are_zero() {
    let v = example_value(&leaf("", "integer", "12"), &Vec::new());
    assert_eq!(v.to_text(), "0");
    let mut arr = leaf("", "array", "");
    assert_eq!(example_value(&arr, &Vec::new()).to_text(), "[]");
    arr.items = Some(Box::new(leaf("", "string", "x")));
    assert_eq!(example_value(&arr, &Vec::new()).to_text(), "[\"x\"]");
}

#[test]
fn json_body_root_field_serializes_and_reads_back() {
    // a leaf root (neither object nor array)
    let mut root = BodyField::new("");
    root.field_type = "string".into();
    root.example = "{{host}}/api".into();
    let v = example_value(&root, &Vec::new());
    assert_eq!(v.to_text(), "\"{{host}}/api\"");
    let body = Body { mode: "json".into(), json: JsonBody { root }, ..Default::default() };
    let payload = json_example_payload(&body, &Vec::new()).unwrap();
    assert_eq!(payload, "\"{{host}}/api\"");
    assert_eq!(body.json.root.field_type, "string");
    assert_eq!(body.json.root.example, "{{host}}/api");
    // only a json body with a tree has a payload
    let raw = Body { mode: "raw".into(), json: JsonBody { root: BodyField::new("") }, ..Default::default() };
    assert!(json_example_payload(&raw, &Vec::new()).is_none());
    let empty = Body { mode: "json".into(), json: JsonBody::new_root("object"), ..Default::default() };
    assert!(json_example_payload(&empty, &Vec::new()).is_none());
}

#[test]
fn integer_numbers_read_as_integer_fields() {
    for (text, ty) in [
        ("5", "integer"),
        ("-9223372036854775808", "integer"),
        ("9223372036854775807", "integer"),
        ("9223372036854775808", "number"),
        ("-0", "number"),
        ("1.5", "number"),
        ("1e3", "number"),
    ] {
        let f = value_to_field(&JsonValue::Number(text.to_string()));
        assert_eq!(f.field_type, ty, "{text}");
    }
}
