use apidock::legacy::strip_jsonc;

#[test]
fn legacy_strip_jsonc_handles_comments_and_trailing_comma() {
    let src = r#"{
  // 行注释
  "name": "测试 /* 字符串内不减 */",
  "list": [1, 2, 3,],  /* 块注释 */
}"#;
    let text = strip_jsonc(src);
    let v: serde_json::Value = serde_json::from_str(&text).unwrap();
    assert_eq!(v["name"], "测试 /* 字符串内不减 */");
    assert_eq!(v["list"][2], 3);
}

#[test]
fn plain_text_is_unchanged() {
    assert_eq!(strip_jsonc("{\"a\": 1}"), "{\"a\": 1}");
}

#[test]
fn trailing_line_comment_is_dropped() {
    assert_eq!(strip_jsonc("{} // done"), "{} ");
    assert_eq!(strip_jsonc("[1 // one\n]"), "[1 \n]");
}

#[test]
fn block_comments_keep_newlines() {
    assert_eq!(strip_jsonc("a/* x\ny */b"), "a\nb");
    assert_eq!(strip_jsonc("/**/x"), "x");
}

#[test]
fn trailing_commas_are_removed() {
    assert_eq!(strip_jsonc("[1, 2 ,\n ]"), "[1, 2 \n ]");
    assert_eq!(strip_jsonc("{\"a\":1, /* c */ }"), "{\"a\":1}");
    assert_eq!(strip_jsonc("\"a,}\""), "\"a,}\"");
}

#[test]
fn dangling_escape_is_closed() {
    assert_eq!(strip_jsonc("\"a\\"), "\"a\\\0");
}

#[test]
fn strings_after_commas_are_kept() {
    assert_eq!(strip_jsonc("[\"a\",\"b\"]"), "[\"a\",\"b\"]");
    assert_eq!(strip_jsonc("{\"k\": [1, \"x\"]}"), "{\"k\": [1, \"x\"]}");
    assert_eq!(strip_jsonc("[\"a\", \"b\",]"), "[\"a\", \"b\"]");
}

#[test]
fn trailing_comma_before_a_comment_line_is_removed() {
    assert_eq!(strip_jsonc("[1, // one\n]"), "[1]");
    assert_eq!(strip_jsonc("[1, /* a\nb */ ]"), "[1]");
    assert_eq!(strip_jsonc("[1, // one\n 2]"), "[1, \n 2]");
}
