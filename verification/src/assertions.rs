//! Response assertions: status code, response time, response header and
//! JSONPath value checks, each with a pass/fail message.

use vstd::prelude::*;

use crate::domain::{owned, str_eq, Assertion, KeyValue};
use crate::json::{json_parse, parse_json, JsonValue};
use crate::jsonpath::{json_path, select, value_texts};
use crate::text::{
    chars_of, contains_exec, contains_seq, decimal, decimal_string, extend_chars, extend_str, join,
    join_exec, starts_at, string_of, string_views,
};

verus! {

/// The outcome of one assertion.
#[derive(Debug, Clone)]
pub struct AssertionResult {
    pub passed: bool,
    pub message: String,
}

/// How two texts compare as numbers: each text is trimmed and parsed as a
/// 64-bit float, text that does not parse counting as NaN.
#[derive(Debug, Clone, Copy, PartialEq, Eq, Structural)]
pub enum NumOrder {
    Less,
    Equal,
    Greater,
    /// At least one side is NaN.
    Unordered,
}

// ----- regular expressions -----

#[verifier::external_type_specification]
#[verifier::external_body]
pub struct ExRegex(regex_lite::Regex);

/// Whether `regex_lite::Regex::new` accepts the pattern.
pub uninterp spec fn regex_valid(pattern: Seq<char>) -> bool;

/// Whether the regex compiled from `pattern` matches somewhere in `text`
/// (`regex_lite::Regex::is_match`).
pub uninterp spec fn regex_matches(pattern: Seq<char>, text: Seq<char>) -> bool;

/// A compiled regular expression together with its pattern. Only
/// `compile_regex` builds one.
pub struct CompiledRegex {
    re: regex_lite::Regex,
    source: String,
}

impl CompiledRegex {
    /// The pattern it was compiled from.
    pub closed spec fn pattern(self) -> Seq<char> {
        self.source@
    }
}

/// `regex_lite::Regex::new`: compiles a pattern; `None` when it is invalid.
#[verifier::external_body]
fn compile_regex(pattern: &str) -> (r: Option<CompiledRegex>)
    ensures
        r.is_some() == regex_valid(pattern@),
        r matches Some(x) ==> x.pattern() == pattern@,
{
    match regex_lite::Regex::new(pattern) {
        Ok(re) => Some(CompiledRegex { re, source: pattern.to_string() }),
        Err(_) => None,
    }
}

/// `regex_lite::Regex::is_match`.
#[verifier::external_body]
fn regex_is_match(re: &CompiledRegex, text: &str) -> (r: bool)
    ensures
        r == regex_matches(re.pattern(), text@),
{
    re.re.is_match(text)
}

// ----- comparison -----

/// The comparison an operator stands for; unknown operators compare for
/// equality. `order` is how the two texts compare as numbers.
pub open spec fn compare_spec(op: Seq<char>, actual: Seq<char>, expected: Seq<char>, order: NumOrder) -> bool {
    if op == "eq"@ {
        actual == expected
    } else if op == "ne"@ || op == "neq"@ {
        actual != expected
    } else if op == "contains"@ {
        contains_seq(actual, expected)
    } else if op == "not-contains"@ {
        !contains_seq(actual, expected)
    } else if op == "gt"@ {
        order == NumOrder::Greater
    } else if op == "ge"@ || op == "gte"@ {
        order == NumOrder::Greater || order == NumOrder::Equal
    } else if op == "lt"@ {
        order == NumOrder::Less
    } else if op == "le"@ || op == "lte"@ {
        order == NumOrder::Less || order == NumOrder::Equal
    } else if op == "regex"@ {
        regex_valid(expected) && regex_matches(expected, actual)
    } else {
        actual == expected
    }
}

/// Compares `actual` with `expected` under the operator `op` (see
/// `compare_spec`); `order` is their numeric order.
pub fn compare_str(op: &str, actual: &str, expected: &str, order: NumOrder) -> (r: bool)
    ensures
        r == compare_spec(op@, actual@, expected@, order),
{
    if str_eq(op, "eq") {
        str_eq(actual, expected)
    } else if str_eq(op, "ne") || str_eq(op, "neq") {
        !str_eq(actual, expected)
    } else if str_eq(op, "contains") {
        let a = chars_of(actual);
        let e = chars_of(expected);
        contains_exec(&a, &e)
    } else if str_eq(op, "not-contains") {
        let a = chars_of(actual);
        let e = chars_of(expected);
        !contains_exec(&a, &e)
    } else if str_eq(op, "gt") {
        order == NumOrder::Greater
    } else if str_eq(op, "ge") || str_eq(op, "gte") {
        order == NumOrder::Greater || order == NumOrder::Equal
    } else if str_eq(op, "lt") {
        order == NumOrder::Less
    } else if str_eq(op, "le") || str_eq(op, "lte") {
        order == NumOrder::Less || order == NumOrder::Equal
    } else if str_eq(op, "regex") {
        match compile_regex(expected) {
            Some(re) => regex_is_match(&re, actual),
            None => false,
        }
    } else {
        str_eq(actual, expected)
    }
}

/// The wording of an operator in messages.
pub open spec fn op_desc_spec(op: Seq<char>) -> Seq<char> {
    if op == "eq"@ {
        "等于"@
    } else if op == "ne"@ || op == "neq"@ {
        "不等于"@
    } else if op == "contains"@ {
        "包含"@
    } else if op == "not-contains"@ {
        "不包含"@
    } else if op == "gt"@ {
        "大于"@
    } else if op == "ge"@ || op == "gte"@ {
        "大于等于"@
    } else if op == "lt"@ {
        "小于"@
    } else if op == "le"@ || op == "lte"@ {
        "小于等于"@
    } else if op == "regex"@ {
        "匹配正则"@
    } else {
        "等于"@
    }
}

fn op_desc(op: &str) -> (r: String)
    ensures
        r@ == op_desc_spec(op@),
{
    if str_eq(op, "eq") {
        owned("等于")
    } else if str_eq(op, "ne") || str_eq(op, "neq") {
        owned("不等于")
    } else if str_eq(op, "contains") {
        owned("包含")
    } else if str_eq(op, "not-contains") {
        owned("不包含")
    } else if str_eq(op, "gt") {
        owned("大于")
    } else if str_eq(op, "ge") || str_eq(op, "gte") {
        owned("大于等于")
    } else if str_eq(op, "lt") {
        owned("小于")
    } else if str_eq(op, "le") || str_eq(op, "lte") {
        owned("小于等于")
    } else if str_eq(op, "regex") {
        owned("匹配正则")
    } else {
        owned("等于")
    }
}

// ----- text helpers -----

/// At most 60 characters, with `…` appended when text was cut.
pub open spec fn trunc_spec(s: Seq<char>) -> Seq<char> {
    if s.len() > 60 {
        s.take(60) + "…"@
    } else {
        s
    }
}

fn trunc(s: &String) -> (r: String)
    ensures
        r@ == trunc_spec(s@),
{
    let v = chars_of(s.as_str());
    if v.len() > 60 {
        let mut t = crate::text::copy_range(&v, 0, 60);
        extend_str(&mut t, "…");
        assert(v@.subrange(0, 60) =~= s@.take(60));
        string_of(&t)
    } else {
        s.clone()
    }
}

/// What `format!("{:?}", s)` gives for a string: the Debug rendering
/// (quoted and escaped).
pub uninterp spec fn debug_text(s: Seq<char>) -> Seq<char>;

/// The Debug rendering of a string (`<str as Debug>::fmt`).
#[verifier::external_body]
fn debug_str(s: &str) -> (r: String)
    ensures
        r@ == debug_text(s@),
{
    format!("{:?}", s)
}

/// ASCII case-insensitive equality of two characters.
pub open spec fn char_eq_ignore_ascii_case(a: char, b: char) -> bool {
    ||| a == b
    ||| ('A' <= a <= 'Z' && (a as u32) + 32 == b as u32)
    ||| ('A' <= b <= 'Z' && (b as u32) + 32 == a as u32)
}

/// `str::eq_ignore_ascii_case`.
pub open spec fn eq_ignore_ascii_case(a: Seq<char>, b: Seq<char>) -> bool {
    a.len() == b.len() && forall|i: int| 0 <= i < a.len() ==> char_eq_ignore_ascii_case(
        #[trigger] a[i],
        b[i],
    )
}

fn eq_ignore_ascii_case_exec(a: &str, b: &str) -> (r: bool)
    ensures
        r == eq_ignore_ascii_case(a@, b@),
{
    let x = chars_of(a);
    let y = chars_of(b);
    if x.len() != y.len() {
        return false;
    }
    let mut i: usize = 0;
    while i < x.len()
        invariant
            x.len() == y.len(),
            x@ == a@,
            y@ == b@,
            i <= x.len(),
            forall|k: int| 0 <= k < i ==> char_eq_ignore_ascii_case(#[trigger] x@[k], y@[k]),
        decreases x.len() - i,
    {
        let c = x[i];
        let d = y[i];
        let same = c == d || ('A' <= c && c <= 'Z' && (c as u32) + 32 == d as u32) || ('A' <= d
            && d <= 'Z' && (d as u32) + 32 == c as u32);
        if !same {
            return false;
        }
        i += 1;
    }
    true
}

/// The value of the first header whose name equals `key` ignoring ASCII
/// case, searching from index `i`; empty when there is none.
pub open spec fn header_value_from(headers: Seq<KeyValue>, key: Seq<char>, i: int) -> Seq<char>
    decreases headers.len() - i,
{
    if i < 0 || i >= headers.len() {
        Seq::empty()
    } else if eq_ignore_ascii_case(headers[i].key@, key) {
        headers[i].value@
    } else {
        header_value_from(headers, key, i + 1)
    }
}

fn header_value(headers: &[KeyValue], key: &str) -> (r: String)
    ensures
        r@ == header_value_from(headers@, key@, 0),
{
    let mut i: usize = 0;
    while i < headers.len()
        invariant
            i <= headers.len(),
            header_value_from(headers@, key@, 0) == header_value_from(headers@, key@, i as int),
        decreases headers.len() - i,
    {
        if eq_ignore_ascii_case_exec(headers[i].key.as_str(), key) {
            return headers[i].value.clone();
        }
        i += 1;
    }
    String::new()
}

// ----- evaluation -----

/// The texts an assertion compares: (actual, expected). For a JSONPath that
/// selects nothing the actual text is `__NOT_FOUND__`; without a parsed
/// body it is empty.
pub open spec fn compared_texts_spec(
    a: Assertion,
    status: u16,
    time_ms: u64,
    headers: Seq<KeyValue>,
    parsed: Option<JsonValue>,
) -> (Seq<char>, Seq<char>) {
    match a {
        Assertion::StatusCode { op, expected } => (decimal(status as nat), decimal(expected as nat)),
        Assertion::Time { op, expected_ms } => (decimal(time_ms as nat), decimal(expected_ms as nat)),
        Assertion::Header { key, op, expected } => (header_value_from(headers, key@, 0), expected@),
        Assertion::JsonPath { path, op, expected } => match parsed {
            Some(root) => {
                let texts = value_texts(select(root, path@));
                if texts.len() > 0 {
                    (join(texts, ","@), expected@)
                } else {
                    ("__NOT_FOUND__"@, expected@)
                }
            },
            None => (Seq::empty(), expected@),
        },
    }
}

/// Whether an assertion passes, `order` being the numeric order of its
/// compared texts. A JSONPath that selects nothing passes only under `ne`
/// / `neq`; without a parsed body a JSONPath assertion fails.
pub open spec fn passed_spec(
    a: Assertion,
    status: u16,
    time_ms: u64,
    headers: Seq<KeyValue>,
    parsed: Option<JsonValue>,
    order: NumOrder,
) -> bool {
    let (actual, expected) = compared_texts_spec(a, status, time_ms, headers, parsed);
    match a {
        Assertion::StatusCode { op, expected: _ } => compare_spec(op@, actual, expected, order),
        Assertion::Time { op, expected_ms: _ } => compare_spec(op@, actual, expected, order),
        Assertion::Header { key: _, op, expected: _ } => compare_spec(op@, actual, expected, order),
        Assertion::JsonPath { path, op, expected: _ } => match parsed {
            Some(root) => if value_texts(select(root, path@)).len() > 0 {
                compare_spec(op@, actual, expected, order)
            } else {
                op@ == "ne"@ || op@ == "neq"@
            },
            None => false,
        },
    }
}

/// `✓` or `✗`.
pub open spec fn mark(ok: bool) -> Seq<char> {
    if ok {
        "✓"@
    } else {
        "✗"@
    }
}

/// The message reported for an assertion with outcome `ok`.
pub open spec fn message_spec(
    a: Assertion,
    status: u16,
    time_ms: u64,
    headers: Seq<KeyValue>,
    parsed: Option<JsonValue>,
    ok: bool,
) -> Seq<char> {
    let (actual, expected) = compared_texts_spec(a, status, time_ms, headers, parsed);
    match a {
        Assertion::StatusCode { op, expected: _ } => "状态码 "@ + actual + " "@ + op_desc_spec(op@)
            + " "@ + expected + "（实际 "@ + mark(ok) + "）"@,
        Assertion::Time { op, expected_ms: _ } => "耗时 "@ + actual + " ms "@ + op_desc_spec(op@)
            + " "@ + expected + " ms（实际 "@ + mark(ok) + "）"@,
        Assertion::Header { key, op, expected: _ } => "响应头 "@ + key@ + " "@ + op_desc_spec(op@)
            + " "@ + expected + "（实际 "@ + debug_text(trunc_spec(actual)) + "）"@,
        Assertion::JsonPath { path, op, expected: _ } => match parsed {
            Some(root) => "JSONPath {"@ + path@ + "} "@ + op_desc_spec(op@) + " "@ + expected
                + "（实际 "@ + trunc_spec(actual) + (if value_texts(
                select(root, path@),
            ).len() > 0 {
                Seq::<char>::empty()
            } else {
                "，路径不存在"@
            }) + "）"@,
            None => "响应体不是合法 JSON，无法评估 JSONPath {"@ + path@ + "}"@,
        },
    }
}

fn push_str(v: &mut Vec<char>, s: &str)
    ensures
        final(v)@ == old(v)@ + s@,
{
    extend_str(v, s);
}

fn mark_exec(ok: bool) -> (r: String)
    ensures
        r@ == mark(ok),
{
    if ok {
        owned("✓")
    } else {
        owned("✗")
    }
}

/// The JSONPath texts of one assertion: the selected texts joined with
/// `,`, and whether anything was selected.
fn path_texts(root: &JsonValue, path: &str) -> (r: (String, bool))
    ensures
        r.1 == (value_texts(select(*root, path@)).len() > 0),
        r.1 ==> r.0@ == join(value_texts(select(*root, path@)), ","@),
{
    let res = json_path(root, path);
    assert(string_views(res.values@).len() == res.values@.len());
    let joined = join_exec(&res.values, ",");
    (joined, res.found)
}

fn compared_texts_one(
    a: &Assertion,
    status: u16,
    time_ms: u64,
    headers: &[KeyValue],
    parsed: &Option<JsonValue>,
) -> (r: (String, String))
    ensures
        (r.0@, r.1@) == compared_texts_spec(*a, status, time_ms, headers@, *parsed),
{
    match a {
        Assertion::StatusCode { op: _, expected } => (
            decimal_string(status as u64),
            decimal_string(*expected as u64),
        ),
        Assertion::Time { op: _, expected_ms } => (decimal_string(time_ms), decimal_string(*expected_ms)),
        Assertion::Header { key, op: _, expected } => (
            header_value(headers, key.as_str()),
            expected.clone(),
        ),
        Assertion::JsonPath { path, op: _, expected } => match parsed {
            Some(root) => {
                let (joined, found) = path_texts(root, path.as_str());
                if found {
                    (joined, expected.clone())
                } else {
                    (owned("__NOT_FOUND__"), expected.clone())
                }
            },
            None => (String::new(), expected.clone()),
        },
    }
}

/// For each assertion, the (actual, expected) texts it compares (see
/// `compared_texts_spec`); their numeric order is what `check_parsed`
/// takes.
pub fn compared_texts(
    status: u16,
    time_ms: u64,
    headers: &[KeyValue],
    parsed: &Option<JsonValue>,
    assertions: &[Assertion],
) -> (r: Vec<(String, String)>)
    ensures
        r@.len() == assertions@.len(),
        forall|i: int|
            0 <= i < r@.len() ==> ((#[trigger] r@[i]).0@, r@[i].1@) == compared_texts_spec(
                assertions@[i],
                status,
                time_ms,
                headers@,
                *parsed,
            ),
{
    let mut out: Vec<(String, String)> = Vec::new();
    let mut i: usize = 0;
    while i < assertions.len()
        invariant
            i <= assertions.len(),
            out@.len() == i,
            forall|k: int|
                0 <= k < i ==> ((#[trigger] out@[k]).0@, out@[k].1@) == compared_texts_spec(
                    assertions@[k],
                    status,
                    time_ms,
                    headers@,
                    *parsed,
                ),
        decreases assertions.len() - i,
    {
        out.push(compared_texts_one(&assertions[i], status, time_ms, headers, parsed));
        i += 1;
    }
    out
}

fn evaluate_one(
    a: &Assertion,
    status: u16,
    time_ms: u64,
    headers: &[KeyValue],
    parsed: &Option<JsonValue>,
    order: NumOrder,
) -> (r: AssertionResult)
    ensures
        r.passed == passed_spec(*a, status, time_ms, headers@, *parsed, order),
        r.message@ == message_spec(*a, status, time_ms, headers@, *parsed, r.passed),
{
    let (actual, expected) = compared_texts_one(a, status, time_ms, headers, parsed);
    match a {
        Assertion::StatusCode { op, expected: _ } => {
            let ok = compare_str(op.as_str(), actual.as_str(), expected.as_str(), order);
            let mut m = chars_of("状态码 ");
            push_str(&mut m, actual.as_str());
            push_str(&mut m, " ");
            push_str(&mut m, op_desc(op.as_str()).as_str());
            push_str(&mut m, " ");
            push_str(&mut m, expected.as_str());
            push_str(&mut m, "（实际 ");
            push_str(&mut m, mark_exec(ok).as_str());
            push_str(&mut m, "）");
            AssertionResult { passed: ok, message: string_of(&m) }
        },
        Assertion::Time { op, expected_ms: _ } => {
            let ok = compare_str(op.as_str(), actual.as_str(), expected.as_str(), order);
            let mut m = chars_of("耗时 ");
            push_str(&mut m, actual.as_str());
            push_str(&mut m, " ms ");
            push_str(&mut m, op_desc(op.as_str()).as_str());
            push_str(&mut m, " ");
            push_str(&mut m, expected.as_str());
            push_str(&mut m, " ms（实际 ");
            push_str(&mut m, mark_exec(ok).as_str());
            push_str(&mut m, "）");
            AssertionResult { passed: ok, message: string_of(&m) }
        },
        Assertion::Header { key, op, expected: _ } => {
            let ok = compare_str(op.as_str(), actual.as_str(), expected.as_str(), order);
            let mut m = chars_of("响应头 ");
            push_str(&mut m, key.as_str());
            push_str(&mut m, " ");
            push_str(&mut m, op_desc(op.as_str()).as_str());
            push_str(&mut m, " ");
            push_str(&mut m, expected.as_str());
            push_str(&mut m, "（实际 ");
            push_str(&mut m, debug_str(trunc(&actual).as_str()).as_str());
            push_str(&mut m, "）");
            AssertionResult { passed: ok, message: string_of(&m) }
        },
        Assertion::JsonPath { path, op, expected: _ } => match parsed {
            Some(root) => {
                let (_, found) = path_texts(root, path.as_str());
                let ok = if found {
                    compare_str(op.as_str(), actual.as_str(), expected.as_str(), order)
                } else {
                    str_eq(op.as_str(), "ne") || str_eq(op.as_str(), "neq")
                };
                let mut m = chars_of("JSONPath {");
                push_str(&mut m, path.as_str());
                push_str(&mut m, "} ");
                push_str(&mut m, op_desc(op.as_str()).as_str());
                push_str(&mut m, " ");
                push_str(&mut m, expected.as_str());
                push_str(&mut m, "（实际 ");
                push_str(&mut m, trunc(&actual).as_str());
                if !found {
                    push_str(&mut m, "，路径不存在");
                }
                push_str(&mut m, "）");
                proof {
                    if found {
                        assert(m@ =~= "JSONPath {"@ + path@ + "} "@ + op_desc_spec(op@) + " "@
                            + expected@ + "（实际 "@ + trunc_spec(actual@) + Seq::<char>::empty()
                            + "）"@);
                    }
                }
                AssertionResult { passed: ok, message: string_of(&m) }
            },
            None => {
                let mut m = chars_of("响应体不是合法 JSON，无法评估 JSONPath {");
                push_str(&mut m, path.as_str());
                push_str(&mut m, "}");
                AssertionResult { passed: false, message: string_of(&m) }
            },
        },
    }
}

/// Evaluates assertions against a response whose body has already been
/// parsed (`None`: the body is not valid JSON). `orders[i]` is the numeric
/// order of the texts `compared_texts` gives for assertion `i`.
pub fn check_parsed(
    status: u16,
    time_ms: u64,
    headers: &[KeyValue],
    parsed: &Option<JsonValue>,
    assertions: &[Assertion],
    orders: &[NumOrder],
) -> (r: Vec<AssertionResult>)
    requires
        orders@.len() == assertions@.len(),
    ensures
        r@.len() == assertions@.len(),
        forall|i: int|
            0 <= i < r@.len() ==> {
                &&& (#[trigger] r@[i]).passed == passed_spec(
                    assertions@[i],
                    status,
                    time_ms,
                    headers@,
                    *parsed,
                    orders@[i],
                )
                &&& r@[i].message@ == message_spec(
                    assertions@[i],
                    status,
                    time_ms,
                    headers@,
                    *parsed,
                    r@[i].passed,
                )
            },
{
    let mut out: Vec<AssertionResult> = Vec::new();
    let mut i: usize = 0;
    while i < assertions.len()
        invariant
            i <= assertions.len(),
            orders@.len() == assertions@.len(),
            out@.len() == i,
            forall|k: int|
                0 <= k < i ==> {
                    &&& (#[trigger] out@[k]).passed == passed_spec(
                        assertions@[k],
                        status,
                        time_ms,
                        headers@,
                        *parsed,
                        orders@[k],
                    )
                    &&& out@[k].message@ == message_spec(
                        assertions@[k],
                        status,
                        time_ms,
                        headers@,
                        *parsed,
                        out@[k].passed,
                    )
                },
        decreases assertions.len() - i,
    {
        out.push(evaluate_one(&assertions[i], status, time_ms, headers, parsed, orders[i]));
        i += 1;
    }
    out
}

/// Evaluates assertions against a response: the body is parsed as JSON
/// (`parse_json`) and the rest is `check_parsed`.
pub fn check(
    status: u16,
    time_ms: u64,
    headers: &[KeyValue],
    body: &str,
    assertions: &[Assertion],
    orders: &[NumOrder],
) -> (r: Vec<AssertionResult>)
    requires
        orders@.len() == assertions@.len(),
    ensures
        r@.len() == assertions@.len(),
        forall|i: int|
            0 <= i < r@.len() ==> {
                &&& (#[trigger] r@[i]).passed == passed_spec(
                    assertions@[i],
                    status,
                    time_ms,
                    headers@,
                    json_parse(body@),
                    orders@[i],
                )
                &&& r@[i].message@ == message_spec(
                    assertions@[i],
                    status,
                    time_ms,
                    headers@,
                    json_parse(body@),
                    r@[i].passed,
                )
            },
{
    let parsed = parse_json(body);
    check_parsed(status, time_ms, headers, &parsed, assertions, orders)
}

/// The numeric order of two whole numbers.
pub open spec fn int_order(a: int, b: int) -> NumOrder {
    if a < b {
        NumOrder::Less
    } else if a == b {
        NumOrder::Equal
    } else {
        NumOrder::Greater
    }
}

proof fn lemma_operator_words_differ()
    ensures
        "lt"@ != "eq"@, "lt"@ != "ne"@, "lt"@ != "neq"@, "lt"@ != "contains"@, "lt"@ != "not-contains"@,
        "lt"@ != "gt"@, "lt"@ != "ge"@, "lt"@ != "gte"@,
        "le"@ != "eq"@, "le"@ != "ne"@, "le"@ != "neq"@, "le"@ != "contains"@, "le"@ != "not-contains"@,
        "le"@ != "gt"@, "le"@ != "ge"@, "le"@ != "gte"@, "le"@ != "lt"@,
        "lte"@ != "eq"@, "lte"@ != "ne"@, "lte"@ != "neq"@, "lte"@ != "contains"@, "lte"@ != "not-contains"@,
        "lte"@ != "gt"@, "lte"@ != "ge"@, "lte"@ != "gte"@, "lte"@ != "lt"@,
        "gt"@ != "eq"@, "gt"@ != "ne"@, "gt"@ != "neq"@, "gt"@ != "contains"@, "gt"@ != "not-contains"@,
        "ge"@ != "eq"@, "ge"@ != "ne"@, "ge"@ != "neq"@, "ge"@ != "contains"@, "ge"@ != "not-contains"@,
        "ge"@ != "gt"@,
        "gte"@ != "eq"@, "gte"@ != "ne"@, "gte"@ != "neq"@, "gte"@ != "contains"@, "gte"@ != "not-contains"@,
        "gte"@ != "gt"@, "gte"@ != "ge"@,
{
    reveal_strlit("eq");
    reveal_strlit("ne");
    reveal_strlit("neq");
    reveal_strlit("contains");
    reveal_strlit("not-contains");
    reveal_strlit("gt");
    reveal_strlit("ge");
    reveal_strlit("gte");
    reveal_strlit("lt");
    reveal_strlit("le");
    reveal_strlit("lte");
    assert("lt"@[0] != "eq"@[0]);
    assert("lt"@[0] != "ne"@[0]);
    assert("lt"@.len() != "neq"@.len());
    assert("lt"@[0] != "contains"@[0]);
    assert("lt"@[0] != "not-contains"@[0]);
    assert("lt"@[0] != "gt"@[0]);
    assert("lt"@[0] != "ge"@[0]);
    assert("lt"@[0] != "gte"@[0]);
    assert("le"@[0] != "eq"@[0]);
    assert("le"@[0] != "ne"@[0]);
    assert("le"@.len() != "neq"@.len());
    assert("le"@[0] != "contains"@[0]);
    assert("le"@[0] != "not-contains"@[0]);
    assert("le"@[0] != "gt"@[0]);
    assert("le"@[0] != "ge"@[0]);
    assert("le"@[0] != "gte"@[0]);
    assert("le"@[1] != "lt"@[1]);
    assert("lte"@.len() != "eq"@.len());
    assert("lte"@[0] != "ne"@[0]);
    assert("lte"@[0] != "neq"@[0]);
    assert("lte"@[0] != "contains"@[0]);
    assert("lte"@[0] != "not-contains"@[0]);
    assert("lte"@.len() != "gt"@.len());
    assert("lte"@.len() != "ge"@.len());
    assert("lte"@[0] != "gte"@[0]);
    assert("lte"@.len() != "lt"@.len());
    assert("gt"@[0] != "eq"@[0]);
    assert("gt"@[0] != "ne"@[0]);
    assert("gt"@.len() != "neq"@.len());
    assert("gt"@[0] != "contains"@[0]);
    assert("gt"@[0] != "not-contains"@[0]);
    assert("ge"@[0] != "eq"@[0]);
    assert("ge"@[0] != "ne"@[0]);
    assert("ge"@.len() != "neq"@.len());
    assert("ge"@[0] != "contains"@[0]);
    assert("ge"@[0] != "not-contains"@[0]);
    assert("ge"@[1] != "gt"@[1]);
    assert("gte"@.len() != "eq"@.len());
    assert("gte"@[0] != "ne"@[0]);
    assert("gte"@[0] != "neq"@[0]);
    assert("gte"@[0] != "contains"@[0]);
    assert("gte"@[0] != "not-contains"@[0]);
    assert("gte"@.len() != "gt"@.len());
    assert("gte"@.len() != "ge"@.len());
}

/// The ordering operators compare numerically: `lt` passes exactly when
/// the actual number is below the expected one, `le` / `lte` when it is
/// below or equal, `gt` above, `ge` / `gte` above or equal; a side that is
/// not a number fails them all. For two numbers, `le` passes exactly when
/// `gt` fails, `ge` exactly when `lt` fails, and `le` and `ge` both pass
/// exactly when the numbers are equal.
pub proof fn law_ordering_operators_compare_numbers(actual: Seq<char>, expected: Seq<char>, order: NumOrder)
    ensures
        compare_spec("lt"@, actual, expected, order) == (order == NumOrder::Less),
        compare_spec("le"@, actual, expected, order) == (order == NumOrder::Less || order == NumOrder::Equal),
        compare_spec("lte"@, actual, expected, order) == (order == NumOrder::Less || order == NumOrder::Equal),
        compare_spec("gt"@, actual, expected, order) == (order == NumOrder::Greater),
        compare_spec("ge"@, actual, expected, order) == (order == NumOrder::Greater || order == NumOrder::Equal),
        compare_spec("gte"@, actual, expected, order) == (order == NumOrder::Greater || order == NumOrder::Equal),
        order != NumOrder::Unordered ==> compare_spec("le"@, actual, expected, order) != compare_spec(
            "gt"@,
            actual,
            expected,
            order,
        ),
        order != NumOrder::Unordered ==> compare_spec("ge"@, actual, expected, order) != compare_spec(
            "lt"@,
            actual,
            expected,
            order,
        ),
        (compare_spec("le"@, actual, expected, order) && compare_spec("ge"@, actual, expected, order))
            == (order == NumOrder::Equal),
{
    lemma_operator_words_differ();
}

/// A status-code or response-time assertion under an ordering operator
/// compares the two whole numbers: given their numeric order, `le` / `lte`
/// passes exactly when the actual value is at most the expected one, `lt`
/// when below, `ge` / `gte` when at least, `gt` when above.
pub proof fn law_number_assertions_compare_values(
    a: Assertion,
    status: u16,
    time_ms: u64,
    headers: Seq<KeyValue>,
    parsed: Option<JsonValue>,
)
    requires
        a is StatusCode || a is Time,
    ensures
        ({
            let (op, actual, expected) = match a {
                Assertion::StatusCode { op, expected } => (op@, status as int, expected as int),
                Assertion::Time { op, expected_ms } => (op@, time_ms as int, expected_ms as int),
                _ => (Seq::<char>::empty(), 0int, 0int),
            };
            let passed = passed_spec(a, status, time_ms, headers, parsed, int_order(actual, expected));
            &&& (op == "le"@ || op == "lte"@) ==> (passed == (actual <= expected))
            &&& op == "lt"@ ==> (passed == (actual < expected))
            &&& (op == "ge"@ || op == "gte"@) ==> (passed == (actual >= expected))
            &&& op == "gt"@ ==> (passed == (actual > expected))
        }),
{
    lemma_operator_words_differ();
}

/// The comparison operators: `eq` passes exactly when the two texts are
/// the same, `ne` / `neq` exactly when `eq` fails, `contains` when the
/// expected text occurs in the actual one, `not-contains` exactly when
/// `contains` fails, and an operator with no meaning compares like `eq`.
pub proof fn law_text_operators(actual: Seq<char>, expected: Seq<char>, order: NumOrder, op: Seq<char>)
    ensures
        compare_spec("eq"@, actual, expected, order) == (actual == expected),
        compare_spec("ne"@, actual, expected, order) == !compare_spec("eq"@, actual, expected, order),
        compare_spec("neq"@, actual, expected, order) == !compare_spec("eq"@, actual, expected, order),
        compare_spec("contains"@, actual, expected, order) == (exists|i: int|
            0 <= i <= actual.len() - expected.len() && #[trigger] starts_at(actual, i, expected)),
        compare_spec("not-contains"@, actual, expected, order) == !compare_spec(
            "contains"@,
            actual,
            expected,
            order,
        ),
        op != "eq"@ && op != "ne"@ && op != "neq"@ && op != "contains"@ && op != "not-contains"@ && op
            != "gt"@ && op != "ge"@ && op != "gte"@ && op != "lt"@ && op != "le"@ && op != "lte"@ && op
            != "regex"@ ==> compare_spec(op, actual, expected, order) == (actual == expected),
{
    reveal_strlit("eq");
    reveal_strlit("ne");
    reveal_strlit("neq");
    reveal_strlit("contains");
    reveal_strlit("not-contains");
    assert("ne"@ != "eq"@) by {
        assert("ne"@[0] != "eq"@[0]);
    }
    assert("neq"@ != "eq"@) by {
        assert("neq"@[0] != "eq"@[0]);
    }
    assert("neq"@ != "ne"@) by {
        assert("neq"@.len() != "ne"@.len());
    }
    assert("contains"@ != "eq"@) by {
        assert("contains"@[0] != "eq"@[0]);
    }
    assert("contains"@ != "ne"@) by {
        assert("contains"@[0] != "ne"@[0]);
    }
    assert("contains"@ != "neq"@) by {
        assert("contains"@[0] != "neq"@[0]);
    }
    assert("not-contains"@ != "eq"@) by {
        assert("not-contains"@[0] != "eq"@[0]);
    }
    assert("not-contains"@ != "ne"@) by {
        assert("not-contains"@.len() != "ne"@.len());
    }
    assert("not-contains"@ != "neq"@) by {
        assert("not-contains"@.len() != "neq"@.len());
    }
    assert("not-contains"@ != "contains"@) by {
        assert("not-contains"@[0] != "contains"@[0]);
    }
}

} // verus!
