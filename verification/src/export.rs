//! The OpenAPI 3.0 export: each interface becomes an operation (parameters,
//! request body schema from its structure tree, security), gathered into a
//! document written as JSON or YAML.

use vstd::prelude::*;

use crate::domain::{json_body_is_empty, owned, str_eq, ApiParam, Auth, Body, BodyField, InterfaceFile};
use crate::json::{
    json_parse_result, json_pretty_text, lemma_jsons_of_push, lemma_members_of_push, members_of, jsons_of,
    parse_json_or_error, pretty_json, Json, JsonValue,
};
use crate::domain::{lowercase, to_lowercase};
use crate::imports::{schema_type_of, split_url};
use crate::openapi::{to_yaml, yaml_text};
use crate::imports::ExportOutcome;
use crate::schemas::contains_name;
use crate::text::join_exec;
use crate::text::{join, chars_of, extend_str, is_blank, string_of, string_views, trim, trim_chars};

verus! {

// ----- building values -----

/// A member when `cond` holds, nothing otherwise.
pub open spec fn opt_member(cond: bool, k: Seq<char>, v: Json) -> Seq<(Seq<char>, Json)> {
    if cond {
        seq![(k, v)]
    } else {
        Seq::empty()
    }
}

/// `{ "type": t }`.
pub open spec fn type_json(t: Seq<char>) -> Json {
    Json::Object(seq![("type"@, Json::Str(t))])
}

/// An object with no members yet.
fn new_members() -> (r: Vec<(String, JsonValue)>)
    ensures
        members_of(r@) == Seq::<(Seq<char>, Json)>::empty(),
{
    let r: Vec<(String, JsonValue)> = Vec::new();
    proof {
        assert(r@ =~= Seq::<(String, JsonValue)>::empty());
    }
    r
}

/// Appends the member `k: v`.
fn put(m: &mut Vec<(String, JsonValue)>, k: &str, v: JsonValue)
    ensures
        members_of(final(m)@) == members_of(old(m)@).push((k@, v@)),
{
    let ghost before = m@;
    m.push((owned(k), v));
    proof {
        lemma_members_of_push(before, m@.last());
        assert(m@ == before.push(m@.last()));
    }
}

/// An array with no elements yet.
fn new_elems() -> (r: Vec<JsonValue>)
    ensures
        jsons_of(r@) == Seq::<Json>::empty(),
{
    let r: Vec<JsonValue> = Vec::new();
    proof {
        assert(r@ =~= Seq::<JsonValue>::empty());
    }
    r
}

/// Appends the element `v`.
fn push_elem(a: &mut Vec<JsonValue>, v: JsonValue)
    ensures
        jsons_of(final(a)@) == jsons_of(old(a)@).push(v@),
{
    let ghost before = a@;
    a.push(v);
    proof {
        lemma_jsons_of_push(before, a@.last());
        assert(a@ == before.push(a@.last()));
    }
}

/// A JSON string.
fn text(s: &str) -> (r: JsonValue)
    ensures
        r@ == Json::Str(s@),
{
    JsonValue::String(owned(s))
}

/// `{ "type": t }`.
fn type_value(t: &str) -> (r: JsonValue)
    ensures
        r@ == type_json(t@),
{
    let mut m = new_members();
    put(&mut m, "type", text(t));
    proof {
        assert(members_of(m@) =~= seq![("type"@, Json::Str(t@))]);
    }
    JsonValue::Object(m)
}

// ----- schemas of structure trees -----

/// The JSON Schema of a structure node: objects list their properties
/// (children with a non-blank key) and required keys, arrays their item
/// schema, scalar types their type, anything else is a string with its
/// example; a description and a name (as `title`) are added when set.
pub open spec fn field_schema_json(f: BodyField) -> Json
    decreases f,
{
    let ft = f.field_type@;
    let base: Seq<(Seq<char>, Json)> = if ft == "object"@ {
        let props = {
            proof {
                assert(decreases_to!(f => f.children));
                assert(decreases_to!(f.children => f.children@));
            }
            child_props(f.children@)
        };
        let reqs = child_required(f.children@);
        seq![("type"@, Json::Str("object"@)), ("properties"@, Json::Object(props))] + opt_member(
            reqs.len() > 0,
            "required"@,
            Json::Array(reqs),
        )
    } else if ft == "array"@ {
        seq![("type"@, Json::Str("array"@))] + match f.items {
            Some(b) => {
                proof {
                    assert(decreases_to!(f => f.items));
                }
                seq![("items"@, field_schema_json(*b))]
            },
            None => Seq::empty(),
        }
    } else if ft == "integer"@ || ft == "number"@ || ft == "boolean"@ || ft == "null"@ {
        seq![("type"@, Json::Str(ft))]
    } else {
        seq![("type"@, Json::Str("string"@))] + opt_member(f.example@.len() > 0, "example"@, Json::Str(f.example@))
    };
    Json::Object(
        base + opt_member(f.description@.len() > 0, "description"@, Json::Str(f.description@)) + opt_member(
            f.name@.len() > 0,
            "title"@,
            Json::Str(f.name@),
        ),
    )
}

/// The properties of an object node: each child with a non-blank key.
pub open spec fn child_props(cs: Seq<BodyField>) -> Seq<(Seq<char>, Json)>
    decreases cs,
{
    if cs.len() == 0 {
        Seq::empty()
    } else {
        proof {
            assert(decreases_to!(cs => cs.subrange(0, cs.len() - 1)));
            assert(decreases_to!(cs => cs[cs.len() - 1]));
        }
        let rest = child_props(cs.drop_last());
        let c = cs.last();
        if trim(c.key@).len() == 0 {
            rest
        } else {
            rest.push((c.key@, field_schema_json(c)))
        }
    }
}

/// The required keys of an object node: each required child with a
/// non-blank key.
pub open spec fn child_required(cs: Seq<BodyField>) -> Seq<Json>
    decreases cs.len(),
{
    if cs.len() == 0 {
        Seq::empty()
    } else {
        let rest = child_required(cs.drop_last());
        let c = cs.last();
        if trim(c.key@).len() > 0 && c.required {
            rest.push(Json::Str(c.key@))
        } else {
            rest
        }
    }
}

/// `base` followed by a description and a title when set.
fn finish_schema(mut m: Vec<(String, JsonValue)>, f: &BodyField) -> (r: JsonValue)
    ensures
        r@ == Json::Object(members_of(m@) + opt_member(f.description@.len() > 0, "description"@, Json::Str(f.description@))
            + opt_member(f.name@.len() > 0, "title"@, Json::Str(f.name@))),
{
    let ghost base = members_of(m@);
    if f.description.as_str().unicode_len() > 0 {
        put(&mut m, "description", JsonValue::String(f.description.clone()));
    }
    let ghost mid = members_of(m@);
    proof {
        assert(mid =~= base + opt_member(f.description@.len() > 0, "description"@, Json::Str(f.description@)));
    }
    if f.name.as_str().unicode_len() > 0 {
        put(&mut m, "title", JsonValue::String(f.name.clone()));
    }
    proof {
        assert(members_of(m@) =~= mid + opt_member(f.name@.len() > 0, "title"@, Json::Str(f.name@)));
    }
    JsonValue::Object(m)
}

/// See `field_schema_json`.
pub fn schema_of_field(f: &BodyField) -> (r: JsonValue)
    ensures
        r@ == field_schema_json(*f),
    decreases f,
{
    let ft = f.field_type.as_str();
    let mut m = new_members();
    if str_eq(ft, "object") {
        let mut props = new_members();
        let mut reqs = new_elems();
        let mut i: usize = 0;
        proof {
            assert(f.children@.take(0) =~= Seq::<BodyField>::empty());
        }
        while i < f.children.len()
            invariant
                i <= f.children.len(),
                members_of(props@) == child_props(f.children@.take(i as int)),
                jsons_of(reqs@) == child_required(f.children@.take(i as int)),
            decreases f.children.len() - i,
        {
            proof {
                assert(f.children@.take(i + 1).drop_last() =~= f.children@.take(i as int));
                assert(f.children@.take(i + 1).last() == f.children@[i as int]);
                assert(decreases_to!(*f => f.children));
                assert(decreases_to!(f.children => f.children@));
                assert(decreases_to!(f.children@ => f.children@[i as int]));
            }
            let c = &f.children[i];
            if !is_blank(c.key.as_str()) {
                let sub = schema_of_field(c);
                let ghost before = props@;
                props.push((c.key.clone(), sub));
                proof {
                    lemma_members_of_push(before, props@.last());
                    assert(props@ == before.push(props@.last()));
                }
                if c.required {
                    push_elem(&mut reqs, JsonValue::String(c.key.clone()));
                }
            }
            i += 1;
        }
        proof {
            assert(f.children@.take(f.children.len() as int) =~= f.children@);
        }
        let has_required = reqs.len() > 0;
        proof {
            crate::json::lemma_jsons_of(reqs@);
        }
        put(&mut m, "type", text("object"));
        put(&mut m, "properties", JsonValue::Object(props));
        let ghost props_v = child_props(f.children@);
        let ghost reqs_v = child_required(f.children@);
        if has_required {
            put(&mut m, "required", JsonValue::Array(reqs));
        }
        proof {
            assert(members_of(m@) =~= seq![("type"@, Json::Str("object"@)), ("properties"@, Json::Object(props_v))]
                + opt_member(reqs_v.len() > 0, "required"@, Json::Array(reqs_v)));
        }
    } else if str_eq(ft, "array") {
        put(&mut m, "type", text("array"));
        match &f.items {
            Some(b) => {
                let sub = schema_of_field(b);
                put(&mut m, "items", sub);
                proof {
                    assert(members_of(m@) =~= seq![("type"@, Json::Str("array"@))] + seq![("items"@, field_schema_json(**b))]);
                }
            },
            None => {
                proof {
                    assert(members_of(m@) =~= seq![("type"@, Json::Str("array"@))] + Seq::<(Seq<char>, Json)>::empty());
                }
            },
        }
    } else if str_eq(ft, "integer") || str_eq(ft, "number") || str_eq(ft, "boolean") || str_eq(ft, "null") {
        put(&mut m, "type", JsonValue::String(f.field_type.clone()));
        proof {
            assert(members_of(m@) =~= seq![("type"@, Json::Str(f.field_type@))]);
        }
    } else {
        put(&mut m, "type", text("string"));
        if f.example.as_str().unicode_len() > 0 {
            put(&mut m, "example", JsonValue::String(f.example.clone()));
        }
        proof {
            assert(members_of(m@) =~= seq![("type"@, Json::Str("string"@))] + opt_member(f.example@.len() > 0, "example"@, Json::Str(f.example@)));
        }
    }
    let r = finish_schema(m, f);
    proof {
        assert(r@ =~= field_schema_json(*f));
    }
    r
}

// ----- operations -----

/// Send semantics of a parameter: enabled and with a non-blank name.
pub open spec fn active_param(p: ApiParam) -> bool {
    p.enabled && trim(p.key@).len() > 0
}

/// A parameter object: name, location, schema type, and `required`,
/// `description` and `example` when set.
pub open spec fn param_json(p: ApiParam, loc: Seq<char>) -> Json {
    Json::Object(
        seq![
            ("name"@, Json::Str(p.key@)),
            ("in"@, Json::Str(loc)),
            ("schema"@, type_json(crate::imports::schema_type_of_spec(p.param_type@))),
        ] + opt_member(p.required, "required"@, Json::Bool(true)) + opt_member(
            p.description@.len() > 0,
            "description"@,
            Json::Str(p.description@),
        ) + opt_member(p.example@.len() > 0, "example"@, Json::Str(p.example@)),
    )
}

/// A character with ASCII upper-case letters mapped to lower case.
pub open spec fn ascii_lower(c: char) -> int {
    let x = c as u32;
    if 65 <= x <= 90 {
        x + 32
    } else {
        x as int
    }
}

/// Equality up to ASCII case (`str::eq_ignore_ascii_case`).
pub open spec fn eq_ignore_ascii_case(a: Seq<char>, b: Seq<char>) -> bool {
    a.len() == b.len() && forall|i: int| 0 <= i < a.len() ==> #[trigger] ascii_lower(a[i]) == ascii_lower(b[i])
}

/// Headers the export leaves out: `Content-Type` and `Authorization`, in
/// any ASCII case.
pub open spec fn skipped_header(k: Seq<char>) -> bool {
    eq_ignore_ascii_case(k, "content-type"@) || eq_ignore_ascii_case(k, "authorization"@)
}

/// The parameter objects of the active query parameters, in order.
pub open spec fn query_params(q: Seq<ApiParam>) -> Seq<Json>
    decreases q.len(),
{
    if q.len() == 0 {
        Seq::empty()
    } else {
        let rest = query_params(q.drop_last());
        if active_param(q.last()) {
            rest.push(param_json(q.last(), "query"@))
        } else {
            rest
        }
    }
}

/// The parameter objects of the active headers, in order, but for
/// `Content-Type` and `Authorization`.
pub open spec fn header_params(h: Seq<ApiParam>) -> Seq<Json>
    decreases h.len(),
{
    if h.len() == 0 {
        Seq::empty()
    } else {
        let rest = header_params(h.drop_last());
        if active_param(h.last()) && !skipped_header(h.last().key@) {
            rest.push(param_json(h.last(), "header"@))
        } else {
            rest
        }
    }
}

/// `s` with the member `k: v` added, when it is an object.
pub open spec fn with_member(s: Json, k: Seq<char>, v: Json) -> Json {
    match s {
        Json::Object(m) => Json::Object(m.push((k, v))),
        _ => s,
    }
}

/// The schema of a JSON body: from its structure tree when that has
/// content, with the body text (when it is non-blank JSON other than
/// `null`) as `example`; otherwise the body text itself as JSON, `{}` when
/// it is not JSON.
pub open spec fn json_request_schema(b: Body) -> Json {
    if !json_body_is_empty(b.json.root) {
        let s = field_schema_json(b.json.root);
        if trim(b.content@).len() > 0 {
            match json_parse_result(b.content@) {
                Ok(ex) => if ex is Null {
                    s
                } else {
                    with_member(s, "example"@, ex@)
                },
                Err(_) => s,
            }
        } else {
            s
        }
    } else {
        match json_parse_result(b.content@) {
            Ok(v) => v@,
            Err(_) => Json::Object(Seq::empty()),
        }
    }
}

/// `{ "content": { media: { "schema": schema } } }`.
pub open spec fn body_content(media: Seq<char>, schema: Json) -> Json {
    Json::Object(seq![("content"@, Json::Object(seq![(media, Json::Object(seq![("schema"@, schema)]))]))])
}

/// The `requestBody` of a body: JSON bodies with their schema, raw bodies
/// as a string of their content type, nothing for the other modes.
pub open spec fn request_body_members(b: Body) -> Seq<(Seq<char>, Json)> {
    if b.mode@ == "json"@ {
        seq![("requestBody"@, body_content("application/json"@, json_request_schema(b)))]
    } else if b.mode@ == "raw"@ {
        seq![("requestBody"@, body_content(b.content_type@, type_json("string"@)))]
    } else {
        Seq::empty()
    }
}

/// `[ { name: [] } ]`.
pub open spec fn requirement(name: Seq<char>) -> Json {
    Json::Array(seq![Json::Object(seq![(name, Json::Array(Seq::empty()))])])
}

/// The `security` of an authentication kind: the exported bearer or basic
/// scheme; nothing for the other kinds.
pub open spec fn security_members(kind: Seq<char>) -> Seq<(Seq<char>, Json)> {
    if kind == "bearer"@ {
        seq![("security"@, requirement("apidock_bearer"@))]
    } else if kind == "basic"@ {
        seq![("security"@, requirement("apidock_basic"@))]
    } else {
        Seq::empty()
    }
}

/// The operation of an interface: `<project>-<key>` as id, its name as
/// summary, its parameters, a `200` response, its description when set,
/// its request body and its security.
pub open spec fn operation_json(f: InterfaceFile, proj: Seq<char>, key: Seq<char>) -> Json {
    Json::Object(
        seq![
            ("operationId"@, Json::Str(proj + "-"@ + key)),
            ("summary"@, Json::Str(f.name@)),
            ("parameters"@, Json::Array(query_params(f.query@) + header_params(f.headers@))),
            ("responses"@, Json::Object(seq![("200"@, Json::Object(seq![("description"@, Json::Str("成功"@))]))])),
        ] + opt_member(f.description@.len() > 0, "description"@, Json::Str(f.description@))
            + request_body_members(f.body) + security_members(f.auth.kind@),
    )
}

/// The export of one interface: lower-case method, path (`/` when empty),
/// operation, and the scheme and host of its URL when it has them.
pub open spec fn interface_operation(f: InterfaceFile, proj: Seq<char>, key: Seq<char>) -> (Seq<char>, Seq<char>, Json, Option<Seq<char>>) {
    let split = crate::imports::split_url_spec(trim(f.url@));
    (
        lowercase(f.method@),
        if split.0.len() == 0 {
            "/"@
        } else {
            split.0
        },
        operation_json(f, proj, key),
        split.1,
    )
}

/// The warning of an interface with an empty URL.
pub open spec fn url_warnings(f: InterfaceFile) -> Seq<Seq<char>> {
    if trim(f.url@).len() == 0 {
        seq!["接口 "@ + f.name@ + " 的 URL 为空"@]
    } else {
        Seq::empty()
    }
}

/// The optional text of an optional string.
pub open spec fn opt_str(o: Option<String>) -> Option<Seq<char>> {
    match o {
        Some(t) => Some(t@),
        None => None,
    }
}

/// See `eq_ignore_ascii_case`.
fn eq_ignore_case(a: &str, b: &str) -> (r: bool)
    ensures
        r == eq_ignore_ascii_case(a@, b@),
{
    let x = chars_of(a);
    let y = chars_of(b);
    if x.len() != y.len() {
        return false;
    }
    let mut i: usize = 0;
    while i < x.len()
        invariant
            x@ == a@,
            y@ == b@,
            x.len() == y.len(),
            i <= x.len(),
            forall|j: int| 0 <= j < i ==> #[trigger] ascii_lower(x@[j]) == ascii_lower(y@[j]),
        decreases x.len() - i,
    {
        let c = x[i] as u32;
        let d = y[i] as u32;
        let lc: u32 = if 65 <= c && c <= 90 {
            c + 32
        } else {
            c
        };
        let ld: u32 = if 65 <= d && d <= 90 {
            d + 32
        } else {
            d
        };
        if lc != ld {
            proof {
                assert(ascii_lower(x@[i as int]) != ascii_lower(y@[i as int]));
            }
            return false;
        }
        i += 1;
    }
    true
}

/// See `param_json`.
fn param_value(p: &ApiParam, loc: &str) -> (r: JsonValue)
    ensures
        r@ == param_json(*p, loc@),
{
    let mut m = new_members();
    put(&mut m, "name", JsonValue::String(p.key.clone()));
    put(&mut m, "in", text(loc));
    let t = schema_type_of(p.param_type.as_str());
    put(&mut m, "schema", type_value(t.as_str()));
    let ghost base = members_of(m@);
    proof {
        assert(base =~= seq![
            ("name"@, Json::Str(p.key@)),
            ("in"@, Json::Str(loc@)),
            ("schema"@, type_json(crate::imports::schema_type_of_spec(p.param_type@))),
        ]);
    }
    if p.required {
        put(&mut m, "required", JsonValue::Bool(true));
    }
    let ghost m1 = members_of(m@);
    if p.description.as_str().unicode_len() > 0 {
        put(&mut m, "description", JsonValue::String(p.description.clone()));
    }
    let ghost m2 = members_of(m@);
    if p.example.as_str().unicode_len() > 0 {
        put(&mut m, "example", JsonValue::String(p.example.clone()));
    }
    proof {
        assert(m1 =~= base + opt_member(p.required, "required"@, Json::Bool(true)));
        assert(m2 =~= m1 + opt_member(p.description@.len() > 0, "description"@, Json::Str(p.description@)));
        assert(members_of(m@) =~= m2 + opt_member(p.example@.len() > 0, "example"@, Json::Str(p.example@)));
    }
    JsonValue::Object(m)
}

/// The parameter objects of an interface (see `query_params` and
/// `header_params`).
fn parameters_value(f: &InterfaceFile) -> (r: JsonValue)
    ensures
        r@ == Json::Array(query_params(f.query@) + header_params(f.headers@)),
{
    let mut out = new_elems();
    let mut i: usize = 0;
    proof {
        assert(f.query@.take(0) =~= Seq::<ApiParam>::empty());
    }
    while i < f.query.len()
        invariant
            i <= f.query.len(),
            jsons_of(out@) == query_params(f.query@.take(i as int)),
        decreases f.query.len() - i,
    {
        proof {
            assert(f.query@.take(i + 1).drop_last() =~= f.query@.take(i as int));
        }
        let p = &f.query[i];
        if p.is_active() {
            push_elem(&mut out, param_value(p, "query"));
        }
        i += 1;
    }
    proof {
        assert(f.query@.take(f.query.len() as int) =~= f.query@);
    }
    let ghost qs = jsons_of(out@);
    let mut j: usize = 0;
    proof {
        assert(f.headers@.take(0) =~= Seq::<ApiParam>::empty());
        assert(qs + header_params(f.headers@.take(0)) =~= qs);
    }
    while j < f.headers.len()
        invariant
            j <= f.headers.len(),
            qs == query_params(f.query@),
            jsons_of(out@) == qs + header_params(f.headers@.take(j as int)),
        decreases f.headers.len() - j,
    {
        proof {
            assert(f.headers@.take(j + 1).drop_last() =~= f.headers@.take(j as int));
        }
        let h = &f.headers[j];
        if h.is_active() && !eq_ignore_case(h.key.as_str(), "content-type") && !eq_ignore_case(h.key.as_str(), "authorization") {
            let ghost before = jsons_of(out@);
            push_elem(&mut out, param_value(h, "header"));
            proof {
                assert(jsons_of(out@) =~= qs + header_params(f.headers@.take(j + 1)));
            }
        }
        j += 1;
    }
    proof {
        assert(f.headers@.take(f.headers.len() as int) =~= f.headers@);
    }
    JsonValue::Array(out)
}

/// See `json_request_schema`.
fn request_schema(b: &Body) -> (r: JsonValue)
    ensures
        r@ == json_request_schema(*b),
{
    if !b.json.is_empty() {
        let s = schema_of_field(&b.json.root);
        if !is_blank(b.content.as_str()) {
            match parse_json_or_error(b.content.as_str()) {
                Ok(ex) => match ex {
                    JsonValue::Null => s,
                    _ => match s {
                        JsonValue::Object(mut m) => {
                            put(&mut m, "example", ex);
                            JsonValue::Object(m)
                        },
                        other => other,
                    },
                },
                Err(_) => s,
            }
        } else {
            s
        }
    } else {
        match parse_json_or_error(b.content.as_str()) {
            Ok(v) => v,
            Err(_) => JsonValue::Object(new_members()),
        }
    }
}

/// See `body_content`.
fn body_content_value(media: String, schema: JsonValue) -> (r: JsonValue)
    ensures
        r@ == body_content(media@, schema@),
{
    let mut inner = new_members();
    put(&mut inner, "schema", schema);
    let mut by_media = new_members();
    let ghost before = by_media@;
    by_media.push((media, JsonValue::Object(inner)));
    proof {
        lemma_members_of_push(before, by_media@.last());
        assert(by_media@ == before.push(by_media@.last()));
    }
    let mut outer = new_members();
    put(&mut outer, "content", JsonValue::Object(by_media));
    proof {
        assert(members_of(inner@) =~= seq![("schema"@, schema@)]);
        assert(members_of(by_media@) =~= seq![(media@, Json::Object(seq![("schema"@, schema@)]))]);
        assert(members_of(outer@) =~= seq![("content"@, Json::Object(seq![(media@, Json::Object(seq![("schema"@, schema@)]))]))]);
    }
    JsonValue::Object(outer)
}

/// See `requirement`.
fn requirement_value(name: &str) -> (r: JsonValue)
    ensures
        r@ == requirement(name@),
{
    let mut m = new_members();
    put(&mut m, name, JsonValue::Array(new_elems()));
    let mut a = new_elems();
    push_elem(&mut a, JsonValue::Object(m));
    proof {
        assert(members_of(m@) =~= seq![(name@, Json::Array(Seq::empty()))]);
        assert(jsons_of(a@) =~= seq![Json::Object(seq![(name@, Json::Array(Seq::empty()))])]);
    }
    JsonValue::Array(a)
}

/// See `operation_json`.
fn operation_value(f: &InterfaceFile, proj: &str, key: &str) -> (r: JsonValue)
    ensures
        r@ == operation_json(*f, proj@, key@),
{
    let mut m = new_members();
    let mut id = chars_of(proj);
    extend_str(&mut id, "-");
    extend_str(&mut id, key);
    put(&mut m, "operationId", JsonValue::String(string_of(&id)));
    put(&mut m, "summary", JsonValue::String(f.name.clone()));
    put(&mut m, "parameters", parameters_value(f));
    let mut ok = new_members();
    put(&mut ok, "description", text("成功"));
    let mut responses = new_members();
    put(&mut responses, "200", JsonValue::Object(ok));
    put(&mut m, "responses", JsonValue::Object(responses));
    proof {
        assert(members_of(ok@) =~= seq![("description"@, Json::Str("成功"@))]);
        assert(members_of(responses@) =~= seq![("200"@, Json::Object(seq![("description"@, Json::Str("成功"@))]))]);
    }
    let ghost m0 = members_of(m@);
    proof {
        assert(m0 =~= seq![
            ("operationId"@, Json::Str(proj@ + "-"@ + key@)),
            ("summary"@, Json::Str(f.name@)),
            ("parameters"@, Json::Array(query_params(f.query@) + header_params(f.headers@))),
            ("responses"@, Json::Object(seq![("200"@, Json::Object(seq![("description"@, Json::Str("成功"@))]))])),
        ]);
    }
    if f.description.as_str().unicode_len() > 0 {
        put(&mut m, "description", JsonValue::String(f.description.clone()));
    }
    let ghost m1 = members_of(m@);
    let mode = f.body.mode.as_str();
    if str_eq(mode, "json") {
        put(&mut m, "requestBody", body_content_value(owned("application/json"), request_schema(&f.body)));
    } else if str_eq(mode, "raw") {
        put(&mut m, "requestBody", body_content_value(f.body.content_type.clone(), type_value("string")));
    }
    let ghost m2 = members_of(m@);
    let kind = f.auth.kind.as_str();
    if str_eq(kind, "bearer") {
        put(&mut m, "security", requirement_value("apidock_bearer"));
    } else if str_eq(kind, "basic") {
        put(&mut m, "security", requirement_value("apidock_basic"));
    }
    proof {
        assert(m1 =~= m0 + opt_member(f.description@.len() > 0, "description"@, Json::Str(f.description@)));
        assert(m2 =~= m1 + request_body_members(f.body));
        assert(members_of(m@) =~= m2 + security_members(f.auth.kind@));
    }
    JsonValue::Object(m)
}

/// The export of one interface (see `interface_operation`); the warning of
/// an empty URL (see `url_warnings`) is added to `warnings`.
pub fn build_interface_operation(iface: &InterfaceFile, proj: &str, key: &str, warnings: &mut Vec<String>) -> (r: (String, String, JsonValue, Option<String>))
    ensures
        (r.0@, r.1@, r.2@, opt_str(r.3)) == interface_operation(*iface, proj@, key@),
        string_views(final(warnings)@) == string_views(old(warnings)@) + url_warnings(*iface),
{
    let trimmed = string_of(&trim_chars(iface.url.as_str()));
    let (p, host) = split_url(trimmed.as_str());
    let path = if p.as_str().unicode_len() == 0 {
        owned("/")
    } else {
        p
    };
    let operation = operation_value(iface, proj, key);
    let ghost before = string_views(warnings@);
    if trimmed.as_str().unicode_len() == 0 {
        let mut w = chars_of("接口 ");
        extend_str(&mut w, iface.name.as_str());
        extend_str(&mut w, " 的 URL 为空");
        warnings.push(string_of(&w));
        proof {
            assert(string_views(warnings@) =~= before + url_warnings(*iface));
        }
    } else {
        proof {
            assert(string_views(warnings@) =~= before + url_warnings(*iface));
        }
    }
    (to_lowercase(iface.method.as_str()), path, operation, host)
}

// ----- documents -----

/// The `servers` list: one `{ "url": host }` per host.
pub open spec fn servers_json(hosts: Seq<Seq<char>>) -> Seq<Json> {
    hosts.map_values(|h: Seq<char>| Json::Object(seq![("url"@, Json::Str(h))]))
}

/// `{ "type": "http", "scheme": scheme }`.
pub open spec fn http_scheme(scheme: Seq<char>) -> Json {
    Json::Object(seq![("type"@, Json::Str("http"@)), ("scheme"@, Json::Str(scheme))])
}

/// An OpenAPI 3.0.3 document: its title (version `1.0.0`), paths, the
/// bearer and basic security schemes, and the servers when there are hosts.
pub open spec fn document_json(title: Seq<char>, paths: Seq<(Seq<char>, Json)>, hosts: Seq<Seq<char>>) -> Json {
    Json::Object(
        seq![
            ("openapi"@, Json::Str("3.0.3"@)),
            ("info"@, Json::Object(seq![("title"@, Json::Str(title)), ("version"@, Json::Str("1.0.0"@))])),
            ("paths"@, Json::Object(paths)),
            ("components"@, Json::Object(seq![("securitySchemes"@, Json::Object(seq![
                ("apidock_bearer"@, http_scheme("bearer"@)),
                ("apidock_basic"@, http_scheme("basic"@)),
            ]))])),
        ] + opt_member(hosts.len() > 0, "servers"@, Json::Array(servers_json(hosts))),
    )
}

/// The document written as YAML or pretty JSON, or the error.
pub open spec fn document_text(title: Seq<char>, paths: Seq<(Seq<char>, Json)>, hosts: Seq<Seq<char>>, want_yaml: bool) -> Result<Seq<char>, Seq<char>> {
    let d = document_json(title, paths, hosts);
    if want_yaml {
        match yaml_text(d) {
            Ok(t) => Ok(t),
            Err(e) => Err("YAML 序列化失败："@ + e),
        }
    } else {
        match json_pretty_text(d) {
            Ok(t) => Ok(t),
            Err(e) => Err("JSON 序列化失败："@ + e),
        }
    }
}

/// The index of the path `p`, if present.
pub open spec fn path_index(paths: Seq<(Seq<char>, Json)>, p: Seq<char>) -> Option<int>
    decreases paths.len(),
{
    if paths.len() == 0 {
        None
    } else if paths.last().0 == p {
        Some(paths.len() - 1)
    } else {
        path_index(paths.drop_last(), p)
    }
}

/// `paths` with the operation added, by method, to the object of its path
/// (a new path goes last).
pub open spec fn add_operation(paths: Seq<(Seq<char>, Json)>, p: Seq<char>, method: Seq<char>, op: Json) -> Seq<(Seq<char>, Json)> {
    match path_index(paths, p) {
        Some(i) => match paths[i].1 {
            Json::Object(m) => paths.update(i, (p, Json::Object(m.push((method, op))))),
            _ => paths,
        },
        None => paths.push((p, Json::Object(seq![(method, op)]))),
    }
}

/// `hosts` with `h` added when it is new.
pub open spec fn add_host(hosts: Seq<Seq<char>>, h: Option<Seq<char>>) -> Seq<Seq<char>> {
    match h {
        Some(x) => if hosts.contains(x) {
            hosts
        } else {
            hosts.push(x)
        },
        None => hosts,
    }
}

/// The last interface stored under the group path (joined with `/`) and
/// key.
pub open spec fn find_iface(all: Seq<(Vec<String>, String, InterfaceFile)>, path: Seq<char>, key: Seq<char>) -> Option<InterfaceFile>
    decreases all.len(),
{
    if all.len() == 0 {
        None
    } else if join(string_views(all.last().0@), "/"@) == path && all.last().1@ == key {
        Some(all.last().2)
    } else {
        find_iface(all.drop_last(), path, key)
    }
}

/// The paths, hosts and warnings gathered by an export.
pub struct ExportState {
    pub paths: Seq<(Seq<char>, Json)>,
    pub hosts: Seq<Seq<char>>,
    pub warnings: Seq<Seq<char>>,
}

/// What exporting one more interface adds.
pub open spec fn export_step(st: ExportState, f: InterfaceFile, proj: Seq<char>, key: Seq<char>) -> ExportState {
    let (m, p, op, host) = interface_operation(f, proj, key);
    ExportState {
        paths: add_operation(st.paths, p, m, op),
        hosts: add_host(st.hosts, host),
        warnings: st.warnings + url_warnings(f),
    }
}

/// The export of the interfaces named by `refs` (group path, key), each
/// looked up in `all`; a reference with no interface is skipped.
pub open spec fn export_state(refs: Seq<(Vec<String>, String)>, all: Seq<(Vec<String>, String, InterfaceFile)>, proj: Seq<char>) -> ExportState
    decreases refs.len(),
{
    if refs.len() == 0 {
        ExportState { paths: Seq::empty(), hosts: Seq::empty(), warnings: Seq::empty() }
    } else {
        let st = export_state(refs.drop_last(), all, proj);
        let r = refs.last();
        match find_iface(all, join(string_views(r.0@), "/"@), r.1@) {
            Some(f) => export_step(st, f, proj, r.1@),
            None => st,
        }
    }
}

/// The document text and warnings of a state, or the error.
pub open spec fn export_result(title: Seq<char>, st: ExportState, want_yaml: bool) -> Result<(Seq<char>, Seq<Seq<char>>), Seq<char>> {
    match document_text(title, st.paths, st.hosts, want_yaml) {
        Ok(t) => Ok((t, st.warnings)),
        Err(e) => Err(e),
    }
}

/// See `document_text`.
fn openapi_doc(title: &str, paths: Vec<(String, JsonValue)>, hosts: &Vec<String>, want_yaml: bool) -> (r: Result<String, String>)
    ensures
        match r {
            Ok(t) => document_text(title@, members_of(paths@), string_views(hosts@), want_yaml) == Ok::<Seq<char>, Seq<char>>(t@),
            Err(e) => document_text(title@, members_of(paths@), string_views(hosts@), want_yaml) == Err::<Seq<char>, Seq<char>>(e@),
        },
{
    let ghost pv = members_of(paths@);
    let pm = paths;
    let mut doc = new_members();
    put(&mut doc, "openapi", text("3.0.3"));
    let mut info = new_members();
    put(&mut info, "title", text(title));
    put(&mut info, "version", text("1.0.0"));
    put(&mut doc, "info", JsonValue::Object(info));
    put(&mut doc, "paths", JsonValue::Object(pm));
    let mut schemes = new_members();
    put(&mut schemes, "apidock_bearer", http_scheme_value("bearer"));
    put(&mut schemes, "apidock_basic", http_scheme_value("basic"));
    let mut components = new_members();
    put(&mut components, "securitySchemes", JsonValue::Object(schemes));
    put(&mut doc, "components", JsonValue::Object(components));
    let ghost d0 = members_of(doc@);
    proof {
        assert(members_of(info@) =~= seq![("title"@, Json::Str(title@)), ("version"@, Json::Str("1.0.0"@))]);
        assert(members_of(schemes@) =~= seq![("apidock_bearer"@, http_scheme("bearer"@)), ("apidock_basic"@, http_scheme("basic"@))]);
        assert(members_of(components@) =~= seq![("securitySchemes"@, Json::Object(seq![
            ("apidock_bearer"@, http_scheme("bearer"@)),
            ("apidock_basic"@, http_scheme("basic"@)),
        ]))]);
        assert(d0 =~= seq![
            ("openapi"@, Json::Str("3.0.3"@)),
            ("info"@, Json::Object(seq![("title"@, Json::Str(title@)), ("version"@, Json::Str("1.0.0"@))])),
            ("paths"@, Json::Object(pv)),
            ("components"@, Json::Object(seq![("securitySchemes"@, Json::Object(seq![
                ("apidock_bearer"@, http_scheme("bearer"@)),
                ("apidock_basic"@, http_scheme("basic"@)),
            ]))])),
        ]);
    }
    if hosts.len() > 0 {
        let mut servers = new_elems();
        let mut k: usize = 0;
        while k < hosts.len()
            invariant
                k <= hosts.len(),
                jsons_of(servers@) == servers_json(string_views(hosts@)).take(k as int),
            decreases hosts.len() - k,
        {
            let mut s = new_members();
            put(&mut s, "url", JsonValue::String(hosts[k].clone()));
            let ghost before = jsons_of(servers@);
            push_elem(&mut servers, JsonValue::Object(s));
            proof {
                assert(members_of(s@) =~= seq![("url"@, Json::Str(hosts@[k as int]@))]);
                assert(servers_json(string_views(hosts@)).take(k + 1) =~= before.push(Json::Object(seq![("url"@, Json::Str(hosts@[k as int]@))])));
            }
            k += 1;
        }
        proof {
            assert(servers_json(string_views(hosts@)).take(hosts.len() as int) =~= servers_json(string_views(hosts@)));
        }
        put(&mut doc, "servers", JsonValue::Array(servers));
    }
    proof {
        assert(members_of(doc@) =~= d0 + opt_member(hosts@.len() > 0, "servers"@, Json::Array(servers_json(string_views(hosts@)))));
        assert(JsonValue::Object(doc)@ == document_json(title@, pv, string_views(hosts@)));
    }
    let d = JsonValue::Object(doc);
    if want_yaml {
        match to_yaml(&d) {
            Ok(t) => Ok(t),
            Err(e) => Err(prefixed("YAML 序列化失败：", e.as_str())),
        }
    } else {
        match pretty_json(&d) {
            Ok(t) => Ok(t),
            Err(e) => Err(prefixed("JSON 序列化失败：", e.as_str())),
        }
    }
}

/// See `http_scheme`.
fn http_scheme_value(scheme: &str) -> (r: JsonValue)
    ensures
        r@ == http_scheme(scheme@),
{
    let mut m = new_members();
    put(&mut m, "type", text("http"));
    put(&mut m, "scheme", text(scheme));
    proof {
        assert(members_of(m@) =~= seq![("type"@, Json::Str("http"@)), ("scheme"@, Json::Str(scheme@))]);
    }
    JsonValue::Object(m)
}

/// `prefix` followed by `e`.
fn prefixed(prefix: &str, e: &str) -> (r: String)
    ensures
        r@ == prefix@ + e@,
{
    let mut v = chars_of(prefix);
    extend_str(&mut v, e);
    string_of(&v)
}

// ----- exporting -----

/// The state before any interface is exported.
pub open spec fn empty_state() -> ExportState {
    ExportState { paths: Seq::empty(), hosts: Seq::empty(), warnings: Seq::empty() }
}

/// See `add_operation`.
fn add_operation_exec(paths: &mut Vec<(String, JsonValue)>, p: String, method: String, op: JsonValue)
    ensures
        members_of(final(paths)@) == add_operation(members_of(old(paths)@), p@, method@, op@),
{
    let ghost mv = members_of(paths@);
    proof {
        crate::json::lemma_members_of(paths@);
        assert(mv.take(paths.len() as int) =~= mv);
    }
    let mut i: usize = paths.len();
    while i > 0 && !str_eq(paths[i - 1].0.as_str(), p.as_str())
        invariant
            i <= paths.len(),
            mv == members_of(paths@),
            mv.len() == paths@.len(),
            forall|j: int| 0 <= j < paths@.len() ==> #[trigger] mv[j] == (paths@[j].0@, paths@[j].1@),
            path_index(mv, p@) == path_index(mv.take(i as int), p@),
        decreases i,
    {
        proof {
            assert(mv.take(i as int).drop_last() =~= mv.take(i - 1));
            assert(mv.take(i as int).last() == mv[i - 1]);
        }
        i -= 1;
    }
    if i == 0 {
        proof {
            assert(mv.take(0) =~= Seq::<(Seq<char>, Json)>::empty());
        }
        let mut m = new_members();
        let ghost mm = members_of(m@);
        let ghost e = (method@, op@);
        m.push((method, op));
        proof {
            lemma_members_of_push(Seq::empty(), m@.last());
            assert(m@ =~= Seq::<(String, JsonValue)>::empty().push(m@.last()));
            assert(members_of(m@) =~= seq![e]);
        }
        let ghost before = paths@;
        paths.push((p, JsonValue::Object(m)));
        proof {
            lemma_members_of_push(before, paths@.last());
            assert(paths@ == before.push(paths@.last()));
        }
    } else {
        let k = i - 1;
        proof {
            assert(mv.take(i as int).last() == mv[k as int]);
            assert(mv[k as int].0 == p@);
            assert(path_index(mv, p@) == Some(k as int));
        }
        let ghost before = paths@;
        let (key, v) = paths.remove(k);
        match v {
            JsonValue::Object(mut m) => {
                let ghost old_m = members_of(m@);
                let ghost e = (method@, op@);
                let ghost mb = m@;
                m.push((method, op));
                proof {
                    lemma_members_of_push(mb, m@.last());
                    assert(m@ == mb.push(m@.last()));
                }
                paths.insert(k, (key, JsonValue::Object(m)));
                proof {
                    crate::json::lemma_members_of(paths@);
                    assert(paths@ =~= before.update(k as int, paths@[k as int]));
                    assert(before[k as int].1@ == Json::Object(old_m));
                    assert(mv[k as int].1 == Json::Object(old_m));
                    assert(members_of(paths@) =~= mv.update(k as int, (p@, Json::Object(old_m.push(e)))));
                }
            },
            other => {
                paths.insert(k, (key, other));
                proof {
                    crate::json::lemma_members_of(paths@);
                    assert(paths@ =~= before);
                }
            },
        }
    }
}

/// See `add_host`.
fn add_host_exec(hosts: &mut Vec<String>, h: Option<String>)
    ensures
        string_views(final(hosts)@) == add_host(string_views(old(hosts)@), opt_str(h)),
{
    match h {
        Some(x) => {
            if !contains_name(hosts, &x) {
                let ghost before = string_views(hosts@);
                hosts.push(x);
                proof {
                    assert(string_views(hosts@) =~= before.push(x@));
                }
            }
        },
        None => {},
    }
}

/// See `find_iface`.
fn find_iface_exec<'a>(all: &'a Vec<(Vec<String>, String, InterfaceFile)>, path: &String, key: &String) -> (r: Option<&'a InterfaceFile>)
    ensures
        match r {
            Some(f) => find_iface(all@, path@, key@) == Some(*f),
            None => find_iface(all@, path@, key@).is_none(),
        },
{
    let mut i: usize = all.len();
    proof {
        assert(all@.take(all.len() as int) =~= all@);
    }
    while i > 0
        invariant
            i <= all.len(),
            find_iface(all@, path@, key@) == find_iface(all@.take(i as int), path@, key@),
        decreases i,
    {
        proof {
            assert(all@.take(i as int).drop_last() =~= all@.take(i - 1));
            assert(all@.take(i as int).last() == all@[i - 1]);
        }
        let joined = join_exec(&all[i - 1].0, "/");
        if str_eq(joined.as_str(), path.as_str()) && str_eq(all[i - 1].1.as_str(), key.as_str()) {
            return Some(&all[i - 1].2);
        }
        i -= 1;
    }
    proof {
        assert(all@.take(0) =~= Seq::<(Vec<String>, String, InterfaceFile)>::empty());
    }
    None
}

/// Exports the interfaces named by `refs` (group path and key, in tree
/// order), each looked up in `all` (group path, key, interface; the last
/// entry wins), as one OpenAPI document titled `title`, with the warnings
/// of interfaces with an empty URL.
pub fn export_document(
    title: &str,
    proj: &str,
    refs: &Vec<(Vec<String>, String)>,
    all: &Vec<(Vec<String>, String, InterfaceFile)>,
    want_yaml: bool,
) -> (r: Result<ExportOutcome, String>)
    ensures
        match r {
            Ok(o) => export_result(title@, export_state(refs@, all@, proj@), want_yaml) == Ok::<(Seq<char>, Seq<Seq<char>>), Seq<char>>((o.content@, string_views(o.warnings@))),
            Err(e) => export_result(title@, export_state(refs@, all@, proj@), want_yaml) == Err::<(Seq<char>, Seq<Seq<char>>), Seq<char>>(e@),
        },
{
    let mut paths = new_members();
    let mut hosts: Vec<String> = Vec::new();
    let mut warnings: Vec<String> = Vec::new();
    let mut i: usize = 0;
    proof {
        assert(refs@.take(0) =~= Seq::<(Vec<String>, String)>::empty());
        assert(string_views(hosts@) =~= Seq::<Seq<char>>::empty());
        assert(string_views(warnings@) =~= Seq::<Seq<char>>::empty());
    }
    while i < refs.len()
        invariant
            i <= refs.len(),
            ({
                let st = export_state(refs@.take(i as int), all@, proj@);
                &&& members_of(paths@) == st.paths
                &&& string_views(hosts@) == st.hosts
                &&& string_views(warnings@) == st.warnings
            }),
        decreases refs.len() - i,
    {
        proof {
            assert(refs@.take(i + 1).drop_last() =~= refs@.take(i as int));
            assert(refs@.take(i + 1).last() == refs@[i as int]);
        }
        let path = join_exec(&refs[i].0, "/");
        match find_iface_exec(all, &path, &refs[i].1) {
            Some(f) => {
                let (m, p, op, host) = build_interface_operation(f, proj, refs[i].1.as_str(), &mut warnings);
                add_operation_exec(&mut paths, p, m, op);
                add_host_exec(&mut hosts, host);
            },
            None => {},
        }
        i += 1;
    }
    proof {
        assert(refs@.take(refs.len() as int) =~= refs@);
    }
    match openapi_doc(title, paths, &hosts, want_yaml) {
        Ok(content) => Ok(ExportOutcome { content, warnings }),
        Err(e) => Err(e),
    }
}

/// Exports one interface, stored under `key`, as an OpenAPI document titled
/// `title` with a single path.
pub fn export_interface_document(title: &str, proj: &str, iface: &InterfaceFile, key: &str, want_yaml: bool) -> (r: Result<ExportOutcome, String>)
    ensures
        match r {
            Ok(o) => export_result(title@, export_step(empty_state(), *iface, proj@, key@), want_yaml) == Ok::<(Seq<char>, Seq<Seq<char>>), Seq<char>>((o.content@, string_views(o.warnings@))),
            Err(e) => export_result(title@, export_step(empty_state(), *iface, proj@, key@), want_yaml) == Err::<(Seq<char>, Seq<Seq<char>>), Seq<char>>(e@),
        },
{
    let mut warnings: Vec<String> = Vec::new();
    proof {
        assert(string_views(warnings@) =~= Seq::<Seq<char>>::empty());
    }
    let (m, p, op, host) = build_interface_operation(iface, proj, key, &mut warnings);
    let mut paths = new_members();
    add_operation_exec(&mut paths, p, m, op);
    let mut hosts: Vec<String> = Vec::new();
    proof {
        assert(string_views(hosts@) =~= Seq::<Seq<char>>::empty());
    }
    add_host_exec(&mut hosts, host);
    proof {
        assert(string_views(warnings@) =~= Seq::<Seq<char>>::empty() + url_warnings(*iface));
    }
    match openapi_doc(title, paths, &hosts, want_yaml) {
        Ok(content) => Ok(ExportOutcome { content, warnings }),
        Err(e) => Err(e),
    }
}

} // verus!
