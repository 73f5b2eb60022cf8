//! Interfaces read from outside documents: Postman collections, the naming
//! of imported interfaces, and the small helpers of the OpenAPI export.

use vstd::prelude::*;

use crate::domain::{
    bare_object_field, body_view, field_of, Field, is_bare_object_root, is_forbidden_name_char, is_v4_uuid, lowercase, no_auth, owned,
    params_view, sanitize_key, sanitize_lowered_spec, str_eq, to_uppercase, uppercase,
    validate_name, validate_name_spec, ApiParam, ApiParamView, Auth, AuthView, Body, BodyView,
    InterfaceFile, JsonBody, TreeNode, SCHEMA_VERSION,
};
use crate::repo::ImportItem;
use crate::import_openapi::{doc_ends, openapi_interfaces, openapi_spec};
use crate::openapi::{normalize_json, normalize_type_arrays, openapi_read, parse_yaml_text, read_openapi, yaml_parse_result, OaDocument};
use crate::json::{
    json_parse_result, lemma_member_decreases, member_str, parse_json_or_error, str_or, JsonValue,
};
use crate::text::{
    chars_of, copy_strings, decimal, extend_str, find_exec, find_from, lemma_find_from, push_decimal,
    string_of, string_views, trim, trim_chars, copy_range,
};

verus! {

/// An interface read from an outside document, not yet stored.
#[derive(Debug)]
pub struct ImportedIface {
    pub group_path: Vec<String>,
    pub key: String,
    pub name: String,
    pub method: String,
    pub url: String,
    pub headers: Vec<ApiParam>,
    pub query: Vec<ApiParam>,
    pub body: Body,
    pub auth: Auth,
    pub description: String,
}

/// The plain content of an `ImportedIface`, apart from the body's structure
/// tree.
pub struct ImportedIfaceView {
    pub group_path: Seq<Seq<char>>,
    pub key: Seq<char>,
    pub name: Seq<char>,
    pub method: Seq<char>,
    pub url: Seq<char>,
    pub headers: Seq<ApiParamView>,
    pub query: Seq<ApiParamView>,
    pub body: BodyView,
    pub auth: AuthView,
    pub description: Seq<char>,
    /// The content of the body's structure tree.
    pub tree: Field,
}

impl View for ImportedIface {
    type V = ImportedIfaceView;

    open spec fn view(&self) -> ImportedIfaceView {
        ImportedIfaceView {
            group_path: string_views(self.group_path@),
            key: self.key@,
            name: self.name@,
            method: self.method@,
            url: self.url@,
            headers: params_view(self.headers@),
            query: params_view(self.query@),
            body: self.body@,
            auth: self.auth@,
            description: self.description@,
            tree: field_of(self.body.json.root),
        }
    }
}

/// The views of a list of imported interfaces.
pub open spec fn ifaces_view(v: Seq<ImportedIface>) -> Seq<ImportedIfaceView> {
    v.map_values(|x: ImportedIface| x@)
}

/// Every body structure tree in the list is the bare `object` root.
pub open spec fn bare_trees(v: Seq<ImportedIface>) -> bool {
    forall|i: int| 0 <= i < v.len() ==> is_bare_object_root(#[trigger] v[i].body.json.root)
}

/// The outcome of an import.
#[derive(Debug)]
pub struct ImportReport {
    pub total: usize,
    pub skipped: usize,
    pub warnings: Vec<String>,
}

impl Default for ImportReport {
    /// Nothing imported, nothing skipped, no warnings.
    fn default() -> (r: ImportReport)
        ensures
            r.total == 0,
            r.skipped == 0,
            r.warnings@.len() == 0,
    {
        ImportReport { total: 0, skipped: 0, warnings: Vec::new() }
    }
}

/// An exported document and the warnings met while building it.
#[derive(Debug)]
pub struct ExportOutcome {
    pub content: String,
    pub warnings: Vec<String>,
}

impl ImportedIface {
    /// A new interface document named after the key (see `InterfaceFile::new`).
    pub fn to_file(&self) -> (r: InterfaceFile)
        ensures
            r.version == SCHEMA_VERSION,
            r.name@ == self.key@,
            r.method@ == "GET"@,
            r.url@.len() == 0,
            r.headers@.len() == 0,
            r.query@.len() == 0,
            is_v4_uuid(r.id@),
            r.body@ == body_view(Seq::empty(), Seq::empty(), Seq::empty()),
            is_bare_object_root(r.body.json.root),
            r.auth@ == no_auth(),
            r.variables@.len() == 0,
            r.assertions@.len() == 0,
            r.description@.len() == 0,
            r.timeout_ms.is_none(),
            r.redirect_limit.is_none(),
            r.tls_verify.is_none(),
            r.ca_cert_path.is_none(),
    {
        InterfaceFile::new(self.key.as_str())
    }
}

/// The key made from a group or tag name (see `sanitize_key`).
pub open spec fn sanitize_spec(value: Seq<char>) -> Seq<char> {
    sanitize_lowered_spec(lowercase(trim(value)))
}

pub(crate) fn sanitize(value: &str) -> (r: String)
    ensures
        r@ == sanitize_spec(value@),
{
    sanitize_key(value)
}

// ----- Postman collections -----

/// The text of member `key` when it is a string, or `default`.
pub open spec fn text_member(v: JsonValue, key: Seq<char>, default: Seq<char>) -> Seq<char> {
    str_or(member_str(v, key), default)
}

/// The elements of an array value; none for anything else.
pub open spec fn array_elems(v: Option<JsonValue>) -> Seq<JsonValue> {
    match v {
        Some(JsonValue::Array(a)) => a@,
        _ => Seq::empty(),
    }
}

/// A parameter from a Postman `{key, value, description}` entry; the
/// description is read only when `with_description` holds.
pub open spec fn postman_param(x: JsonValue, with_description: bool) -> ApiParamView {
    ApiParamView {
        key: text_member(x, "key"@, Seq::empty()),
        example: text_member(x, "value"@, Seq::empty()),
        required: false,
        param_type: Seq::empty(),
        description: if with_description {
            text_member(x, "description"@, Seq::empty())
        } else {
            Seq::empty()
        },
        enabled: true,
    }
}

/// The parameters of a list of Postman entries, skipping entries whose key
/// is missing or empty.
pub open spec fn postman_params(xs: Seq<JsonValue>, with_description: bool) -> Seq<ApiParamView>
    decreases xs.len(),
{
    if xs.len() == 0 {
        Seq::empty()
    } else {
        let before = postman_params(xs.drop_last(), with_description);
        if text_member(xs.last(), "key"@, Seq::empty()).len() == 0 {
            before
        } else {
            before.push(postman_param(xs.last(), with_description))
        }
    }
}

/// The body of a Postman request: `raw` text, `urlencoded` or `formdata`
/// fields, a `file`, or none.
pub open spec fn postman_body(req: JsonValue) -> BodyView {
    match req.member("body"@) {
        None => body_view(Seq::empty(), Seq::empty(), Seq::empty()),
        Some(b) => {
            let mode = text_member(b, "mode"@, Seq::empty());
            if mode == "raw"@ {
                body_view("raw"@, text_member(b, "raw"@, Seq::empty()), "text/plain"@)
            } else if mode == "urlencoded"@ {
                BodyView {
                    mode: "urlencoded"@,
                    content: Seq::empty(),
                    content_type: Seq::empty(),
                    form: postman_params(array_elems(b.member("urlencoded"@)), false),
                    file_path: None,
                }
            } else if mode == "formdata"@ {
                BodyView {
                    mode: "form-data"@,
                    content: Seq::empty(),
                    content_type: Seq::empty(),
                    form: postman_params(array_elems(b.member("formdata"@)), true),
                    file_path: None,
                }
            } else if mode == "file"@ {
                body_view("file"@, Seq::empty(), Seq::empty())
            } else {
                body_view(Seq::empty(), Seq::empty(), Seq::empty())
            }
        },
    }
}

/// The URL and query parameters of a Postman request: a plain string URL
/// has no parameters; an object URL gives its `raw` text and `query` list.
pub open spec fn postman_url(req: JsonValue) -> (Seq<char>, Seq<ApiParamView>) {
    match req.member("url"@) {
        Some(JsonValue::String(s)) => (s@, Seq::empty()),
        Some(u) => (
            text_member(u, "raw"@, Seq::empty()),
            postman_params(array_elems(u.member("query"@)), true),
        ),
        None => (Seq::empty(), Seq::empty()),
    }
}

/// The display name of a Postman item.
pub open spec fn postman_item_name(item: JsonValue) -> Seq<char> {
    text_member(item, "name"@, "unnamed"@)
}

/// The interface made from a Postman item with a request.
pub open spec fn postman_request(item: JsonValue, req: JsonValue, base: Seq<Seq<char>>) -> ImportedIfaceView {
    ImportedIfaceView {
        group_path: base,
        key: postman_item_name(item),
        name: postman_item_name(item),
        method: uppercase(text_member(req, "method"@, "GET"@)),
        url: postman_url(req).0,
        headers: postman_params(array_elems(req.member("header"@)), true),
        query: postman_url(req).1,
        body: postman_body(req),
        auth: no_auth(),
        description: Seq::empty(),
        tree: bare_object_field(),
    }
}

/// The group path under which a folder's items go: the folder's key is
/// appended (`group-<depth>` when the key comes out empty); a folder with an
/// empty name adds nothing.
pub open spec fn postman_sub_path(item: JsonValue, base: Seq<Seq<char>>) -> Seq<Seq<char>> {
    let name = postman_item_name(item);
    if name.len() == 0 {
        base
    } else {
        let k = sanitize_spec(name);
        base.push(if k.len() == 0 { "group-"@ + decimal(base.len()) } else { k })
    }
}

/// The interfaces of a Postman `item` list, depth first: each item's own
/// request comes before the items nested in it.
pub open spec fn postman_walk(items: JsonValue, base: Seq<Seq<char>>) -> Seq<ImportedIfaceView>
    decreases items,
{
    match items {
        JsonValue::Array(a) => {
            proof {
                assert(decreases_to!(items => a));
                assert(decreases_to!(a => a@));
            }
            postman_walk_list(a@, base)
        },
        _ => Seq::empty(),
    }
}

/// The interfaces of a sequence of Postman items.
pub open spec fn postman_walk_list(a: Seq<JsonValue>, base: Seq<Seq<char>>) -> Seq<ImportedIfaceView>
    decreases a,
{
    if a.len() == 0 {
        Seq::empty()
    } else {
        proof {
            assert(decreases_to!(a => a.subrange(0, a.len() - 1)));
            assert(decreases_to!(a => a[a.len() - 1]));
        }
        postman_walk_list(a.drop_last(), base) + postman_item(a.last(), base)
    }
}

/// The interfaces of one Postman item: its request, if any, then its nested
/// items, if any.
pub open spec fn postman_item(item: JsonValue, base: Seq<Seq<char>>) -> Seq<ImportedIfaceView>
    decreases item,
{
    let own = match item.member("request"@) {
        Some(req) => seq![postman_request(item, req, base)],
        None => Seq::empty(),
    };
    let nested = match item.member("item"@) {
        Some(children) => {
            proof {
                lemma_member_decreases(item, "item"@);
            }
            postman_walk(children, postman_sub_path(item, base))
        },
        None => Seq::empty(),
    };
    own + nested
}

/// A Postman item whose request has a body in `raw` mode imports the `raw`
/// text unchanged as the body content, typed `text/plain`; the interface
/// made from the item's own request is the first one the item yields.
pub proof fn law_postman_raw_body_is_kept(
    item: JsonValue,
    req: JsonValue,
    b: JsonValue,
    raw: Seq<char>,
    base: Seq<Seq<char>>,
)
    requires
        item.member("request"@) == Some(req),
        req.member("body"@) == Some(b),
        member_str(b, "mode"@) == Some("raw"@),
        member_str(b, "raw"@) == Some(raw),
    ensures
        postman_item(item, base).len() >= 1,
        postman_item(item, base)[0].body.mode == "raw"@,
        postman_item(item, base)[0].body.content == raw,
        postman_item(item, base)[0].body.content_type == "text/plain"@,
        postman_item(item, base)[0].body.form.len() == 0,
{
    let own = seq![postman_request(item, req, base)];
    let items = postman_item(item, base);
    assert(items == own + match item.member("item"@) {
        Some(children) => postman_walk(children, postman_sub_path(item, base)),
        None => Seq::<ImportedIfaceView>::empty(),
    });
    assert(items[0] == own[0]);
}

/// The interface made from a Postman item's own request carries the item's
/// name as its name and key, sits in the group path the item is in, and
/// takes a URL given as plain text unchanged, with no query parameters.
pub proof fn law_postman_request_keeps_name_and_url(
    item: JsonValue,
    req: JsonValue,
    name: Seq<char>,
    url: String,
    base: Seq<Seq<char>>,
)
    requires
        item.member("request"@) == Some(req),
        member_str(item, "name"@) == Some(name),
        req.member("url"@) == Some(JsonValue::String(url)),
    ensures
        postman_item(item, base).len() >= 1,
        postman_item(item, base)[0].name == name,
        postman_item(item, base)[0].key == name,
        postman_item(item, base)[0].group_path == base,
        postman_item(item, base)[0].url == url@,
        postman_item(item, base)[0].query.len() == 0,
{
    let own = seq![postman_request(item, req, base)];
    let items = postman_item(item, base);
    assert(items == own + match item.member("item"@) {
        Some(children) => postman_walk(children, postman_sub_path(item, base)),
        None => Seq::<ImportedIfaceView>::empty(),
    });
    assert(items[0] == own[0]);
}

/// The value of an optional reference.
pub open spec fn opt_value(o: Option<&JsonValue>) -> Option<JsonValue> {
    match o {
        Some(v) => Some(*v),
        None => None,
    }
}

/// The string member `key` of `v`, or the empty text.
fn text_or_empty(v: &JsonValue, key: &str) -> (r: String)
    ensures
        r@ == text_member(*v, key@, Seq::empty()),
{
    match v.member_str(key) {
        Some(s) => s.clone(),
        None => String::new(),
    }
}

/// The string member `key` of `v`, or `default`.
fn text_or(v: &JsonValue, key: &str, default: &str) -> (r: String)
    ensures
        r@ == text_member(*v, key@, default@),
{
    match v.member_str(key) {
        Some(s) => s.clone(),
        None => owned(default),
    }
}

/// The parameters of an optional Postman entry list (see `postman_params`).
fn postman_params_exec(xs: Option<&JsonValue>, with_description: bool) -> (r: Vec<ApiParam>)
    ensures
        params_view(r@) == postman_params(array_elems(opt_value(xs)), with_description),
{
    let mut out: Vec<ApiParam> = Vec::new();
    match xs {
        Some(JsonValue::Array(a)) => {
            let mut i: usize = 0;
            while i < a.len()
                invariant
                    i <= a.len(),
                    params_view(out@) == postman_params(a@.take(i as int), with_description),
                decreases a.len() - i,
            {
                proof {
                    assert(a@.take(i + 1).drop_last() =~= a@.take(i as int));
                }
                let x = &a[i];
                let key = text_or_empty(x, "key");
                if key.as_str().unicode_len() > 0 {
                    let example = text_or_empty(x, "value");
                    let description = if with_description {
                        text_or_empty(x, "description")
                    } else {
                        String::new()
                    };
                    let p = ApiParam {
                        key,
                        example,
                        required: false,
                        param_type: String::new(),
                        description,
                        enabled: true,
                    };
                    let ghost before = out@;
                    out.push(p);
                    proof {
                        assert(params_view(out@) =~= params_view(before).push(p@));
                    }
                }
                i += 1;
            }
            proof {
                assert(a@.take(a.len() as int) =~= a@);
            }
        },
        _ => {
            proof {
                assert(params_view(out@) =~= Seq::<ApiParamView>::empty());
            }
        },
    }
    out
}

/// The body of a Postman request (see `postman_body`).
fn postman_body_exec(req: &JsonValue) -> (r: Body)
    ensures
        r@ == postman_body(*req),
        is_bare_object_root(r.json.root),
{
    match req.get_str_member("body") {
        None => Body::default(),
        Some(b) => {
            let mode = text_or_empty(b, "mode");
            if str_eq(mode.as_str(), "raw") {
                let r = Body {
                    mode: owned("raw"),
                    content: text_or_empty(b, "raw"),
                    content_type: owned("text/plain"),
                    json: JsonBody::default(),
                    form: Vec::new(),
                    file_path: None,
                };
                proof {
                    assert(r@.form =~= Seq::<ApiParamView>::empty());
                }
                r
            } else if str_eq(mode.as_str(), "urlencoded") {
                Body {
                    mode: owned("urlencoded"),
                    content: String::new(),
                    content_type: String::new(),
                    json: JsonBody::default(),
                    form: postman_params_exec(b.get_str_member("urlencoded"), false),
                    file_path: None,
                }
            } else if str_eq(mode.as_str(), "formdata") {
                Body {
                    mode: owned("form-data"),
                    content: String::new(),
                    content_type: String::new(),
                    json: JsonBody::default(),
                    form: postman_params_exec(b.get_str_member("formdata"), true),
                    file_path: None,
                }
            } else if str_eq(mode.as_str(), "file") {
                let r = Body {
                    mode: owned("file"),
                    content: String::new(),
                    content_type: String::new(),
                    json: JsonBody::default(),
                    form: Vec::new(),
                    file_path: None,
                };
                proof {
                    assert(r@.form =~= Seq::<ApiParamView>::empty());
                }
                r
            } else {
                Body::default()
            }
        },
    }
}

/// The URL and query parameters of a Postman request (see `postman_url`).
fn extract_postman_url(req: &JsonValue) -> (r: (String, Vec<ApiParam>))
    ensures
        (r.0@, params_view(r.1@)) == postman_url(*req),
{
    let none: Vec<ApiParam> = Vec::new();
    proof {
        assert(params_view(none@) =~= Seq::<ApiParamView>::empty());
    }
    match req.get_str_member("url") {
        Some(JsonValue::String(s)) => (s.clone(), none),
        Some(u) => (text_or_empty(u, "raw"), postman_params_exec(u.get_str_member("query"), true)),
        None => (String::new(), none),
    }
}

/// The interface made from a Postman item with a request.
fn postman_request_exec(item: &JsonValue, req: &JsonValue, base: &Vec<String>) -> (r: ImportedIface)
    ensures
        r@ == postman_request(*item, *req, string_views(base@)),
        is_bare_object_root(r.body.json.root),
{
    let name = text_or(item, "name", "unnamed");
    let method = text_or(req, "method", "GET");
    let (url, query) = extract_postman_url(req);
    let r = ImportedIface {
        group_path: copy_strings(base),
        key: name.clone(),
        name,
        method: to_uppercase(method.as_str()),
        url,
        headers: postman_params_exec(req.get_str_member("header"), true),
        query,
        body: postman_body_exec(req),
        auth: Auth::default(),
        description: String::new(),
    };
    proof {
        crate::domain::lemma_bare_root(r.body.json.root);
    }
    r
}

/// The group path for the items nested in a Postman folder.
fn postman_sub_path_exec(item: &JsonValue, base: &Vec<String>) -> (r: Vec<String>)
    ensures
        string_views(r@) == postman_sub_path(*item, string_views(base@)),
{
    let name = text_or(item, "name", "unnamed");
    let mut sub = copy_strings(base);
    if name.as_str().unicode_len() == 0 {
        return sub;
    }
    let k = sanitize(name.as_str());
    let seg = if k.as_str().unicode_len() == 0 {
        let mut v = chars_of("group-");
        push_decimal(&mut v, base.len() as u64);
        string_of(&v)
    } else {
        k
    };
    let ghost before = sub@;
    sub.push(seg);
    proof {
        assert(string_views(sub@) =~= string_views(before).push(seg@));
    }
    sub
}

proof fn lemma_ifaces_view_push(s: Seq<ImportedIface>, x: ImportedIface)
    ensures
        ifaces_view(s.push(x)) == ifaces_view(s).push(x@),
{
    assert(ifaces_view(s.push(x)) =~= ifaces_view(s).push(x@));
}

proof fn lemma_ifaces_view_add(a: Seq<ImportedIface>, b: Seq<ImportedIface>)
    ensures
        ifaces_view(a + b) == ifaces_view(a) + ifaces_view(b),
{
    assert(ifaces_view(a + b) =~= ifaces_view(a) + ifaces_view(b));
}

/// The interfaces of a Postman `item` list (see `postman_walk`).
fn walk_postman_items(items: &JsonValue, base: &Vec<String>) -> (r: Vec<ImportedIface>)
    ensures
        ifaces_view(r@) == postman_walk(*items, string_views(base@)),
        bare_trees(r@),
    decreases items,
{
    let mut out: Vec<ImportedIface> = Vec::new();
    match items {
        JsonValue::Array(a) => {
            let mut i: usize = 0;
            while i < a.len()
                invariant
                    i <= a.len(),
                    *items == JsonValue::Array(*a),
                    ifaces_view(out@) == postman_walk_list(a@.take(i as int), string_views(base@)),
                    bare_trees(out@),
                decreases a.len() - i,
            {
                proof {
                    assert(a@.take(i + 1).drop_last() =~= a@.take(i as int));
                    assert(a@.take(i + 1).last() == a@[i as int]);
                }
                let item = &a[i];
                let ghost start = out@;
                if let Some(req) = item.get_str_member("request") {
                    let x = postman_request_exec(item, req, base);
                    out.push(x);
                    proof {
                        lemma_ifaces_view_push(start, x);
                        assert(out@ == start.push(x));
                        assert forall|k: int| 0 <= k < out@.len() implies is_bare_object_root(#[trigger] out@[k].body.json.root) by {
                            if k < start.len() {
                                assert(out@[k] == start[k]);
                                assert(is_bare_object_root(start[k].body.json.root));
                            } else {
                                assert(out@[k] == x);
                            }
                        }
                    }
                }
                let ghost mid = out@;
                if let Some(children) = item.get_str_member("item") {
                    let sub = postman_sub_path_exec(item, base);
                    proof {
                        lemma_member_decreases(*item, "item"@);
                        assert(decreases_to!(*items => items->Array_0));
                        assert(decreases_to!(items->Array_0 => items->Array_0@));
                        assert(decreases_to!(a@ => a@[i as int]));
                    }
                    let mut nested = walk_postman_items(children, &sub);
                    let ghost nv = nested@;
                    out.append(&mut nested);
                    proof {
                        lemma_ifaces_view_add(mid, nv);
                        assert(out@ == mid + nv);
                        assert forall|k: int| 0 <= k < out@.len() implies is_bare_object_root(#[trigger] out@[k].body.json.root) by {
                            if k < mid.len() {
                                assert(out@[k] == mid[k]);
                                assert(is_bare_object_root(mid[k].body.json.root));
                            } else {
                                assert(out@[k] == nv[k - mid.len()]);
                                assert(is_bare_object_root(nv[k - mid.len()].body.json.root));
                            }
                        }
                    }
                }
                proof {
                    let own = match item.member("request"@) {
                        Some(req) => seq![postman_request(*item, req, string_views(base@))],
                        None => Seq::<ImportedIfaceView>::empty(),
                    };
                    assert(ifaces_view(mid) =~= ifaces_view(start) + own);
                    assert(postman_item(*item, string_views(base@)) == own + match item.member("item"@) {
                        Some(children) => postman_walk(children, postman_sub_path(*item, string_views(base@))),
                        None => Seq::empty(),
                    });
                    assert(ifaces_view(out@) =~= ifaces_view(start) + postman_item(*item, string_views(base@)));
                }
                i += 1;
            }
            proof {
                assert(a@.take(a.len() as int) =~= a@);
            }
        },
        _ => {
            proof {
                assert(ifaces_view(out@) =~= Seq::<ImportedIfaceView>::empty());
            }
        },
    }
    out
}

/// The collection name of a Postman document: `info.name`, or `Postman 导入`.
pub open spec fn postman_name(doc: JsonValue) -> Seq<char> {
    match doc.member("info"@) {
        Some(info) => text_member(info, "name"@, "Postman 导入"@),
        None => "Postman 导入"@,
    }
}

/// The top-level `item` member of a Postman document, `null` when missing.
pub open spec fn postman_items(doc: JsonValue) -> JsonValue {
    match doc.member("item"@) {
        Some(v) => v,
        None => JsonValue::Null,
    }
}

/// What a parsed Postman document yields: its name and interfaces, or an
/// error when it holds no request at all.
pub open spec fn postman_document_spec(doc: JsonValue) -> Result<(Seq<char>, Seq<ImportedIfaceView>), Seq<char>> {
    let list = postman_walk(postman_items(doc), Seq::empty());
    if list.len() == 0 {
        Err("未解析到任何请求"@)
    } else {
        Ok((postman_name(doc), list))
    }
}

/// What `parse_postman` yields for a text.
pub open spec fn parse_postman_spec(content: Seq<char>) -> Result<(Seq<char>, Seq<ImportedIfaceView>), Seq<char>> {
    match json_parse_result(content) {
        Err(e) => Err("JSON 解析失败："@ + e),
        Ok(doc) => postman_document_spec(doc),
    }
}

/// The interfaces of a parsed Postman collection (v2) and its name.
pub fn postman_from_document(doc: &JsonValue) -> (r: Result<(String, Vec<ImportedIface>), String>)
    ensures
        match r {
            Ok((name, list)) => postman_document_spec(*doc) == Ok::<(Seq<char>, Seq<ImportedIfaceView>), Seq<char>>((name@, ifaces_view(list@))) && bare_trees(list@),
            Err(e) => postman_document_spec(*doc) == Err::<(Seq<char>, Seq<ImportedIfaceView>), Seq<char>>(e@),
        },
{
    let name = match doc.get_str_member("info") {
        Some(info) => text_or(info, "name", "Postman 导入"),
        None => owned("Postman 导入"),
    };
    let root: Vec<String> = Vec::new();
    proof {
        assert(string_views(root@) =~= Seq::<Seq<char>>::empty());
    }
    let list = match doc.get_str_member("item") {
        Some(items) => walk_postman_items(items, &root),
        None => walk_postman_items(&JsonValue::Null, &root),
    };
    if list.len() == 0 {
        return Err(owned("未解析到任何请求"));
    }
    Ok((name, list))
}

/// Parses a Postman collection (v2, JSON) into interfaces to import and the
/// collection's name.
pub fn parse_postman(content: &str) -> (r: Result<(String, Vec<ImportedIface>), String>)
    ensures
        match r {
            Ok((name, list)) => parse_postman_spec(content@) == Ok::<(Seq<char>, Seq<ImportedIfaceView>), Seq<char>>((name@, ifaces_view(list@))) && bare_trees(list@),
            Err(e) => parse_postman_spec(content@) == Err::<(Seq<char>, Seq<ImportedIfaceView>), Seq<char>>(e@),
        },
{
    match parse_json_or_error(content) {
        Err(e) => {
            let mut v = chars_of("JSON 解析失败：");
            extend_str(&mut v, e.as_str());
            Err(string_of(&v))
        },
        Ok(doc) => postman_from_document(&doc),
    }
}

// ----- OpenAPI documents -----

/// The text of a JSON or YAML document as a value, or the parser's error
/// (`JSON 解析失败：…` / `YAML 解析失败：…`).
pub open spec fn openapi_value(content: Seq<char>, is_yaml: bool) -> Result<JsonValue, Seq<char>> {
    if is_yaml {
        match yaml_parse_result(content) {
            Ok(v) => Ok(v),
            Err(e) => Err("YAML 解析失败："@ + e),
        }
    } else {
        match json_parse_result(content) {
            Ok(v) => Ok(v),
            Err(e) => Err("JSON 解析失败："@ + e),
        }
    }
}

/// The OpenAPI document in a text: parsed, its `type` arrays normalized,
/// then read by `openapiv3` (`OpenAPI 文档解析失败：…` when it cannot).
pub open spec fn openapi_document(content: Seq<char>, is_yaml: bool) -> Result<OaDocument, Seq<char>> {
    match openapi_value(content, is_yaml) {
        Ok(v) => match openapi_read(normalize_json(v@)) {
            Ok(d) => Ok(d),
            Err(e) => Err("OpenAPI 文档解析失败："@ + e),
        },
        Err(e) => Err(e),
    }
}

/// What `parse_openapi` yields for a text.
pub open spec fn parse_openapi_spec(content: Seq<char>, is_yaml: bool) -> Result<(Seq<char>, Seq<ImportedIfaceView>), Seq<char>> {
    match openapi_document(content, is_yaml) {
        Ok(d) => openapi_spec(d),
        Err(e) => Err(e),
    }
}

/// Whether importing the text comes to an end: it holds no operation whose
/// examples would expand a schema inside itself.
pub open spec fn openapi_ends(content: Seq<char>, is_yaml: bool) -> bool {
    match openapi_document(content, is_yaml) {
        Ok(d) => doc_ends(d),
        Err(_) => true,
    }
}

/// `prefix` followed by `e`.
fn prefixed(prefix: &str, e: &str) -> (r: String)
    ensures
        r@ == prefix@ + e@,
{
    let mut v = chars_of(prefix);
    extend_str(&mut v, e);
    string_of(&v)
}

/// Reads the OpenAPI document in a text (see `openapi_document`).
fn read_document(content: &str, is_yaml: bool) -> (r: Result<OaDocument, String>)
    ensures
        match r {
            Ok(d) => openapi_document(content@, is_yaml) == Ok::<OaDocument, Seq<char>>(d),
            Err(e) => openapi_document(content@, is_yaml) == Err::<OaDocument, Seq<char>>(e@),
        },
{
    let parsed = if is_yaml {
        match parse_yaml_text(content) {
            Ok(v) => v,
            Err(e) => {
                return Err(prefixed("YAML 解析失败：", e.as_str()));
            },
        }
    } else {
        match parse_json_or_error(content) {
            Ok(v) => v,
            Err(e) => {
                return Err(prefixed("JSON 解析失败：", e.as_str()));
            },
        }
    };
    let doc = normalize_type_arrays(&parsed);
    match read_openapi(&doc) {
        Ok(d) => Ok(d),
        Err(e) => Err(prefixed("OpenAPI 文档解析失败：", e.as_str())),
    }
}

/// Parses an OpenAPI 3 document (JSON, or YAML when `is_yaml`) into
/// interfaces to import and the document's title.
pub fn parse_openapi(content: &str, is_yaml: bool) -> (r: Result<(String, Vec<ImportedIface>), String>)
    requires
        openapi_ends(content@, is_yaml),
    ensures
        match r {
            Ok((title, list)) => parse_openapi_spec(content@, is_yaml) == Ok::<(Seq<char>, Seq<ImportedIfaceView>), Seq<char>>((title@, ifaces_view(list@))),
            Err(e) => parse_openapi_spec(content@, is_yaml) == Err::<(Seq<char>, Seq<ImportedIfaceView>), Seq<char>>(e@),
        },
{
    match read_document(content, is_yaml) {
        Err(e) => Err(e),
        Ok(d) => match openapi_interfaces(&d) {
            Some(r) => r,
            None => {
                proof {
                    assert(false);
                }
                Err(String::new())
            },
        },
    }
}

/// `parse_openapi` where importing the text comes to an end; `None` where
/// the examples of some operation would expand a schema inside itself.
pub fn try_parse_openapi(content: &str, is_yaml: bool) -> (r: Option<Result<(String, Vec<ImportedIface>), String>>)
    ensures
        r.is_none() <==> !openapi_ends(content@, is_yaml),
        match r {
            Some(Ok((title, list))) => parse_openapi_spec(content@, is_yaml) == Ok::<(Seq<char>, Seq<ImportedIfaceView>), Seq<char>>((title@, ifaces_view(list@))),
            Some(Err(e)) => parse_openapi_spec(content@, is_yaml) == Err::<(Seq<char>, Seq<ImportedIfaceView>), Seq<char>>(e@),
            None => true,
        },
{
    let ends = match read_document(content, is_yaml) {
        Err(_) => true,
        Ok(d) => openapi_interfaces(&d).is_some(),
    };
    if ends {
        Some(parse_openapi(content, is_yaml))
    } else {
        None
    }
}

// ----- naming imported interfaces -----

/// Each forbidden name character (see `validate_name`) replaced by `-`.
pub open spec fn replace_forbidden(s: Seq<char>) -> Seq<char> {
    s.map_values(|c: char| if is_forbidden_name_char(c) { '-' } else { c })
}

/// Whether `c` is stripped from the end of a repaired name.
pub open spec fn is_name_tail(c: char) -> bool {
    c == '.' || c == '-' || c == ' '
}

/// `s` without trailing `.`, `-` and spaces.
pub open spec fn strip_name_tail(s: Seq<char>) -> Seq<char>
    decreases s.len(),
{
    if s.len() > 0 && is_name_tail(s.last()) {
        strip_name_tail(s.drop_last())
    } else {
        s
    }
}

/// The file name for an imported interface: the name itself when it is a
/// valid name (trimmed); else the trimmed name with forbidden characters
/// turned into `-` and trailing `.`, `-` and spaces removed, or `导入接口`
/// when nothing is left.
pub open spec fn import_name_spec(raw: Seq<char>) -> Seq<char> {
    match validate_name_spec(raw) {
        Ok(n) => n,
        Err(_) => {
            let r = strip_name_tail(replace_forbidden(trim(raw)));
            if r.len() == 0 {
                "导入接口"@
            } else {
                r
            }
        },
    }
}

/// The trimmed text with forbidden name characters turned into `-` and
/// trailing `.`, `-` and spaces removed.
pub(crate) fn repair_name(raw: &str) -> (r: Vec<char>)
    ensures
        r@ == strip_name_tail(replace_forbidden(trim(raw@))),
{
    let t = trim_chars(raw);
    let mut out: Vec<char> = Vec::new();
    let mut i: usize = 0;
    while i < t.len()
        invariant
            i <= t.len(),
            out@ == replace_forbidden(t@.take(i as int)),
        decreases t.len() - i,
    {
        let c = t[i];
        out.push(if crate::domain::forbidden_name_char(c) { '-' } else { c });
        proof {
            assert(out@ =~= replace_forbidden(t@.take(i + 1)));
        }
        i += 1;
    }
    assert(t@.take(t.len() as int) =~= t@);
    while out.len() > 0 && (out[out.len() - 1] == '.' || out[out.len() - 1] == '-' || out[out.len() - 1] == ' ')
        invariant
            strip_name_tail(out@) == strip_name_tail(replace_forbidden(t@)),
        decreases out.len(),
    {
        out.pop();
    }
    out
}

/// See `import_name_spec`.
pub fn import_name(raw: &str) -> (r: String)
    ensures
        r@ == import_name_spec(raw@),
{
    if let Ok(n) = validate_name(raw) {
        return n;
    }
    let out = repair_name(raw);
    if out.len() == 0 {
        owned("导入接口")
    } else {
        string_of(&out)
    }
}

/// The `n`-th candidate key for a name: the name itself, then
/// `<name>-2`, `<name>-3`, ….
pub open spec fn numbered_name(name: Seq<char>, n: nat) -> Seq<char> {
    if n <= 1 {
        name
    } else {
        name + "-"@ + decimal(n)
    }
}

proof fn lemma_digit_injective(a: nat, b: nat)
    requires
        a < 10,
        b < 10,
        crate::text::digit_char(a) == crate::text::digit_char(b),
    ensures
        a == b,
{
}

proof fn lemma_decimal_len(n: nat)
    ensures
        decimal(n).len() >= 1,
        n >= 10 ==> decimal(n).len() >= 2,
    decreases n,
{
    if n >= 10 {
        lemma_decimal_len(n / 10);
    }
}

/// Different numbers have different decimal notations.
proof fn lemma_decimal_injective(a: nat, b: nat)
    requires
        decimal(a) == decimal(b),
    ensures
        a == b,
    decreases a,
{
    lemma_decimal_len(a);
    lemma_decimal_len(b);
    if a >= 10 && b >= 10 {
        assert(decimal(a).drop_last() =~= decimal(a / 10));
        assert(decimal(b).drop_last() =~= decimal(b / 10));
        lemma_decimal_injective(a / 10, b / 10);
        assert(decimal(a).last() == crate::text::digit_char(a % 10));
        assert(decimal(b).last() == crate::text::digit_char(b % 10));
        lemma_digit_injective(a % 10, b % 10);
    } else if a < 10 && b < 10 {
        assert(decimal(a)[0] == crate::text::digit_char(a));
        assert(decimal(b)[0] == crate::text::digit_char(b));
        lemma_digit_injective(a, b);
    }
}

/// Different candidate numbers give different keys.
pub(crate) proof fn lemma_numbered_injective(name: Seq<char>, a: nat, b: nat)
    requires
        1 <= a,
        1 <= b,
        numbered_name(name, a) == numbered_name(name, b),
    ensures
        a == b,
{
    reveal_strlit("-");
    lemma_decimal_len(a);
    lemma_decimal_len(b);
    if a >= 2 && b >= 2 {
        assert(numbered_name(name, a).skip(name.len() as int + 1) =~= decimal(a));
        assert(numbered_name(name, b).skip(name.len() as int + 1) =~= decimal(b));
        lemma_decimal_injective(a, b);
    }
}

/// The `n`-th candidate key (see `numbered_name`).
pub(crate) fn numbered_name_exec(name: &String, n: usize) -> (r: String)
    ensures
        r@ == numbered_name(name@, n as nat),
{
    if n <= 1 {
        name.clone()
    } else {
        let mut v = chars_of(name.as_str());
        extend_str(&mut v, "-");
        push_decimal(&mut v, n as u64);
        string_of(&v)
    }
}

/// The directory an interface goes into: its group path joined with `/`.
pub open spec fn dir_of(group_path: Seq<String>) -> Seq<char> {
    crate::text::join(string_views(group_path), "/"@)
}

/// The keys of a list of import items.
pub open spec fn item_keys(items: Seq<ImportItem>) -> Seq<Seq<char>> {
    items.map_values(|x: ImportItem| x.key@)
}

/// The directories of a list of import items.
pub open spec fn item_dirs(items: Seq<ImportItem>) -> Seq<Seq<char>> {
    items.map_values(|x: ImportItem| dir_of(x.group_path@))
}

/// The keys given before position `i` in directory `dir`.
pub open spec fn taken_names(dirs: Seq<Seq<char>>, keys: Seq<Seq<char>>, dir: Seq<char>, i: int) -> Set<Seq<char>> {
    Set::new(|x: Seq<char>| exists|j: int| 0 <= j < i && dirs[j] == dir && keys[j] == x)
}

/// `key` is the first candidate for `name` (see `numbered_name`) that is
/// not taken.
pub open spec fn is_first_free(taken: Set<Seq<char>>, name: Seq<char>, key: Seq<char>) -> bool {
    exists|n: nat|
        #![trigger numbered_name(name, n)]
        n >= 1 && key == numbered_name(name, n) && !taken.contains(key) && forall|m: nat|
            1 <= m < n ==> taken.contains(#[trigger] numbered_name(name, m))
}

/// The warning given when an interface had to be renamed.
pub open spec fn rename_warning(name: Seq<char>, key: Seq<char>) -> Seq<char> {
    "接口名称 "@ + name + " 在本目录重复，已重命名为 "@ + key
}

/// The warnings for a list of names and the keys they were given, in order.
pub open spec fn rename_warnings(names: Seq<Seq<char>>, keys: Seq<Seq<char>>) -> Seq<Seq<char>>
    decreases names.len(),
{
    if names.len() == 0 {
        Seq::empty()
    } else {
        let before = rename_warnings(names.drop_last(), keys.drop_last());
        if keys[names.len() - 1] != names.last() {
            before.push(rename_warning(names.last(), keys[names.len() - 1]))
        } else {
            before
        }
    }
}

/// The names (see `import_name_spec`) of a list of interfaces.
pub open spec fn import_names(ifaces: Seq<ImportedIface>) -> Seq<Seq<char>> {
    ifaces.map_values(|x: ImportedIface| import_name_spec(x.name@))
}

/// Whether `key` is given to an item before position `i` in directory `dir`.
fn is_taken(items: &Vec<ImportItem>, dirs: &Vec<String>, dir: &String, key: &String) -> (r: bool)
    requires
        string_views(dirs@) == item_dirs(items@),
    ensures
        r == taken_names(item_dirs(items@), item_keys(items@), dir@, items@.len() as int).contains(key@),
{
    assert(dirs@.len() == string_views(dirs@).len());
    let mut j: usize = 0;
    while j < items.len()
        invariant
            j <= items.len(),
            dirs@.len() == items@.len(),
            string_views(dirs@) == item_dirs(items@),
            forall|k: int| 0 <= k < j ==> !(item_dirs(items@)[k] == dir@ && item_keys(items@)[k] == key@),
        decreases items.len() - j,
    {
        assert(string_views(dirs@)[j as int] == dirs@[j as int]@);
        if str_eq(dirs[j].as_str(), dir.as_str()) && str_eq(items[j].key.as_str(), key.as_str()) {
            assert(item_dirs(items@)[j as int] == dir@ && item_keys(items@)[j as int] == key@);
            return true;
        }
        j += 1;
    }
    false
}

/// Names the interfaces of an import batch and builds the documents to
/// store. Each interface is named by `import_name`; within one directory
/// (its group path joined with `/`) a name already given is followed by
/// `-2`, `-3`, … until it is free, with a warning for each rename. The
/// document is a fresh one (new id) carrying the interface's method, URL,
/// parameters, body, authentication and description.
pub fn plan_import(ifaces: Vec<ImportedIface>) -> (r: (Vec<ImportItem>, Vec<String>))
    ensures
        r.0@.len() == ifaces@.len(),
        forall|i: int|
            0 <= i < ifaces@.len() ==> {
                let item = #[trigger] r.0@[i];
                let src = ifaces@[i];
                &&& item.group_path == src.group_path
                &&& is_first_free(
                    taken_names(item_dirs(r.0@), item_keys(r.0@), dir_of(src.group_path@), i),
                    import_name_spec(src.name@),
                    item.key@,
                )
                &&& item.doc.version == SCHEMA_VERSION
                &&& crate::domain::is_v4_uuid(item.doc.id@)
                &&& item.doc.name@ == item.key@
                &&& item.doc.method == src.method
                &&& item.doc.url == src.url
                &&& item.doc.headers == src.headers
                &&& item.doc.query == src.query
                &&& item.doc.body == src.body
                &&& item.doc.auth == src.auth
                &&& item.doc.description == src.description
                &&& item.doc.variables@.len() == 0
                &&& item.doc.assertions@.len() == 0
                &&& item.doc.timeout_ms.is_none()
                &&& item.doc.redirect_limit.is_none()
                &&& item.doc.tls_verify.is_none()
                &&& item.doc.ca_cert_path.is_none()
            },
        string_views(r.1@) == rename_warnings(import_names(ifaces@), item_keys(r.0@)),
        forall|a: int, b: int|
            0 <= a < b < r.0@.len() && item_dirs(r.0@)[a] == item_dirs(r.0@)[b] ==> item_keys(r.0@)[a]
                != item_keys(r.0@)[b],
        forall|a: int, b: int|
            0 <= a < b < r.0@.len() && string_views(#[trigger] r.0@[a].group_path@) == string_views(
                #[trigger] r.0@[b].group_path@,
            ) ==> r.0@[a].key@ != r.0@[b].key@,
{
    let ghost orig = ifaces@;
    let total = ifaces.len();
    assert(orig.len() == total);
    let mut rest = ifaces;
    let mut items: Vec<ImportItem> = Vec::new();
    let mut dirs: Vec<String> = Vec::new();
    let mut warnings: Vec<String> = Vec::new();
    let mut i: usize = 0;
    while rest.len() > 0
        invariant
            orig.len() <= usize::MAX,
            i + rest@.len() == orig.len(),
            rest@ == orig.skip(i as int),
            items@.len() == i,
            string_views(dirs@) == item_dirs(items@),
            forall|k: int|
                0 <= k < i ==> {
                    let item = #[trigger] items@[k];
                    let src = orig[k];
                    &&& item.group_path == src.group_path
                    &&& is_first_free(
                        taken_names(item_dirs(items@), item_keys(items@), dir_of(src.group_path@), k),
                        import_name_spec(src.name@),
                        item.key@,
                    )
                    &&& item.doc.version == SCHEMA_VERSION
                    &&& crate::domain::is_v4_uuid(item.doc.id@)
                    &&& item.doc.name@ == item.key@
                    &&& item.doc.method == src.method
                    &&& item.doc.url == src.url
                    &&& item.doc.headers == src.headers
                    &&& item.doc.query == src.query
                    &&& item.doc.body == src.body
                    &&& item.doc.auth == src.auth
                    &&& item.doc.description == src.description
                    &&& item.doc.variables@.len() == 0
                    &&& item.doc.assertions@.len() == 0
                    &&& item.doc.timeout_ms.is_none()
                    &&& item.doc.redirect_limit.is_none()
                    &&& item.doc.tls_verify.is_none()
                    &&& item.doc.ca_cert_path.is_none()
                },
            string_views(warnings@) == rename_warnings(import_names(orig.take(i as int)), item_keys(items@)),
        decreases rest@.len(),
    {
        let iface = rest.remove(0);
        assert(iface == orig[i as int]);
        let dir = crate::text::join_exec(&iface.group_path, "/");
        let name = import_name(iface.name.as_str());
        let ghost taken = taken_names(item_dirs(items@), item_keys(items@), dir@, i as int);
        let ghost all_keys = item_keys(items@).to_set();
        proof {
            assert(taken.subset_of(all_keys)) by {
                assert forall|x: Seq<char>| taken.contains(x) implies all_keys.contains(x) by {
                    let j = choose|j: int| 0 <= j < i && item_dirs(items@)[j] == dir@ && item_keys(items@)[j] == x;
                    assert(item_keys(items@)[j] == x);
                }
            }
            vstd::seq_lib::seq_to_set_is_finite(item_keys(items@));
            item_keys(items@).lemma_cardinality_of_set();
        }
        let mut n: usize = 1;
        let mut fin = numbered_name_exec(&name, 1);
        let ghost mut seen: Set<Seq<char>> = Set::empty();
        while is_taken(&items, &dirs, &dir, &fin)
            invariant
                1 <= n <= i + 1,
                i < orig.len() <= usize::MAX,
                fin@ == numbered_name(name@, n as nat),
                string_views(dirs@) == item_dirs(items@),
                items@.len() == i,
                taken == taken_names(item_dirs(items@), item_keys(items@), dir@, i as int),
                taken.subset_of(all_keys),
                all_keys.finite(),
                all_keys.len() <= i,
                seen.finite(),
                seen.len() == n - 1,
                seen.subset_of(taken),
                forall|x: Seq<char>| seen.contains(x) ==> exists|m: nat| 1 <= m < n && x == numbered_name(name@, m),
                forall|m: nat| 1 <= m < n ==> taken.contains(#[trigger] numbered_name(name@, m)),
            decreases i + 1 - n,
        {
            proof {
                if seen.contains(fin@) {
                    let m = choose|m: nat| 1 <= m < n && fin@ == numbered_name(name@, m);
                    lemma_numbered_injective(name@, m, n as nat);
                }
                let s2 = seen.insert(fin@);
                assert(s2.subset_of(all_keys));
                vstd::set_lib::lemma_len_subset(s2, all_keys);
                assert forall|x: Seq<char>| s2.contains(x) implies exists|m: nat| 1 <= m < n + 1 && x == numbered_name(name@, m) by {
                    if x == fin@ {
                        assert(x == numbered_name(name@, n as nat));
                    }
                }
                seen = s2;
            }
            n = n + 1;
            fin = numbered_name_exec(&name, n);
        }
        proof {
            assert(is_first_free(taken, name@, fin@)) by {
                assert(fin@ == numbered_name(name@, n as nat));
            }
        }
        if !str_eq(fin.as_str(), name.as_str()) {
            let mut w = chars_of("接口名称 ");
            extend_str(&mut w, name.as_str());
            extend_str(&mut w, " 在本目录重复，已重命名为 ");
            extend_str(&mut w, fin.as_str());
            let ws = string_of(&w);
            let ghost wb = warnings@;
            warnings.push(ws);
            proof {
                assert(string_views(warnings@) =~= string_views(wb).push(ws@));
            }
        }
        let ImportedIface { group_path, key, name: _, method, url, headers, query, body, auth, description } = iface;
        let mut doc = InterfaceFile::new(key.as_str());
        doc.name = fin.clone();
        doc.method = method;
        doc.url = url;
        doc.headers = headers;
        doc.query = query;
        doc.body = body;
        doc.auth = auth;
        doc.description = description;
        let item = ImportItem { group_path, key: fin, doc };
        let ghost before_items = items@;
        let ghost before_warn = string_views(warnings@);
        items.push(item);
        dirs.push(dir);
        proof {
            assert(item_keys(items@) =~= item_keys(before_items).push(item.key@));
            assert(item_dirs(items@) =~= item_dirs(before_items).push(dir@));
            assert(string_views(dirs@) =~= item_dirs(items@));
            assert forall|k: int, x: Seq<char>| 0 <= k <= i implies
                taken_names(item_dirs(items@), item_keys(items@), dir_of(orig[k].group_path@), k).contains(x)
                == taken_names(item_dirs(before_items), item_keys(before_items), dir_of(orig[k].group_path@), k).contains(x) by {
                if taken_names(item_dirs(before_items), item_keys(before_items), dir_of(orig[k].group_path@), k).contains(x) {
                    let j = choose|j: int| 0 <= j < k && item_dirs(before_items)[j] == dir_of(orig[k].group_path@) && item_keys(before_items)[j] == x;
                    assert(item_dirs(items@)[j] == item_dirs(before_items)[j]);
                    assert(item_keys(items@)[j] == item_keys(before_items)[j]);
                }
                if taken_names(item_dirs(items@), item_keys(items@), dir_of(orig[k].group_path@), k).contains(x) {
                    let j = choose|j: int| 0 <= j < k && item_dirs(items@)[j] == dir_of(orig[k].group_path@) && item_keys(items@)[j] == x;
                    assert(item_dirs(items@)[j] == item_dirs(before_items)[j]);
                    assert(item_keys(items@)[j] == item_keys(before_items)[j]);
                }
            }
            assert forall|k: int| 0 <= k <= i implies
                taken_names(item_dirs(items@), item_keys(items@), dir_of(orig[k].group_path@), k)
                =~= taken_names(item_dirs(before_items), item_keys(before_items), dir_of(orig[k].group_path@), k) by {
            }
            assert(orig.take(i + 1).drop_last() =~= orig.take(i as int));
            assert(import_names(orig.take(i + 1)).drop_last() =~= import_names(orig.take(i as int)));
            assert(item_keys(items@).drop_last() =~= item_keys(before_items));
            assert(import_names(orig.take(i + 1)).last() == name@);
            assert(rest@ =~= orig.skip(i + 1));
        }
        i += 1;
    }
    assert(orig.take(i as int) =~= orig);
    assert forall|a: int, b: int|
        0 <= a < b < items@.len() && item_dirs(items@)[a] == item_dirs(items@)[b] implies item_keys(items@)[a]
            != item_keys(items@)[b] by {
        let item = items@[b];
        assert(dir_of(orig[b].group_path@) == item_dirs(items@)[b]);
        let taken = taken_names(item_dirs(items@), item_keys(items@), dir_of(orig[b].group_path@), b);
        assert(taken.contains(item_keys(items@)[a]));
        assert(!taken.contains(item_keys(items@)[b]));
    }
    assert forall|a: int, b: int|
        0 <= a < b < items@.len() && string_views(#[trigger] items@[a].group_path@) == string_views(
            #[trigger] items@[b].group_path@,
        ) implies items@[a].key@ != items@[b].key@ by {
        assert(item_dirs(items@)[a] == dir_of(items@[a].group_path@));
        assert(item_dirs(items@)[b] == dir_of(items@[b].group_path@));
        assert(item_keys(items@)[a] == items@[a].key@);
        assert(item_keys(items@)[b] == items@[b].key@);
    }
    (items, warnings)
}

/// How many of the first `n` store results succeeded.
pub open spec fn ok_count(results: Seq<Result<(), String>>, n: int) -> nat
    decreases n,
{
    if n <= 0 {
        0
    } else {
        ok_count(results, n - 1) + if results[n - 1] is Ok { 1nat } else { 0nat }
    }
}

/// The warning for each of the first `n` items whose store failed.
pub open spec fn failure_notes(keys: Seq<Seq<char>>, results: Seq<Result<(), String>>, n: int) -> Seq<Seq<char>>
    decreases n,
{
    if n <= 0 {
        Seq::empty()
    } else {
        let before = failure_notes(keys, results, n - 1);
        match results[n - 1] {
            Ok(_) => before,
            Err(e) => before.push("接口 "@ + keys[n - 1] + " 导入失败："@ + e@),
        }
    }
}

proof fn lemma_ok_count_bound(results: Seq<Result<(), String>>, n: int)
    requires
        0 <= n,
    ensures
        ok_count(results, n) <= n,
    decreases n,
{
    if n > 0 {
        lemma_ok_count_bound(results, n - 1);
    }
}

/// The report of an import once the store has answered for each item
/// (items and results are paired in order): successes are counted, each
/// failure is counted as skipped and noted after the naming warnings.
pub fn import_report(warnings: Vec<String>, items: &Vec<ImportItem>, results: &Vec<Result<(), String>>) -> (r: ImportReport)
    ensures
        ({
            let n = if items@.len() < results@.len() { items@.len() as int } else { results@.len() as int };
            &&& r.total == ok_count(results@, n)
            &&& r.skipped == n - ok_count(results@, n)
            &&& r.total + r.skipped == n
            &&& string_views(r.warnings@) == string_views(warnings@) + failure_notes(item_keys(items@), results@, n)
        }),
{
    let n = if items.len() < results.len() { items.len() } else { results.len() };
    let mut report = ImportReport { total: 0, skipped: 0, warnings };
    let ghost start = string_views(report.warnings@);
    let mut i: usize = 0;
    while i < n
        invariant
            i <= n,
            n <= items@.len(),
            n <= results@.len(),
            report.total == ok_count(results@, i as int),
            report.skipped == i - ok_count(results@, i as int),
            string_views(report.warnings@) == start + failure_notes(item_keys(items@), results@, i as int),
        decreases n - i,
    {
        proof {
            lemma_ok_count_bound(results@, i + 1);
        }
        match &results[i] {
            Ok(_) => {
                report.total = report.total + 1;
            },
            Err(e) => {
                report.skipped = report.skipped + 1;
                let mut w = chars_of("接口 ");
                extend_str(&mut w, items[i].key.as_str());
                extend_str(&mut w, " 导入失败：");
                extend_str(&mut w, e.as_str());
                let ws = string_of(&w);
                let ghost before = report.warnings@;
                report.warnings.push(ws);
                proof {
                    assert(string_views(report.warnings@) =~= string_views(before).push(ws@));
                    assert(item_keys(items@)[i as int] == items@[i as int].key@);
                }
            },
        }
        i += 1;
    }
    report
}

// ----- OpenAPI export helpers -----

/// The path and the `scheme://host` part of a URL (trimmed): without
/// `://` the whole text is the path; with it, the path starts at the first
/// `/` after it, and is empty when there is none.
pub open spec fn split_url_spec(url: Seq<char>) -> (Seq<char>, Option<Seq<char>>) {
    let u = trim(url);
    match find_from(u, "://"@, 0) {
        Some(i) => {
            let after = u.skip(i + 3);
            match find_from(after, "/"@, 0) {
                Some(j) => (after.skip(j), Some(u.take(i + 3 + j))),
                None => (Seq::empty(), Some(u)),
            }
        },
        None => (u, None),
    }
}

/// See `split_url_spec`.
pub fn split_url(url: &str) -> (r: (String, Option<String>))
    ensures
        (r.0@, match r.1 {
            Some(h) => Some(h@),
            None => None,
        }) == split_url_spec(url@),
{
    let u = trim_chars(url);
    let sep = chars_of("://");
    proof {
        reveal_strlit("://");
        reveal_strlit("/");
    }
    match find_exec(&u, &sep, 0) {
        Some(i) => {
            proof {
                lemma_find_from(u@, sep@, 0);
                assert(sep@.len() == 3);
                assert(i + 3 <= u@.len());
                assert(u@.len() == u.len());
            }
            let after = copy_range(&u, i + 3, u.len());
            let slash = chars_of("/");
            match find_exec(&after, &slash, 0) {
                Some(j) => {
                    proof {
                        lemma_find_from(after@, slash@, 0);
                    }
                    let path = copy_range(&after, j, after.len());
                    let host = copy_range(&u, 0, i + 3 + j);
                    proof {
                        assert(path@ =~= after@.skip(j as int));
                        assert(host@ =~= u@.take(i + 3 + j));
                    }
                    (string_of(&path), Some(string_of(&host)))
                },
                None => (String::new(), Some(string_of(&u))),
            }
        },
        None => (string_of(&u), None),
    }
}

/// The OpenAPI schema type for a parameter type: the type itself when it
/// is one of `integer`, `number`, `boolean`, `array`, `object`, `string`;
/// `string` otherwise (`file` included).
pub open spec fn schema_type_of_spec(t: Seq<char>) -> Seq<char> {
    if t == "integer"@ || t == "number"@ || t == "boolean"@ || t == "array"@ || t == "object"@
        || t == "string"@ {
        t
    } else {
        "string"@
    }
}

/// See `schema_type_of_spec`.
pub fn schema_type_of(t: &str) -> (r: String)
    ensures
        r@ == schema_type_of_spec(t@),
{
    if str_eq(t, "integer") || str_eq(t, "number") || str_eq(t, "boolean") || str_eq(t, "array")
        || str_eq(t, "object") || str_eq(t, "string") {
        owned(t)
    } else {
        owned("string")
    }
}

/// The interfaces of a tree level, depth first in tree order, each with the
/// group path leading to it.
pub open spec fn tree_refs(nodes: Seq<TreeNode>, base: Seq<Seq<char>>) -> Seq<(Seq<Seq<char>>, Seq<char>)>
    decreases nodes,
{
    if nodes.len() == 0 {
        Seq::empty()
    } else {
        proof {
            assert(decreases_to!(nodes => nodes.subrange(0, nodes.len() - 1)));
            assert(decreases_to!(nodes => nodes[nodes.len() - 1]));
        }
        tree_refs(nodes.drop_last(), base) + node_refs(nodes.last(), base)
    }
}

/// The interfaces under one tree node (see `tree_refs`).
pub open spec fn node_refs(node: TreeNode, base: Seq<Seq<char>>) -> Seq<(Seq<Seq<char>>, Seq<char>)>
    decreases node,
{
    match node {
        TreeNode::Group { key, children, .. } => {
            proof {
                assert(decreases_to!(node => children));
                assert(decreases_to!(children => children@));
            }
            tree_refs(children@, base.push(key@))
        },
        TreeNode::Interface { key, .. } => seq![(base, key@)],
    }
}

/// The views of a list of interface references.
pub open spec fn refs_view(v: Seq<(Vec<String>, String)>) -> Seq<(Seq<Seq<char>>, Seq<char>)> {
    v.map_values(|p: (Vec<String>, String)| (string_views(p.0@), p.1@))
}

/// Appends the interfaces of a tree level to `out` (see `tree_refs`).
pub fn flatten_ifaces(nodes: &Vec<TreeNode>, base: &Vec<String>, out: &mut Vec<(Vec<String>, String)>)
    ensures
        refs_view(final(out)@) == refs_view(old(out)@) + tree_refs(nodes@, string_views(base@)),
    decreases nodes,
{
    let ghost start = refs_view(out@);
    let mut i: usize = 0;
    while i < nodes.len()
        invariant
            i <= nodes.len(),
            refs_view(out@) == start + tree_refs(nodes@.take(i as int), string_views(base@)),
        decreases nodes.len() - i,
    {
        proof {
            assert(nodes@.take(i + 1).drop_last() =~= nodes@.take(i as int));
            assert(nodes@.take(i + 1).last() == nodes@[i as int]);
        }
        let ghost before = refs_view(out@);
        match &nodes[i] {
            TreeNode::Group { key, children, .. } => {
                let mut p = copy_strings(base);
                p.push(key.clone());
                proof {
                    assert(string_views(p@) =~= string_views(base@).push(key@));
                    assert(decreases_to!(nodes => nodes@));
                    assert(decreases_to!(nodes@ => nodes@[i as int]));
                    assert(decreases_to!(nodes@[i as int] => nodes@[i as int]->Group_children));
                }
                flatten_ifaces(children, &p, out);
                proof {
                    assert(refs_view(out@) =~= before + node_refs(nodes@[i as int], string_views(base@)));
                }
            },
            TreeNode::Interface { key, .. } => {
                let pair = (copy_strings(base), key.clone());
                let ghost ob = out@;
                out.push(pair);
                proof {
                    assert(refs_view(out@) =~= refs_view(ob).push((string_views(base@), key@)));
                    assert(node_refs(nodes@[i as int], string_views(base@)) =~= seq![(string_views(base@), key@)]);
                }
            },
        }
        proof {
            assert(refs_view(out@) =~= start + tree_refs(nodes@.take(i + 1), string_views(base@)));
        }
        i += 1;
    }
    assert(nodes@.take(nodes.len() as int) =~= nodes@);
}

} // verus!
