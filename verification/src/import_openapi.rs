//! Interfaces from an OpenAPI 3 document: one per operation of each path,
//! with its parameters, request body, authentication and group.

use vstd::prelude::*;

use crate::domain::{
    bare_object_field, body_view, field_of, no_auth, owned, str_eq, uppercase, ApiParam,
    ApiParamView, Auth, AuthView, Body, BodyField, BodyView, Field, JsonBody,
};
use crate::imports::{ifaces_view, sanitize_spec, ImportedIface, ImportedIfaceView};
use crate::json::{json_parse_result, json_pretty_text, Json, JsonValue};
use crate::openapi::{
    ExampleRef, OaDocument, OaMediaType, OaOperation, OaParameter, OaPathItem, OaRequestBody,
    OaSchema, OaSecurityScheme, ParamLocation, ParamRef, PathItemRef, RequestBodyRef, SchemaRef,
    SecuritySchemeRef,
};
use crate::schemas::{
    branch, ends, ex_ref, ex_schema, fd_schema, lookup, param_type_of, ref_target, set_of,
    strip_prefix, text_of_json, text_or_empty, vf, Ex,
};
use crate::text::{chars_of, copy_strings, extend_str, string_of, string_views, trim, trim_chars};
use crate::variables::pair_views;
use crate::json::{parse_json_or_error, pretty_json};
use crate::schemas::{
    contains_name, example_ref, example_schema, example_text, ex_view, field_schema, find_entry,
    lemma_lookup, lookup_index, opt_json, ref_target_exec, schema_type_name, value_to_field,
    lemma_set_of_push,
};
use crate::domain::{fields_of, json_body_is_empty, lemma_bare_root, lemma_fields_of, to_uppercase};
use crate::imports::sanitize;

verus! {

// ----- the document's parts -----

/// The component schemas of a document.
pub open spec fn comp_schemas(d: OaDocument) -> Seq<(String, SchemaRef)> {
    match d.components {
        Some(c) => c.schemas@,
        None => Seq::empty(),
    }
}

/// The component parameters of a document.
pub open spec fn comp_params(d: OaDocument) -> Seq<(String, ParamRef)> {
    match d.components {
        Some(c) => c.parameters@,
        None => Seq::empty(),
    }
}

/// The component request bodies of a document.
pub open spec fn comp_bodies(d: OaDocument) -> Seq<(String, RequestBodyRef)> {
    match d.components {
        Some(c) => c.request_bodies@,
        None => Seq::empty(),
    }
}

/// The component security schemes of a document.
pub open spec fn comp_security(d: OaDocument) -> Seq<(String, SecuritySchemeRef)> {
    match d.components {
        Some(c) => c.security_schemes@,
        None => Seq::empty(),
    }
}

// ----- authentication -----

/// The authentication kind of a security scheme: `basic` or `bearer` HTTP
/// authentication, `api-key`, or none (empty).
pub open spec fn scheme_kind(r: SecuritySchemeRef) -> Seq<char> {
    match r {
        SecuritySchemeRef::Item(OaSecurityScheme::Http(s)) => if s@ == "basic"@ {
            "basic"@
        } else if s@ == "bearer"@ {
            "bearer"@
        } else {
            Seq::empty()
        },
        SecuritySchemeRef::Item(OaSecurityScheme::ApiKey) => "api-key"@,
        _ => Seq::empty(),
    }
}

/// The schemes with a known kind, in order, as (name, kind).
pub open spec fn known_schemes(entries: Seq<(String, SecuritySchemeRef)>) -> Seq<(Seq<char>, Seq<char>)>
    decreases entries.len(),
{
    if entries.len() == 0 {
        Seq::empty()
    } else {
        let rest = known_schemes(entries.drop_last());
        let k = scheme_kind(entries.last().1);
        if k.len() > 0 {
            rest.push((entries.last().0@, k))
        } else {
            rest
        }
    }
}

/// The kind of the first known scheme named `name`.
pub open spec fn scheme_named(schemes: Seq<(Seq<char>, Seq<char>)>, name: Seq<char>) -> Option<Seq<char>>
    decreases schemes.len(),
{
    if schemes.len() == 0 {
        None
    } else if schemes[0].0 == name {
        Some(schemes[0].1)
    } else {
        scheme_named(schemes.drop_first(), name)
    }
}

/// The kind of the last security requirement whose first scheme is known.
pub open spec fn required_scheme(reqs: Seq<Vec<String>>, schemes: Seq<(Seq<char>, Seq<char>)>) -> Option<Seq<char>>
    decreases reqs.len(),
{
    if reqs.len() == 0 {
        None
    } else {
        let own = if reqs.last()@.len() > 0 {
            scheme_named(schemes, reqs.last()@[0]@)
        } else {
            None
        };
        match own {
            Some(k) => Some(k),
            None => required_scheme(reqs.drop_last(), schemes),
        }
    }
}

/// The authentication kind the document requires of every operation.
pub open spec fn security_kind(d: OaDocument) -> Option<Seq<char>> {
    match d.security {
        Some(v) => required_scheme(v@, known_schemes(comp_security(d))),
        None => None,
    }
}

/// The authentication of an imported interface: a `{{token}}` bearer
/// token, `{{username}}` / `{{password}}` basic authentication, or an
/// `X-API-Key` header with `{{api_key}}`; none otherwise.
pub open spec fn auth_for(kind: Option<Seq<char>>) -> AuthView {
    match kind {
        Some(k) => if k == "bearer"@ {
            AuthView { kind: "bearer"@, token: "{{token}}"@, ..no_auth() }
        } else if k == "basic"@ {
            AuthView { kind: "basic"@, username: "{{username}}"@, password: "{{password}}"@, ..no_auth() }
        } else if k == "api-key"@ {
            AuthView {
                kind: "api-key"@,
                api_key_name: "X-API-Key"@,
                api_key_in: "header"@,
                api_key_value: "{{api_key}}"@,
                ..no_auth()
            }
        } else {
            no_auth()
        },
        None => no_auth(),
    }
}

// ----- URLs and groups -----

/// `s` without trailing `/`.
pub open spec fn strip_end_slashes(s: Seq<char>) -> Seq<char>
    decreases s.len(),
{
    if s.len() > 0 && s.last() == '/' {
        strip_end_slashes(s.drop_last())
    } else {
        s
    }
}

/// The base URL: the first server's URL trimmed and without trailing `/`;
/// empty without servers.
pub open spec fn server_base(d: OaDocument) -> Seq<char> {
    if d.servers@.len() > 0 {
        strip_end_slashes(trim(d.servers@[0]@))
    } else {
        Seq::empty()
    }
}

/// The group of an operation: its first tag as a key, unless that key is
/// empty or `default`.
pub open spec fn tag_group(op: OaOperation) -> Seq<Seq<char>> {
    if op.tags@.len() > 0 {
        let k = sanitize_spec(op.tags@[0]@);
        if k.len() == 0 || k == "default"@ {
            Seq::empty()
        } else {
            seq![k]
        }
    } else {
        Seq::empty()
    }
}

/// An imported operation is grouped by its first tag alone: when that tag
/// gives a key that is neither empty nor `default`, the interface's group
/// path is that one key; an operation without tags, or whose first tag
/// gives an empty or `default` key, stays at the top level.
pub proof fn law_first_tag_names_the_group(
    path: Seq<char>,
    method: Seq<char>,
    op: OaOperation,
    pi: OaPathItem,
    d: OaDocument,
)
    ensures
        ({
            let g = op_iface(path, method, op, pi, d).group_path;
            if op.tags@.len() > 0 && sanitize_spec(op.tags@[0]@).len() > 0 && sanitize_spec(op.tags@[0]@)
                != "default"@ {
                g == seq![sanitize_spec(op.tags@[0]@)]
            } else {
                g.len() == 0
            }
        }),
{
}

/// Tags after the first never change an imported operation's group: two
/// operations whose first tags are the same text are grouped alike.
pub proof fn law_later_tags_do_not_group(
    path: Seq<char>,
    method: Seq<char>,
    op: OaOperation,
    other: OaOperation,
    pi: OaPathItem,
    d: OaDocument,
)
    requires
        op.tags@.len() > 0,
        other.tags@.len() > 0,
        op.tags@[0]@ == other.tags@[0]@,
    ensures
        op_iface(path, method, op, pi, d).group_path == op_iface(path, method, other, pi, d).group_path,
{
}

// ----- references -----

/// A parameter, following a `#/components/parameters/…` reference to an
/// inline one.
pub open spec fn resolve_param(p: ParamRef, d: OaDocument) -> Option<OaParameter> {
    match p {
        ParamRef::Item(x) => Some(x),
        ParamRef::Reference(t) => match strip_prefix(t@, "#/components/parameters/"@) {
            Some(n) => match lookup(comp_params(d), n) {
                Some(ParamRef::Item(x)) => Some(x),
                _ => None,
            },
            None => None,
        },
    }
}

/// A request body, following a `#/components/requestBodies/…` reference to
/// an inline one.
pub open spec fn resolve_body(r: RequestBodyRef, d: OaDocument) -> Option<OaRequestBody> {
    match r {
        RequestBodyRef::Item(x) => Some(x),
        RequestBodyRef::Reference(t) => match strip_prefix(t@, "#/components/requestBodies/"@) {
            Some(n) => match lookup(comp_bodies(d), n) {
                Some(RequestBodyRef::Item(x)) => Some(x),
                _ => None,
            },
            None => None,
        },
    }
}

/// A schema, following a reference to a component schema.
pub open spec fn resolve_schema(r: SchemaRef, schemas: Seq<(String, SchemaRef)>) -> Option<OaSchema> {
    match r {
        SchemaRef::Item(b) => Some(*b),
        SchemaRef::Reference(t) => match ref_target(schemas, t@) {
            Some((_, s)) => Some(s),
            None => None,
        },
    }
}

// ----- parameters -----

/// Where a parameter goes, as text.
pub open spec fn loc_text(l: ParamLocation) -> Seq<char> {
    match l {
        ParamLocation::Query => "query"@,
        ParamLocation::Header => "header"@,
        ParamLocation::Path => "path"@,
        ParamLocation::Cookie => "cookie"@,
    }
}

/// The schema of a parameter, references followed.
pub open spec fn param_schema(p: OaParameter, d: OaDocument) -> Option<OaSchema> {
    match p.schema {
        Some(r) => resolve_schema(r, comp_schemas(d)),
        None => None,
    }
}

/// The example of a parameter: its own, else its schema's.
pub open spec fn param_ex(p: OaParameter, d: OaDocument) -> Ex {
    match p.example {
        Some(v) => Ex::Done(Some(v@)),
        None => match param_schema(p, d) {
            Some(s) => ex_schema(s, comp_schemas(d), Set::empty()),
            None => Ex::Done(None),
        },
    }
}

/// The imported form of a parameter: its name, example text, whether it is
/// required, its schema's type (default `string`), its description (else
/// its schema's), enabled.
pub open spec fn param_view(p: OaParameter, d: OaDocument) -> ApiParamView {
    ApiParamView {
        key: p.name@,
        example: match param_ex(p, d) {
            Ex::Done(Some(j)) => text_of_json(j),
            _ => Seq::empty(),
        },
        required: p.required,
        param_type: match param_schema(p, d) {
            Some(s) => param_type_of(s),
            None => "string"@,
        },
        description: match p.description {
            Some(t) => t@,
            None => match param_schema(p, d) {
                Some(s) => text_or_empty(s.description),
                None => Seq::empty(),
            },
        },
        enabled: true,
    }
}

/// The headers and query parameters read so far, the `location:name` keys
/// seen, and whether every example so far came to an end.
pub struct ParamFold {
    pub headers: Seq<ApiParamView>,
    pub query: Seq<ApiParamView>,
    pub seen: Set<Seq<char>>,
    pub ends: bool,
}

/// The parameters of an operation (path-level first): each resolved
/// parameter is taken once per location and name; those with a name are
/// imported, query and header ones kept.
pub open spec fn param_fold(ps: Seq<ParamRef>, d: OaDocument) -> ParamFold
    decreases ps.len(),
{
    if ps.len() == 0 {
        ParamFold { headers: Seq::empty(), query: Seq::empty(), seen: Set::empty(), ends: true }
    } else {
        let st = param_fold(ps.drop_last(), d);
        match resolve_param(ps.last(), d) {
            None => st,
            Some(p) => {
                let k = loc_text(p.location) + ":"@ + p.name@;
                if st.seen.contains(k) {
                    st
                } else if p.name@.len() == 0 {
                    ParamFold { seen: st.seen.insert(k), ..st }
                } else {
                    let v = param_view(p, d);
                    let e = st.ends && ends(param_ex(p, d));
                    match p.location {
                        ParamLocation::Query => ParamFold {
                            headers: st.headers,
                            query: st.query.push(v),
                            seen: st.seen.insert(k),
                            ends: e,
                        },
                        ParamLocation::Header => ParamFold {
                            headers: st.headers.push(v),
                            query: st.query,
                            seen: st.seen.insert(k),
                            ends: e,
                        },
                        _ => ParamFold { seen: st.seen.insert(k), ends: e, ..st },
                    }
                }
            },
        }
    }
}

// ----- request bodies -----

/// The example of a JSON media type: its example, else the value of its
/// first named example (when inline), else its schema's.
pub open spec fn media_ex(m: OaMediaType, d: OaDocument) -> Ex {
    match m.example {
        Some(v) => Ex::Done(Some(v@)),
        None => {
            let named = if m.examples@.len() > 0 {
                match m.examples@[0].1 {
                    ExampleRef::Item(Some(v)) => Some(v@),
                    _ => None,
                }
            } else {
                None
            };
            match named {
                Some(j) => Ex::Done(Some(j)),
                None => match m.schema {
                    Some(r) => ex_ref(r, comp_schemas(d), Set::empty()),
                    None => Ex::Done(None),
                },
            }
        },
    }
}

/// The body text for an example: pretty JSON, `{}` without example.
pub open spec fn example_content(e: Ex) -> Seq<char> {
    match e {
        Ex::Done(Some(j)) => match json_pretty_text(j) {
            Ok(t) => t,
            Err(_) => "{}"@,
        },
        _ => "{}"@,
    }
}

/// The node of a structure tree with nothing set.
pub open spec fn empty_field() -> Field {
    Field {
        key: Seq::empty(),
        name: Seq::empty(),
        required: false,
        field_type: Seq::empty(),
        example: Seq::empty(),
        description: Seq::empty(),
        children: Seq::empty(),
        items: None,
    }
}

/// Whether a structure tree has no content (see `json_body_is_empty`).
pub open spec fn field_is_empty(f: Field) -> bool {
    ||| f.field_type.len() == 0
    ||| {
        &&& f.field_type == "object"@
        &&& f.name.len() == 0
        &&& f.example.len() == 0
        &&& f.description.len() == 0
        &&& !f.required
        &&& f.children.len() == 0
        &&& f.items.is_none()
    }
}

/// The structure tree of a JSON media type's schema (the empty node when
/// the schema gives none; the bare `object` root without schema).
pub open spec fn schema_tree(m: OaMediaType, d: OaDocument) -> Field {
    match m.schema {
        Some(r) => match resolve_schema(r, comp_schemas(d)) {
            Some(s) => match fd_schema(s, comp_schemas(d), Seq::empty()) {
                Some(f) => f,
                None => empty_field(),
            },
            None => bare_object_field(),
        },
        None => bare_object_field(),
    }
}

/// The structure tree of a body text: the tree of its JSON value, or the
/// bare `object` root when it is not JSON.
pub open spec fn content_tree(content: Seq<char>) -> Field {
    match json_parse_result(content) {
        Ok(v) => vf(v),
        Err(_) => bare_object_field(),
    }
}

/// The structure tree of a JSON body: from the schema, else (when that has
/// no content) from the example text.
pub open spec fn json_tree(m: OaMediaType, d: OaDocument) -> Field {
    let t = schema_tree(m, d);
    if field_is_empty(t) {
        content_tree(example_content(media_ex(m, d)))
    } else {
        t
    }
}

/// The body of an operation, its structure tree, and whether its example
/// came to an end: a JSON body (mode `json`, pretty example text) when the
/// request body has `application/json`, else a raw `text/plain` body with
/// its string example, else none.
pub open spec fn op_body(op: OaOperation, d: OaDocument) -> (BodyView, Field, bool) {
    let none = (body_view(Seq::empty(), Seq::empty(), Seq::empty()), bare_object_field(), true);
    match op.request_body {
        Some(r) => match resolve_body(r, d) {
            Some(rb) => match lookup(rb.content@, "application/json"@) {
                Some(m) => (
                    body_view("json"@, example_content(media_ex(m, d)), "application/json"@),
                    json_tree(m, d),
                    ends(media_ex(m, d)),
                ),
                None => match lookup(rb.content@, "text/plain"@) {
                    Some(m) => (
                        body_view("raw"@, match m.example {
                            Some(JsonValue::String(t)) => t@,
                            _ => Seq::empty(),
                        }, "text/plain"@),
                        bare_object_field(),
                        true,
                    ),
                    None => none,
                },
            },
            None => none,
        },
        None => none,
    }
}

// ----- interfaces -----

/// The name of an operation: its summary, else its operation id, else the
/// path.
pub open spec fn op_name(op: OaOperation, path: Seq<char>) -> Seq<char> {
    match op.summary {
        Some(s) => s@,
        None => match op.operation_id {
            Some(s) => s@,
            None => path,
        },
    }
}

/// The interface imported for one operation (`method` in lower case).
pub open spec fn op_iface(path: Seq<char>, method: Seq<char>, op: OaOperation, pi: OaPathItem, d: OaDocument) -> ImportedIfaceView {
    let name = op_name(op, path);
    let pf = param_fold(pi.parameters@ + op.parameters@, d);
    let body = op_body(op, d);
    let base = server_base(d);
    ImportedIfaceView {
        group_path: tag_group(op),
        key: name,
        name,
        method: uppercase(method),
        url: if base.len() == 0 {
            path
        } else {
            base + path
        },
        headers: pf.headers,
        query: pf.query,
        body: body.0,
        auth: auth_for(security_kind(d)),
        description: text_or_empty(op.description),
        tree: body.1,
    }
}

/// Whether every example of an operation comes to an end.
pub open spec fn op_ends(op: OaOperation, pi: OaPathItem, d: OaDocument) -> bool {
    param_fold(pi.parameters@ + op.parameters@, d).ends && op_body(op, d).2
}

/// The interfaces of some operations of a path, in order.
pub open spec fn path_ifaces(path: Seq<char>, pi: OaPathItem, ops: Seq<(String, OaOperation)>, d: OaDocument) -> Seq<ImportedIfaceView>
    decreases ops.len(),
{
    if ops.len() == 0 {
        Seq::empty()
    } else {
        path_ifaces(path, pi, ops.drop_last(), d).push(op_iface(path, ops.last().0@, ops.last().1, pi, d))
    }
}

/// The interfaces of some paths, in order (a path given by reference is
/// skipped).
pub open spec fn doc_ifaces(paths: Seq<(String, PathItemRef)>, d: OaDocument) -> Seq<ImportedIfaceView>
    decreases paths.len(),
{
    if paths.len() == 0 {
        Seq::empty()
    } else {
        doc_ifaces(paths.drop_last(), d) + match paths.last().1 {
            PathItemRef::Item(pi) => path_ifaces(paths.last().0@, pi, pi.operations@, d),
            PathItemRef::Reference(_) => Seq::empty(),
        }
    }
}

/// Whether every example of every operation of a path comes to an end.
pub open spec fn path_ends(pi: OaPathItem, d: OaDocument) -> bool {
    forall|j: int| 0 <= j < pi.operations@.len() ==> op_ends(#[trigger] pi.operations@[j].1, pi, d)
}

/// Whether every example of a path (given inline) comes to an end.
pub open spec fn item_ends(r: PathItemRef, d: OaDocument) -> bool {
    match r {
        PathItemRef::Item(pi) => path_ends(pi, d),
        PathItemRef::Reference(_) => true,
    }
}

/// Whether every example of every operation comes to an end.
pub open spec fn doc_ends(d: OaDocument) -> bool {
    forall|i: int| 0 <= i < d.paths@.len() ==> item_ends(#[trigger] d.paths@[i].1, d)
}

/// What a document yields: its title and interfaces, or an error when it
/// has none.
pub open spec fn openapi_spec(d: OaDocument) -> Result<(Seq<char>, Seq<ImportedIfaceView>), Seq<char>> {
    let list = doc_ifaces(d.paths@, d);
    if list.len() == 0 {
        Err("未解析到任何 paths 接口"@)
    } else {
        Ok((d.title@, list))
    }
}

// ----- exec -----

/// The component lists of a document (empty without components).
struct Parts<'a> {
    schemas: &'a Vec<(String, SchemaRef)>,
    params: &'a Vec<(String, ParamRef)>,
    bodies: &'a Vec<(String, RequestBodyRef)>,
}

spec fn parts_of(p: Parts, d: OaDocument) -> bool {
    &&& p.schemas@ == comp_schemas(d)
    &&& p.params@ == comp_params(d)
    &&& p.bodies@ == comp_bodies(d)
}

fn scheme_kind_exec(r: &SecuritySchemeRef) -> (k: String)
    ensures
        k@ == scheme_kind(*r),
{
    match r {
        SecuritySchemeRef::Item(OaSecurityScheme::Http(s)) => if str_eq(s.as_str(), "basic") {
            owned("basic")
        } else if str_eq(s.as_str(), "bearer") {
            owned("bearer")
        } else {
            String::new()
        },
        SecuritySchemeRef::Item(OaSecurityScheme::ApiKey) => owned("api-key"),
        _ => String::new(),
    }
}

fn known_schemes_exec(entries: &Vec<(String, SecuritySchemeRef)>) -> (r: Vec<(String, String)>)
    ensures
        pair_views(r@) == known_schemes(entries@),
{
    let mut out: Vec<(String, String)> = Vec::new();
    let mut i: usize = 0;
    proof {
        assert(pair_views(out@) =~= Seq::<(Seq<char>, Seq<char>)>::empty());
        assert(entries@.take(0) =~= Seq::<(String, SecuritySchemeRef)>::empty());
    }
    while i < entries.len()
        invariant
            i <= entries.len(),
            pair_views(out@) == known_schemes(entries@.take(i as int)),
        decreases entries.len() - i,
    {
        proof {
            assert(entries@.take(i + 1).drop_last() =~= entries@.take(i as int));
            assert(entries@.take(i + 1).last() == entries@[i as int]);
        }
        let k = scheme_kind_exec(&entries[i].1);
        if k.as_str().unicode_len() > 0 {
            let pair = (entries[i].0.clone(), k);
            let ghost before = out@;
            out.push(pair);
            proof {
                assert(pair_views(out@) =~= pair_views(before).push((pair.0@, pair.1@)));
            }
        }
        i += 1;
    }
    proof {
        assert(entries@.take(entries.len() as int) =~= entries@);
    }
    out
}

fn scheme_named_exec(schemes: &Vec<(String, String)>, name: &String) -> (r: Option<String>)
    ensures
        match r {
            Some(k) => scheme_named(pair_views(schemes@), name@) == Some(k@),
            None => scheme_named(pair_views(schemes@), name@).is_none(),
        },
{
    let ghost pv = pair_views(schemes@);
    let mut i: usize = 0;
    proof {
        assert(pv.skip(0) =~= pv);
    }
    while i < schemes.len()
        invariant
            i <= schemes.len(),
            pv == pair_views(schemes@),
            pv.len() == schemes@.len(),
            scheme_named(pv, name@) == scheme_named(pv.skip(i as int), name@),
        decreases schemes.len() - i,
    {
        proof {
            assert(pv.skip(i as int).drop_first() =~= pv.skip(i + 1));
            assert(pv.skip(i as int)[0] == pv[i as int]);
            assert(pv[i as int] == (schemes@[i as int].0@, schemes@[i as int].1@));
        }
        if str_eq(schemes[i].0.as_str(), name.as_str()) {
            return Some(schemes[i].1.clone());
        }
        i += 1;
    }
    proof {
        assert(pv.skip(i as int) =~= Seq::<(Seq<char>, Seq<char>)>::empty());
    }
    None
}

/// The optional text of an optional string.
pub open spec fn opt_text(o: Option<String>) -> Option<Seq<char>> {
    match o {
        Some(t) => Some(t@),
        None => None,
    }
}

fn security_kind_exec(d: &OaDocument, security: &Vec<(String, SecuritySchemeRef)>) -> (r: Option<String>)
    requires
        security@ == comp_security(*d),
    ensures
        opt_text(r) == security_kind(*d),
{
    match &d.security {
        None => None,
        Some(reqs) => {
            let schemes = known_schemes_exec(security);
            let mut i: usize = reqs.len();
            proof {
                assert(reqs@.take(reqs.len() as int) =~= reqs@);
            }
            while i > 0
                invariant
                    i <= reqs.len(),
                    pair_views(schemes@) == known_schemes(comp_security(*d)),
                    d.security == Some(*reqs),
                    security_kind(*d) == required_scheme(reqs@.take(i as int), pair_views(schemes@)),
                decreases i,
            {
                proof {
                    assert(reqs@.take(i as int).drop_last() =~= reqs@.take(i - 1));
                    assert(reqs@.take(i as int).last() == reqs@[i - 1]);
                }
                let entry = &reqs[i - 1];
                if entry.len() > 0 {
                    if let Some(k) = scheme_named_exec(&schemes, &entry[0]) {
                        return Some(k);
                    }
                }
                i -= 1;
            }
            None
        },
    }
}

fn auth_exec(kind: &Option<String>) -> (r: Auth)
    ensures
        r@ == auth_for(opt_text(*kind)),
{
    let mut a = Auth::default();
    match kind {
        Some(k) => {
            let k = k.as_str();
            if str_eq(k, "bearer") {
                a.kind = owned("bearer");
                a.token = owned("{{token}}");
            } else if str_eq(k, "basic") {
                a.kind = owned("basic");
                a.username = owned("{{username}}");
                a.password = owned("{{password}}");
            } else if str_eq(k, "api-key") {
                a.kind = owned("api-key");
                a.api_key_name = owned("X-API-Key");
                a.api_key_in = owned("header");
                a.api_key_value = owned("{{api_key}}");
            }
        },
        None => {},
    }
    a
}

fn server_base_exec(d: &OaDocument) -> (r: String)
    ensures
        r@ == server_base(*d),
{
    if d.servers.len() == 0 {
        return String::new();
    }
    let mut v = trim_chars(d.servers[0].as_str());
    while v.len() > 0 && v[v.len() - 1] == '/'
        invariant
            strip_end_slashes(v@) == strip_end_slashes(trim(d.servers@[0]@)),
        decreases v.len(),
    {
        v.pop();
    }
    string_of(&v)
}

fn tag_group_exec(op: &OaOperation) -> (r: Vec<String>)
    ensures
        string_views(r@) == tag_group(*op),
{
    let mut out: Vec<String> = Vec::new();
    if op.tags.len() > 0 {
        let k = sanitize(op.tags[0].as_str());
        if k.as_str().unicode_len() > 0 && !str_eq(k.as_str(), "default") {
            out.push(k);
            proof {
                assert(string_views(out@) =~= seq![k@]);
            }
            return out;
        }
    }
    proof {
        assert(string_views(out@) =~= Seq::<Seq<char>>::empty());
    }
    out
}

fn resolve_param_exec<'a>(p: &'a ParamRef, params: &'a Vec<(String, ParamRef)>, Ghost(d): Ghost<OaDocument>) -> (r: Option<&'a OaParameter>)
    requires
        params@ == comp_params(d),
    ensures
        match r {
            Some(x) => resolve_param(*p, d) == Some(*x),
            None => resolve_param(*p, d).is_none(),
        },
{
    match p {
        ParamRef::Item(x) => Some(x),
        ParamRef::Reference(t) => match crate::schemas::strip_prefix_exec(t.as_str(), "#/components/parameters/") {
            Some(n) => match find_entry(params, n.as_str()) {
                Some(i) => {
                    proof {
                        lemma_lookup(params@, n@);
                    }
                    match &params[i].1 {
                        ParamRef::Item(x) => Some(x),
                        ParamRef::Reference(_) => None,
                    }
                },
                None => {
                    proof {
                        lemma_lookup(params@, n@);
                    }
                    None
                },
            },
            None => None,
        },
    }
}

fn resolve_body_exec<'a>(r: &'a RequestBodyRef, bodies: &'a Vec<(String, RequestBodyRef)>, Ghost(d): Ghost<OaDocument>) -> (res: Option<&'a OaRequestBody>)
    requires
        bodies@ == comp_bodies(d),
    ensures
        match res {
            Some(x) => resolve_body(*r, d) == Some(*x),
            None => resolve_body(*r, d).is_none(),
        },
{
    match r {
        RequestBodyRef::Item(x) => Some(x),
        RequestBodyRef::Reference(t) => match crate::schemas::strip_prefix_exec(t.as_str(), "#/components/requestBodies/") {
            Some(n) => match find_entry(bodies, n.as_str()) {
                Some(i) => {
                    proof {
                        lemma_lookup(bodies@, n@);
                    }
                    match &bodies[i].1 {
                        RequestBodyRef::Item(x) => Some(x),
                        RequestBodyRef::Reference(_) => None,
                    }
                },
                None => {
                    proof {
                        lemma_lookup(bodies@, n@);
                    }
                    None
                },
            },
            None => None,
        },
    }
}

fn resolve_schema_exec<'a>(r: &'a SchemaRef, schemas: &'a Vec<(String, SchemaRef)>) -> (res: Option<&'a OaSchema>)
    ensures
        match res {
            Some(x) => resolve_schema(*r, schemas@) == Some(*x),
            None => resolve_schema(*r, schemas@).is_none(),
        },
{
    match r {
        SchemaRef::Item(b) => Some(b),
        SchemaRef::Reference(t) => match ref_target_exec(schemas, t.as_str()) {
            Some((_, i)) => match &schemas[i].1 {
                SchemaRef::Item(b) => Some(b),
                SchemaRef::Reference(_) => None,
            },
            None => None,
        },
    }
}

fn loc_text_exec(l: &ParamLocation) -> (r: String)
    ensures
        r@ == loc_text(*l),
{
    match l {
        ParamLocation::Query => owned("query"),
        ParamLocation::Header => owned("header"),
        ParamLocation::Path => owned("path"),
        ParamLocation::Cookie => owned("cookie"),
    }
}

proof fn lemma_empty_path(s: Seq<String>)
    requires
        s.len() == 0,
    ensures
        set_of(string_views(s)) == Set::<Seq<char>>::empty(),
{
    assert(set_of(string_views(s)) =~= Set::<Seq<char>>::empty());
}

/// The imported form of a parameter (see `param_view`); `None` when its
/// example has no end.
fn param_exec(p: &OaParameter, schemas: &Vec<(String, SchemaRef)>, Ghost(d): Ghost<OaDocument>) -> (r: Option<ApiParam>)
    requires
        schemas@ == comp_schemas(d),
    ensures
        match r {
            Some(a) => ends(param_ex(*p, d)) && a@ == param_view(*p, d),
            None => !ends(param_ex(*p, d)),
        },
{
    let schema = match &p.schema {
        Some(r) => resolve_schema_exec(r, schemas),
        None => None,
    };
    let example = match &p.example {
        Some(v) => example_text(v),
        None => match schema {
            Some(s) => {
                let empty: Vec<String> = Vec::new();
                proof {
                    lemma_empty_path(empty@);
                }
                match example_schema(s, schemas, &empty) {
                    None => {
                        return None;
                    },
                    Some(Some(j)) => example_text(&j),
                    Some(None) => String::new(),
                }
            },
            None => String::new(),
        },
    };
    let param_type = match schema {
        Some(s) => schema_type_name(s),
        None => owned("string"),
    };
    let description = match &p.description {
        Some(t) => t.clone(),
        None => match schema {
            Some(s) => match &s.description {
                Some(t) => t.clone(),
                None => String::new(),
            },
            None => String::new(),
        },
    };
    Some(ApiParam { key: p.name.clone(), example, required: p.required, param_type, description, enabled: true })
}

/// Whether the lists read so far are those of `param_fold(prefix, d)`.
spec fn fold_matches(
    headers: Seq<ApiParam>,
    query: Seq<ApiParam>,
    seen: Seq<String>,
    prefix: Seq<ParamRef>,
    d: OaDocument,
) -> bool {
    let st = param_fold(prefix, d);
    &&& st.ends
    &&& crate::domain::params_view(headers) == st.headers
    &&& crate::domain::params_view(query) == st.query
    &&& st.seen == set_of(string_views(seen))
}

/// Reads one more parameter into the lists; `false` when its example has
/// no end.
fn fold_step(
    p: &ParamRef,
    parts: &Parts,
    headers: &mut Vec<ApiParam>,
    query: &mut Vec<ApiParam>,
    seen: &mut Vec<String>,
    Ghost(prefix): Ghost<Seq<ParamRef>>,
    Ghost(d): Ghost<OaDocument>,
) -> (ok: bool)
    requires
        parts_of(*parts, d),
        fold_matches(old(headers)@, old(query)@, old(seen)@, prefix, d),
    ensures
        ok ==> fold_matches(final(headers)@, final(query)@, final(seen)@, prefix.push(*p), d),
        !ok ==> !param_fold(prefix.push(*p), d).ends,
{
    let ghost all = prefix.push(*p);
    proof {
        assert(all.drop_last() =~= prefix);
    }
    match resolve_param_exec(p, parts.params, Ghost(d)) {
        None => {},
        Some(x) => {
            let mut k = chars_of(loc_text_exec(&x.location).as_str());
            extend_str(&mut k, ":");
            extend_str(&mut k, x.name.as_str());
            let key = string_of(&k);
            proof {
                assert(key@ == loc_text(x.location) + ":"@ + x.name@);
            }
            if !contains_name(seen, &key) {
                let ghost before_seen = seen@;
                seen.push(key.clone());
                proof {
                    assert(string_views(seen@) =~= string_views(before_seen).push(key@));
                    lemma_set_of_push(string_views(before_seen), key@);
                }
                if x.name.as_str().unicode_len() > 0 {
                    match param_exec(x, parts.schemas, Ghost(d)) {
                        None => {
                            return false;
                        },
                        Some(a) => {
                            match &x.location {
                                ParamLocation::Query => {
                                    let ghost qb = query@;
                                    query.push(a);
                                    proof {
                                        assert(crate::domain::params_view(query@) =~= crate::domain::params_view(qb).push(a@));
                                    }
                                },
                                ParamLocation::Header => {
                                    let ghost hb = headers@;
                                    headers.push(a);
                                    proof {
                                        assert(crate::domain::params_view(headers@) =~= crate::domain::params_view(hb).push(a@));
                                    }
                                },
                                _ => {},
                            }
                        },
                    }
                }
            } else {
                proof {
                    assert(param_fold(prefix, d).seen.contains(key@));
                }
            }
        },
    }
    true
}

/// The headers and query parameters of an operation (see `param_fold`);
/// `None` when an example has no end.
fn params_exec(shared: &Vec<ParamRef>, own: &Vec<ParamRef>, parts: &Parts, Ghost(d): Ghost<OaDocument>) -> (r: Option<(Vec<ApiParam>, Vec<ApiParam>)>)
    requires
        parts_of(*parts, d),
    ensures
        match r {
            Some((h, q)) => {
                let st = param_fold(shared@ + own@, d);
                &&& st.ends
                &&& crate::domain::params_view(h@) == st.headers
                &&& crate::domain::params_view(q@) == st.query
            },
            None => !param_fold(shared@ + own@, d).ends,
        },
{
    let ghost all = shared@ + own@;
    let mut headers: Vec<ApiParam> = Vec::new();
    let mut query: Vec<ApiParam> = Vec::new();
    let mut seen: Vec<String> = Vec::new();
    proof {
        assert(shared@.take(0) =~= Seq::<ParamRef>::empty());
        assert(crate::domain::params_view(headers@) =~= Seq::<ApiParamView>::empty());
        assert(crate::domain::params_view(query@) =~= Seq::<ApiParamView>::empty());
        lemma_empty_path(seen@);
    }
    let mut i: usize = 0;
    while i < shared.len()
        invariant
            parts_of(*parts, d),
            all == shared@ + own@,
            i <= shared.len(),
            fold_matches(headers@, query@, seen@, shared@.take(i as int), d),
        decreases shared.len() - i,
    {
        proof {
            assert(shared@.take(i as int).push(shared@[i as int]) =~= shared@.take(i + 1));
            assert(all.take(i + 1) =~= shared@.take(i + 1));
        }
        if !fold_step(&shared[i], parts, &mut headers, &mut query, &mut seen, Ghost(shared@.take(i as int)), Ghost(d)) {
            proof {
                lemma_fold_stops(all, d, i + 1);
            }
            return None;
        }
        i += 1;
    }
    let mut j: usize = 0;
    proof {
        assert(shared@.take(shared.len() as int) =~= shared@ + own@.take(0));
    }
    while j < own.len()
        invariant
            parts_of(*parts, d),
            all == shared@ + own@,
            j <= own.len(),
            fold_matches(headers@, query@, seen@, shared@ + own@.take(j as int), d),
        decreases own.len() - j,
    {
        proof {
            assert((shared@ + own@.take(j as int)).push(own@[j as int]) =~= shared@ + own@.take(j + 1));
            assert(all.take(shared@.len() + j + 1) =~= shared@ + own@.take(j + 1));
        }
        if !fold_step(&own[j], parts, &mut headers, &mut query, &mut seen, Ghost(shared@ + own@.take(j as int)), Ghost(d)) {
            proof {
                lemma_fold_stops(all, d, shared@.len() + j + 1);
            }
            return None;
        }
        j += 1;
    }
    proof {
        assert(shared@ + own@.take(own.len() as int) =~= all);
    }
    Some((headers, query))
}

/// Once an example of the fold has no end, the whole fold has none.
proof fn lemma_fold_stops(all: Seq<ParamRef>, d: OaDocument, i: int)
    requires
        0 <= i <= all.len(),
        !param_fold(all.take(i), d).ends,
    ensures
        !param_fold(all, d).ends,
    decreases all.len() - i,
{
    if i < all.len() {
        assert(all.take(i + 1).drop_last() =~= all.take(i));
        lemma_fold_stops(all, d, i + 1);
    } else {
        assert(all.take(i) =~= all);
    }
}

// ----- request bodies (exec) -----

proof fn lemma_empty_tree(f: BodyField)
    ensures
        json_body_is_empty(f) == field_is_empty(field_of(f)),
{
    lemma_fields_of(f.children@);
}

/// The example of a JSON media type (see `media_ex`); `None` when it has
/// no end.
fn media_example(m: &OaMediaType, schemas: &Vec<(String, SchemaRef)>, Ghost(d): Ghost<OaDocument>) -> (r: Option<Option<JsonValue>>)
    requires
        schemas@ == comp_schemas(d),
    ensures
        ex_view(r) == media_ex(*m, d),
{
    match &m.example {
        Some(v) => Some(Some(v.clone_json())),
        None => {
            let named: Option<JsonValue> = if m.examples.len() > 0 {
                match &m.examples[0].1 {
                    ExampleRef::Item(Some(v)) => Some(v.clone_json()),
                    _ => None,
                }
            } else {
                None
            };
            match named {
                Some(j) => Some(Some(j)),
                None => match &m.schema {
                    Some(r) => {
                        let empty: Vec<String> = Vec::new();
                        proof {
                            lemma_empty_path(empty@);
                        }
                        example_ref(r, schemas, &empty)
                    },
                    None => Some(None),
                },
            }
        },
    }
}

/// The body text for an example that came to an end (see
/// `example_content`).
fn example_content_exec(e: &Option<JsonValue>) -> (r: String)
    ensures
        r@ == example_content(Ex::Done(opt_json(*e))),
{
    match e {
        Some(v) => match pretty_json(v) {
            Ok(t) => t,
            Err(_) => owned("{}"),
        },
        None => owned("{}"),
    }
}

/// The bare `object` root node.
fn bare_root() -> (r: BodyField)
    ensures
        field_of(r) == bare_object_field(),
{
    let r = JsonBody::default().root;
    proof {
        lemma_bare_root(r);
    }
    r
}

/// The structure tree of a JSON body (see `json_tree`), given its body
/// text.
fn json_tree_exec(m: &OaMediaType, schemas: &Vec<(String, SchemaRef)>, content: &String, Ghost(d): Ghost<OaDocument>) -> (r: BodyField)
    requires
        schemas@ == comp_schemas(d),
        content@ == example_content(media_ex(*m, d)),
    ensures
        field_of(r) == json_tree(*m, d),
{
    let t: BodyField = match &m.schema {
        Some(sr) => match resolve_schema_exec(sr, schemas) {
            Some(s) => {
                let empty: Vec<String> = Vec::new();
                proof {
                    assert(string_views(empty@) =~= Seq::<Seq<char>>::empty());
                }
                match field_schema(s, schemas, &empty) {
                    Some(f) => f,
                    None => {
                        let e = JsonBody::new_root("").root;
                        proof {
                            reveal_strlit("");
                            assert(e.field_type@ =~= Seq::<char>::empty());
                            assert(e.key@ =~= Seq::<char>::empty());
                            assert(e.name@ =~= Seq::<char>::empty());
                            assert(e.example@ =~= Seq::<char>::empty());
                            assert(e.description@ =~= Seq::<char>::empty());
                            assert(fields_of(e.children@) =~= Seq::<Field>::empty());
                            assert(field_of(e) == empty_field());
                        }
                        e
                    },
                }
            },
            None => bare_root(),
        },
        None => bare_root(),
    };
    proof {
        assert(field_of(t) == schema_tree(*m, d));
        lemma_empty_tree(t);
    }
    let tree = JsonBody { root: t };
    if tree.is_empty() {
        match parse_json_or_error(content.as_str()) {
            Ok(v) => value_to_field(&v),
            Err(_) => bare_root(),
        }
    } else {
        tree.root
    }
}

/// No body, with the bare `object` tree.
fn no_body() -> (b: Body)
    ensures
        b@ == body_view(Seq::empty(), Seq::empty(), Seq::empty()),
        field_of(b.json.root) == bare_object_field(),
{
    let b = Body::default();
    proof {
        lemma_bare_root(b.json.root);
    }
    b
}

/// The body of an operation (see `op_body`); `None` when its example has
/// no end.
fn body_exec(op: &OaOperation, parts: &Parts, Ghost(d): Ghost<OaDocument>) -> (r: Option<Body>)
    requires
        parts_of(*parts, d),
    ensures
        match r {
            Some(b) => {
                &&& op_body(*op, d).2
                &&& b@ == op_body(*op, d).0
                &&& field_of(b.json.root) == op_body(*op, d).1
            },
            None => !op_body(*op, d).2,
        },
{
    let rb = match &op.request_body {
        Some(r) => match resolve_body_exec(r, parts.bodies, Ghost(d)) {
            Some(rb) => rb,
            None => {
                return Some(no_body());
            },
        },
        None => {
            return Some(no_body());
        },
    };
    proof {
        lemma_lookup(rb.content@, "application/json"@);
        lemma_lookup(rb.content@, "text/plain"@);
    }
    match find_entry(&rb.content, "application/json") {
        Some(i) => {
            let m = &rb.content[i].1;
            let example = match media_example(m, parts.schemas, Ghost(d)) {
                Some(e) => e,
                None => {
                    return None;
                },
            };
            let content = example_content_exec(&example);
            let root = json_tree_exec(m, parts.schemas, &content, Ghost(d));
            let b = Body {
                mode: owned("json"),
                content,
                content_type: owned("application/json"),
                json: JsonBody { root },
                form: Vec::new(),
                file_path: None,
            };
            proof {
                assert(b@.form =~= Seq::<ApiParamView>::empty());
            }
            Some(b)
        },
        None => match find_entry(&rb.content, "text/plain") {
            Some(i) => {
                let m = &rb.content[i].1;
                let content = match &m.example {
                    Some(JsonValue::String(t)) => t.clone(),
                    _ => String::new(),
                };
                let root = bare_root();
                let b = Body {
                    mode: owned("raw"),
                    content,
                    content_type: owned("text/plain"),
                    json: JsonBody { root },
                    form: Vec::new(),
                    file_path: None,
                };
                proof {
                    assert(b@.form =~= Seq::<ApiParamView>::empty());
                }
                Some(b)
            },
            None => Some(no_body()),
        },
    }
}

// ----- interfaces (exec) -----

/// The interface imported for one operation (see `op_iface`); `None` when
/// an example has no end. `base` is the server base and `auth` the
/// required authentication kind.
fn iface_exec(
    path: &String,
    method: &String,
    op: &OaOperation,
    pi: &OaPathItem,
    parts: &Parts,
    base: &String,
    auth: &Option<String>,
    Ghost(d): Ghost<OaDocument>,
) -> (r: Option<ImportedIface>)
    requires
        parts_of(*parts, d),
        base@ == server_base(d),
        opt_text(*auth) == security_kind(d),
    ensures
        match r {
            Some(x) => op_ends(*op, *pi, d) && x@ == op_iface(path@, method@, *op, *pi, d),
            None => !op_ends(*op, *pi, d),
        },
{
    let (headers, query) = match params_exec(&pi.parameters, &op.parameters, parts, Ghost(d)) {
        Some(x) => x,
        None => {
            return None;
        },
    };
    let body = match body_exec(op, parts, Ghost(d)) {
        Some(b) => b,
        None => {
            return None;
        },
    };
    let name = match &op.summary {
        Some(s) => s.clone(),
        None => match &op.operation_id {
            Some(s) => s.clone(),
            None => path.clone(),
        },
    };
    let url = if base.as_str().unicode_len() == 0 {
        path.clone()
    } else {
        crate::domain::concat(base.as_str(), path.as_str())
    };
    let description = match &op.description {
        Some(t) => t.clone(),
        None => String::new(),
    };
    Some(ImportedIface {
        group_path: tag_group_exec(op),
        key: name.clone(),
        name,
        method: to_uppercase(method.as_str()),
        url,
        headers,
        query,
        body,
        auth: auth_exec(auth),
        description,
    })
}

/// Appends the interfaces of a path's operations to `list`; `false` when
/// an example has no end.
fn path_exec(
    path: &String,
    pi: &OaPathItem,
    parts: &Parts,
    base: &String,
    auth: &Option<String>,
    list: &mut Vec<ImportedIface>,
    Ghost(d): Ghost<OaDocument>,
) -> (ok: bool)
    requires
        parts_of(*parts, d),
        base@ == server_base(d),
        opt_text(*auth) == security_kind(d),
    ensures
        ok ==> path_ends(*pi, d) && ifaces_view(final(list)@) == ifaces_view(old(list)@) + path_ifaces(path@, *pi, pi.operations@, d),
        !ok ==> !path_ends(*pi, d),
{
    let ghost start = ifaces_view(list@);
    let mut j: usize = 0;
    proof {
        assert(pi.operations@.take(0) =~= Seq::<(String, OaOperation)>::empty());
        assert(start + path_ifaces(path@, *pi, Seq::empty(), d) =~= start);
    }
    while j < pi.operations.len()
        invariant
            parts_of(*parts, d),
            base@ == server_base(d),
            opt_text(*auth) == security_kind(d),
            j <= pi.operations.len(),
            ifaces_view(list@) == start + path_ifaces(path@, *pi, pi.operations@.take(j as int), d),
            forall|k: int| 0 <= k < j ==> op_ends(#[trigger] pi.operations@[k].1, *pi, d),
        decreases pi.operations.len() - j,
    {
        let entry = &pi.operations[j];
        match iface_exec(path, &entry.0, &entry.1, pi, parts, base, auth, Ghost(d)) {
            None => {
                return false;
            },
            Some(x) => {
                let ghost before = list@;
                list.push(x);
                proof {
                    assert(pi.operations@.take(j + 1).drop_last() =~= pi.operations@.take(j as int));
                    assert(ifaces_view(list@) =~= ifaces_view(before).push(x@));
                    assert(start + path_ifaces(path@, *pi, pi.operations@.take(j + 1), d) =~= (start
                        + path_ifaces(path@, *pi, pi.operations@.take(j as int), d)).push(x@));
                }
            },
        }
        j += 1;
    }
    proof {
        assert(pi.operations@.take(pi.operations.len() as int) =~= pi.operations@);
    }
    true
}

/// The interfaces of a document (see `openapi_spec`); `None` when the
/// example of some operation has no end.
pub fn openapi_interfaces(d: &OaDocument) -> (r: Option<Result<(String, Vec<ImportedIface>), String>>)
    ensures
        r.is_none() <==> !doc_ends(*d),
        match r {
            Some(Ok((title, list))) => openapi_spec(*d) == Ok::<(Seq<char>, Seq<ImportedIfaceView>), Seq<char>>((title@, ifaces_view(list@))),
            Some(Err(e)) => openapi_spec(*d) == Err::<(Seq<char>, Seq<ImportedIfaceView>), Seq<char>>(e@),
            None => true,
        },
{
    let no_schemas: Vec<(String, SchemaRef)> = Vec::new();
    let no_params: Vec<(String, ParamRef)> = Vec::new();
    let no_bodies: Vec<(String, RequestBodyRef)> = Vec::new();
    let no_security: Vec<(String, SecuritySchemeRef)> = Vec::new();
    let (parts, security) = match &d.components {
        Some(c) => (Parts { schemas: &c.schemas, params: &c.parameters, bodies: &c.request_bodies }, &c.security_schemes),
        None => (Parts { schemas: &no_schemas, params: &no_params, bodies: &no_bodies }, &no_security),
    };
    proof {
        assert(parts.schemas@ =~= comp_schemas(*d));
        assert(parts.params@ =~= comp_params(*d));
        assert(parts.bodies@ =~= comp_bodies(*d));
        assert(security@ =~= comp_security(*d));
    }
    let auth = security_kind_exec(d, security);
    let base = server_base_exec(d);
    let mut list: Vec<ImportedIface> = Vec::new();
    let mut i: usize = 0;
    proof {
        assert(d.paths@.take(0) =~= Seq::<(String, PathItemRef)>::empty());
        assert(ifaces_view(list@) =~= Seq::<ImportedIfaceView>::empty());
    }
    while i < d.paths.len()
        invariant
            parts_of(parts, *d),
            base@ == server_base(*d),
            opt_text(auth) == security_kind(*d),
            i <= d.paths.len(),
            ifaces_view(list@) == doc_ifaces(d.paths@.take(i as int), *d),
            forall|k: int| 0 <= k < i ==> item_ends(#[trigger] d.paths@[k].1, *d),
        decreases d.paths.len() - i,
    {
        proof {
            assert(d.paths@.take(i + 1).drop_last() =~= d.paths@.take(i as int));
        }
        let ghost before = ifaces_view(list@);
        match &d.paths[i].1 {
            PathItemRef::Item(pi) => {
                if !path_exec(&d.paths[i].0, pi, &parts, &base, &auth, &mut list, Ghost(*d)) {
                    proof {
                        assert(!item_ends(d.paths@[i as int].1, *d));
                    }
                    return None;
                }
            },
            PathItemRef::Reference(_) => {
                proof {
                    assert(before + Seq::<ImportedIfaceView>::empty() =~= before);
                }
            },
        }
        i += 1;
    }
    proof {
        assert(d.paths@.take(d.paths.len() as int) =~= d.paths@);
    }
    if list.len() == 0 {
        Some(Err(owned("未解析到任何 paths 接口")))
    } else {
        Some(Ok((d.title.clone(), list)))
    }
}

} // verus!
