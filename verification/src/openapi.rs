//! The parts of an OpenAPI 3 document that an import reads, as plain values
//! of the library. Documents are read by the `openapiv3` crate; what it
//! yields is copied into these types field by field.

use vstd::prelude::*;

use crate::json::{
    json_from_serde, json_of, jsons_of, lemma_jsons_of, lemma_members_of, members_of, serde_from_json,
    Json, JsonValue,
};
use crate::domain::{owned, str_eq};
use crate::text::chars_of;

verus! {

/// A schema, or a `$ref` to one.
#[derive(Debug)]
pub enum SchemaRef {
    Reference(String),
    Item(Box<OaSchema>),
}

/// A schema: its title, description, example and default, and its kind.
#[derive(Debug)]
pub struct OaSchema {
    pub title: Option<String>,
    pub description: Option<String>,
    pub example: Option<JsonValue>,
    pub default: Option<JsonValue>,
    pub kind: OaSchemaKind,
}

/// The kind of a schema, as `openapiv3` classifies it. Enumerations keep
/// their `null` entries as `None`.
#[derive(Debug)]
pub enum OaSchemaKind {
    String(Vec<Option<String>>),
    /// Number enumeration entries as JSON numbers.
    Number(Vec<Option<JsonValue>>),
    Integer(Vec<Option<i64>>),
    Boolean(Vec<Option<bool>>),
    /// Properties in the order `openapiv3` holds them (by name: the
    /// document is read through a `serde_json` map, which keeps names
    /// sorted), required names, and the schema of additional properties
    /// when one is given.
    Object(Vec<(String, SchemaRef)>, Vec<String>, Option<SchemaRef>),
    /// The item schema.
    Array(Option<SchemaRef>),
    OneOf(Vec<SchemaRef>),
    AllOf(Vec<SchemaRef>),
    AnyOf(Vec<SchemaRef>),
    Not,
    Any(OaAnySchema),
}

/// A schema `openapiv3` could not give a more precise kind.
#[derive(Debug)]
pub struct OaAnySchema {
    pub typ: Option<String>,
    pub enumeration: Vec<JsonValue>,
    pub properties: Vec<(String, SchemaRef)>,
    pub required: Vec<String>,
    pub items: Option<SchemaRef>,
}

/// Where a parameter goes.
#[derive(Debug)]
pub enum ParamLocation {
    Query,
    Header,
    Path,
    Cookie,
}

/// A parameter; `schema` is `None` when it is described by content.
#[derive(Debug)]
pub struct OaParameter {
    pub location: ParamLocation,
    pub name: String,
    pub description: Option<String>,
    pub required: bool,
    pub example: Option<JsonValue>,
    pub schema: Option<SchemaRef>,
}

/// A parameter, or a `$ref` to one.
#[derive(Debug)]
pub enum ParamRef {
    Reference(String),
    Item(OaParameter),
}

/// A named example, or a `$ref` to one; an example holds its value, if any.
#[derive(Debug)]
pub enum ExampleRef {
    Reference(String),
    Item(Option<JsonValue>),
}

/// A media type of a request body.
#[derive(Debug)]
pub struct OaMediaType {
    pub schema: Option<SchemaRef>,
    pub example: Option<JsonValue>,
    pub examples: Vec<(String, ExampleRef)>,
}

/// A request body: its media types in the order `openapiv3` holds them
/// (by name, see `OaDocument`).
#[derive(Debug)]
pub struct OaRequestBody {
    pub content: Vec<(String, OaMediaType)>,
}

/// A request body, or a `$ref` to one.
#[derive(Debug)]
pub enum RequestBodyRef {
    Reference(String),
    Item(OaRequestBody),
}

/// A security scheme: an API key, HTTP authentication with its scheme
/// name, OAuth 2 or OpenID Connect.
#[derive(Debug)]
pub enum OaSecurityScheme {
    ApiKey,
    Http(String),
    OAuth2,
    OpenIdConnect,
}

/// A security scheme, or a `$ref` to one.
#[derive(Debug)]
pub enum SecuritySchemeRef {
    Reference(String),
    Item(OaSecurityScheme),
}

/// An operation.
#[derive(Debug)]
pub struct OaOperation {
    pub tags: Vec<String>,
    pub summary: Option<String>,
    pub description: Option<String>,
    pub operation_id: Option<String>,
    pub parameters: Vec<ParamRef>,
    pub request_body: Option<RequestBodyRef>,
}

/// A path: its shared parameters and its operations with their lower-case
/// methods, in the order get, put, post, delete, options, head, patch,
/// trace.
#[derive(Debug)]
pub struct OaPathItem {
    pub parameters: Vec<ParamRef>,
    pub operations: Vec<(String, OaOperation)>,
}

/// A path item, or a `$ref` to one.
#[derive(Debug)]
pub enum PathItemRef {
    Reference(String),
    Item(OaPathItem),
}

/// The reusable parts of a document, each in the order `openapiv3` holds
/// them (by name, see `OaDocument`).
#[derive(Debug)]
pub struct OaComponents {
    pub schemas: Vec<(String, SchemaRef)>,
    pub parameters: Vec<(String, ParamRef)>,
    pub request_bodies: Vec<(String, RequestBodyRef)>,
    pub security_schemes: Vec<(String, SecuritySchemeRef)>,
}

/// A document: its title, server URLs, paths, components, and global
/// security requirements (the scheme names of each). Named parts (paths,
/// properties, media types, components, security requirements) come in the
/// order `openapiv3` holds them, which is the order of their names: the
/// document reaches `openapiv3` as a `serde_json` value, whose maps keep
/// names sorted.
#[derive(Debug)]
pub struct OaDocument {
    pub title: String,
    pub servers: Vec<String>,
    pub paths: Vec<(String, PathItemRef)>,
    pub components: Option<OaComponents>,
    pub security: Option<Vec<Vec<String>>>,
}

// ----- the outside types -----

#[verifier::external_type_specification]
#[verifier::external_body]
pub struct ExOpenApi(openapiv3::OpenAPI);

#[verifier::external_type_specification]
#[verifier::external_body]
pub struct ExComponents(openapiv3::Components);

#[verifier::external_type_specification]
#[verifier::external_body]
pub struct ExPathItem(openapiv3::PathItem);

#[verifier::external_type_specification]
#[verifier::external_body]
pub struct ExOperation(openapiv3::Operation);

#[verifier::external_type_specification]
#[verifier::external_body]
#[verifier::reject_recursive_types(T)]
pub struct ExReferenceOr<T>(openapiv3::ReferenceOr<T>);

#[verifier::external_type_specification]
#[verifier::external_body]
pub struct ExParameter(openapiv3::Parameter);

#[verifier::external_type_specification]
#[verifier::external_body]
pub struct ExRequestBody(openapiv3::RequestBody);

#[verifier::external_type_specification]
#[verifier::external_body]
pub struct ExMediaType(openapiv3::MediaType);

#[verifier::external_type_specification]
#[verifier::external_body]
pub struct ExSecurityScheme(openapiv3::SecurityScheme);

#[verifier::external_type_specification]
#[verifier::external_body]
pub struct ExSchema(openapiv3::Schema);

#[verifier::external_type_specification]
#[verifier::external_body]
pub struct ExSchemaKind(openapiv3::SchemaKind);

#[verifier::external_type_specification]
#[verifier::external_body]
pub struct ExType(openapiv3::Type);

#[verifier::external_type_specification]
#[verifier::external_body]
pub struct ExAnySchema(openapiv3::AnySchema);

#[verifier::external_type_specification]
#[verifier::external_body]
pub struct ExNumberType(openapiv3::NumberType);

#[verifier::external_type_specification]
#[verifier::external_body]
pub struct ExObjectType(openapiv3::ObjectType);

// ----- copying what `openapiv3` read -----

/// Copies a `ReferenceOr<Schema>`.
#[verifier::external_body]
fn conv_schema_ref(r: &openapiv3::ReferenceOr<openapiv3::Schema>) -> SchemaRef {
    match r {
        openapiv3::ReferenceOr::Reference { reference } => SchemaRef::Reference(reference.clone()),
        openapiv3::ReferenceOr::Item(s) => SchemaRef::Item(Box::new(conv_schema(s))),
    }
}

/// Copies a `ReferenceOr<Box<Schema>>`.
#[verifier::external_body]
fn conv_boxed_ref(r: &openapiv3::ReferenceOr<Box<openapiv3::Schema>>) -> SchemaRef {
    match r {
        openapiv3::ReferenceOr::Reference { reference } => SchemaRef::Reference(reference.clone()),
        openapiv3::ReferenceOr::Item(s) => SchemaRef::Item(Box::new(conv_schema(s))),
    }
}

/// Copies a `Schema`: title, description, example, default and kind.
#[verifier::external_body]
fn conv_schema(s: &openapiv3::Schema) -> OaSchema {
    OaSchema {
        title: s.schema_data.title.clone(),
        description: s.schema_data.description.clone(),
        example: s.schema_data.example.clone().map(json_from_serde),
        default: s.schema_data.default.clone().map(json_from_serde),
        kind: conv_kind(&s.schema_kind),
    }
}

/// Copies a `SchemaKind`.
#[verifier::external_body]
fn conv_kind(k: &openapiv3::SchemaKind) -> OaSchemaKind {
    match k {
        openapiv3::SchemaKind::Type(t) => conv_type(t),
        openapiv3::SchemaKind::OneOf { one_of } => OaSchemaKind::OneOf(one_of.iter().map(conv_schema_ref).collect()),
        openapiv3::SchemaKind::AllOf { all_of } => OaSchemaKind::AllOf(all_of.iter().map(conv_schema_ref).collect()),
        openapiv3::SchemaKind::AnyOf { any_of } => OaSchemaKind::AnyOf(any_of.iter().map(conv_schema_ref).collect()),
        openapiv3::SchemaKind::Not { .. } => OaSchemaKind::Not,
        openapiv3::SchemaKind::Any(a) => OaSchemaKind::Any(conv_any(a)),
    }
}

/// Copies a `Type`: enumerations, object properties, array items (see
/// `conv_number`, `conv_object`).
#[verifier::external_body]
fn conv_type(t: &openapiv3::Type) -> OaSchemaKind {
    match t {
        openapiv3::Type::String(st) => OaSchemaKind::String(st.enumeration.clone()),
        openapiv3::Type::Number(nt) => conv_number(nt),
        openapiv3::Type::Integer(it) => OaSchemaKind::Integer(it.enumeration.clone()),
        openapiv3::Type::Boolean(bt) => OaSchemaKind::Boolean(bt.enumeration.clone()),
        openapiv3::Type::Object(ot) => conv_object(ot),
        openapiv3::Type::Array(at) => OaSchemaKind::Array(at.items.as_ref().map(conv_boxed_ref)),
    }
}

/// Copies a `NumberType`'s enumeration; each entry becomes the JSON value
/// `serde_json::Value::from` makes of it.
#[verifier::external_body]
fn conv_number(nt: &openapiv3::NumberType) -> OaSchemaKind {
    OaSchemaKind::Number(nt.enumeration.iter().map(|o| o.map(serde_json::Value::from).map(json_from_serde)).collect())
}

/// Copies an `ObjectType`: properties in the order held, required names, and the
/// schema of additional properties when it is a schema.
#[verifier::external_body]
fn conv_object(ot: &openapiv3::ObjectType) -> OaSchemaKind {
    let additional = match &ot.additional_properties {
        Some(openapiv3::AdditionalProperties::Schema(r)) => Some(conv_schema_ref(r)),
        Some(openapiv3::AdditionalProperties::Any(_)) => None,
        None => None,
    };
    let props = ot.properties.iter().map(|(k, r)| (k.clone(), conv_boxed_ref(r))).collect();
    OaSchemaKind::Object(props, ot.required.clone(), additional)
}

/// Copies an `AnySchema`: type name, enumeration, properties (in the order held),
/// required names, items.
#[verifier::external_body]
fn conv_any(a: &openapiv3::AnySchema) -> OaAnySchema {
    OaAnySchema {
        typ: a.typ.clone(),
        enumeration: a.enumeration.iter().cloned().map(json_from_serde).collect(),
        properties: a.properties.iter().map(|(k, r)| (k.clone(), conv_boxed_ref(r))).collect(),
        required: a.required.clone(),
        items: a.items.as_ref().map(conv_boxed_ref),
    }
}

/// Where a `Parameter` goes.
#[verifier::external_body]
fn conv_location(p: &openapiv3::Parameter) -> ParamLocation {
    match p {
        openapiv3::Parameter::Query { .. } => ParamLocation::Query,
        openapiv3::Parameter::Header { .. } => ParamLocation::Header,
        openapiv3::Parameter::Path { .. } => ParamLocation::Path,
        openapiv3::Parameter::Cookie { .. } => ParamLocation::Cookie,
    }
}

/// Copies a `Parameter`: where it goes and its data; the schema only when
/// the parameter is described by one.
#[verifier::external_body]
fn conv_parameter(p: &openapiv3::Parameter) -> OaParameter {
    let d = p.parameter_data_ref();
    let schema = match &d.format {
        openapiv3::ParameterSchemaOrContent::Schema(r) => Some(conv_schema_ref(r)),
        openapiv3::ParameterSchemaOrContent::Content(_) => None,
    };
    let example = d.example.clone().map(json_from_serde);
    let description = d.description.clone();
    OaParameter { location: conv_location(p), name: d.name.clone(), description, required: d.required, example, schema }
}

/// Copies a `ReferenceOr<Parameter>`.
#[verifier::external_body]
fn conv_param_ref(r: &openapiv3::ReferenceOr<openapiv3::Parameter>) -> ParamRef {
    match r {
        openapiv3::ReferenceOr::Reference { reference } => ParamRef::Reference(reference.clone()),
        openapiv3::ReferenceOr::Item(p) => ParamRef::Item(conv_parameter(p)),
    }
}

/// Copies a `MediaType`: schema, example, named examples (in the order held).
#[verifier::external_body]
fn conv_media(m: &openapiv3::MediaType) -> OaMediaType {
    OaMediaType {
        schema: m.schema.as_ref().map(conv_schema_ref),
        example: m.example.clone().map(json_from_serde),
        examples: m.examples.iter().map(|(k, e)| (k.clone(), match e {
            openapiv3::ReferenceOr::Reference { reference } => ExampleRef::Reference(reference.clone()),
            openapiv3::ReferenceOr::Item(ex) => ExampleRef::Item(ex.value.clone().map(json_from_serde)),
        })).collect(),
    }
}

/// Copies a `ReferenceOr<RequestBody>`: the media types in the order held.
#[verifier::external_body]
fn conv_body_ref(r: &openapiv3::ReferenceOr<openapiv3::RequestBody>) -> RequestBodyRef {
    match r {
        openapiv3::ReferenceOr::Reference { reference } => RequestBodyRef::Reference(reference.clone()),
        openapiv3::ReferenceOr::Item(b) => RequestBodyRef::Item(OaRequestBody {
            content: b.content.iter().map(|(k, m)| (k.clone(), conv_media(m))).collect(),
        }),
    }
}

/// Copies a `ReferenceOr<SecurityScheme>`: the scheme's variant, and the
/// scheme name of HTTP authentication.
#[verifier::external_body]
fn conv_security_ref(r: &openapiv3::ReferenceOr<openapiv3::SecurityScheme>) -> SecuritySchemeRef {
    match r {
        openapiv3::ReferenceOr::Reference { reference } => SecuritySchemeRef::Reference(reference.clone()),
        openapiv3::ReferenceOr::Item(openapiv3::SecurityScheme::APIKey { .. }) => SecuritySchemeRef::Item(OaSecurityScheme::ApiKey),
        openapiv3::ReferenceOr::Item(openapiv3::SecurityScheme::HTTP { scheme, .. }) => SecuritySchemeRef::Item(OaSecurityScheme::Http(scheme.clone())),
        openapiv3::ReferenceOr::Item(openapiv3::SecurityScheme::OAuth2 { .. }) => SecuritySchemeRef::Item(OaSecurityScheme::OAuth2),
        openapiv3::ReferenceOr::Item(openapiv3::SecurityScheme::OpenIDConnect { .. }) => SecuritySchemeRef::Item(OaSecurityScheme::OpenIdConnect),
    }
}

/// Copies `Components`: schemas, parameters, request bodies and security
/// schemes, each in the order held.
#[verifier::external_body]
fn conv_components(c: &openapiv3::Components) -> OaComponents {
    OaComponents {
        schemas: c.schemas.iter().map(|(k, r)| (k.clone(), conv_schema_ref(r))).collect(),
        parameters: c.parameters.iter().map(|(k, r)| (k.clone(), conv_param_ref(r))).collect(),
        request_bodies: c.request_bodies.iter().map(|(k, r)| (k.clone(), conv_body_ref(r))).collect(),
        security_schemes: c.security_schemes.iter().map(|(k, r)| (k.clone(), conv_security_ref(r))).collect(),
    }
}

/// Copies an `Operation`.
#[verifier::external_body]
fn conv_operation(o: &openapiv3::Operation) -> OaOperation {
    OaOperation {
        tags: o.tags.clone(),
        summary: o.summary.clone(),
        description: o.description.clone(),
        operation_id: o.operation_id.clone(),
        parameters: o.parameters.iter().map(conv_param_ref).collect(),
        request_body: o.request_body.as_ref().map(conv_body_ref),
    }
}

/// Copies a `ReferenceOr<PathItem>`: shared parameters and the operations
/// `PathItem::iter` gives.
#[verifier::external_body]
fn conv_path_ref(r: &openapiv3::ReferenceOr<openapiv3::PathItem>) -> PathItemRef {
    match r {
        openapiv3::ReferenceOr::Reference { reference } => PathItemRef::Reference(reference.clone()),
        openapiv3::ReferenceOr::Item(pi) => PathItemRef::Item(OaPathItem {
            parameters: pi.parameters.iter().map(conv_param_ref).collect(),
            operations: pi.iter().map(|(m, o)| (m.to_string(), conv_operation(o))).collect(),
        }),
    }
}

/// Copies an `OpenAPI` document: title, server URLs, paths (in the order held),
/// components, and the scheme names of each global security requirement.
#[verifier::external_body]
fn conv_document(d: &openapiv3::OpenAPI) -> OaDocument {
    OaDocument {
        title: d.info.title.clone(),
        servers: d.servers.iter().map(|s| s.url.clone()).collect(),
        paths: d.paths.iter().map(|(p, r)| (p.clone(), conv_path_ref(r))).collect(),
        components: d.components.as_ref().map(conv_components),
        security: d.security.as_ref().map(|v| v.iter().map(|req| req.keys().cloned().collect()).collect()),
    }
}

/// What `openapiv3` reads from a JSON document (`serde_json::from_value`
/// into `openapiv3::OpenAPI`), as the library's types, or the error's
/// message.
pub uninterp spec fn openapi_read(doc: Json) -> Result<OaDocument, Seq<char>>;

/// `serde_json::from_value::<openapiv3::OpenAPI>`; the result, copied into
/// the library's types, is named `openapi_read`.
#[verifier::external_body]
pub(crate) fn read_openapi(doc: &JsonValue) -> (r: Result<OaDocument, String>)
    ensures
        match r {
            Ok(d) => openapi_read(doc@) == Ok::<OaDocument, Seq<char>>(d),
            Err(e) => openapi_read(doc@) == Err::<OaDocument, Seq<char>>(e@),
        },
{
    match serde_json::from_value::<openapiv3::OpenAPI>(serde_from_json(doc)) {
        Ok(d) => Ok(conv_document(&d)),
        Err(e) => Err(e.to_string()),
    }
}

/// What `serde_yaml_ng::from_str::<serde_json::Value>` reads from a text,
/// or the error's message.
pub uninterp spec fn yaml_parse_result(text: Seq<char>) -> Result<JsonValue, Seq<char>>;

/// `serde_yaml_ng::from_str::<serde_json::Value>`; the result is named
/// `yaml_parse_result`.
#[verifier::external_body]
pub(crate) fn parse_yaml_text(text: &str) -> (r: Result<JsonValue, String>)
    ensures
        match r {
            Ok(v) => yaml_parse_result(text@) == Ok::<JsonValue, Seq<char>>(v),
            Err(e) => yaml_parse_result(text@) == Err::<JsonValue, Seq<char>>(e@),
        },
{
    match serde_yaml_ng::from_str::<serde_json::Value>(text) {
        Ok(v) => Ok(json_from_serde(v)),
        Err(e) => Err(e.to_string()),
    }
}

/// What `serde_yaml_ng::to_string` writes for a value with this content,
/// or the error's message.
pub uninterp spec fn yaml_text(v: Json) -> Result<Seq<char>, Seq<char>>;

/// `serde_yaml_ng::to_string`; the result is named `yaml_text`.
#[verifier::external_body]
pub(crate) fn to_yaml(v: &JsonValue) -> (r: Result<String, String>)
    ensures
        match r {
            Ok(t) => yaml_text(v@) == Ok::<Seq<char>, Seq<char>>(t@),
            Err(e) => yaml_text(v@) == Err::<Seq<char>, Seq<char>>(e@),
        },
{
    serde_yaml_ng::to_string(&serde_from_json(v)).map_err(|e| e.to_string())
}

// ----- `type` arrays -----

/// The type named by a `type` array: its first string other than `null`.
pub open spec fn type_primary(a: Seq<Json>) -> Option<Seq<char>>
    decreases a.len(),
{
    if a.len() == 0 {
        None
    } else {
        match a[0] {
            Json::Str(t) => if t != "null"@ {
                Some(t)
            } else {
                type_primary(a.drop_first())
            },
            _ => type_primary(a.drop_first()),
        }
    }
}

/// Whether an entry of a `type` array marks the schema nullable: `null` or
/// the string `null`.
pub open spec fn marks_null(j: Json) -> bool {
    j == Json::Null || j == Json::Str("null"@)
}

/// Whether a `type` array marks the schema nullable.
pub open spec fn type_nullable(a: Seq<Json>) -> bool {
    exists|i: int| 0 <= i < a.len() && marks_null(#[trigger] a[i])
}

/// The first member named `k`.
pub open spec fn first_member(m: Seq<(Seq<char>, Json)>, k: Seq<char>) -> Option<Json>
    decreases m.len(),
{
    if m.len() == 0 {
        None
    } else if m[0].0 == k {
        Some(m[0].1)
    } else {
        first_member(m.drop_first(), k)
    }
}

/// Every member named `k` given the value `v`.
pub open spec fn set_members(m: Seq<(Seq<char>, Json)>, k: Seq<char>, v: Json) -> Seq<(Seq<char>, Json)> {
    m.map_values(|e: (Seq<char>, Json)| if e.0 == k { (k, v) } else { e })
}

/// The members not named `k`.
pub open spec fn without_members(m: Seq<(Seq<char>, Json)>, k: Seq<char>) -> Seq<(Seq<char>, Json)>
    decreases m.len(),
{
    if m.len() == 0 {
        m
    } else if m.last().0 == k {
        without_members(m.drop_last(), k)
    } else {
        without_members(m.drop_last(), k).push(m.last())
    }
}

/// An object whose `type` is an array gets a single type instead: its
/// first string other than `null` (no `type` at all when there is none),
/// and `nullable: true` (unless already present) when the array holds
/// `null`.
pub open spec fn fix_type(m: Seq<(Seq<char>, Json)>) -> Seq<(Seq<char>, Json)> {
    match first_member(m, "type"@) {
        Some(Json::Array(a)) => {
            let m1 = match type_primary(a) {
                Some(t) => set_members(m, "type"@, Json::Str(t)),
                None => without_members(m, "type"@),
            };
            if type_nullable(a) && first_member(m1, "nullable"@).is_none() {
                m1.push(("nullable"@, Json::Bool(true)))
            } else {
                m1
            }
        },
        _ => m,
    }
}

/// A document with every `type` array, at any depth, turned into a single
/// type (see `fix_type`).
pub open spec fn normalize_json(j: Json) -> Json
    decreases j,
{
    match j {
        Json::Array(a) => Json::Array(normalize_all(a)),
        Json::Object(m) => Json::Object(fix_type(normalize_members(m))),
        _ => j,
    }
}

/// `normalize_json` of each element.
pub open spec fn normalize_all(a: Seq<Json>) -> Seq<Json>
    decreases a,
{
    if a.len() == 0 {
        a
    } else {
        proof {
            assert(decreases_to!(a => a.subrange(0, a.len() - 1)));
            assert(decreases_to!(a => a[a.len() - 1]));
        }
        normalize_all(a.drop_last()).push(normalize_json(a.last()))
    }
}

/// `normalize_json` of each member's value.
pub open spec fn normalize_members(m: Seq<(Seq<char>, Json)>) -> Seq<(Seq<char>, Json)>
    decreases m,
{
    if m.len() == 0 {
        m
    } else {
        proof {
            assert(decreases_to!(m => m.subrange(0, m.len() - 1)));
            assert(decreases_to!(m => m[m.len() - 1]));
            assert(decreases_to!(m[m.len() - 1] => m[m.len() - 1].1));
        }
        normalize_members(m.drop_last()).push((m.last().0, normalize_json(m.last().1)))
    }
}

proof fn lemma_type_primary_step(a: Seq<Json>, i: int)
    requires
        0 <= i < a.len(),
    ensures
        type_primary(a.skip(i)) == match a[i] {
            Json::Str(t) => if t != "null"@ {
                Some(t)
            } else {
                type_primary(a.skip(i + 1))
            },
            _ => type_primary(a.skip(i + 1)),
        },
{
    assert(a.skip(i).drop_first() =~= a.skip(i + 1));
    assert(a.skip(i)[0] == a[i]);
}

proof fn lemma_first_member_step(m: Seq<(Seq<char>, Json)>, k: Seq<char>, i: int)
    requires
        0 <= i < m.len(),
    ensures
        first_member(m.skip(i), k) == if m[i].0 == k {
            Some(m[i].1)
        } else {
            first_member(m.skip(i + 1), k)
        },
{
    assert(m.skip(i).drop_first() =~= m.skip(i + 1));
    assert(m.skip(i)[0] == m[i]);
}

/// The index of the first member named `key`.
fn find_member(m: &Vec<(String, JsonValue)>, key: &str) -> (r: Option<usize>)
    ensures
        match r {
            Some(i) => i < m@.len() && m@[i as int].0@ == key@ && first_member(members_of(m@), key@)
                == Some(json_of(m@[i as int].1)),
            None => first_member(members_of(m@), key@).is_none(),
        },
{
    proof {
        lemma_members_of(m@);
        assert(members_of(m@).skip(0) =~= members_of(m@));
    }
    let mut i: usize = 0;
    while i < m.len()
        invariant
            i <= m.len(),
            members_of(m@).len() == m@.len(),
            forall|j: int| 0 <= j < m@.len() ==> #[trigger] members_of(m@)[j] == (m@[j].0@, json_of(m@[j].1)),
            first_member(members_of(m@), key@) == first_member(members_of(m@).skip(i as int), key@),
        decreases m.len() - i,
    {
        proof {
            lemma_first_member_step(members_of(m@), key@, i as int);
        }
        if str_eq(m[i].0.as_str(), key) {
            return Some(i);
        }
        i += 1;
    }
    assert(members_of(m@).skip(i as int) =~= Seq::<(Seq<char>, Json)>::empty());
    None
}

/// The first string other than `null` of a `type` array.
fn primary_type(a: &Vec<JsonValue>) -> (r: Option<String>)
    ensures
        match r {
            Some(t) => type_primary(jsons_of(a@)) == Some(t@),
            None => type_primary(jsons_of(a@)).is_none(),
        },
{
    proof {
        lemma_jsons_of(a@);
        assert(jsons_of(a@).skip(0) =~= jsons_of(a@));
        reveal_strlit("null");
    }
    let mut i: usize = 0;
    while i < a.len()
        invariant
            i <= a.len(),
            jsons_of(a@).len() == a@.len(),
            forall|j: int| 0 <= j < a@.len() ==> #[trigger] jsons_of(a@)[j] == json_of(a@[j]),
            type_primary(jsons_of(a@)) == type_primary(jsons_of(a@).skip(i as int)),
        decreases a.len() - i,
    {
        proof {
            lemma_type_primary_step(jsons_of(a@), i as int);
        }
        if let JsonValue::String(t) = &a[i] {
            if !str_eq(t.as_str(), "null") {
                return Some(t.clone());
            }
        }
        i += 1;
    }
    assert(jsons_of(a@).skip(i as int) =~= Seq::<Json>::empty());
    None
}

/// Whether a `type` array holds `null` or the string `null`.
fn nullable_type(a: &Vec<JsonValue>) -> (r: bool)
    ensures
        r == type_nullable(jsons_of(a@)),
{
    proof {
        lemma_jsons_of(a@);
        reveal_strlit("null");
    }
    let mut i: usize = 0;
    while i < a.len()
        invariant
            i <= a.len(),
            jsons_of(a@).len() == a@.len(),
            forall|j: int| 0 <= j < a@.len() ==> #[trigger] jsons_of(a@)[j] == json_of(a@[j]),
            forall|j: int| 0 <= j < i ==> !marks_null(#[trigger] jsons_of(a@)[j]),
        decreases a.len() - i,
    {
        let hit = match &a[i] {
            JsonValue::Null => true,
            JsonValue::String(t) => str_eq(t.as_str(), "null"),
            _ => false,
        };
        if hit {
            assert(marks_null(jsons_of(a@)[i as int]));
            return true;
        }
        i += 1;
    }
    false
}

/// See `fix_type`.
fn fix_type_exec(m: Vec<(String, JsonValue)>) -> (r: Vec<(String, JsonValue)>)
    ensures
        members_of(r@) == fix_type(members_of(m@)),
{
    let found = find_member(&m, "type");
    let (primary, nullable) = match found {
        Some(i) => match &m[i].1 {
            JsonValue::Array(a) => (primary_type(a), nullable_type(a)),
            _ => {
                return m;
            },
        },
        None => {
            return m;
        },
    };
    let ghost mm = members_of(m@);
    proof {
        lemma_members_of(m@);
    }
    let mut out: Vec<(String, JsonValue)> = Vec::new();
    let mut i: usize = 0;
    while i < m.len()
        invariant
            i <= m.len(),
            mm == members_of(m@),
            mm.len() == m@.len(),
            forall|j: int| 0 <= j < m@.len() ==> #[trigger] mm[j] == (m@[j].0@, json_of(m@[j].1)),
            match primary {
                Some(t) => members_of(out@) == set_members(mm.take(i as int), "type"@, Json::Str(t@)),
                None => members_of(out@) == without_members(mm.take(i as int), "type"@),
            },
        decreases m.len() - i,
    {
        let ghost before = out@;
        proof {
            assert(mm.take(i + 1).drop_last() =~= mm.take(i as int));
            assert(mm.take(i + 1).last() == mm[i as int]);
        }
        let is_type = str_eq(m[i].0.as_str(), "type");
        match &primary {
            Some(t) => {
                if is_type {
                    out.push((owned("type"), JsonValue::String(t.clone())));
                } else {
                    out.push((m[i].0.clone(), m[i].1.clone_json()));
                }
                proof {
                    crate::json::lemma_members_of_push(before, out@.last());
                    assert(out@ == before.push(out@.last()));
                    assert(set_members(mm.take(i + 1), "type"@, Json::Str(t@)) =~= set_members(mm.take(i as int), "type"@, Json::Str(t@)).push(
                        if mm[i as int].0 == "type"@ { ("type"@, Json::Str(t@)) } else { mm[i as int] }));
                }
            },
            None => {
                if !is_type {
                    out.push((m[i].0.clone(), m[i].1.clone_json()));
                    proof {
                        crate::json::lemma_members_of_push(before, out@.last());
                        assert(out@ == before.push(out@.last()));
                    }
                }
            },
        }
        i += 1;
    }
    proof {
        assert(mm.take(m.len() as int) =~= mm);
    }
    if nullable && find_member(&out, "nullable").is_none() {
        let ghost before = out@;
        out.push((owned("nullable"), JsonValue::Bool(true)));
        proof {
            crate::json::lemma_members_of_push(before, out@.last());
            assert(out@ == before.push(out@.last()));
        }
    }
    out
}

/// Turns every `type` array of a document, at any depth, into a single
/// type with `nullable` (see `normalize_json`); `openapiv3` only reads a
/// string `type`.
pub fn normalize_type_arrays(v: &JsonValue) -> (r: JsonValue)
    ensures
        r@ == normalize_json(v@),
    decreases v,
{
    match v {
        JsonValue::Array(a) => {
            let mut out: Vec<JsonValue> = Vec::new();
            let mut i: usize = 0;
            proof {
                lemma_jsons_of(a@);
            }
            while i < a.len()
                invariant
                    i <= a.len(),
                    *v == JsonValue::Array(*a),
                    jsons_of(a@).len() == a@.len(),
                    forall|j: int| 0 <= j < a@.len() ==> #[trigger] jsons_of(a@)[j] == json_of(a@[j]),
                    jsons_of(out@) == normalize_all(jsons_of(a@).take(i as int)),
                decreases a.len() - i,
            {
                proof {
                    assert(decreases_to!(*v => v->Array_0));
                    assert(decreases_to!(v->Array_0 => v->Array_0@));
                    assert(decreases_to!(v->Array_0@ => v->Array_0@[i as int]));
                    assert(jsons_of(a@).take(i + 1).drop_last() =~= jsons_of(a@).take(i as int));
                }
                let x = normalize_type_arrays(&a[i]);
                let ghost before = out@;
                out.push(x);
                proof {
                    crate::json::lemma_jsons_of_push(before, x);
                    assert(out@ == before.push(x));
                }
                i += 1;
            }
            proof {
                assert(jsons_of(a@).take(a.len() as int) =~= jsons_of(a@));
            }
            JsonValue::Array(out)
        },
        JsonValue::Object(m) => {
            let mut out: Vec<(String, JsonValue)> = Vec::new();
            let mut i: usize = 0;
            proof {
                lemma_members_of(m@);
            }
            while i < m.len()
                invariant
                    i <= m.len(),
                    *v == JsonValue::Object(*m),
                    members_of(m@).len() == m@.len(),
                    forall|j: int| 0 <= j < m@.len() ==> #[trigger] members_of(m@)[j] == (m@[j].0@, json_of(m@[j].1)),
                    members_of(out@) == normalize_members(members_of(m@).take(i as int)),
                decreases m.len() - i,
            {
                proof {
                    assert(decreases_to!(*v => v->Object_0));
                    assert(decreases_to!(v->Object_0 => v->Object_0@));
                    assert(decreases_to!(v->Object_0@ => v->Object_0@[i as int]));
                    assert(decreases_to!(v->Object_0@[i as int] => v->Object_0@[i as int].1));
                    assert(members_of(m@).take(i + 1).drop_last() =~= members_of(m@).take(i as int));
                }
                let x = normalize_type_arrays(&m[i].1);
                let pair = (m[i].0.clone(), x);
                let ghost before = out@;
                out.push(pair);
                proof {
                    crate::json::lemma_members_of_push(before, pair);
                    assert(out@ == before.push(pair));
                }
                i += 1;
            }
            proof {
                assert(members_of(m@).take(m.len() as int) =~= members_of(m@));
            }
            JsonValue::Object(fix_type_exec(out))
        },
        JsonValue::Null => JsonValue::Null,
        JsonValue::Bool(b) => JsonValue::Bool(*b),
        JsonValue::Number(t) => JsonValue::Number(t.clone()),
        JsonValue::String(t) => JsonValue::String(t.clone()),
    }
}

// ----- what the normalization guarantees -----

/// Whether no two members of an object share a name.
pub open spec fn keys_unique(m: Seq<(Seq<char>, Json)>) -> bool {
    forall|i: int, j: int| 0 <= i < j < m.len() ==> #[trigger] m[i].0 != #[trigger] m[j].0
}

/// Whether no object, at any depth, has two members of the same name (as
/// in any value read by `serde_json`).
pub open spec fn json_unique(j: Json) -> bool
    decreases j,
{
    match j {
        Json::Array(a) => all_unique(a),
        Json::Object(m) => keys_unique(m) && members_unique(m),
        _ => true,
    }
}

/// `json_unique` of each element.
pub open spec fn all_unique(a: Seq<Json>) -> bool
    decreases a,
{
    if a.len() == 0 {
        true
    } else {
        proof {
            assert(decreases_to!(a => a.subrange(0, a.len() - 1)));
            assert(decreases_to!(a => a[a.len() - 1]));
        }
        all_unique(a.drop_last()) && json_unique(a.last())
    }
}

/// `json_unique` of each member's value.
pub open spec fn members_unique(m: Seq<(Seq<char>, Json)>) -> bool
    decreases m,
{
    if m.len() == 0 {
        true
    } else {
        proof {
            assert(decreases_to!(m => m.subrange(0, m.len() - 1)));
            assert(decreases_to!(m => m[m.len() - 1]));
            assert(decreases_to!(m[m.len() - 1] => m[m.len() - 1].1));
        }
        members_unique(m.drop_last()) && json_unique(m.last().1)
    }
}

/// Whether no member named `type` holds an array.
pub open spec fn no_type_array(m: Seq<(Seq<char>, Json)>) -> bool {
    forall|i: int| 0 <= i < m.len() && #[trigger] m[i].0 == "type"@ ==> !(m[i].1 is Array)
}

/// Whether no object, at any depth, has a `type` array.
pub open spec fn type_ok(j: Json) -> bool
    decreases j,
{
    match j {
        Json::Array(a) => all_type_ok(a),
        Json::Object(m) => no_type_array(m) && members_type_ok(m),
        _ => true,
    }
}

/// `type_ok` of each element.
pub open spec fn all_type_ok(a: Seq<Json>) -> bool
    decreases a,
{
    if a.len() == 0 {
        true
    } else {
        proof {
            assert(decreases_to!(a => a.subrange(0, a.len() - 1)));
            assert(decreases_to!(a => a[a.len() - 1]));
        }
        all_type_ok(a.drop_last()) && type_ok(a.last())
    }
}

/// `type_ok` of each member's value.
pub open spec fn members_type_ok(m: Seq<(Seq<char>, Json)>) -> bool
    decreases m,
{
    if m.len() == 0 {
        true
    } else {
        proof {
            assert(decreases_to!(m => m.subrange(0, m.len() - 1)));
            assert(decreases_to!(m => m[m.len() - 1]));
            assert(decreases_to!(m[m.len() - 1] => m[m.len() - 1].1));
        }
        members_type_ok(m.drop_last()) && type_ok(m.last().1)
    }
}

proof fn lemma_members_type_ok_index(m: Seq<(Seq<char>, Json)>)
    ensures
        members_type_ok(m) <==> forall|i: int| 0 <= i < m.len() ==> type_ok(#[trigger] m[i].1),
    decreases m.len(),
{
    if m.len() > 0 {
        lemma_members_type_ok_index(m.drop_last());
        if forall|i: int| 0 <= i < m.len() ==> type_ok(#[trigger] m[i].1) {
            assert forall|i: int| 0 <= i < m.drop_last().len() implies type_ok(#[trigger] m.drop_last()[i].1) by {
                assert(m.drop_last()[i] == m[i]);
            }
        }
        if members_type_ok(m) {
            assert forall|i: int| 0 <= i < m.len() implies type_ok(#[trigger] m[i].1) by {
                if i < m.len() - 1 {
                    assert(m.drop_last()[i] == m[i]);
                }
            }
        }
    }
}

proof fn lemma_first_member_unique(m: Seq<(Seq<char>, Json)>, k: Seq<char>, i: int)
    requires
        keys_unique(m),
        0 <= i < m.len(),
        m[i].0 == k,
    ensures
        first_member(m, k) == Some(m[i].1),
    decreases m.len(),
{
    if i > 0 {
        assert(m[0].0 != m[i].0);
        let d = m.drop_first();
        assert(d[i - 1] == m[i]);
        assert forall|a: int, b: int| 0 <= a < b < d.len() implies #[trigger] d[a].0 != #[trigger] d[b].0 by {
            assert(d[a] == m[a + 1] && d[b] == m[b + 1]);
        }
        lemma_first_member_unique(d, k, i - 1);
    }
}

proof fn lemma_set_members_ok(m: Seq<(Seq<char>, Json)>, t: Seq<char>)
    requires
        members_type_ok(m),
    ensures
        no_type_array(set_members(m, "type"@, Json::Str(t))),
        members_type_ok(set_members(m, "type"@, Json::Str(t))),
{
    let r = set_members(m, "type"@, Json::Str(t));
    lemma_members_type_ok_index(m);
    lemma_members_type_ok_index(r);
    assert forall|i: int| 0 <= i < r.len() implies type_ok(#[trigger] r[i].1) by {
        if m[i].0 != "type"@ {
            assert(r[i] == m[i]);
        }
    }
}

proof fn lemma_without_members_ok(m: Seq<(Seq<char>, Json)>)
    requires
        members_type_ok(m),
    ensures
        no_type_array(without_members(m, "type"@)),
        members_type_ok(without_members(m, "type"@)),
        forall|i: int| 0 <= i < without_members(m, "type"@).len() ==> #[trigger] without_members(m, "type"@)[i].0 != "type"@,
    decreases m.len(),
{
    if m.len() > 0 {
        lemma_without_members_ok(m.drop_last());
        let w = without_members(m.drop_last(), "type"@);
        if m.last().0 != "type"@ {
            let r = w.push(m.last());
            assert(r.drop_last() =~= w);
            assert forall|i: int| 0 <= i < r.len() implies #[trigger] r[i].0 != "type"@ by {
                if i < w.len() {
                    assert(r[i] == w[i]);
                }
            }
        }
    }
}

proof fn lemma_normalize_members_keys(m: Seq<(Seq<char>, Json)>)
    ensures
        normalize_members(m).len() == m.len(),
        forall|i: int| 0 <= i < m.len() ==> (#[trigger] normalize_members(m)[i]).0 == m[i].0,
        forall|i: int| 0 <= i < m.len() ==> (#[trigger] normalize_members(m)[i]).1 == normalize_json(m[i].1),
    decreases m.len(),
{
    if m.len() > 0 {
        lemma_normalize_members_keys(m.drop_last());
        assert forall|i: int| 0 <= i < m.len() implies (#[trigger] normalize_members(m)[i]).0 == m[i].0
            && normalize_members(m)[i].1 == normalize_json(m[i].1) by {
            if i < m.len() - 1 {
                assert(normalize_members(m)[i] == normalize_members(m.drop_last())[i]);
                assert(m.drop_last()[i] == m[i]);
            }
        }
    }
}

proof fn lemma_normalize_json(j: Json)
    requires
        json_unique(j),
    ensures
        type_ok(normalize_json(j)),
    decreases j,
{
    match j {
        Json::Array(a) => {
            lemma_normalize_all(a);
        },
        Json::Object(m) => {
            lemma_normalize_members(m);
            let mm = normalize_members(m);
            lemma_normalize_members_keys(m);
            assert forall|a: int, b: int| 0 <= a < b < mm.len() implies #[trigger] mm[a].0 != #[trigger] mm[b].0 by {
                assert(mm[a].0 == m[a].0 && mm[b].0 == m[b].0);
            }
            match first_member(mm, "type"@) {
                Some(Json::Array(arr)) => {
                    let m1 = match type_primary(arr) {
                        Some(t) => {
                            lemma_set_members_ok(mm, t);
                            set_members(mm, "type"@, Json::Str(t))
                        },
                        None => {
                            lemma_without_members_ok(mm);
                            without_members(mm, "type"@)
                        },
                    };
                    assert(no_type_array(m1) && members_type_ok(m1));
                    if type_nullable(arr) && first_member(m1, "nullable"@).is_none() {
                        let m2 = m1.push(("nullable"@, Json::Bool(true)));
                        assert(m2.drop_last() =~= m1);
                        assert forall|i: int| 0 <= i < m2.len() && #[trigger] m2[i].0 == "type"@ implies !(m2[i].1 is Array) by {
                            if i < m1.len() {
                                assert(m2[i] == m1[i]);
                            }
                        }
                        assert(m2.last() == ("nullable"@, Json::Bool(true)));
                        assert(type_ok(Json::Bool(true)));
                        assert(members_type_ok(m2.drop_last()));
                        assert(members_type_ok(m2));
                        assert(fix_type(mm) == m2);
                    } else {
                        assert(fix_type(mm) == m1);
                    }
                    assert(type_ok(Json::Object(fix_type(mm))));
                },
                _ => {
                    assert forall|i: int| 0 <= i < mm.len() && #[trigger] mm[i].0 == "type"@ implies !(mm[i].1 is Array) by {
                        lemma_first_member_unique(mm, "type"@, i);
                    }
                    assert(fix_type(mm) == mm);
                    assert(type_ok(Json::Object(fix_type(mm))));
                },
            }
        },
        _ => {},
    }
}

proof fn lemma_normalize_all(a: Seq<Json>)
    requires
        all_unique(a),
    ensures
        all_type_ok(normalize_all(a)),
    decreases a,
{
    if a.len() > 0 {
        assert(decreases_to!(a => a.subrange(0, a.len() - 1)));
        assert(decreases_to!(a => a[a.len() - 1]));
        lemma_normalize_all(a.drop_last());
        lemma_normalize_json(a.last());
        let n = normalize_all(a);
        assert(n.drop_last() =~= normalize_all(a.drop_last()));
    }
}

proof fn lemma_normalize_members(m: Seq<(Seq<char>, Json)>)
    requires
        members_unique(m),
    ensures
        members_type_ok(normalize_members(m)),
    decreases m,
{
    if m.len() > 0 {
        assert(decreases_to!(m => m.subrange(0, m.len() - 1)));
        assert(decreases_to!(m => m[m.len() - 1]));
        assert(decreases_to!(m[m.len() - 1] => m[m.len() - 1].1));
        lemma_normalize_members(m.drop_last());
        lemma_normalize_json(m.last().1);
        let n = normalize_members(m);
        assert(n.drop_last() =~= normalize_members(m.drop_last()));
    }
}

/// After normalization no object, at any depth, has a `type` array (for a
/// document whose objects have no repeated member names, as any document
/// read by `serde_json` or `serde_yaml_ng`).
pub proof fn law_normalized_has_no_type_arrays(j: Json)
    requires
        json_unique(j),
    ensures
        type_ok(normalize_json(j)),
{
    lemma_normalize_json(j);
}

} // verus!
