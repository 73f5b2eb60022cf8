//! Sending an interface's request: every decision is made here, before and
//! after the network exchange. `plan_request` checks the templates and
//! works out the client settings, headers, authentication, query and body;
//! the response and failures of the exchange are turned into the values the
//! application reports.

use vstd::prelude::*;

use crate::domain::{
    owned, str_eq, ApiParam, EnvironmentFile, GlobalParams, InterfaceFile, KeyValue, ProxyConfig,
};
use crate::text::{
    chars_of, contains_exec, contains_seq, extend_str, is_blank, starts_at, starts_at_exec,
    string_of, string_views, trim, trim_chars, copy_range,
};
use crate::variables::{
    collect_vars, collect_vars_spec, enabled_pairs, enabled_pairs_spec, pair_views, param_pairs,
    param_pairs_spec, substitute, substitute_spec, unresolved, unresolved_spec, Vars,
    law_substitute_without_vars,
};

verus! {

/// At most this many bytes of a response body are kept.
pub const BODY_CAP: usize = 1000000;

/// The timeout when neither the options nor the interface give one.
pub const DEFAULT_TIMEOUT_MS: u64 = 30000;

/// The redirect limit when neither the options nor the interface give one.
pub const DEFAULT_MAX_REDIRECTS: u64 = 10;

/// Per-send settings that take precedence over the interface's own.
pub struct SendOptions {
    pub timeout_ms: Option<u64>,
    pub redirect_limit: Option<u64>,
    pub tls_verify: Option<bool>,
    pub ca_cert_path: Option<String>,
    pub proxy: ProxyConfig,
}

impl Default for SendOptions {
    /// No overrides and the proxy disabled.
    fn default() -> (r: SendOptions)
        ensures
            r.timeout_ms.is_none(),
            r.redirect_limit.is_none(),
            r.tls_verify.is_none(),
            r.ca_cert_path.is_none(),
            !r.proxy.enabled,
            r.proxy.kind@.len() == 0,
            r.proxy.url@.len() == 0,
    {
        SendOptions {
            timeout_ms: None,
            redirect_limit: None,
            tls_verify: None,
            ca_cert_path: None,
            proxy: ProxyConfig::none(),
        }
    }
}

/// A received response.
#[derive(Debug)]
pub struct SendResponse {
    pub status: u16,
    pub status_text: String,
    pub headers: Vec<KeyValue>,
    pub body: String,
    pub time_ms: u64,
    pub size_bytes: usize,
    pub truncated: bool,
    pub resolved_url: String,
}

/// Why a send failed: a kind (`unresolved`, `url`, `tls`, `proxy`, `http`,
/// `file`, `timeout`, `connect`, `redirect`) and a message.
#[derive(Debug)]
pub struct SendErrorInfo {
    pub kind: String,
    pub message: String,
}

/// A failure of the given kind.
pub fn err(kind: &str, message: String) -> (r: SendErrorInfo)
    ensures
        r.kind@ == kind@,
        r.message@ == message@,
{
    SendErrorInfo { kind: owned(kind), message }
}

// ----- unresolved variables -----

/// Adds to the list `m` (names separated by `, `) each of `keys` that is
/// not bound and whose name does not already occur in the text of `m`.
pub open spec fn note_missing(m: Seq<char>, keys: Seq<Seq<char>>, vars: Map<Seq<char>, Seq<char>>) -> Seq<char>
    decreases keys.len(),
{
    if keys.len() == 0 {
        m
    } else {
        let before = note_missing(m, keys.drop_last(), vars);
        let k = keys.last();
        if vars.contains_key(k) || contains_seq(before, k) {
            before
        } else if before.len() == 0 {
            k
        } else {
            before + ", "@ + k
        }
    }
}

/// The unbound placeholder names of a list of templates, in order of first
/// appearance (see `note_missing`).
pub open spec fn missing_vars(templates: Seq<Seq<char>>, vars: Map<Seq<char>, Seq<char>>) -> Seq<char>
    decreases templates.len(),
{
    if templates.len() == 0 {
        Seq::empty()
    } else {
        note_missing(missing_vars(templates.drop_last(), vars), unresolved_spec(templates.last()), vars)
    }
}

/// The example values of a parameter list.
pub open spec fn examples(ps: Seq<ApiParam>) -> Seq<Seq<char>> {
    ps.map_values(|p: ApiParam| p.example@)
}

/// The values of a key/value list.
pub open spec fn kv_values(kvs: Seq<KeyValue>) -> Seq<Seq<char>> {
    kvs.map_values(|kv: KeyValue| kv.value@)
}

/// The key and then the example of each form field.
pub open spec fn form_texts(ps: Seq<ApiParam>) -> Seq<Seq<char>>
    decreases ps.len(),
{
    if ps.len() == 0 {
        Seq::empty()
    } else {
        form_texts(ps.drop_last()) + seq![ps.last().key@, ps.last().example@]
    }
}

/// Whether a body mode sends text that may hold placeholders.
pub open spec fn body_has_text(mode: Seq<char>) -> bool {
    mode == "json"@ || mode == "raw"@ || mode == "urlencoded"@ || mode == "form-data"@
}

/// The templates checked for unbound placeholders before a send, in order:
/// the URL, interface header values, global header and cookie values,
/// interface query values, global query values, then (for a body that sends
/// text) the body text and each form field's key and value, then a bearer
/// token.
pub open spec fn checked_templates(iface: InterfaceFile, gp: GlobalParams) -> Seq<Seq<char>> {
    seq![iface.url@] + examples(iface.headers@) + kv_values(gp.headers@) + kv_values(gp.cookies@)
        + examples(iface.query@) + kv_values(gp.query@) + (if body_has_text(iface.body.mode@) {
        seq![iface.body.content@] + form_texts(iface.body.form@)
    } else {
        Seq::empty()
    }) + (if iface.auth.kind@ == "bearer"@ {
        seq![iface.auth.token@]
    } else {
        Seq::empty()
    })
}

fn push_examples(out: &mut Vec<String>, ps: &Vec<ApiParam>)
    ensures
        string_views(final(out)@) == string_views(old(out)@) + examples(ps@),
{
    let ghost start = string_views(out@);
    let mut i: usize = 0;
    while i < ps.len()
        invariant
            i <= ps.len(),
            string_views(out@) == start + examples(ps@).take(i as int),
        decreases ps.len() - i,
    {
        let ghost before = out@;
        out.push(ps[i].example.clone());
        proof {
            assert(string_views(out@) =~= string_views(before).push(ps@[i as int].example@));
            assert(examples(ps@).take(i + 1) =~= examples(ps@).take(i as int).push(ps@[i as int].example@));
            assert(string_views(out@) =~= start + examples(ps@).take(i + 1));
        }
        i += 1;
    }
    assert(examples(ps@).take(ps.len() as int) =~= examples(ps@));
}

fn push_values(out: &mut Vec<String>, kvs: &Vec<KeyValue>)
    ensures
        string_views(final(out)@) == string_views(old(out)@) + kv_values(kvs@),
{
    let ghost start = string_views(out@);
    let mut i: usize = 0;
    while i < kvs.len()
        invariant
            i <= kvs.len(),
            string_views(out@) == start + kv_values(kvs@).take(i as int),
        decreases kvs.len() - i,
    {
        let ghost before = out@;
        out.push(kvs[i].value.clone());
        proof {
            assert(string_views(out@) =~= string_views(before).push(kvs@[i as int].value@));
            assert(kv_values(kvs@).take(i + 1) =~= kv_values(kvs@).take(i as int).push(kvs@[i as int].value@));
            assert(string_views(out@) =~= start + kv_values(kvs@).take(i + 1));
        }
        i += 1;
    }
    assert(kv_values(kvs@).take(kvs.len() as int) =~= kv_values(kvs@));
}

fn push_form_texts(out: &mut Vec<String>, ps: &Vec<ApiParam>)
    ensures
        string_views(final(out)@) == string_views(old(out)@) + form_texts(ps@),
{
    let ghost start = string_views(out@);
    let mut i: usize = 0;
    while i < ps.len()
        invariant
            i <= ps.len(),
            string_views(out@) == start + form_texts(ps@.take(i as int)),
        decreases ps.len() - i,
    {
        proof {
            assert(ps@.take(i + 1).drop_last() =~= ps@.take(i as int));
        }
        let ghost before = out@;
        out.push(ps[i].key.clone());
        out.push(ps[i].example.clone());
        proof {
            assert(string_views(out@) =~= string_views(before) + seq![ps@[i as int].key@, ps@[i as int].example@]);
            assert(ps@.take(i + 1).last() == ps@[i as int]);
            assert(form_texts(ps@.take(i + 1)) == form_texts(ps@.take(i as int)) + seq![ps@[i as int].key@, ps@[i as int].example@]);
            assert(string_views(out@) =~= start + form_texts(ps@.take(i + 1)));
        }
        i += 1;
    }
    assert(ps@.take(ps.len() as int) =~= ps@);
}

/// The templates checked before a send (see `checked_templates`).
fn templates_to_check(iface: &InterfaceFile, gp: &GlobalParams) -> (r: Vec<String>)
    ensures
        string_views(r@) == checked_templates(*iface, *gp),
{
    let mut out: Vec<String> = Vec::new();
    out.push(iface.url.clone());
    proof {
        assert(string_views(out@) =~= seq![iface.url@]);
    }
    push_examples(&mut out, &iface.headers);
    push_values(&mut out, &gp.headers);
    push_values(&mut out, &gp.cookies);
    push_examples(&mut out, &iface.query);
    push_values(&mut out, &gp.query);
    let ghost mid = string_views(out@);
    let mode = iface.body.mode.as_str();
    if str_eq(mode, "json") || str_eq(mode, "raw") || str_eq(mode, "urlencoded") || str_eq(
        mode,
        "form-data",
    ) {
        out.push(iface.body.content.clone());
        proof {
            assert(string_views(out@) =~= mid + seq![iface.body.content@]);
        }
        push_form_texts(&mut out, &iface.body.form);
        assert(string_views(out@) =~= mid + (seq![iface.body.content@] + form_texts(iface.body.form@)));
    } else {
        assert(string_views(out@) =~= mid + Seq::<Seq<char>>::empty());
    }
    let ghost mid2 = string_views(out@);
    if str_eq(iface.auth.kind.as_str(), "bearer") {
        out.push(iface.auth.token.clone());
        proof {
            assert(string_views(out@) =~= mid2 + seq![iface.auth.token@]);
        }
    } else {
        assert(string_views(out@) =~= mid2 + Seq::<Seq<char>>::empty());
    }
    out
}

/// The unbound placeholder names of the templates, separated by `, ` (see
/// `missing_vars`).
pub fn missing_variables(templates: &Vec<String>, vars: &Vars) -> (r: String)
    ensures
        r@ == missing_vars(string_views(templates@), vars@),
{
    let ghost views = string_views(templates@);
    let mut missing: Vec<char> = Vec::new();
    let mut i: usize = 0;
    while i < templates.len()
        invariant
            i <= templates.len(),
            views == string_views(templates@),
            missing@ == missing_vars(views.take(i as int), vars@),
        decreases templates.len() - i,
    {
        proof {
            assert(views.take(i + 1).drop_last() =~= views.take(i as int));
            assert(views.take(i + 1).last() == templates@[i as int]@);
        }
        let keys = unresolved(templates[i].as_str());
        let ghost kv = string_views(keys@);
        let ghost m0 = missing@;
        let mut j: usize = 0;
        while j < keys.len()
            invariant
                j <= keys.len(),
                kv == string_views(keys@),
                missing@ == note_missing(m0, kv.take(j as int), vars@),
            decreases keys.len() - j,
        {
            proof {
                assert(kv.take(j + 1).drop_last() =~= kv.take(j as int));
                assert(kv.take(j + 1).last() == keys@[j as int]@);
            }
            let k = chars_of(keys[j].as_str());
            if !vars.contains_key(keys[j].as_str()) && !contains_exec(&missing, &k) {
                if missing.len() > 0 {
                    extend_str(&mut missing, ", ");
                }
                crate::text::extend_chars(&mut missing, &k);
            }
            j += 1;
        }
        proof {
            assert(kv.take(keys.len() as int) =~= kv);
        }
        i += 1;
    }
    assert(views.take(templates.len() as int) =~= views);
    string_of(&missing)
}

// ----- the request plan -----

/// How redirects are followed.
#[derive(Debug)]
pub enum RedirectPlan {
    /// Redirects are not followed.
    Off,
    /// At most this many redirects are followed.
    Limited(u64),
}

/// Which proxy the client uses.
#[derive(Debug)]
pub enum ProxyPlan {
    /// No proxy at all.
    Off,
    /// The system proxy settings (the client's default).
    System,
    /// All traffic through this proxy URL.
    Custom(String),
}

/// How the request authenticates.
#[derive(Debug)]
pub enum AuthPlan {
    Nothing,
    /// One more header (name, value).
    Header(String, String),
    /// HTTP basic authentication (user name, password).
    Basic(String, String),
    /// One more query parameter (name, value).
    Query(String, String),
}

/// One part of a multipart form.
#[derive(Debug)]
pub enum FormPart {
    /// A text field (name, value).
    Text(String, String),
    /// A file field (name, path of the file to read, MIME type guessed from
    /// the path).
    File(String, String, String),
}

/// The body of the request.
#[derive(Debug)]
pub enum BodyPlan {
    Empty,
    /// Text with its content type.
    Text(String, String),
    /// URL-encoded form pairs (see `urlencoded_body`).
    UrlEncoded(Vec<(String, String)>),
    /// A multipart form.
    Multipart(Vec<FormPart>),
    /// The bytes of the file at this path.
    File(String),
}

/// Everything a send does, decided before the exchange.
#[derive(Debug)]
pub struct RequestPlan {
    /// The method text, trimmed (parsed by the HTTP client).
    pub method: String,
    /// The URL to request: the resolved URL, trimmed.
    pub url: String,
    /// The URL after substitution, as reported back.
    pub resolved_url: String,
    pub timeout_ms: u64,
    pub redirect: RedirectPlan,
    pub accept_invalid_certs: bool,
    /// An extra root certificate: the path as given and trimmed.
    pub ca_cert: Option<(String, String)>,
    pub proxy: ProxyPlan,
    /// Headers in the order they are added.
    pub headers: Vec<(String, String)>,
    pub auth: AuthPlan,
    /// Query parameters in the order they are added (after the
    /// authentication's own, if any).
    pub query: Vec<(String, String)>,
    pub body: BodyPlan,
}

/// The first of two options that is set.
pub open spec fn or_opt<T>(a: Option<T>, b: Option<T>) -> Option<T> {
    match a {
        Some(x) => Some(x),
        None => b,
    }
}

/// The timeout: the option's, else the interface's, else the default; at
/// least 100 ms.
pub open spec fn timeout_spec(opt: Option<u64>, own: Option<u64>) -> u64 {
    let t = match or_opt(opt, own) {
        Some(t) => t,
        None => DEFAULT_TIMEOUT_MS,
    };
    if t < 100 {
        100
    } else {
        t
    }
}

/// The redirect policy: 0 turns redirects off; no limit means the default.
pub open spec fn redirect_spec(opt: Option<u64>, own: Option<u64>) -> RedirectPlan {
    match or_opt(opt, own) {
        Some(0) => RedirectPlan::Off,
        Some(n) => RedirectPlan::Limited(n),
        None => RedirectPlan::Limited(DEFAULT_MAX_REDIRECTS),
    }
}

/// An optional string as plain text.
pub open spec fn opt_text(o: Option<String>) -> Option<Seq<char>> {
    match o {
        Some(s) => Some(s@),
        None => None,
    }
}

/// The extra root certificate: the option's path, else the interface's,
/// when it is not blank.
pub open spec fn ca_cert_spec(opt: Option<String>, own: Option<String>) -> Option<(Seq<char>, Seq<char>)> {
    match or_opt(opt_text(opt), opt_text(own)) {
        Some(p) => if trim(p).len() > 0 {
            Some((p, trim(p)))
        } else {
            None
        },
        None => None,
    }
}

/// The proxy: off when disabled or of kind `none`; a custom proxy when its
/// URL is not blank, else off; the system settings for any other kind.
pub open spec fn proxy_spec(p: ProxyConfig) -> Option<Seq<char>> {
    if !p.enabled || p.kind@ == "none"@ {
        None
    } else if p.kind@ == "custom"@ {
        if trim(p.url@).len() > 0 {
            Some(trim(p.url@))
        } else {
            None
        }
    } else {
        Some(Seq::empty())
    }
}

/// The plain form of a proxy plan: `None` for off, the empty text for the
/// system settings, the URL for a custom proxy.
pub open spec fn proxy_view(p: ProxyPlan) -> Option<Seq<char>> {
    match p {
        ProxyPlan::Off => None,
        ProxyPlan::System => Some(Seq::empty()),
        ProxyPlan::Custom(u) => Some(u@),
    }
}

/// The cookie headers: one `Cookie: key=value` per enabled cookie.
pub open spec fn cookie_headers(pairs: Seq<(Seq<char>, Seq<char>)>) -> Seq<(Seq<char>, Seq<char>)> {
    pairs.map_values(|p: (Seq<char>, Seq<char>)| ("Cookie"@, p.0 + "="@ + p.1))
}

/// The headers of a request: enabled global headers, active interface
/// headers (later ones added after earlier), then the cookies.
pub open spec fn headers_spec(iface: InterfaceFile, gp: GlobalParams, vars: Map<Seq<char>, Seq<char>>) -> Seq<(Seq<char>, Seq<char>)> {
    enabled_pairs_spec(gp.headers@, vars) + param_pairs_spec(iface.headers@, vars) + cookie_headers(
        enabled_pairs_spec(gp.cookies@, vars),
    )
}

/// The plain form of an authentication plan: (kind, first, second) with
/// kind 0 none, 1 header, 2 basic, 3 query.
pub open spec fn auth_view(a: AuthPlan) -> (int, Seq<char>, Seq<char>) {
    match a {
        AuthPlan::Nothing => (0, Seq::empty(), Seq::empty()),
        AuthPlan::Header(n, v) => (1, n@, v@),
        AuthPlan::Basic(u, p) => (2, u@, p@),
        AuthPlan::Query(n, v) => (3, n@, v@),
    }
}

/// The authentication of a request: a bearer token as an `Authorization:
/// Bearer …` header, basic authentication, or an API key sent as a header
/// or (when its place is `query`) a query parameter; each only when its
/// token, user name or key name is not blank.
pub open spec fn auth_spec(iface: InterfaceFile, vars: Map<Seq<char>, Seq<char>>) -> (int, Seq<char>, Seq<char>) {
    let a = iface.auth;
    if a.kind@ == "bearer"@ && trim(a.token@).len() > 0 {
        (1, "Authorization"@, "Bearer "@ + substitute_spec(a.token@, vars))
    } else if a.kind@ == "basic"@ && trim(a.username@).len() > 0 {
        (2, substitute_spec(a.username@, vars), substitute_spec(a.password@, vars))
    } else if a.kind@ == "api-key"@ && trim(a.api_key_name@).len() > 0 {
        if a.api_key_in@ == "query"@ {
            (3, substitute_spec(a.api_key_name@, vars), substitute_spec(a.api_key_value@, vars))
        } else {
            (1, substitute_spec(a.api_key_name@, vars), substitute_spec(a.api_key_value@, vars))
        }
    } else {
        (0, Seq::empty(), Seq::empty())
    }
}

/// The content type of a text body: the given one trimmed, or `default`
/// when it is blank.
pub open spec fn content_type_or(ct: Seq<char>, default: Seq<char>) -> Seq<char> {
    if trim(ct).len() == 0 {
        default
    } else {
        trim(ct)
    }
}

/// The multipart parts for form pairs: a value starting with `@` names a
/// file (its path is the rest, trimmed; skipped when blank), any other value
/// is text.
pub open spec fn form_parts(pairs: Seq<(Seq<char>, Seq<char>)>) -> Seq<(bool, Seq<char>, Seq<char>)>
    decreases pairs.len(),
{
    if pairs.len() == 0 {
        Seq::empty()
    } else {
        let before = form_parts(pairs.drop_last());
        let (k, v) = pairs.last();
        if v.len() > 0 && v[0] == '@' {
            let path = trim(v.skip(1));
            if path.len() == 0 {
                before
            } else {
                before.push((true, k, path))
            }
        } else {
            before.push((false, k, v))
        }
    }
}

/// The plain form of multipart parts: (is a file, name, value or path).
pub open spec fn parts_view(ps: Seq<FormPart>) -> Seq<(bool, Seq<char>, Seq<char>)> {
    ps.map_values(|p: FormPart| match p {
        FormPart::Text(k, v) => (false, k@, v@),
        FormPart::File(k, path, _) => (true, k@, path@),
    })
}

/// What `mime_guess::from_path(path).first_or_octet_stream()` gives as
/// text: the MIME type known for the path's extension, or
/// `application/octet-stream`.
pub uninterp spec fn guessed_mime(path: Seq<char>) -> Seq<char>;

/// `mime_guess::from_path(..).first_or_octet_stream()` as text; the result
/// is named `guessed_mime`.
#[verifier::external_body]
fn guess_mime(path: &str) -> (r: String)
    ensures
        r@ == guessed_mime(path@),
{
    let mime = mime_guess::from_path(path).first_or_octet_stream();
    let text: &str = mime.as_ref();
    text.to_string()
}

/// Every file part carries the MIME type guessed from its path.
pub open spec fn mimes_guessed(ps: Seq<FormPart>) -> bool {
    forall|i: int| 0 <= i < ps.len() ==> match #[trigger] ps[i] {
        FormPart::File(_, path, mime) => mime@ == guessed_mime(path@),
        FormPart::Text(_, _) => true,
    }
}

/// A multipart body's file parts carry their guessed MIME types.
pub open spec fn body_mimes_guessed(b: BodyPlan) -> bool {
    match b {
        BodyPlan::Multipart(ps) => mimes_guessed(ps@),
        _ => true,
    }
}

/// The plain form of a body plan: (kind, content type or path, text, pairs,
/// parts) with kind 0 empty, 1 text, 2 URL-encoded, 3 multipart, 4 file.
pub open spec fn body_plan_view(b: BodyPlan) -> (int, Seq<char>, Seq<char>, Seq<(Seq<char>, Seq<char>)>, Seq<(bool, Seq<char>, Seq<char>)>) {
    match b {
        BodyPlan::Empty => (0, Seq::empty(), Seq::empty(), Seq::empty(), Seq::empty()),
        BodyPlan::Text(ct, t) => (1, ct@, t@, Seq::empty(), Seq::empty()),
        BodyPlan::UrlEncoded(p) => (2, Seq::empty(), Seq::empty(), pair_views(p@), Seq::empty()),
        BodyPlan::Multipart(ps) => (3, Seq::empty(), Seq::empty(), Seq::empty(), parts_view(ps@)),
        BodyPlan::File(path) => (4, path@, Seq::empty(), Seq::empty(), Seq::empty()),
    }
}

/// The body of a request by mode: `json` and `raw` text (placeholders
/// substituted) with their content type (defaults `application/json` and
/// `text/plain`), `urlencoded` and `form-data` from the active form fields,
/// `file` from the trimmed file path when not blank; nothing otherwise.
pub open spec fn body_spec(iface: InterfaceFile, vars: Map<Seq<char>, Seq<char>>) -> (int, Seq<char>, Seq<char>, Seq<(Seq<char>, Seq<char>)>, Seq<(bool, Seq<char>, Seq<char>)>) {
    let b = iface.body;
    if b.mode@ == "json"@ {
        (1, content_type_or(b.content_type@, "application/json"@), substitute_spec(b.content@, vars), Seq::empty(), Seq::empty())
    } else if b.mode@ == "raw"@ {
        (1, content_type_or(b.content_type@, "text/plain"@), substitute_spec(b.content@, vars), Seq::empty(), Seq::empty())
    } else if b.mode@ == "urlencoded"@ {
        (2, Seq::empty(), Seq::empty(), param_pairs_spec(b.form@, vars), Seq::empty())
    } else if b.mode@ == "form-data"@ {
        (3, Seq::empty(), Seq::empty(), Seq::empty(), form_parts(param_pairs_spec(b.form@, vars)))
    } else if b.mode@ == "file"@ {
        let path = match b.file_path {
            Some(p) => trim(p@),
            None => Seq::empty(),
        };
        if path.len() > 0 {
            (4, path, Seq::empty(), Seq::empty(), Seq::empty())
        } else {
            (0, Seq::empty(), Seq::empty(), Seq::empty(), Seq::empty())
        }
    } else {
        (0, Seq::empty(), Seq::empty(), Seq::empty(), Seq::empty())
    }
}

/// The message of a send refused for unbound placeholders.
pub open spec fn unresolved_message(missing: Seq<char>) -> Seq<char> {
    "存在未解析的变量："@ + missing
}

/// The message of a URL that is not HTTP(S).
pub open spec fn bad_scheme_message() -> Seq<char> {
    "URL 需以 http:// 或 https:// 开头（可使用 {{host}} 变量）"@
}

/// Whether a send is refused before any network work, and how: unbound
/// placeholders first, then an empty URL, then a URL that is not HTTP(S).
pub open spec fn plan_refusal(iface: InterfaceFile, env: EnvironmentFile, globals: Seq<KeyValue>, gp: GlobalParams) -> Option<(Seq<char>, Seq<char>)> {
    let vars = collect_vars_spec(iface.variables@, env.variables@, env.host@, globals);
    let missing = missing_vars(checked_templates(iface, gp), vars);
    let url = trim(substitute_spec(iface.url@, vars));
    if missing.len() > 0 {
        Some(("unresolved"@, unresolved_message(missing)))
    } else if url.len() == 0 {
        Some(("url"@, "请求地址为空"@))
    } else if !(starts_at(url, 0, "http://"@) || starts_at(url, 0, "https://"@)) {
        Some(("url"@, bad_scheme_message()))
    } else {
        None
    }
}

fn cookie_pairs(pairs: Vec<(String, String)>) -> (r: Vec<(String, String)>)
    ensures
        pair_views(r@) == cookie_headers(pair_views(pairs@)),
{
    let mut out: Vec<(String, String)> = Vec::new();
    let mut i: usize = 0;
    while i < pairs.len()
        invariant
            i <= pairs.len(),
            pair_views(out@) == cookie_headers(pair_views(pairs@)).take(i as int),
        decreases pairs.len() - i,
    {
        let mut v = chars_of(pairs[i].0.as_str());
        extend_str(&mut v, "=");
        extend_str(&mut v, pairs[i].1.as_str());
        let c = (owned("Cookie"), string_of(&v));
        let ghost before = out@;
        out.push(c);
        proof {
            assert(pair_views(out@) =~= pair_views(before).push(c@));
            assert(cookie_headers(pair_views(pairs@)).take(i + 1) =~= cookie_headers(pair_views(pairs@)).take(i as int).push(c@));
        }
        i += 1;
    }
    assert(cookie_headers(pair_views(pairs@)).take(pairs.len() as int) =~= cookie_headers(pair_views(pairs@)));
    out
}

fn append_pairs(a: &mut Vec<(String, String)>, b: Vec<(String, String)>)
    ensures
        pair_views(final(a)@) == pair_views(old(a)@) + pair_views(b@),
{
    let mut b = b;
    let ghost bv = b@;
    a.append(&mut b);
    assert(pair_views(a@) =~= pair_views(old(a)@) + pair_views(bv));
}

fn auth_plan(iface: &InterfaceFile, vars: &Vars) -> (r: AuthPlan)
    ensures
        auth_view(r) == auth_spec(*iface, vars@),
{
    let a = &iface.auth;
    let kind = a.kind.as_str();
    if str_eq(kind, "bearer") && !is_blank(a.token.as_str()) {
        let token = substitute(a.token.as_str(), vars);
        let mut v = chars_of("Bearer ");
        extend_str(&mut v, token.as_str());
        AuthPlan::Header(owned("Authorization"), string_of(&v))
    } else if str_eq(kind, "basic") && !is_blank(a.username.as_str()) {
        AuthPlan::Basic(substitute(a.username.as_str(), vars), substitute(a.password.as_str(), vars))
    } else if str_eq(kind, "api-key") && !is_blank(a.api_key_name.as_str()) {
        let name = substitute(a.api_key_name.as_str(), vars);
        let value = substitute(a.api_key_value.as_str(), vars);
        if str_eq(a.api_key_in.as_str(), "query") {
            AuthPlan::Query(name, value)
        } else {
            AuthPlan::Header(name, value)
        }
    } else {
        AuthPlan::Nothing
    }
}

fn content_type_exec(ct: &str, default: &str) -> (r: String)
    ensures
        r@ == content_type_or(ct@, default@),
{
    let t = trim_chars(ct);
    if t.len() == 0 {
        owned(default)
    } else {
        string_of(&t)
    }
}

fn parts_of(pairs: Vec<(String, String)>) -> (r: Vec<FormPart>)
    ensures
        parts_view(r@) == form_parts(pair_views(pairs@)),
        mimes_guessed(r@),
{
    let ghost pv = pair_views(pairs@);
    let mut out: Vec<FormPart> = Vec::new();
    let mut i: usize = 0;
    while i < pairs.len()
        invariant
            i <= pairs.len(),
            pv == pair_views(pairs@),
            parts_view(out@) == form_parts(pv.take(i as int)),
            mimes_guessed(out@),
        decreases pairs.len() - i,
    {
        proof {
            assert(pv.take(i + 1).drop_last() =~= pv.take(i as int));
            assert(pv.take(i + 1).last() == (pairs@[i as int].0@, pairs@[i as int].1@));
        }
        let key = &pairs[i].0;
        let v = chars_of(pairs[i].1.as_str());
        let ghost before = out@;
        if v.len() > 0 && v[0] == '@' {
            let rest = copy_range(&v, 1, v.len());
            let path = crate::text::trim_vec(&rest);
            proof {
                assert(rest@ =~= v@.skip(1));
            }
            if path.len() > 0 {
                let path_text = string_of(&path);
                let mime = guess_mime(path_text.as_str());
                let part = FormPart::File(key.clone(), path_text, mime);
                out.push(part);
                proof {
                    assert(parts_view(out@) =~= parts_view(before).push((true, key@, path@)));
                    assert forall|j: int| 0 <= j < out@.len() implies match #[trigger] out@[j] {
                        FormPart::File(_, p, m) => m@ == guessed_mime(p@),
                        FormPart::Text(_, _) => true,
                    } by {
                        if j < before.len() {
                            assert(out@[j] == before[j]);
                        }
                    }
                }
            } else {
                assert(parts_view(out@) =~= parts_view(before));
            }
        } else {
            let part = FormPart::Text(key.clone(), pairs[i].1.clone());
            out.push(part);
            proof {
                assert(parts_view(out@) =~= parts_view(before).push((false, key@, v@)));
                assert forall|j: int| 0 <= j < out@.len() implies match #[trigger] out@[j] {
                    FormPart::File(_, p, m) => m@ == guessed_mime(p@),
                    FormPart::Text(_, _) => true,
                } by {
                    if j < before.len() {
                        assert(out@[j] == before[j]);
                    }
                }
            }
        }
        i += 1;
    }
    assert(pv.take(pairs.len() as int) =~= pv);
    out
}

fn body_plan(iface: &InterfaceFile, vars: &Vars) -> (r: BodyPlan)
    ensures
        body_plan_view(r) == body_spec(*iface, vars@),
        body_mimes_guessed(r),
{
    let b = &iface.body;
    let mode = b.mode.as_str();
    if str_eq(mode, "json") {
        BodyPlan::Text(content_type_exec(b.content_type.as_str(), "application/json"), substitute(b.content.as_str(), vars))
    } else if str_eq(mode, "raw") {
        BodyPlan::Text(content_type_exec(b.content_type.as_str(), "text/plain"), substitute(b.content.as_str(), vars))
    } else if str_eq(mode, "urlencoded") {
        BodyPlan::UrlEncoded(param_pairs(b.form.as_slice(), vars))
    } else if str_eq(mode, "form-data") {
        BodyPlan::Multipart(parts_of(param_pairs(b.form.as_slice(), vars)))
    } else if str_eq(mode, "file") {
        let path = match &b.file_path {
            Some(p) => trim_chars(p.as_str()),
            None => Vec::new(),
        };
        if path.len() > 0 {
            BodyPlan::File(string_of(&path))
        } else {
            BodyPlan::Empty
        }
    } else {
        BodyPlan::Empty
    }
}

/// Works out a send of `iface` with the variables of the interface, the
/// environment and the project globals. Refused (see `plan_refusal`) when a
/// checked template holds an unbound placeholder, or the URL after
/// substitution is empty or not HTTP(S); otherwise every setting, header,
/// authentication, query parameter and body of the request.
pub fn plan_request(
    iface: &InterfaceFile,
    env: &EnvironmentFile,
    globals: &[KeyValue],
    gp: &GlobalParams,
    opts: &SendOptions,
) -> (r: Result<RequestPlan, SendErrorInfo>)
    ensures
        match r {
            Err(e) => plan_refusal(*iface, *env, globals@, *gp) == Some((e.kind@, e.message@)),
            Ok(p) => {
                let vars = collect_vars_spec(iface.variables@, env.variables@, env.host@, globals@);
                &&& plan_refusal(*iface, *env, globals@, *gp).is_none()
                &&& p.method@ == trim(iface.method@)
                &&& p.resolved_url@ == substitute_spec(iface.url@, vars)
                &&& p.url@ == trim(p.resolved_url@)
                &&& p.timeout_ms == timeout_spec(opts.timeout_ms, iface.timeout_ms)
                &&& p.redirect == redirect_spec(opts.redirect_limit, iface.redirect_limit)
                &&& p.accept_invalid_certs == (or_opt(opts.tls_verify, iface.tls_verify) == Some(false))
                &&& match p.ca_cert {
                    Some((raw, t)) => ca_cert_spec(opts.ca_cert_path, iface.ca_cert_path) == Some((raw@, t@)),
                    None => ca_cert_spec(opts.ca_cert_path, iface.ca_cert_path).is_none(),
                }
                &&& proxy_view(p.proxy) == proxy_spec(opts.proxy)
                &&& pair_views(p.headers@) == headers_spec(*iface, *gp, vars)
                &&& auth_view(p.auth) == auth_spec(*iface, vars)
                &&& pair_views(p.query@) == enabled_pairs_spec(gp.query@, vars) + param_pairs_spec(iface.query@, vars)
                &&& body_plan_view(p.body) == body_spec(*iface, vars)
                &&& body_mimes_guessed(p.body)
            },
        },
{
    let vars = collect_vars(iface, env, globals);
    let templates = templates_to_check(iface, gp);
    let missing = missing_variables(&templates, &vars);
    if missing.as_str().unicode_len() > 0 {
        let mut m = chars_of("存在未解析的变量：");
        extend_str(&mut m, missing.as_str());
        return Err(err("unresolved", string_of(&m)));
    }
    let resolved_url = substitute(iface.url.as_str(), &vars);
    let url = trim_chars(resolved_url.as_str());
    if url.len() == 0 {
        return Err(err("url", owned("请求地址为空")));
    }
    let http = chars_of("http://");
    let https = chars_of("https://");
    if !(starts_at_exec(&url, 0, &http) || starts_at_exec(&url, 0, &https)) {
        return Err(err("url", owned("URL 需以 http:// 或 https:// 开头（可使用 {{host}} 变量）")));
    }

    let t = match opts.timeout_ms {
        Some(t) => t,
        None => match iface.timeout_ms {
            Some(t) => t,
            None => DEFAULT_TIMEOUT_MS,
        },
    };
    let timeout_ms = if t < 100 { 100 } else { t };
    let limit = match opts.redirect_limit {
        Some(n) => Some(n),
        None => iface.redirect_limit,
    };
    let redirect = match limit {
        Some(0) => RedirectPlan::Off,
        Some(n) => RedirectPlan::Limited(n),
        None => RedirectPlan::Limited(DEFAULT_MAX_REDIRECTS),
    };
    let verify = match opts.tls_verify {
        Some(b) => Some(b),
        None => iface.tls_verify,
    };
    let accept_invalid_certs = match verify {
        Some(false) => true,
        _ => false,
    };
    let ca_source = match &opts.ca_cert_path {
        Some(p) => Some(p),
        None => match &iface.ca_cert_path {
            Some(p) => Some(p),
            None => None,
        },
    };
    let ca_cert = match ca_source {
        Some(p) => {
            let tp = trim_chars(p.as_str());
            if tp.len() > 0 {
                Some((p.clone(), string_of(&tp)))
            } else {
                None
            }
        },
        None => None,
    };
    let px = &opts.proxy;
    let proxy = if !px.enabled || str_eq(px.kind.as_str(), "none") {
        ProxyPlan::Off
    } else if str_eq(px.kind.as_str(), "custom") {
        let u = trim_chars(px.url.as_str());
        if u.len() > 0 {
            ProxyPlan::Custom(string_of(&u))
        } else {
            ProxyPlan::Off
        }
    } else {
        ProxyPlan::System
    };

    let mut headers = enabled_pairs(gp.headers.as_slice(), &vars);
    append_pairs(&mut headers, param_pairs(iface.headers.as_slice(), &vars));
    append_pairs(&mut headers, cookie_pairs(enabled_pairs(gp.cookies.as_slice(), &vars)));
    let auth = auth_plan(iface, &vars);
    let mut query = enabled_pairs(gp.query.as_slice(), &vars);
    append_pairs(&mut query, param_pairs(iface.query.as_slice(), &vars));
    let body = body_plan(iface, &vars);
    let method = trim_chars(iface.method.as_str());
    Ok(RequestPlan {
        method: string_of(&method),
        url: string_of(&url),
        resolved_url,
        timeout_ms,
        redirect,
        accept_invalid_certs,
        ca_cert,
        proxy,
        headers,
        auth,
        query,
        body,
    })
}

// ----- after the plan -----

/// What `serde_urlencoded::to_string` yields for a list of pairs: the
/// `application/x-www-form-urlencoded` text, or the error's message.
pub uninterp spec fn urlencoded(pairs: Seq<(Seq<char>, Seq<char>)>) -> Result<Seq<char>, Seq<char>>;

/// `serde_urlencoded::to_string` on a list of string pairs; the result is
/// named `urlencoded`. String pairs are always supported, so it succeeds.
#[verifier::external_body]
fn urlencode_pairs(pairs: &Vec<(String, String)>) -> (r: Result<String, String>)
    ensures
        r is Ok,
        match r {
            Ok(t) => urlencoded(pair_views(pairs@)) == Ok::<Seq<char>, Seq<char>>(t@),
            Err(e) => urlencoded(pair_views(pairs@)) == Err::<Seq<char>, Seq<char>>(e@),
        },
{
    serde_urlencoded::to_string(pairs).map_err(|e| e.to_string())
}

/// The content type and text of a URL-encoded form body (encoding string
/// pairs does not fail; an encoding failure would be an `http` failure with
/// the encoder's message).
pub fn urlencoded_body(pairs: &Vec<(String, String)>) -> (r: Result<(String, String), SendErrorInfo>)
    ensures
        r is Ok,
        match r {
            Ok((ct, t)) => ct@ == "application/x-www-form-urlencoded"@ && urlencoded(pair_views(pairs@))
                == Ok::<Seq<char>, Seq<char>>(t@),
            Err(e) => e.kind@ == "http"@ && urlencoded(pair_views(pairs@)) == Err::<Seq<char>, Seq<char>>(e.message@),
        },
{
    match urlencode_pairs(pairs) {
        Ok(t) => Ok((owned("application/x-www-form-urlencoded"), t)),
        Err(e) => Err(err("http", e)),
    }
}

/// `prefix` followed by `a`.
fn message2(prefix: &str, a: &str) -> (r: String)
    ensures
        r@ == prefix@ + a@,
{
    let mut v = chars_of(prefix);
    extend_str(&mut v, a);
    string_of(&v)
}

/// `prefix`, then `a`, then `suffix`, then `b`.
fn message4(prefix: &str, a: &str, suffix: &str, b: &str) -> (r: String)
    ensures
        r@ == prefix@ + a@ + suffix@ + b@,
{
    let mut v = chars_of(prefix);
    extend_str(&mut v, a);
    extend_str(&mut v, suffix);
    extend_str(&mut v, b);
    string_of(&v)
}

/// The CA certificate at `path` could not be read.
pub fn ca_read_failure(path: &str, reason: &str) -> (r: SendErrorInfo)
    ensures
        r.kind@ == "tls"@,
        r.message@ == "读取 CA 证书 "@ + path@ + " 失败："@ + reason@,
{
    err("tls", message4("读取 CA 证书 ", path, " 失败：", reason))
}

/// The CA certificate could not be parsed.
pub fn ca_parse_failure(reason: &str) -> (r: SendErrorInfo)
    ensures
        r.kind@ == "tls"@,
        r.message@ == "解析 CA 证书失败："@ + reason@,
{
    err("tls", message2("解析 CA 证书失败：", reason))
}

/// The custom proxy URL was refused.
pub fn proxy_failure(reason: &str) -> (r: SendErrorInfo)
    ensures
        r.kind@ == "proxy"@,
        r.message@ == "代理地址无效："@ + reason@,
{
    err("proxy", message2("代理地址无效：", reason))
}

/// The method text is not an HTTP method.
pub fn method_failure(method: &str) -> (r: SendErrorInfo)
    ensures
        r.kind@ == "http"@,
        r.message@ == "不支持的方法："@ + method@,
{
    err("http", message2("不支持的方法：", method))
}

/// A file to send could not be read.
pub fn file_read_failure(path: &str, reason: &str) -> (r: SendErrorInfo)
    ensures
        r.kind@ == "file"@,
        r.message@ == "读取文件 "@ + path@ + " 失败："@ + reason@,
{
    err("file", message4("读取文件 ", path, " 失败：", reason))
}

/// The response body could not be read.
pub fn response_read_failure(reason: &str) -> (r: SendErrorInfo)
    ensures
        r.kind@ == "http"@,
        r.message@ == "读取响应体失败："@ + reason@,
{
    err("http", message2("读取响应体失败：", reason))
}

/// The kind of a failed exchange: `timeout`, else `connect`, else
/// `redirect`, else `http`.
pub open spec fn exchange_kind(timeout: bool, connect: bool, redirect: bool) -> Seq<char> {
    if timeout {
        "timeout"@
    } else if connect {
        "connect"@
    } else if redirect {
        "redirect"@
    } else {
        "http"@
    }
}

/// A failed exchange, classified (see `exchange_kind`).
pub fn exchange_failure(timeout: bool, connect: bool, redirect: bool, message: String) -> (r: SendErrorInfo)
    ensures
        r.kind@ == exchange_kind(timeout, connect, redirect),
        r.message@ == message@,
{
    let kind = if timeout {
        "timeout"
    } else if connect {
        "connect"
    } else if redirect {
        "redirect"
    } else {
        "http"
    };
    err(kind, message)
}

/// What `String::from_utf8_lossy` yields for some bytes: the text, with
/// each invalid sequence replaced by U+FFFD.
pub uninterp spec fn utf8_lossy(bytes: Seq<u8>) -> Seq<char>;

/// `String::from_utf8_lossy`, owned; the result is named `utf8_lossy`.
#[verifier::external_body]
fn lossy_text(bytes: &Vec<u8>) -> (r: String)
    ensures
        r@ == utf8_lossy(bytes@),
{
    String::from_utf8_lossy(bytes.as_slice()).into_owned()
}

/// The header text shown for a header value that is not visible text.
pub open spec fn binary_marker() -> Seq<char> {
    "<binary>"@
}

/// The response as reported: headers in order (a value that is not text
/// shown as `<binary>`), the body decoded from at most `BODY_CAP` bytes,
/// the full size and whether it was cut.
pub fn finish_response(
    status: u16,
    status_text: String,
    headers: Vec<(String, Option<String>)>,
    bytes: Vec<u8>,
    time_ms: u64,
    resolved_url: String,
) -> (r: SendResponse)
    ensures
        r.status == status,
        r.status_text == status_text,
        r.headers@.len() == headers@.len(),
        forall|i: int|
            0 <= i < headers@.len() ==> {
                &&& (#[trigger] r.headers@[i]).key == headers@[i].0
                &&& r.headers@[i].value@ == match headers@[i].1 {
                    Some(v) => v@,
                    None => binary_marker(),
                }
                &&& r.headers@[i].enabled
            },
        r.size_bytes == bytes@.len(),
        r.truncated == (bytes@.len() > BODY_CAP),
        r.body@ == utf8_lossy(if bytes@.len() > BODY_CAP {
            bytes@.take(BODY_CAP as int)
        } else {
            bytes@
        }),
        r.time_ms == time_ms,
        r.resolved_url == resolved_url,
{
    let mut kvs: Vec<KeyValue> = Vec::new();
    let total = headers.len();
    let mut hs = headers;
    let ghost orig = hs@;
    let mut i: usize = 0;
    while hs.len() > 0
        invariant
            orig.len() == total,
            i + hs@.len() == orig.len(),
            hs@ == orig.skip(i as int),
            kvs@.len() == i,
            forall|k: int|
                0 <= k < i ==> {
                    &&& (#[trigger] kvs@[k]).key == orig[k].0
                    &&& kvs@[k].value@ == match orig[k].1 {
                        Some(v) => v@,
                        None => binary_marker(),
                    }
                    &&& kvs@[k].enabled
                },
        decreases hs@.len(),
    {
        let (key, value) = hs.remove(0);
        let value = match value {
            Some(v) => v,
            None => owned("<binary>"),
        };
        kvs.push(KeyValue { key, value, enabled: true });
        proof {
            assert(hs@ =~= orig.skip(i + 1));
        }
        i += 1;
    }
    let size_bytes = bytes.len();
    let truncated = size_bytes > BODY_CAP;
    let mut kept = bytes;
    if truncated {
        kept.truncate(BODY_CAP);
    }
    let body = lossy_text(&kept);
    SendResponse {
        status,
        status_text,
        headers: kvs,
        body,
        time_ms,
        size_bytes,
        truncated,
        resolved_url,
    }
}

// ----- laws -----

/// Whether some key of a list is unbound and not empty.
pub open spec fn has_unbound(keys: Seq<Seq<char>>, vars: Map<Seq<char>, Seq<char>>) -> bool {
    exists|j: int| 0 <= j < keys.len() && !vars.contains_key(#[trigger] keys[j]) && keys[j].len() > 0
}

proof fn lemma_note_missing_nonempty(m: Seq<char>, keys: Seq<Seq<char>>, vars: Map<Seq<char>, Seq<char>>)
    ensures
        note_missing(m, keys, vars).len() > 0 <==> (m.len() > 0 || has_unbound(keys, vars)),
    decreases keys.len(),
{
    if keys.len() > 0 {
        let rest = keys.drop_last();
        lemma_note_missing_nonempty(m, rest, vars);
        let before = note_missing(m, rest, vars);
        let k = keys.last();
        assert(has_unbound(keys, vars) <==> (has_unbound(rest, vars) || (!vars.contains_key(k) && k.len() > 0))) by {
            if has_unbound(keys, vars) {
                let j = choose|j: int| 0 <= j < keys.len() && !vars.contains_key(#[trigger] keys[j]) && keys[j].len() > 0;
                if j < keys.len() - 1 {
                    assert(rest[j] == keys[j]);
                }
            }
            if has_unbound(rest, vars) {
                let j = choose|j: int| 0 <= j < rest.len() && !vars.contains_key(#[trigger] rest[j]) && rest[j].len() > 0;
                assert(keys[j] == rest[j]);
            }
        }
        if !vars.contains_key(k) && contains_seq(before, k) && k.len() > 0 {
            let i = choose|i: int| 0 <= i <= before.len() - k.len() && #[trigger] starts_at(before, i, k);
            assert(before.len() > 0);
        }
        reveal_strlit(", ");
    }
}

/// A send is refused for unresolved variables exactly when one of the
/// checked templates holds a placeholder whose (non-empty) name is not
/// bound.
pub proof fn law_unresolved_refusal(templates: Seq<Seq<char>>, vars: Map<Seq<char>, Seq<char>>)
    ensures
        missing_vars(templates, vars).len() > 0 <==> exists|i: int|
            0 <= i < templates.len() && has_unbound(unresolved_spec(#[trigger] templates[i]), vars),
    decreases templates.len(),
{
    if templates.len() > 0 {
        let rest = templates.drop_last();
        law_unresolved_refusal(rest, vars);
        lemma_note_missing_nonempty(missing_vars(rest, vars), unresolved_spec(templates.last()), vars);
        if exists|i: int| 0 <= i < templates.len() && has_unbound(unresolved_spec(#[trigger] templates[i]), vars) {
            let i = choose|i: int| 0 <= i < templates.len() && has_unbound(unresolved_spec(#[trigger] templates[i]), vars);
            if i < templates.len() - 1 {
                assert(rest[i] == templates[i]);
            }
        }
        if exists|i: int| 0 <= i < rest.len() && has_unbound(unresolved_spec(#[trigger] rest[i]), vars) {
            let i = choose|i: int| 0 <= i < rest.len() && has_unbound(unresolved_spec(#[trigger] rest[i]), vars);
            assert(templates[i] == rest[i]);
        }
    }
}

/// Basic authentication with a non-blank user name sends the user name and
/// the password, each with its placeholders filled in, in that order; with
/// no variables bound they go out exactly as written.
pub proof fn law_basic_auth_sends_user_then_password(iface: InterfaceFile, vars: Map<Seq<char>, Seq<char>>)
    requires
        iface.auth.kind@ == "basic"@,
        trim(iface.auth.username@).len() > 0,
    ensures
        auth_spec(iface, vars) == (
            2int,
            substitute_spec(iface.auth.username@, vars),
            substitute_spec(iface.auth.password@, vars),
        ),
        auth_spec(iface, Map::empty()) == (2int, iface.auth.username@, iface.auth.password@),
{
    reveal_strlit("basic");
    reveal_strlit("bearer");
    assert("basic"@ != "bearer"@) by {
        assert("basic"@[1] != "bearer"@[1]);
    }
    law_substitute_without_vars(iface.auth.username@);
    law_substitute_without_vars(iface.auth.password@);
}

/// A bearer token that is not blank goes out as the header
/// `Authorization: Bearer <token>`, the token's placeholders filled in.
pub proof fn law_bearer_auth_is_an_authorization_header(iface: InterfaceFile, vars: Map<Seq<char>, Seq<char>>)
    requires
        iface.auth.kind@ == "bearer"@,
        trim(iface.auth.token@).len() > 0,
    ensures
        auth_spec(iface, vars) == (1int, "Authorization"@, "Bearer "@ + substitute_spec(iface.auth.token@, vars)),
        auth_spec(iface, Map::empty()) == (1int, "Authorization"@, "Bearer "@ + iface.auth.token@),
{
    law_substitute_without_vars(iface.auth.token@);
}

/// An API key with a non-blank name goes out under that name with its value
/// (placeholders filled in): as a query parameter when its place is `query`,
/// otherwise as a header.
pub proof fn law_api_key_auth_sends_name_then_value(iface: InterfaceFile, vars: Map<Seq<char>, Seq<char>>)
    requires
        iface.auth.kind@ == "api-key"@,
        trim(iface.auth.api_key_name@).len() > 0,
    ensures
        auth_spec(iface, vars).1 == substitute_spec(iface.auth.api_key_name@, vars),
        auth_spec(iface, vars).2 == substitute_spec(iface.auth.api_key_value@, vars),
        auth_spec(iface, vars).0 == (if iface.auth.api_key_in@ == "query"@ { 3int } else { 1int }),
        auth_spec(iface, Map::empty()).1 == iface.auth.api_key_name@,
        auth_spec(iface, Map::empty()).2 == iface.auth.api_key_value@,
{
    reveal_strlit("api-key");
    reveal_strlit("basic");
    reveal_strlit("bearer");
    assert("api-key"@ != "bearer"@) by {
        assert("api-key"@[0] != "bearer"@[0]);
    }
    assert("api-key"@ != "basic"@) by {
        assert("api-key"@[0] != "basic"@[0]);
    }
    law_substitute_without_vars(iface.auth.api_key_name@);
    law_substitute_without_vars(iface.auth.api_key_value@);
}

/// No authentication is sent for a kind other than `bearer`, `basic` and
/// `api-key`, nor when the token, user name or key name it needs is blank.
pub proof fn law_auth_sends_nothing_without_its_credential(iface: InterfaceFile, vars: Map<Seq<char>, Seq<char>>)
    requires
        iface.auth.kind@ == "bearer"@ ==> trim(iface.auth.token@).len() == 0,
        iface.auth.kind@ == "basic"@ ==> trim(iface.auth.username@).len() == 0,
        iface.auth.kind@ == "api-key"@ ==> trim(iface.auth.api_key_name@).len() == 0,
    ensures
        auth_spec(iface, vars) == (0int, Seq::<char>::empty(), Seq::<char>::empty()),
{
}

} // verus!
