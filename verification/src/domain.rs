//! Domain model: plain data structures and the validation rules that apply
//! to them (no I/O).

use vstd::prelude::*;

use crate::text::{chars_eq, chars_of, is_blank, is_ws, string_of, trim, trim_chars, trim_start};

verus! {

/// Version stamp written into every stored document.
pub const SCHEMA_VERSION: u32 = 1;

#[derive(Debug, Clone, Default)]
pub struct TeamInfo {
    pub key: String,
    pub name: String,
}

#[derive(Debug, Clone, Default)]
pub struct ProjectInfo {
    pub key: String,
    pub name: String,
}

#[derive(Debug, Clone, Default)]
pub struct OpenTab {
    pub team_key: String,
    pub project_key: String,
}

#[derive(Debug, Clone, Default)]
pub struct ProxyConfig {
    pub enabled: bool,
    /// system | custom | none
    pub kind: String,
    pub url: String,
}

#[derive(Debug, Clone, Default)]
pub struct WorkspaceState {
    pub version: u32,
    pub open_tabs: Vec<OpenTab>,
    pub active_tab: Option<String>,
    pub proxy: ProxyConfig,
}

#[derive(Debug, Clone, Default)]
pub struct KeyValue {
    pub key: String,
    pub value: String,
    pub enabled: bool,
}

#[derive(Debug, Clone, Default)]
pub struct GlobalParams {
    pub headers: Vec<KeyValue>,
    pub cookies: Vec<KeyValue>,
    pub query: Vec<KeyValue>,
}

#[derive(Debug, Clone, Default)]
pub struct EnvironmentFile {
    pub version: u32,
    pub id: String,
    pub file: String,
    pub name: String,
    pub host: String,
    pub builtin: bool,
    pub variables: Vec<KeyValue>,
}

#[derive(Debug, Clone, Default)]
pub struct EnvironmentSummary {
    pub id: String,
    pub file: String,
    pub name: String,
    pub host: String,
    pub builtin: bool,
    pub active: bool,
}

#[derive(Debug, Clone, Default)]
pub struct ProjectSettings {
    pub name: String,
    pub active_environment_id: Option<String>,
    pub global_variables: Vec<KeyValue>,
    pub global_params: GlobalParams,
}

/// A documented parameter (query parameter, header or form field).
#[derive(Debug, Clone, Default)]
pub struct ApiParam {
    pub key: String,
    /// Example value; it is also the value sent with the request.
    pub example: String,
    pub required: bool,
    /// string | integer | number | boolean | object | array | file
    pub param_type: String,
    pub description: String,
    /// Whether the parameter is sent.
    pub enabled: bool,
}

/// A node of a JSON request-body structure tree.
#[derive(Debug, Default)]
pub struct BodyField {
    pub key: String,
    /// Display title.
    pub name: String,
    pub required: bool,
    /// object | array | string | integer | number | boolean | null
    pub field_type: String,
    /// Example value (leaf types only).
    pub example: String,
    pub description: String,
    /// Fields of an object.
    pub children: Vec<BodyField>,
    /// Element definition of an array.
    pub items: Option<Box<BodyField>>,
}

/// JSON request-body structure tree; the root has an empty key and stands
/// for the payload itself.
#[derive(Debug, Clone)]
pub struct JsonBody {
    pub root: BodyField,
}

#[derive(Debug, Clone)]
pub struct Body {
    /// none | json | raw | urlencoded | form-data | file
    pub mode: String,
    pub content: String,
    pub content_type: String,
    pub json: JsonBody,
    pub form: Vec<ApiParam>,
    pub file_path: Option<String>,
}

#[derive(Debug, Clone)]
pub struct Auth {
    /// none | bearer | basic | api-key
    pub kind: String,
    pub token: String,
    pub username: String,
    pub password: String,
    pub api_key_name: String,
    /// header | query
    pub api_key_in: String,
    pub api_key_value: String,
}

/// A check evaluated against a response.
#[derive(Debug, Clone)]
pub enum Assertion {
    StatusCode { op: String, expected: u16 },
    Header { key: String, op: String, expected: String },
    Time { op: String, expected_ms: u64 },
    JsonPath { path: String, op: String, expected: String },
}

#[derive(Debug, Clone, Default)]
pub struct InterfaceFile {
    pub version: u32,
    pub id: String,
    pub name: String,
    pub method: String,
    pub url: String,
    pub headers: Vec<ApiParam>,
    pub query: Vec<ApiParam>,
    pub body: Body,
    pub auth: Auth,
    pub variables: Vec<KeyValue>,
    pub assertions: Vec<Assertion>,
    pub description: String,
    pub timeout_ms: Option<u64>,
    pub redirect_limit: Option<u64>,
    pub tls_verify: Option<bool>,
    pub ca_cert_path: Option<String>,
}

/// A node of the interface tree.
#[derive(Debug)]
pub enum TreeNode {
    Group { key: String, name: String, children: Vec<TreeNode> },
    Interface { key: String, name: String, method: String },
}

/// A request history entry for lists: no snapshots and no response body.
#[derive(Debug, Clone)]
pub struct HistorySummary {
    pub id: i64,
    pub team_key: String,
    pub project_key: String,
    pub project_name: String,
    pub env_id: String,
    pub env_name: String,
    pub iface_key: String,
    pub iface_name: String,
    pub team_id: Option<i32>,
    pub project_id: Option<i32>,
    pub group_id: Option<i32>,
    pub iface_id: Option<i32>,
    pub method: String,
    /// The URL actually sent (variables resolved; the interface's own URL
    /// when the send failed).
    pub url: String,
    pub status: Option<u16>,
    pub ok: bool,
    pub time_ms: u64,
    pub created_at_ms: i64,
}

/// A complete request history entry: the request as sent, the environment
/// and global snapshots, and the response or the error. It stands on its
/// own and can be sent again.
#[derive(Debug)]
pub struct HistoryRecord {
    pub id: i64,
    pub team_key: String,
    pub project_key: String,
    pub project_name: String,
    pub env_id: String,
    pub env_name: String,
    pub iface_key: String,
    pub iface_name: String,
    pub team_id: Option<i32>,
    pub project_id: Option<i32>,
    pub group_id: Option<i32>,
    pub iface_id: Option<i32>,
    pub method: String,
    pub url: String,
    pub status: Option<u16>,
    pub ok: bool,
    pub time_ms: u64,
    pub created_at_ms: i64,
    pub doc: InterfaceFile,
    pub env: EnvironmentFile,
    pub global_variables: Vec<KeyValue>,
    pub global_params: GlobalParams,
    pub response: Option<crate::http::SendResponse>,
    pub error: Option<crate::http::SendErrorInfo>,
}

/// The plain content of a structure tree node.
pub struct Field {
    pub key: Seq<char>,
    pub name: Seq<char>,
    pub required: bool,
    pub field_type: Seq<char>,
    pub example: Seq<char>,
    pub description: Seq<char>,
    pub children: Seq<Field>,
    pub items: Option<Box<Field>>,
}

/// The plain content of a node.
pub open spec fn field_of(f: BodyField) -> Field
    decreases f,
{
    Field {
        key: f.key@,
        name: f.name@,
        required: f.required,
        field_type: f.field_type@,
        example: f.example@,
        description: f.description@,
        children: {
            proof {
                assert(decreases_to!(f => f.children));
                assert(decreases_to!(f.children => f.children@));
            }
            fields_of(f.children@)
        },
        items: match f.items {
            Some(b) => {
                proof {
                    assert(decreases_to!(f => f.items));
                }
                Some(Box::new(field_of(*b)))
            },
            None => None,
        },
    }
}

/// The plain contents of a list of nodes.
pub open spec fn fields_of(s: Seq<BodyField>) -> Seq<Field>
    decreases s,
{
    if s.len() == 0 {
        Seq::empty()
    } else {
        proof {
            assert(decreases_to!(s => s.subrange(0, s.len() - 1)));
            assert(decreases_to!(s => s[s.len() - 1]));
        }
        fields_of(s.drop_last()).push(field_of(s.last()))
    }
}

/// `fields_of` goes node by node.
pub proof fn lemma_fields_of(s: Seq<BodyField>)
    ensures
        fields_of(s).len() == s.len(),
        forall|i: int| 0 <= i < s.len() ==> #[trigger] fields_of(s)[i] == field_of(s[i]),
    decreases s.len(),
{
    if s.len() > 0 {
        lemma_fields_of(s.drop_last());
        assert forall|i: int| 0 <= i < s.len() implies #[trigger] fields_of(s)[i] == field_of(s[i]) by {
            if i < s.len() - 1 {
                assert(fields_of(s)[i] == fields_of(s.drop_last())[i]);
            }
        }
    }
}

/// `fields_of` of a list with one more node.
pub proof fn lemma_fields_of_push(s: Seq<BodyField>, x: BodyField)
    ensures
        fields_of(s.push(x)) == fields_of(s).push(field_of(x)),
{
    assert(s.push(x).drop_last() =~= s);
}

/// The content of the bare `object` root.
pub open spec fn bare_object_field() -> Field {
    Field {
        key: Seq::empty(),
        name: Seq::empty(),
        required: false,
        field_type: "object"@,
        example: Seq::empty(),
        description: Seq::empty(),
        children: Seq::empty(),
        items: None,
    }
}

/// The bare `object` root has the bare content.
pub proof fn lemma_bare_root(f: BodyField)
    requires
        is_bare_object_root(f),
    ensures
        field_of(f) == bare_object_field(),
{
    assert(f.children@.len() == 0);
    assert(fields_of(f.children@) == Seq::<Field>::empty());
    assert(f.items.is_none());
    assert(field_of(f).children == Seq::<Field>::empty());
    assert(field_of(f).items.is_none());
    assert(f.key@ =~= Seq::<char>::empty());
    assert(f.name@ =~= Seq::<char>::empty());
    assert(f.example@ =~= Seq::<char>::empty());
    assert(f.description@ =~= Seq::<char>::empty());
}

impl Clone for BodyField {
    /// A deep copy.
    fn clone(&self) -> (r: BodyField)
        ensures
            r.key@ == self.key@,
            r.name@ == self.name@,
            r.required == self.required,
            r.field_type@ == self.field_type@,
            r.example@ == self.example@,
            r.description@ == self.description@,
            r.children@.len() == self.children@.len(),
            r.items.is_some() == self.items.is_some(),
            field_of(r) == field_of(*self),
        decreases self,
    {
        let mut children: Vec<BodyField> = Vec::new();
        let mut i: usize = 0;
        proof {
            assert(children@ =~= Seq::<BodyField>::empty());
            assert(self.children@.take(0) =~= Seq::<BodyField>::empty());
        }
        while i < self.children.len()
            invariant
                i <= self.children.len(),
                children@.len() == i,
                fields_of(children@) == fields_of(self.children@.take(i as int)),
            decreases self.children.len() - i,
        {
            proof {
                assert(decreases_to!(self => self.children));
                assert(decreases_to!(self.children => self.children@));
                assert(decreases_to!(self.children@ => self.children@[i as int]));
            }
            let c = self.children[i].clone();
            let ghost before = children@;
            children.push(c);
            proof {
                lemma_fields_of_push(before, c);
                lemma_fields_of_push(self.children@.take(i as int), self.children@[i as int]);
                assert(self.children@.take(i as int).push(self.children@[i as int]) =~= self.children@.take(i + 1));
            }
            i += 1;
        }
        proof {
            assert(self.children@.take(self.children.len() as int) =~= self.children@);
        }
        let items = match &self.items {
            Some(b) => Some(Box::new((**b).clone())),
            None => None,
        };
        BodyField {
            key: self.key.clone(),
            name: self.name.clone(),
            required: self.required,
            field_type: self.field_type.clone(),
            example: self.example.clone(),
            description: self.description.clone(),
            children,
            items,
        }
    }
}

impl Clone for TreeNode {
    /// A deep copy.
    #[verifier::loop_isolation(false)]
    fn clone(&self) -> (r: TreeNode)
        ensures
            crate::tree::node_view(r) == crate::tree::node_view(*self),
        decreases self,
    {
        match self {
            TreeNode::Group { key, name, children } => {
                let mut copy: Vec<TreeNode> = Vec::new();
                let mut i: usize = 0;
                proof {
                    assert(copy@ =~= Seq::<TreeNode>::empty());
                    assert(children@.take(0) =~= Seq::<TreeNode>::empty());
                }
                while i < children.len()
                    invariant
                        i <= children.len(),
                        crate::tree::nodes_view(copy@) == crate::tree::nodes_view(children@.take(i as int)),
                    decreases children.len() - i,
                {
                    proof {
                        assert(decreases_to!(self => children@[i as int]));
                    }
                    let c = children[i].clone();
                    let ghost before = copy@;
                    copy.push(c);
                    proof {
                        crate::tree::lemma_nodes_view_push(before, c);
                        crate::tree::lemma_nodes_view_push(children@.take(i as int), children@[i as int]);
                        assert(children@.take(i as int).push(children@[i as int]) =~= children@.take(i + 1));
                    }
                    i += 1;
                }
                proof {
                    assert(children@.take(children.len() as int) =~= children@);
                }
                TreeNode::Group { key: key.clone(), name: name.clone(), children: copy }
            },
            TreeNode::Interface { key, name, method } => TreeNode::Interface {
                key: key.clone(),
                name: name.clone(),
                method: method.clone(),
            },
        }
    }
}

// ----- string helpers -----

/// Whether two string slices hold the same characters.
pub fn str_eq(a: &str, b: &str) -> (r: bool)
    ensures
        r == (a@ == b@),
{
    let x = chars_of(a);
    let y = chars_of(b);
    chars_eq(&x, &y)
}

/// An owned copy of a string slice.
pub fn owned(s: &str) -> (r: String)
    ensures
        r@ == s@,
{
    let v = chars_of(s);
    string_of(&v)
}

/// `a` followed by `b`.
pub fn concat(a: &str, b: &str) -> (r: String)
    ensures
        r@ == a@ + b@,
{
    let mut v = chars_of(a);
    crate::text::extend_str(&mut v, b);
    string_of(&v)
}

// ----- tabs and workspace -----

impl OpenTab {
    /// The tab id: `project:<team>:<project>`.
    pub fn id(&self) -> (r: String)
        ensures
            r@ == "project:"@ + self.team_key@ + ":"@ + self.project_key@,
    {
        let mut v = chars_of("project:");
        crate::text::extend_str(&mut v, self.team_key.as_str());
        crate::text::extend_str(&mut v, ":");
        crate::text::extend_str(&mut v, self.project_key.as_str());
        string_of(&v)
    }
}

impl ProxyConfig {
    /// Proxy disabled, no kind, no URL.
    pub fn none() -> (r: ProxyConfig)
        ensures
            !r.enabled,
            r.kind@ == Seq::<char>::empty(),
            r.url@ == Seq::<char>::empty(),
    {
        ProxyConfig { enabled: false, kind: String::new(), url: String::new() }
    }
}

impl WorkspaceState {
    /// A fresh workspace: current schema version, no open tabs, no active tab.
    pub fn new() -> (r: WorkspaceState)
        ensures
            r.version == SCHEMA_VERSION,
            r.open_tabs@.len() == 0,
            r.active_tab.is_none(),
            !r.proxy.enabled,
            r.proxy.kind@ == Seq::<char>::empty(),
            r.proxy.url@ == Seq::<char>::empty(),
    {
        WorkspaceState {
            version: SCHEMA_VERSION,
            open_tabs: Vec::new(),
            active_tab: None,
            proxy: ProxyConfig::none(),
        }
    }
}

// ----- key and name rules -----

/// Whether `c` is an ASCII letter or digit.
pub open spec fn is_ascii_alnum(c: char) -> bool {
    ('a' <= c <= 'z') || ('A' <= c <= 'Z') || ('0' <= c <= '9')
}

/// Exec form of `is_ascii_alnum`.
pub fn ascii_alnum(c: char) -> (b: bool)
    ensures
        b == is_ascii_alnum(c),
{
    ('a' <= c && c <= 'z') || ('A' <= c && c <= 'Z') || ('0' <= c && c <= '9')
}

/// Key building over characters: ASCII letters and digits are kept, every run
/// of other characters after the first kept one becomes a single `-`.
/// Returns the built key and whether it currently ends with a dash.
pub open spec fn key_chars(s: Seq<char>) -> (Seq<char>, bool)
    decreases s.len(),
{
    if s.len() == 0 {
        (Seq::empty(), false)
    } else {
        let (out, last_dash) = key_chars(s.drop_last());
        let c = s.last();
        if is_ascii_alnum(c) {
            (out.push(c), false)
        } else if out.len() > 0 && !last_dash {
            (out.push('-'), true)
        } else {
            (out, last_dash)
        }
    }
}

/// The sequence with all trailing `-` removed.
pub open spec fn strip_trailing_dashes(s: Seq<char>) -> Seq<char>
    decreases s.len(),
{
    if s.len() > 0 && s.last() == '-' {
        strip_trailing_dashes(s.drop_last())
    } else {
        s
    }
}

/// The key built from already lower-cased text.
pub open spec fn sanitize_lowered_spec(s: Seq<char>) -> Seq<char> {
    strip_trailing_dashes(key_chars(s).0)
}

/// What `str::to_lowercase` returns for the given characters (Unicode
/// lower-case mapping, locale independent).
pub uninterp spec fn lowercase(s: Seq<char>) -> Seq<char>;

/// `str::to_lowercase`: the lower-case equivalent of the text, so no ASCII
/// capital letter is left in it, and text that is already lower case or
/// without case (here: ASCII lower-case letters, digits and `-`) comes back
/// as it is; the result is named `lowercase`.
#[verifier::external_body]
pub(crate) fn to_lowercase(s: &str) -> (r: String)
    ensures
        r@ == lowercase(s@),
        forall|i: int| 0 <= i < r@.len() ==> !is_ascii_upper(#[trigger] r@[i]),
        (forall|i: int| 0 <= i < s@.len() ==> is_lower_key_char(#[trigger] s@[i])) ==> r@ == s@,
{
    s.to_lowercase()
}

/// What `str::to_uppercase` returns for the given characters (Unicode
/// upper-case mapping, locale independent).
pub uninterp spec fn uppercase(s: Seq<char>) -> Seq<char>;

/// `str::to_uppercase`.
#[verifier::external_body]
pub(crate) fn to_uppercase(s: &str) -> (r: String)
    ensures
        r@ == uppercase(s@),
{
    s.to_uppercase()
}

/// Builds a key from already lower-cased text (see `key_chars`), without a
/// trailing dash.
pub fn sanitize_lowered(lowered: &str) -> (r: String)
    ensures
        r@ == sanitize_lowered_spec(lowered@),
{
    let s = chars_of(lowered);
    let mut out: Vec<char> = Vec::new();
    let mut last_dash = false;
    let mut i: usize = 0;
    while i < s.len()
        invariant
            i <= s.len(),
            (out@, last_dash) == key_chars(s@.take(i as int)),
        decreases s.len() - i,
    {
        let c = s[i];
        proof {
            assert(s@.take(i + 1).drop_last() =~= s@.take(i as int));
        }
        if ascii_alnum(c) {
            out.push(c);
            last_dash = false;
        } else if out.len() > 0 && !last_dash {
            out.push('-');
            last_dash = true;
        }
        i += 1;
    }
    assert(s@.take(s.len() as int) =~= s@);
    while out.len() > 0 && out[out.len() - 1] == '-'
        invariant
            strip_trailing_dashes(out@) == strip_trailing_dashes(key_chars(s@).0),
        decreases out.len(),
    {
        out.pop();
    }
    string_of(&out)
}

/// Turns arbitrary text into a key of lower-case ASCII letters, digits and
/// single dashes: `trim`, lower-case, then `sanitize_lowered`.
pub fn sanitize_key(raw: &str) -> (r: String)
    ensures
        r@ == sanitize_lowered_spec(lowercase(trim(raw@))),
        is_lower_key(r@),
        trim(r@) == r@,
        is_lower_key(trim(raw@)) ==> r@ == trim(raw@),
{
    let t = trim_chars(raw);
    let ts = string_of(&t);
    let lowered = to_lowercase(ts.as_str());
    proof {
        law_sanitized_key_is_key(raw@);
        lemma_sanitized_lower(lowered@);
        lemma_key_is_trimmed(sanitize_lowered_spec(lowercase(trim(raw@))));
        if is_lower_key(trim(raw@)) {
            let k = trim(raw@);
            assert forall|i: int| 0 <= i < k.len() implies is_lower_key_char(#[trigger] k[i]) by {
                assert(is_ascii_alnum(k[i]) || k[i] == '-');
                assert(!is_ascii_upper(k[i]));
            }
            lemma_key_chars_of_key_shape(k);
        }
    }
    sanitize_lowered(lowered.as_str())
}

/// An ASCII lower-case letter, a digit or `-`.
pub open spec fn is_lower_key_char(c: char) -> bool {
    ('a' <= c <= 'z') || ('0' <= c <= '9') || c == '-'
}

/// Whether `c` is an ASCII capital letter.
pub open spec fn is_ascii_upper(c: char) -> bool {
    'A' <= c <= 'Z'
}

/// A key as `sanitize_key` makes it: a key (`is_key`) without capital
/// letters, so lower-case ASCII letters, digits and single dashes.
pub open spec fn is_lower_key(k: Seq<char>) -> bool {
    &&& is_key(k)
    &&& forall|i: int| 0 <= i < k.len() ==> !is_ascii_upper(#[trigger] k[i])
}

/// What `key_chars` builds holds no character that its input lacks but
/// for dashes.
proof fn lemma_key_chars_no_upper(s: Seq<char>)
    requires
        forall|i: int| 0 <= i < s.len() ==> !is_ascii_upper(#[trigger] s[i]),
    ensures
        forall|i: int| 0 <= i < key_chars(s).0.len() ==> !is_ascii_upper(#[trigger] key_chars(s).0[i]),
    decreases s.len(),
{
    if s.len() > 0 {
        let t = s.drop_last();
        assert forall|i: int| 0 <= i < t.len() implies !is_ascii_upper(#[trigger] t[i]) by {
            assert(t[i] == s[i]);
        }
        lemma_key_chars_no_upper(t);
        let prev = key_chars(t).0;
        let out = key_chars(s).0;
        assert forall|i: int| 0 <= i < out.len() implies !is_ascii_upper(#[trigger] out[i]) by {
            if i < prev.len() {
                assert(out[i] == prev[i]);
            }
        }
    }
}

/// Dropping trailing dashes keeps what the rest holds.
proof fn lemma_strip_trailing_dashes_sub(s: Seq<char>)
    ensures
        strip_trailing_dashes(s) == s.take(strip_trailing_dashes(s).len() as int),
        strip_trailing_dashes(s).len() <= s.len(),
    decreases s.len(),
{
    if s.len() > 0 && s.last() == '-' {
        lemma_strip_trailing_dashes_sub(s.drop_last());
        let r = strip_trailing_dashes(s.drop_last());
        assert(s.drop_last().take(r.len() as int) =~= s.take(r.len() as int));
    } else {
        assert(s.take(s.len() as int) =~= s);
    }
}

/// The key built from lower-cased text has no capital letters.
proof fn lemma_sanitized_lower(s: Seq<char>)
    requires
        forall|i: int| 0 <= i < s.len() ==> !is_ascii_upper(#[trigger] s[i]),
    ensures
        forall|i: int| 0 <= i < sanitize_lowered_spec(s).len() ==> !is_ascii_upper(#[trigger] sanitize_lowered_spec(s)[i]),
{
    lemma_key_chars_no_upper(s);
    let k = key_chars(s).0;
    lemma_strip_trailing_dashes_sub(k);
    let r = sanitize_lowered_spec(s);
    assert forall|i: int| 0 <= i < r.len() implies !is_ascii_upper(#[trigger] r[i]) by {
        assert(r[i] == k.take(r.len() as int)[i]);
        assert(k.take(r.len() as int)[i] == k[i]);
    }
}

/// A key: ASCII letters, digits and dashes, no dash at either end and no
/// two dashes in a row.
pub open spec fn is_key(k: Seq<char>) -> bool {
    &&& forall|i: int| 0 <= i < k.len() ==> is_ascii_alnum(#[trigger] k[i]) || k[i] == '-'
    &&& k.len() > 0 ==> k[0] != '-' && k.last() != '-'
    &&& forall|i: int| 0 <= i < k.len() - 1 && #[trigger] k[i] == '-' ==> k[i + 1] != '-'
}

/// What `key_chars` builds keeps the shape of a key but for one trailing
/// dash, which it reports.
proof fn lemma_key_chars_shape(s: Seq<char>)
    ensures
        ({
            let (out, last_dash) = key_chars(s);
            &&& forall|i: int| 0 <= i < out.len() ==> is_ascii_alnum(#[trigger] out[i]) || out[i] == '-'
            &&& out.len() > 0 ==> out[0] != '-'
            &&& forall|i: int| 0 <= i < out.len() - 1 && #[trigger] out[i] == '-' ==> out[i + 1] != '-'
            &&& last_dash == (out.len() > 0 && out.last() == '-')
        }),
    decreases s.len(),
{
    if s.len() > 0 {
        lemma_key_chars_shape(s.drop_last());
        let (prev, _) = key_chars(s.drop_last());
        let (out, _) = key_chars(s);
        assert forall|i: int| 0 <= i < out.len() - 1 && #[trigger] out[i] == '-' implies out[i + 1] != '-' by {
            if i < prev.len() - 1 {
                assert(out[i] == prev[i] && out[i + 1] == prev[i + 1]);
            } else {
                assert(out[i] == prev[i]);
            }
        }
        assert forall|i: int| 0 <= i < out.len() implies is_ascii_alnum(#[trigger] out[i]) || out[i] == '-' by {
            if i < prev.len() {
                assert(out[i] == prev[i]);
            }
        }
    }
}

/// Dropping trailing dashes from a list of that shape gives a key.
proof fn lemma_strip_trailing_dashes(s: Seq<char>)
    requires
        forall|i: int| 0 <= i < s.len() ==> is_ascii_alnum(#[trigger] s[i]) || s[i] == '-',
        s.len() > 0 ==> s[0] != '-',
        forall|i: int| 0 <= i < s.len() - 1 && #[trigger] s[i] == '-' ==> s[i + 1] != '-',
    ensures
        is_key(strip_trailing_dashes(s)),
    decreases s.len(),
{
    if s.len() > 0 && s.last() == '-' {
        let t = s.drop_last();
        assert forall|i: int| 0 <= i < t.len() - 1 && #[trigger] t[i] == '-' implies t[i + 1] != '-' by {
            assert(s[i] == '-');
        }
        lemma_strip_trailing_dashes(t);
    }
}

/// Whatever the text, `sanitize_key` gives a key (`is_key`): ASCII letters,
/// digits and single dashes, no dash at either end.
pub proof fn law_sanitized_key_is_key(raw: Seq<char>)
    ensures
        is_key(sanitize_lowered_spec(lowercase(trim(raw)))),
{
    let s = lowercase(trim(raw));
    lemma_key_chars_shape(s);
    lemma_strip_trailing_dashes(key_chars(s).0);
}

/// Building a key from text that already has the shape of a key (but for
/// a trailing dash) gives the text back.
proof fn lemma_key_chars_of_key_shape(s: Seq<char>)
    requires
        forall|i: int| 0 <= i < s.len() ==> is_ascii_alnum(#[trigger] s[i]) || s[i] == '-',
        s.len() > 0 ==> s[0] != '-',
        forall|i: int| 0 <= i < s.len() - 1 && #[trigger] s[i] == '-' ==> s[i + 1] != '-',
    ensures
        key_chars(s) == (s, s.len() > 0 && s.last() == '-'),
    decreases s.len(),
{
    if s.len() > 0 {
        let t = s.drop_last();
        assert forall|i: int| 0 <= i < t.len() - 1 && #[trigger] t[i] == '-' implies t[i + 1] != '-' by {
            assert(s[i] == '-');
        }
        lemma_key_chars_of_key_shape(t);
        if s.last() == '-' {
            assert(s.len() > 1);
            assert(s[s.len() - 2] != '-');
        }
        assert(t.push(s.last()) =~= s);
    }
}

/// A key has no whitespace at either end.
proof fn lemma_key_is_trimmed(k: Seq<char>)
    requires
        is_key(k),
    ensures
        trim(k) == k,
{
    if k.len() > 0 {
        assert(is_ascii_alnum(k[0]) || k[0] == '-');
        assert(!is_ws(k[0]));
        assert(is_ascii_alnum(k.last()) || k.last() == '-');
        assert(!is_ws(k.last()));
    }
    assert(trim_start(k) == k);
}

/// Whether `c` is a control character (general category `Cc`, what
/// `char::is_control` tests): U+0000..U+001F and U+007F..U+009F.
pub open spec fn is_control_char(c: char) -> bool {
    (c as u32) <= 0x1f || (0x7f <= (c as u32) && (c as u32) <= 0x9f)
}

/// Characters that a name may not contain: control characters and
/// `\ / : * ? " < > |`.
pub open spec fn is_forbidden_name_char(c: char) -> bool {
    is_control_char(c) || c == '\\' || c == '/' || c == ':' || c == '*' || c == '?' || c == '"'
        || c == '<' || c == '>' || c == '|'
}

/// Exec form of `is_forbidden_name_char`.
pub fn forbidden_name_char(c: char) -> (b: bool)
    ensures
        b == is_forbidden_name_char(c),
{
    let u = c as u32;
    u <= 0x1f || (0x7f <= u && u <= 0x9f) || c == '\\' || c == '/' || c == ':' || c == '*' || c == '?' || c == '"'
        || c == '<' || c == '>' || c == '|'
}

/// The outcome of name validation: the trimmed name, or the error message.
pub open spec fn validate_name_spec(raw: Seq<char>) -> Result<Seq<char>, Seq<char>> {
    let name = trim(raw);
    if name.len() == 0 {
        Err("名称不能为空"@)
    } else if name.len() > 120 {
        Err("名称过长（最多 120 个字符）"@)
    } else if name == "."@ || name == ".."@ {
        Err("非法名称"@)
    } else if exists|i: int| 0 <= i < name.len() && is_forbidden_name_char(#[trigger] name[i]) {
        Err("名称包含特殊字符（不允许 \\ / : * ? \" < > | 及控制字符）"@)
    } else {
        Ok(name)
    }
}

/// Validates a user-given name: not blank, at most 120 characters, not `.`
/// or `..`, no control characters and none of `\ / : * ? " < > |`.
/// Returns the trimmed name.
#[verifier::loop_isolation(false)]
pub fn validate_name(raw: &str) -> (r: Result<String, String>)
    ensures
        match r {
            Ok(n) => validate_name_spec(raw@) == Ok::<Seq<char>, Seq<char>>(n@),
            Err(e) => validate_name_spec(raw@) == Err::<Seq<char>, Seq<char>>(e@),
        },
{
    let name = trim_chars(raw);
    if name.len() == 0 {
        return Err(owned("名称不能为空"));
    }
    if name.len() > 120 {
        return Err(owned("名称过长（最多 120 个字符）"));
    }
    let dot = chars_of(".");
    let dotdot = chars_of("..");
    if chars_eq(&name, &dot) || chars_eq(&name, &dotdot) {
        return Err(owned("非法名称"));
    }
    let mut i: usize = 0;
    while i < name.len()
        invariant
            i <= name.len(),
            forall|k: int| 0 <= k < i ==> !is_forbidden_name_char(name@[k]),
        decreases name.len() - i,
    {
        if forbidden_name_char(name[i]) {
            assert(is_forbidden_name_char(name@[i as int]));
            return Err(owned("名称包含特殊字符（不允许 \\ / : * ? \" < > | 及控制字符）"));
        }
        i += 1;
    }
    Ok(string_of(&name))
}

// ----- parameters and bodies -----

impl ApiParam {
    /// Send semantics: enabled and with a non-blank name.
    pub fn is_active(&self) -> (b: bool)
        ensures
            b == (self.enabled && trim(self.key@).len() > 0),
    {
        self.enabled && !is_blank(self.key.as_str())
    }
}

impl BodyField {
    /// A string field with the given key and nothing else set.
    pub fn new(key: &str) -> (r: BodyField)
        ensures
            r.key@ == key@,
            r.name@.len() == 0,
            !r.required,
            r.field_type@ == "string"@,
            r.example@.len() == 0,
            r.description@.len() == 0,
            r.children@.len() == 0,
            r.items.is_none(),
    {
        BodyField {
            key: owned(key),
            name: String::new(),
            required: false,
            field_type: owned("string"),
            example: String::new(),
            description: String::new(),
            children: Vec::new(),
            items: None,
        }
    }
}

/// Whether a structure tree counts as having no content: its type is empty,
/// or it is the bare initial `object` root with nothing defined.
pub open spec fn json_body_is_empty(root: BodyField) -> bool {
    ||| root.field_type@.len() == 0
    ||| {
        &&& root.field_type@ == "object"@
        &&& root.name@.len() == 0
        &&& root.example@.len() == 0
        &&& root.description@.len() == 0
        &&& !root.required
        &&& root.children@.len() == 0
        &&& root.items.is_none()
    }
}

impl JsonBody {
    /// A tree whose root has the given type, an empty key and nothing else.
    pub fn new_root(field_type: &str) -> (r: JsonBody)
        ensures
            r.root.key@.len() == 0,
            r.root.name@.len() == 0,
            !r.root.required,
            r.root.field_type@ == field_type@,
            r.root.example@.len() == 0,
            r.root.description@.len() == 0,
            r.root.children@.len() == 0,
            r.root.items.is_none(),
    {
        let root = BodyField {
            key: String::new(),
            name: String::new(),
            required: false,
            field_type: owned(field_type),
            example: String::new(),
            description: String::new(),
            children: Vec::new(),
            items: None,
        };
        JsonBody { root }
    }

    /// See `json_body_is_empty`.
    pub fn is_empty(&self) -> (b: bool)
        ensures
            b == json_body_is_empty(self.root),
    {
        let r = &self.root;
        r.field_type.as_str().unicode_len() == 0 || (str_eq(r.field_type.as_str(), "object")
            && r.name.as_str().unicode_len() == 0 && r.example.as_str().unicode_len() == 0
            && r.description.as_str().unicode_len() == 0 && !r.required && r.children.len() == 0
            && r.items.is_none())
    }
}

impl Default for JsonBody {
    /// The bare `object` root.
    fn default() -> (r: JsonBody)
        ensures
            is_bare_object_root(r.root),
            json_body_is_empty(r.root),
    {
        JsonBody::new_root("object")
    }
}

// ----- views -----

/// The plain content of an `ApiParam`.
pub struct ApiParamView {
    pub key: Seq<char>,
    pub example: Seq<char>,
    pub required: bool,
    pub param_type: Seq<char>,
    pub description: Seq<char>,
    pub enabled: bool,
}

impl View for ApiParam {
    type V = ApiParamView;

    open spec fn view(&self) -> ApiParamView {
        ApiParamView {
            key: self.key@,
            example: self.example@,
            required: self.required,
            param_type: self.param_type@,
            description: self.description@,
            enabled: self.enabled,
        }
    }
}

/// The views of a list of parameters.
pub open spec fn params_view(v: Seq<ApiParam>) -> Seq<ApiParamView> {
    v.map_values(|p: ApiParam| p@)
}

/// The plain content of a `Body`, apart from its structure tree.
pub struct BodyView {
    pub mode: Seq<char>,
    pub content: Seq<char>,
    pub content_type: Seq<char>,
    pub form: Seq<ApiParamView>,
    pub file_path: Option<Seq<char>>,
}

impl View for Body {
    type V = BodyView;

    open spec fn view(&self) -> BodyView {
        BodyView {
            mode: self.mode@,
            content: self.content@,
            content_type: self.content_type@,
            form: params_view(self.form@),
            file_path: match self.file_path {
                Some(p) => Some(p@),
                None => None,
            },
        }
    }
}

/// The plain content of an `Auth`.
pub struct AuthView {
    pub kind: Seq<char>,
    pub token: Seq<char>,
    pub username: Seq<char>,
    pub password: Seq<char>,
    pub api_key_name: Seq<char>,
    pub api_key_in: Seq<char>,
    pub api_key_value: Seq<char>,
}

impl View for Auth {
    type V = AuthView;

    open spec fn view(&self) -> AuthView {
        AuthView {
            kind: self.kind@,
            token: self.token@,
            username: self.username@,
            password: self.password@,
            api_key_name: self.api_key_name@,
            api_key_in: self.api_key_in@,
            api_key_value: self.api_key_value@,
        }
    }
}

/// The empty authentication view.
pub open spec fn no_auth() -> AuthView {
    AuthView {
        kind: Seq::empty(),
        token: Seq::empty(),
        username: Seq::empty(),
        password: Seq::empty(),
        api_key_name: Seq::empty(),
        api_key_in: Seq::empty(),
        api_key_value: Seq::empty(),
    }
}

/// A body view with the given mode, content and content type, no form
/// fields and no file.
pub open spec fn body_view(mode: Seq<char>, content: Seq<char>, content_type: Seq<char>) -> BodyView {
    BodyView { mode, content, content_type, form: Seq::empty(), file_path: None }
}

/// The bare `object` root: empty key, type `object`, nothing else.
pub open spec fn is_bare_object_root(f: BodyField) -> bool {
    &&& f.key@.len() == 0
    &&& f.field_type@ == "object"@
    &&& f.name@.len() == 0
    &&& f.example@.len() == 0
    &&& f.description@.len() == 0
    &&& !f.required
    &&& f.children@.len() == 0
    &&& f.items.is_none()
}

impl Default for Body {
    /// No body: every text empty, a bare `object` tree, no form, no file.
    fn default() -> (r: Body)
        ensures
            r@ == body_view(Seq::empty(), Seq::empty(), Seq::empty()),
            is_bare_object_root(r.json.root),
    {
        let r = Body {
            mode: String::new(),
            content: String::new(),
            content_type: String::new(),
            json: JsonBody::default(),
            form: Vec::new(),
            file_path: None,
        };
        assert(r@.form =~= Seq::<ApiParamView>::empty());
        r
    }
}

impl Default for Auth {
    /// No authentication: every text empty.
    fn default() -> (r: Auth)
        ensures
            r@ == no_auth(),
    {
        Auth {
            kind: String::new(),
            token: String::new(),
            username: String::new(),
            password: String::new(),
            api_key_name: String::new(),
            api_key_in: String::new(),
            api_key_value: String::new(),
        }
    }
}

// ----- identifiers -----

/// Whether `c` is a lower-case hexadecimal digit.
pub open spec fn is_lower_hex(c: char) -> bool {
    ('0' <= c <= '9') || ('a' <= c <= 'f')
}

/// The hyphenated lower-case form of a UUID: 36 characters, `-` at 8, 13,
/// 18 and 23, lower-case hexadecimal digits elsewhere.
pub open spec fn is_hyphenated_uuid(s: Seq<char>) -> bool {
    &&& s.len() == 36
    &&& forall|i: int|
        0 <= i < 36 ==> if i == 8 || i == 13 || i == 18 || i == 23 {
            #[trigger] s[i] == '-'
        } else {
            is_lower_hex(s[i])
        }
}

/// The text of a random (version 4, RFC 9562 variant) UUID: the hyphenated
/// form with `4` as the version digit (index 14) and one of `8`, `9`, `a`,
/// `b` as the variant digit (index 19).
pub open spec fn is_v4_uuid(s: Seq<char>) -> bool {
    &&& is_hyphenated_uuid(s)
    &&& s[14] == '4'
    &&& (s[19] == '8' || s[19] == '9' || s[19] == 'a' || s[19] == 'b')
}

/// `uuid::Uuid::new_v4`, written with `Display` (`to_string`): a random
/// UUID as text. Every outcome is the lower-case hyphenated form of a
/// version 4 UUID (`new_v4` sets the version and variant bits); which one
/// comes out is not stated.
#[verifier::external_body]
fn random_uuid_text() -> (r: String)
    ensures
        is_v4_uuid(r@),
{
    uuid::Uuid::new_v4().to_string()
}

/// A fresh random id: the text of a version 4 UUID.
pub fn new_id() -> (r: String)
    ensures
        is_v4_uuid(r@),
{
    random_uuid_text()
}

impl InterfaceFile {
    /// A new interface named `key`: method `GET`, a fresh random id,
    /// everything else empty or unset.
    pub fn new(key: &str) -> (r: InterfaceFile)
        ensures
            r.version == SCHEMA_VERSION,
            is_v4_uuid(r.id@),
            r.name@ == key@,
            r.method@ == "GET"@,
            r.url@.len() == 0,
            r.headers@.len() == 0,
            r.query@.len() == 0,
            r.body@ == body_view(Seq::empty(), Seq::empty(), Seq::empty()),
            is_bare_object_root(r.body.json.root),
            r.auth@ == no_auth(),
            r.variables@.len() == 0,
            r.assertions@.len() == 0,
            r.description@.len() == 0,
            r.timeout_ms.is_none(),
            r.redirect_limit.is_none(),
            r.tls_verify.is_none(),
            r.ca_cert_path.is_none(),
    {
        InterfaceFile {
            version: SCHEMA_VERSION,
            id: new_id(),
            name: owned(key),
            method: owned("GET"),
            url: String::new(),
            headers: Vec::new(),
            query: Vec::new(),
            body: Body::default(),
            auth: Auth::default(),
            variables: Vec::new(),
            assertions: Vec::new(),
            description: String::new(),
            timeout_ms: None,
            redirect_limit: None,
            tls_verify: None,
            ca_cert_path: None,
        }
    }
}

} // verus!
