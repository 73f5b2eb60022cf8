//! The decisions behind the application's commands: the names in a tree
//! directory, the key of an interface copy, the kind of an imported
//! document, the key of a project created by an import, and the session
//! shown before any data is open.

use vstd::prelude::*;

use crate::domain::{owned, EnvironmentFile, InterfaceFile};
use crate::http::{SendErrorInfo, SendResponse};
use crate::repo::{HistoryInput, HistoryRefs};
use crate::text::is_blank;
use crate::domain::{
    is_v4_uuid, new_id, str_eq, validate_name, validate_name_spec, TeamInfo, TreeNode,
    WorkspaceState, SCHEMA_VERSION,
};
use crate::imports::{
    is_first_free, lemma_numbered_injective, numbered_name, numbered_name_exec, repair_name,
    replace_forbidden, strip_name_tail,
};
use crate::text::{
    chars_of, contains_exec, contains_seq, copy_range, extend_str, rfind, rfind_exec, rfind_from, starts_at,
    starts_at_exec, string_of, string_views, trim, trim_start, trim_start_vec,
};

verus! {

/// The first snapshot of a session: the teams and the tab bar state.
#[derive(Debug)]
pub struct AppSession {
    pub teams: Vec<TeamInfo>,
    pub workspace: WorkspaceState,
}

impl AppSession {
    /// The session before any data is open: no teams, a fresh workspace.
    pub fn without_data() -> (r: AppSession)
        ensures
            r.teams@.len() == 0,
            r.workspace.version == SCHEMA_VERSION,
            r.workspace.open_tabs@.len() == 0,
            r.workspace.active_tab.is_none(),
            !r.workspace.proxy.enabled,
    {
        AppSession { teams: Vec::new(), workspace: WorkspaceState::new() }
    }
}

// ----- tree directories -----

/// The key of a tree node.
pub open spec fn node_key(n: TreeNode) -> Seq<char> {
    match n {
        TreeNode::Group { key, .. } => key@,
        TreeNode::Interface { key, .. } => key@,
    }
}

/// The index of the first group named `key` at or after `i`.
pub open spec fn group_index_from(nodes: Seq<TreeNode>, key: Seq<char>, i: int) -> Option<int>
    decreases nodes.len() - i,
{
    if i < 0 || i >= nodes.len() {
        None
    } else if nodes[i] is Group && node_key(nodes[i]) == key {
        Some(i)
    } else {
        group_index_from(nodes, key, i + 1)
    }
}

/// The keys of the nodes directly under the group path `at`: at the top
/// level every node's key; below, the children of the first group whose key
/// matches each step; nothing when a step is not found.
pub open spec fn dir_keys_spec(nodes: Seq<TreeNode>, at: Seq<Seq<char>>) -> Seq<Seq<char>>
    decreases at.len(),
{
    if at.len() == 0 {
        nodes.map_values(|n: TreeNode| node_key(n))
    } else {
        match group_index_from(nodes, at[0], 0) {
            Some(i) => match nodes[i] {
                TreeNode::Group { children, .. } => dir_keys_spec(children@, at.skip(1)),
                _ => Seq::empty(),
            },
            None => Seq::empty(),
        }
    }
}

fn dir_keys_from(nodes: &Vec<TreeNode>, at: &Vec<String>, depth: usize) -> (r: Vec<String>)
    requires
        depth <= at@.len(),
    ensures
        string_views(r@) == dir_keys_spec(nodes@, string_views(at@).skip(depth as int)),
    decreases at@.len() - depth,
{
    let ghost path = string_views(at@).skip(depth as int);
    if depth == at.len() {
        let mut out: Vec<String> = Vec::new();
        let mut i: usize = 0;
        while i < nodes.len()
            invariant
                i <= nodes.len(),
                string_views(out@) == nodes@.take(i as int).map_values(|n: TreeNode| node_key(n)),
            decreases nodes.len() - i,
        {
            let k = match &nodes[i] {
                TreeNode::Group { key, .. } => key.clone(),
                TreeNode::Interface { key, .. } => key.clone(),
            };
            let ghost before = out@;
            out.push(k);
            proof {
                assert(k@ == node_key(nodes@[i as int]));
                assert(string_views(out@) =~= string_views(before).push(k@));
                assert(nodes@.take(i + 1).map_values(|n: TreeNode| node_key(n)) =~= nodes@.take(
                    i as int,
                ).map_values(|n: TreeNode| node_key(n)).push(node_key(nodes@[i as int])));
            }
            i += 1;
        }
        proof {
            assert(nodes@.take(nodes.len() as int) =~= nodes@);
            assert(path.len() == 0);
        }
        return out;
    }
    let want = &at[depth];
    proof {
        assert(path[0] == want@);
    }
    let mut i: usize = 0;
    while i < nodes.len()
        invariant
            i <= nodes.len(),
            depth < at.len(),
            path == string_views(at@).skip(depth as int),
            want@ == path[0],
            group_index_from(nodes@, want@, 0) == group_index_from(nodes@, want@, i as int),
        decreases nodes.len() - i,
    {
        if let TreeNode::Group { key, children, .. } = &nodes[i] {
            if str_eq(key.as_str(), want.as_str()) {
                let r = dir_keys_from(children, at, depth + 1);
                proof {
                    assert(string_views(at@).skip(depth + 1) =~= path.skip(1));
                }
                return r;
            }
        }
        i += 1;
    }
    Vec::new()
}

/// The keys of the nodes directly under the group path `at` (see
/// `dir_keys_spec`).
pub fn dir_keys(nodes: &Vec<TreeNode>, at: &Vec<String>) -> (r: Vec<String>)
    ensures
        string_views(r@) == dir_keys_spec(nodes@, string_views(at@)),
{
    let r = dir_keys_from(nodes, at, 0);
    assert(string_views(at@).skip(0) =~= string_views(at@));
    r
}

// ----- copies -----

/// Whether every character is an ASCII digit.
pub open spec fn all_ascii_digits(s: Seq<char>) -> bool {
    forall|i: int| 0 <= i < s.len() ==> '0' <= #[trigger] s[i] <= '9'
}

/// The name a copy is based on: a key ending in `-copy`, or in `-copy-`
/// followed only by digits (at its last `-copy-`), is itself a copy and
/// its base is the part before; any other key is its own base.
pub open spec fn copy_stem(key: Seq<char>) -> Seq<char> {
    if key.len() >= 5 && starts_at(key, key.len() - 5, "-copy"@) {
        key.take(key.len() - 5)
    } else {
        match rfind(key, "-copy-"@) {
            Some(i) => if all_ascii_digits(key.skip(i + 6)) {
                key.take(i)
            } else {
                key
            },
            None => key,
        }
    }
}

/// The key of a copy of `iface_key` among the directory's `keys`: the base
/// (see `copy_stem`) followed by `-copy`, or `-copy-2`, `-copy-3`, …, the
/// first that is not taken. (The list is shorter than the largest `usize`,
/// as any list in memory is.)
pub fn unique_copy_key(iface_key: &str, keys: &Vec<String>) -> (r: String)
    requires
        keys@.len() < usize::MAX,
    ensures
        is_first_free(string_views(keys@).to_set(), copy_stem(iface_key@) + "-copy"@, r@),
{
    let k = chars_of(iface_key);
    let suffix = chars_of("-copy");
    let infix = chars_of("-copy-");
    proof {
        reveal_strlit("-copy");
        reveal_strlit("-copy-");
    }
    let stem: Vec<char> = if k.len() >= 5 && starts_at_exec(&k, k.len() - 5, &suffix) {
        copy_range(&k, 0, k.len() - 5)
    } else {
        match rfind_exec(&k, &infix) {
            Some(idx) => {
                proof {
                    assert(starts_at(k@, idx as int, infix@)) by {
                        lemma_rfind(k@, infix@, k@.len() - infix@.len());
                    }
                }
                let mut all = true;
                let mut j: usize = idx + 6;
                while j < k.len()
                    invariant
                        idx + 6 <= j <= k.len(),
                        all == forall|m: int| idx + 6 <= m < j ==> '0' <= #[trigger] k@[m] <= '9',
                    decreases k.len() - j,
                {
                    all = all && '0' <= k[j] && k[j] <= '9';
                    j += 1;
                }
                proof {
                    assert(all == all_ascii_digits(k@.skip(idx + 6))) by {
                        if all {
                            assert forall|m: int| 0 <= m < k@.skip(idx + 6).len() implies '0'
                                <= #[trigger] k@.skip(idx + 6)[m] <= '9' by {
                                assert(k@.skip(idx + 6)[m] == k@[idx + 6 + m]);
                            }
                        } else {
                            let m = choose|m: int| idx + 6 <= m < k.len() && !('0' <= #[trigger] k@[m] <= '9');
                            assert(k@.skip(idx + 6)[m - idx - 6] == k@[m]);
                        }
                    }
                }
                if all {
                    copy_range(&k, 0, idx)
                } else {
                    copy_range(&k, 0, k.len())
                }
            },
            None => copy_range(&k, 0, k.len()),
        }
    };
    proof {
        assert(k@.subrange(0, k@.len() as int) =~= k@);
        assert(stem@ == copy_stem(iface_key@));
    }
    let mut base = stem;
    extend_str(&mut base, "-copy");
    let name = string_of(&base);
    let ghost taken = string_views(keys@).to_set();
    proof {
        vstd::seq_lib::seq_to_set_is_finite(string_views(keys@));
        string_views(keys@).lemma_cardinality_of_set();
    }
    let mut n: usize = 1;
    let mut key = numbered_name_exec(&name, 1);
    let ghost mut seen: Set<Seq<char>> = Set::empty();
    while contains_key(keys, &key)
        invariant
            1 <= n <= keys@.len() + 1,
            keys@.len() < usize::MAX,
            key@ == numbered_name(name@, n as nat),
            taken == string_views(keys@).to_set(),
            taken.finite(),
            taken.len() <= keys@.len(),
            seen.finite(),
            seen.len() == n - 1,
            seen.subset_of(taken),
            forall|x: Seq<char>| seen.contains(x) ==> exists|m: nat| 1 <= m < n && x == numbered_name(name@, m),
            forall|m: nat| 1 <= m < n ==> taken.contains(#[trigger] numbered_name(name@, m)),
        decreases keys@.len() + 1 - n,
    {
        proof {
            if seen.contains(key@) {
                let m = choose|m: nat| 1 <= m < n && key@ == numbered_name(name@, m);
                lemma_numbered_injective(name@, m, n as nat);
            }
            let s2 = seen.insert(key@);
            vstd::set_lib::lemma_len_subset(s2, taken);
            assert(n <= keys@.len());
            assert forall|x: Seq<char>| s2.contains(x) implies exists|m: nat| 1 <= m < n + 1 && x == numbered_name(name@, m) by {
                if x == key@ {
                    assert(x == numbered_name(name@, n as nat));
                }
            }
            seen = s2;
        }
        n = n + 1;
        key = numbered_name_exec(&name, n);
    }
    proof {
        assert(is_first_free(taken, name@, key@)) by {
            assert(key@ == numbered_name(name@, n as nat));
        }
    }
    key
}

/// Whether `key` is one of `keys`.
fn contains_key(keys: &Vec<String>, key: &String) -> (r: bool)
    ensures
        r == string_views(keys@).to_set().contains(key@),
{
    let mut i: usize = 0;
    while i < keys.len()
        invariant
            i <= keys.len(),
            forall|j: int| 0 <= j < i ==> keys@[j]@ != key@,
        decreases keys.len() - i,
    {
        if str_eq(keys[i].as_str(), key.as_str()) {
            assert(string_views(keys@)[i as int] == key@);
            return true;
        }
        i += 1;
    }
    assert(!string_views(keys@).contains(key@)) by {
        if string_views(keys@).contains(key@) {
            let j = choose|j: int| 0 <= j < string_views(keys@).len() && string_views(keys@)[j] == key@;
            assert(keys@[j]@ == key@);
        }
    }
    false
}

proof fn lemma_rfind(s: Seq<char>, p: Seq<char>, j: int)
    ensures
        rfind_from(s, p, j) matches Some(i) ==> starts_at(s, i, p),
    decreases j + 1,
{
    if j >= 0 && !starts_at(s, j, p) {
        lemma_rfind(s, p, j - 1);
    }
}

// ----- imported documents -----

/// The kind of an imported document and whether it is read as YAML: text
/// starting with `{` is JSON, a Postman collection when it mentions
/// `"item"` and `"info"` but not both `"openapi"` and `"paths"`, OpenAPI
/// otherwise; anything else is OpenAPI in YAML.
pub open spec fn spec_kind_spec(content: Seq<char>) -> (Seq<char>, bool) {
    let t = trim_start(content);
    if t.len() > 0 && t[0] == '{' {
        if contains_seq(t, "\"openapi\""@) && contains_seq(t, "\"paths\""@) {
            ("openapi"@, false)
        } else if contains_seq(t, "\"item\""@) && contains_seq(t, "\"info\""@) {
            ("postman"@, false)
        } else {
            ("openapi"@, false)
        }
    } else {
        ("openapi"@, true)
    }
}

/// See `spec_kind_spec`.
pub fn detect_spec_kind(content: &str) -> (r: (&'static str, bool))
    ensures
        (r.0@, r.1) == spec_kind_spec(content@),
{
    let t = trim_start_vec(&chars_of(content));
    if t.len() > 0 && t[0] == '{' {
        if contains_exec(&t, &chars_of("\"openapi\"")) && contains_exec(&t, &chars_of("\"paths\"")) {
            ("openapi", false)
        } else if contains_exec(&t, &chars_of("\"item\"")) && contains_exec(&t, &chars_of("\"info\"")) {
            ("postman", false)
        } else {
            ("openapi", false)
        }
    } else {
        ("openapi", true)
    }
}

/// Whether `key` is a project key made up for an import: `imported-`
/// followed by a random id.
pub open spec fn is_made_up_project_key(key: Seq<char>) -> bool {
    key.len() == 9 + 36 && key.take(9) == "imported-"@ && is_v4_uuid(key.skip(9))
}

/// The key of a project created for an imported document named `name`: the
/// name when it is valid; else the repaired name (see `repair_name`), or
/// `imported-<random id>` when nothing is left.
pub fn new_project_key(name: &str) -> (r: String)
    ensures
        match validate_name_spec(name@) {
            Ok(n) => r@ == n,
            Err(_) => {
                let repaired = strip_name_tail(replace_forbidden(trim(name@)));
                if repaired.len() > 0 {
                    r@ == repaired
                } else {
                    is_made_up_project_key(r@)
                }
            },
        },
{
    if let Ok(k) = validate_name(name) {
        return k;
    }
    let out = repair_name(name);
    if out.len() > 0 {
        return string_of(&out);
    }
    let mut v = chars_of("imported-");
    let id = new_id();
    extend_str(&mut v, id.as_str());
    proof {
        reveal_strlit("imported-");
        assert(v@.take(9) =~= "imported-"@);
        assert(v@.skip(9) =~= id@);
    }
    string_of(&v)
}

// ----- request history -----

/// The snapshots of a send, serialised for the history table.
pub struct HistorySnapshots {
    pub doc_json: String,
    pub env_json: String,
    pub global_variables_json: String,
    pub global_params_json: String,
    /// The serialised response or error, whichever the send gave.
    pub outcome_json: Option<String>,
}

/// The history entry of a send: who and what was sent, the URL actually
/// sent (the interface's own when the response has none, or the send
/// failed), the status, duration and outcome; `iface_key` defaults to
/// empty and `iface_name` to the interface's name.
pub fn history_input(
    team_key: &str,
    project_key: &str,
    project_name: &str,
    env: &EnvironmentFile,
    iface: &InterfaceFile,
    iface_key: Option<String>,
    iface_name: Option<String>,
    outcome: &Result<SendResponse, SendErrorInfo>,
    refs: HistoryRefs,
    created_at_ms: i64,
    snapshots: HistorySnapshots,
) -> (r: HistoryInput)
    ensures
        r.team_key@ == team_key@,
        r.project_key@ == project_key@,
        r.project_name@ == project_name@,
        r.env_id@ == env.id@,
        r.env_name@ == env.name@,
        r.iface_key@ == match iface_key {
            Some(k) => k@,
            None => Seq::<char>::empty(),
        },
        r.iface_name@ == match iface_name {
            Some(n) => n@,
            None => iface.name@,
        },
        r.method@ == iface.method@,
        r.created_at_ms == created_at_ms,
        r.team_id == refs.team_id,
        r.project_id == refs.project_id,
        r.group_id == refs.group_id,
        r.iface_id == refs.iface_id,
        r.doc_json == snapshots.doc_json,
        r.env_json == snapshots.env_json,
        r.global_variables_json == snapshots.global_variables_json,
        r.global_params_json == snapshots.global_params_json,
        match outcome {
            Ok(res) => {
                &&& r.url@ == if trim(res.resolved_url@).len() == 0 {
                    iface.url@
                } else {
                    res.resolved_url@
                }
                &&& r.status == Some(res.status)
                &&& r.ok
                &&& r.time_ms == res.time_ms
                &&& r.response_json == snapshots.outcome_json
                &&& r.error_json.is_none()
            },
            Err(_) => {
                &&& r.url@ == iface.url@
                &&& r.status.is_none()
                &&& !r.ok
                &&& r.time_ms == 0
                &&& r.response_json.is_none()
                &&& r.error_json == snapshots.outcome_json
            },
        },
{
    let iface_key = match iface_key {
        Some(k) => k,
        None => String::new(),
    };
    let iface_name = match iface_name {
        Some(n) => n,
        None => iface.name.clone(),
    };
    let (url, status, ok, time_ms, response_json, error_json) = match outcome {
        Ok(res) => {
            let url = if is_blank(res.resolved_url.as_str()) {
                iface.url.clone()
            } else {
                res.resolved_url.clone()
            };
            (url, Some(res.status), true, res.time_ms, snapshots.outcome_json, None)
        },
        Err(_) => (iface.url.clone(), None, false, 0u64, None, snapshots.outcome_json),
    };
    HistoryInput {
        team_key: owned(team_key),
        project_key: owned(project_key),
        project_name: owned(project_name),
        env_id: env.id.clone(),
        env_name: env.name.clone(),
        iface_key,
        iface_name,
        method: iface.method.clone(),
        url,
        status,
        ok,
        time_ms,
        created_at_ms,
        team_id: refs.team_id,
        project_id: refs.project_id,
        group_id: refs.group_id,
        iface_id: refs.iface_id,
        doc_json: snapshots.doc_json,
        env_json: snapshots.env_json,
        global_variables_json: snapshots.global_variables_json,
        global_params_json: snapshots.global_params_json,
        response_json,
        error_json,
    }
}

// ----- copies of quick requests -----

/// A copy of a quick request named `name`: the copy is named `name-copy`,
/// and its document is `doc` under that name with a fresh random id.
pub fn quick_request_copy(name: &str, doc: InterfaceFile) -> (r: (String, InterfaceFile))
    ensures
        r.0@ == name@ + "-copy"@,
        r.1.name@ == r.0@,
        is_v4_uuid(r.1.id@),
        r.1.version == doc.version,
        r.1.method == doc.method,
        r.1.url == doc.url,
        r.1.headers == doc.headers,
        r.1.query == doc.query,
        r.1.body == doc.body,
        r.1.auth == doc.auth,
        r.1.variables == doc.variables,
        r.1.assertions == doc.assertions,
        r.1.description == doc.description,
        r.1.timeout_ms == doc.timeout_ms,
        r.1.redirect_limit == doc.redirect_limit,
        r.1.tls_verify == doc.tls_verify,
        r.1.ca_cert_path == doc.ca_cert_path,
{
    let mut v = chars_of(name);
    extend_str(&mut v, "-copy");
    let copy_name = string_of(&v);
    let doc_name = string_of(&v);
    let id = new_id();
    (copy_name, InterfaceFile { id, name: doc_name, ..doc })
}

} // verus!
