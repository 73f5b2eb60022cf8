//! Request variables: collection with precedence (interface > project
//! globals > environment) and `{{key}}` template substitution.

use vstd::prelude::*;

use crate::domain::{ApiParam, EnvironmentFile, InterfaceFile, KeyValue};
use crate::text::{
    chars_eq, chars_of, extend_chars, is_blank, string_of, trim, trim_chars, trim_range,
};

verus! {

// ----- the variable map -----

/// A map from variable names to values. Later bindings of a name shadow
/// earlier ones.
pub struct Vars {
    entries: Vec<(Vec<char>, String)>,
}

/// The map described by a list of bindings, later ones winning.
pub open spec fn bindings_map(s: Seq<(Vec<char>, String)>) -> Map<Seq<char>, Seq<char>>
    decreases s.len(),
{
    if s.len() == 0 {
        Map::empty()
    } else {
        bindings_map(s.drop_last()).insert(s.last().0@, s.last().1@)
    }
}

proof fn lemma_bindings_absent(s: Seq<(Vec<char>, String)>, k: Seq<char>)
    requires
        forall|j: int| 0 <= j < s.len() ==> (#[trigger] s[j]).0@ != k,
    ensures
        !bindings_map(s).contains_key(k),
    decreases s.len(),
{
    if s.len() > 0 {
        assert forall|j: int| 0 <= j < s.drop_last().len() implies (#[trigger] s.drop_last()[j]).0@
            != k by {
            assert(s.drop_last()[j] == s[j]);
        }
        lemma_bindings_absent(s.drop_last(), k);
    }
}

proof fn lemma_bindings_last(s: Seq<(Vec<char>, String)>, k: Seq<char>, i: int)
    requires
        0 <= i < s.len(),
        s[i].0@ == k,
        forall|j: int| i < j < s.len() ==> (#[trigger] s[j]).0@ != k,
    ensures
        bindings_map(s).contains_key(k),
        bindings_map(s)[k] == s[i].1@,
    decreases s.len(),
{
    if i < s.len() - 1 {
        assert forall|j: int| i < j < s.drop_last().len() implies (#[trigger] s.drop_last()[j]).0@
            != k by {
            assert(s.drop_last()[j] == s[j]);
        }
        lemma_bindings_last(s.drop_last(), k, i);
    }
}

impl View for Vars {
    type V = Map<Seq<char>, Seq<char>>;

    closed spec fn view(&self) -> Map<Seq<char>, Seq<char>> {
        bindings_map(self.entries@)
    }
}

impl Vars {
    /// An empty map.
    pub fn new() -> (r: Vars)
        ensures
            r@ == Map::<Seq<char>, Seq<char>>::empty(),
    {
        Vars { entries: Vec::new() }
    }

    /// The value bound to the characters `key`.
    pub fn get_chars(&self, key: &Vec<char>) -> (r: Option<&String>)
        ensures
            match r {
                Some(v) => self@.contains_key(key@) && self@[key@] == v@,
                None => !self@.contains_key(key@),
            },
    {
        let mut i: usize = self.entries.len();
        while i > 0
            invariant
                i <= self.entries.len(),
                forall|j: int| i <= j < self.entries.len() ==> (#[trigger] self.entries@[j]).0@
                    != key@,
            decreases i,
        {
            if chars_eq(&self.entries[i - 1].0, key) {
                proof {
                    lemma_bindings_last(self.entries@, key@, i - 1);
                }
                return Some(&self.entries[i - 1].1);
            }
            i -= 1;
        }
        proof {
            lemma_bindings_absent(self.entries@, key@);
        }
        None
    }

    /// The value bound to `key`.
    pub fn get(&self, key: &str) -> (r: Option<String>)
        ensures
            match r {
                Some(v) => self@.contains_key(key@) && self@[key@] == v@,
                None => !self@.contains_key(key@),
            },
    {
        let k = chars_of(key);
        match self.get_chars(&k) {
            Some(v) => Some(v.clone()),
            None => None,
        }
    }

    /// Whether `key` is bound.
    pub fn contains_key(&self, key: &str) -> (r: bool)
        ensures
            r == self@.contains_key(key@),
    {
        let k = chars_of(key);
        self.get_chars(&k).is_some()
    }

    /// Binds the characters `key` to `value`, shadowing an earlier binding.
    pub fn insert_chars(&mut self, key: Vec<char>, value: String)
        ensures
            final(self)@ == old(self)@.insert(key@, value@),
    {
        let ghost k = key@;
        self.entries.push((key, value));
        assert(self.entries@.drop_last() =~= old(self).entries@);
    }

    /// Binds `key` to `value`, shadowing an earlier binding.
    pub fn insert(&mut self, key: String, value: String)
        ensures
            final(self)@ == old(self)@.insert(key@, value@),
    {
        let k = chars_of(key.as_str());
        self.insert_chars(k, value);
    }
}

// ----- `{{key}}` templates -----

/// The first `j >= from` with `s[j..j + 2] == "}}"`.
pub open spec fn find_close(s: Seq<char>, from: int) -> Option<int>
    decreases s.len() - from,
{
    if from < 0 || from + 1 >= s.len() {
        None
    } else if s[from] == '}' && s[from + 1] == '}' {
        Some(from)
    } else {
        find_close(s, from + 1)
    }
}

pub proof fn lemma_find_close(s: Seq<char>, from: int)
    ensures
        find_close(s, from) matches Some(j) ==> from <= j && j + 1 < s.len() && s[j] == '}'
            && s[j + 1] == '}',
    decreases s.len() - from,
{
    if from >= 0 && from + 1 < s.len() && !(s[from] == '}' && s[from + 1] == '}') {
        lemma_find_close(s, from + 1);
    }
}

/// A placeholder `{{ key }}` opening at `i`: the index of its closing `}}`
/// and the trimmed key.
pub open spec fn placeholder_at(s: Seq<char>, i: int) -> Option<(int, Seq<char>)> {
    if 0 <= i && i + 1 < s.len() && s[i] == '{' && s[i + 1] == '{' {
        match find_close(s, i + 2) {
            Some(j) => Some((j, trim(s.subrange(i + 2, j)))),
            None => None,
        }
    } else {
        None
    }
}

pub proof fn lemma_placeholder_at(s: Seq<char>, i: int)
    ensures
        placeholder_at(s, i) matches Some((j, _)) ==> i + 2 <= j && j + 2 <= s.len(),
{
    lemma_find_close(s, i + 2);
}

/// One substitution pass from position `i`: every placeholder whose key is
/// bound is replaced by its value; everything else is copied.
pub open spec fn render_from(s: Seq<char>, vars: Map<Seq<char>, Seq<char>>, i: int) -> Seq<char>
    decreases s.len() - i,
{
    if i < 0 || i >= s.len() {
        Seq::empty()
    } else {
        match placeholder_at(s, i) {
            Some((j, key)) => if vars.contains_key(key) {
                proof {
                    lemma_placeholder_at(s, i);
                }
                vars[key] + render_from(s, vars, j + 2)
            } else {
                seq![s[i]] + render_from(s, vars, i + 1)
            },
            None => seq![s[i]] + render_from(s, vars, i + 1),
        }
    }
}

/// Whether the pass from position `i` replaces at least one placeholder.
pub open spec fn replaces_from(s: Seq<char>, vars: Map<Seq<char>, Seq<char>>, i: int) -> bool
    decreases s.len() - i,
{
    if i < 0 || i >= s.len() {
        false
    } else {
        match placeholder_at(s, i) {
            Some((j, key)) => if vars.contains_key(key) {
                true
            } else {
                replaces_from(s, vars, i + 1)
            },
            None => replaces_from(s, vars, i + 1),
        }
    }
}

/// Exec form of `find_close`.
fn find_close_exec(s: &Vec<char>, from: usize) -> (r: Option<usize>)
    ensures
        match r {
            Some(j) => find_close(s@, from as int) == Some(j as int),
            None => find_close(s@, from as int).is_none(),
        },
{
    let mut k = from;
    while s.len() > 0 && k < s.len() - 1
        invariant
            from <= k,
            find_close(s@, from as int) == find_close(s@, k as int),
        decreases s.len() - k,
    {
        if s[k] == '}' && s[k + 1] == '}' {
            return Some(k);
        }
        k += 1;
    }
    None
}

/// A single substitution pass (see `render_from`); sets `changed` when a
/// placeholder was replaced.
fn replace_once(s: &Vec<char>, vars: &Vars, changed: &mut bool) -> (r: Vec<char>)
    ensures
        r@ == render_from(s@, vars@, 0),
        *final(changed) == (*old(changed) || replaces_from(s@, vars@, 0)),
{
    let mut out: Vec<char> = Vec::new();
    let mut i: usize = 0;
    while i < s.len()
        invariant
            i <= s.len(),
            render_from(s@, vars@, 0) == out@ + render_from(s@, vars@, i as int),
            (*old(changed) || replaces_from(s@, vars@, 0)) == (*changed || replaces_from(
                s@,
                vars@,
                i as int,
            )),
        decreases s.len() - i,
    {
        proof {
            lemma_placeholder_at(s@, i as int);
        }
        if i + 1 < s.len() && s[i] == '{' && s[i + 1] == '{' {
            if let Some(j) = find_close_exec(s, i + 2) {
                proof {
                    lemma_find_close(s@, i + 2);
                }
                let key = trim_range(s, i + 2, j);
                if let Some(v) = vars.get_chars(&key) {
                    let vc = chars_of(v.as_str());
                    let ghost before = out@;
                    extend_chars(&mut out, &vc);
                    *changed = true;
                    i = j + 2;
                    assert(out@ == before + vc@);
                    continue;
                }
            }
        }
        out.push(s[i]);
        i += 1;
    }
    assert(out@ + Seq::<char>::empty() =~= out@);
    out
}

/// Up to `n` substitution passes, stopping after a pass that replaced
/// nothing.
pub open spec fn substitute_rounds(s: Seq<char>, vars: Map<Seq<char>, Seq<char>>, n: nat) -> Seq<
    char,
>
    decreases n,
{
    if n == 0 {
        s
    } else if !replaces_from(s, vars, 0) {
        render_from(s, vars, 0)
    } else {
        substitute_rounds(render_from(s, vars, 0), vars, (n - 1) as nat)
    }
}

/// The result of `substitute`: at most ten passes, so that values may
/// themselves hold placeholders.
pub open spec fn substitute_spec(template: Seq<char>, vars: Map<Seq<char>, Seq<char>>) -> Seq<
    char,
> {
    substitute_rounds(template, vars, 10)
}

/// Replaces `{{key}}` placeholders by their values; nested placeholders are
/// resolved for up to ten rounds; unknown placeholders are kept as written.
pub fn substitute(template: &str, vars: &Vars) -> (r: String)
    ensures
        r@ == substitute_spec(template@, vars@),
{
    let mut s = chars_of(template);
    let mut round: usize = 0;
    loop
        invariant_except_break
            round <= 10,
            substitute_spec(template@, vars@) == substitute_rounds(
                s@,
                vars@,
                (10 - round) as nat,
            ),
        ensures
            substitute_spec(template@, vars@) == s@,
        decreases 10 - round,
    {
        if round == 10 {
            break;
        }
        let mut changed = false;
        let r = replace_once(&s, vars, &mut changed);
        s = r;
        if !changed {
            break;
        }
        round += 1;
    }
    string_of(&s)
}

/// The trimmed keys of all placeholders from position `i`, in order,
/// repetitions included.
pub open spec fn placeholders_from(s: Seq<char>, i: int) -> Seq<Seq<char>>
    decreases s.len() - i,
{
    if i < 0 || i >= s.len() {
        Seq::empty()
    } else {
        match placeholder_at(s, i) {
            Some((j, key)) => {
                proof {
                    lemma_placeholder_at(s, i);
                }
                seq![key] + placeholders_from(s, j + 2)
            },
            None => placeholders_from(s, i + 1),
        }
    }
}

/// The placeholder keys of a template, each once, in order of first
/// occurrence.
pub open spec fn unresolved_spec(template: Seq<char>) -> Seq<Seq<char>> {
    placeholders_from(template, 0).remove_duplicates(Seq::empty())
}

/// Whether `keys` holds `k`.
fn contains_key_chars(keys: &Vec<Vec<char>>, k: &Vec<char>) -> (r: bool)
    ensures
        r == keys@.map_values(|v: Vec<char>| v@).contains(k@),
{
    let ghost views = keys@.map_values(|v: Vec<char>| v@);
    let mut i: usize = 0;
    while i < keys.len()
        invariant
            i <= keys.len(),
            views == keys@.map_values(|v: Vec<char>| v@),
            forall|m: int| 0 <= m < i ==> views[m] != k@,
        decreases keys.len() - i,
    {
        if chars_eq(&keys[i], k) {
            assert(views[i as int] == k@);
            return true;
        }
        i += 1;
    }
    false
}

/// The names of all placeholders in the template, without repetitions, in
/// order of first occurrence.
pub fn unresolved(template: &str) -> (r: Vec<String>)
    ensures
        r@.map_values(|v: String| v@) == unresolved_spec(template@),
{
    let s = chars_of(template);
    let mut keys: Vec<Vec<char>> = Vec::new();
    let mut i: usize = 0;
    while i < s.len()
        invariant
            i <= s.len(),
            s@ == template@,
            unresolved_spec(template@) == placeholders_from(s@, i as int).remove_duplicates(
                keys@.map_values(|v: Vec<char>| v@),
            ),
        decreases s.len() - i,
    {
        proof {
            lemma_placeholder_at(s@, i as int);
        }
        if i + 1 < s.len() && s[i] == '{' && s[i + 1] == '{' {
            if let Some(j) = find_close_exec(&s, i + 2) {
                proof {
                    lemma_find_close(s@, i + 2);
                }
                let key = trim_range(&s, i + 2, j);
                let ghost seen = keys@.map_values(|v: Vec<char>| v@);
                let ghost rest = placeholders_from(s@, j + 2);
                proof {
                    let all = seq![key@] + rest;
                    assert(placeholders_from(s@, i as int) == all);
                    assert(all[0] == key@);
                    assert(all.skip(1) =~= rest);
                }
                if !contains_key_chars(&keys, &key) {
                    keys.push(key);
                    assert(keys@.map_values(|v: Vec<char>| v@) =~= seen + seq![key@]);
                }
                i = j + 2;
                continue;
            }
        }
        i += 1;
    }
    let mut out: Vec<String> = Vec::new();
    let mut m: usize = 0;
    while m < keys.len()
        invariant
            m <= keys.len(),
            out@.len() == m,
            out@.map_values(|v: String| v@) == keys@.map_values(|v: Vec<char>| v@).take(m as int),
        decreases keys.len() - m,
    {
        let ghost before = out@;
        out.push(string_of(&keys[m]));
        proof {
            let a = out@.map_values(|v: String| v@);
            let b = keys@.map_values(|v: Vec<char>| v@).take(m + 1);
            assert forall|x: int| 0 <= x < a.len() implies a[x] == b[x] by {
                if x < m {
                    assert(out@[x] == before[x]);
                    assert(before.map_values(|v: String| v@)[x] == keys@.map_values(
                        |v: Vec<char>| v@,
                    ).take(m as int)[x]);
                }
            }
            assert(a =~= b);
        }
        m += 1;
    }
    assert(keys@.map_values(|v: Vec<char>| v@).take(keys.len() as int) =~= keys@.map_values(
        |v: Vec<char>| v@,
    ));
    out
}

// ----- pairs and collection -----

/// The enabled pairs of a list, with placeholders substituted in both the
/// key and the value; entries that are disabled or have a blank key are
/// left out.
pub open spec fn enabled_pairs_spec(list: Seq<KeyValue>, vars: Map<Seq<char>, Seq<char>>) -> Seq<
    (Seq<char>, Seq<char>),
>
    decreases list.len(),
{
    if list.len() == 0 {
        Seq::empty()
    } else {
        let rest = enabled_pairs_spec(list.drop_last(), vars);
        let kv = list.last();
        if kv.enabled && trim(kv.key@).len() > 0 {
            rest.push((substitute_spec(kv.key@, vars), substitute_spec(kv.value@, vars)))
        } else {
            rest
        }
    }
}

/// The views of a list of string pairs.
pub open spec fn pair_views(v: Seq<(String, String)>) -> Seq<(Seq<char>, Seq<char>)> {
    v.map_values(|p: (String, String)| (p.0@, p.1@))
}

/// The enabled entries of `list` as (key, value) pairs after substitution.
pub fn enabled_pairs(list: &[KeyValue], vars: &Vars) -> (r: Vec<(String, String)>)
    ensures
        pair_views(r@) == enabled_pairs_spec(list@, vars@),
{
    let mut out: Vec<(String, String)> = Vec::new();
    let mut i: usize = 0;
    while i < list.len()
        invariant
            i <= list.len(),
            pair_views(out@) == enabled_pairs_spec(list@.take(i as int), vars@),
        decreases list.len() - i,
    {
        let kv = &list[i];
        proof {
            assert(list@.take(i + 1).drop_last() =~= list@.take(i as int));
            assert(list@.take(i + 1).last() == list@[i as int]);
        }
        if kv.enabled && !is_blank(kv.key.as_str()) {
            let k = substitute(kv.key.as_str(), vars);
            let v = substitute(kv.value.as_str(), vars);
            let ghost before = out@;
            out.push((k, v));
            assert(pair_views(out@) =~= pair_views(before).push((k@, v@)));
        }
        i += 1;
    }
    assert(list@.take(list.len() as int) =~= list@);
    out
}

/// The active parameters of a list (enabled, with a non-blank key) as
/// (key, example) pairs, placeholders substituted in both.
pub open spec fn param_pairs_spec(list: Seq<ApiParam>, vars: Map<Seq<char>, Seq<char>>) -> Seq<
    (Seq<char>, Seq<char>),
>
    decreases list.len(),
{
    if list.len() == 0 {
        Seq::empty()
    } else {
        let rest = param_pairs_spec(list.drop_last(), vars);
        let p = list.last();
        if p.enabled && trim(p.key@).len() > 0 {
            rest.push((substitute_spec(p.key@, vars), substitute_spec(p.example@, vars)))
        } else {
            rest
        }
    }
}

/// The active parameters of `list` as (key, example) pairs after
/// substitution: what a request sends for them.
pub fn param_pairs(list: &[ApiParam], vars: &Vars) -> (r: Vec<(String, String)>)
    ensures
        pair_views(r@) == param_pairs_spec(list@, vars@),
{
    let mut out: Vec<(String, String)> = Vec::new();
    let mut i: usize = 0;
    while i < list.len()
        invariant
            i <= list.len(),
            pair_views(out@) == param_pairs_spec(list@.take(i as int), vars@),
        decreases list.len() - i,
    {
        let p = &list[i];
        proof {
            assert(list@.take(i + 1).drop_last() =~= list@.take(i as int));
            assert(list@.take(i + 1).last() == list@[i as int]);
        }
        if p.is_active() {
            let k = substitute(p.key.as_str(), vars);
            let v = substitute(p.example.as_str(), vars);
            let ghost before = out@;
            out.push((k, v));
            assert(pair_views(out@) =~= pair_views(before).push((k@, v@)));
        }
        i += 1;
    }
    assert(list@.take(list.len() as int) =~= list@);
    out
}

/// Binds every enabled entry with a non-blank key, under its trimmed key,
/// in list order (later entries win).
pub open spec fn bind_enabled(m: Map<Seq<char>, Seq<char>>, kvs: Seq<KeyValue>) -> Map<
    Seq<char>,
    Seq<char>,
>
    decreases kvs.len(),
{
    if kvs.len() == 0 {
        m
    } else {
        let m2 = bind_enabled(m, kvs.drop_last());
        let kv = kvs.last();
        if kv.enabled && trim(kv.key@).len() > 0 {
            m2.insert(trim(kv.key@), kv.value@)
        } else {
            m2
        }
    }
}

/// The bindings a list contributes on its own.
pub open spec fn layer(kvs: Seq<KeyValue>) -> Map<Seq<char>, Seq<char>> {
    bind_enabled(Map::empty(), kvs)
}

/// `host` bound to the trimmed environment host, unless that is blank.
pub open spec fn with_host(m: Map<Seq<char>, Seq<char>>, host: Seq<char>) -> Map<
    Seq<char>,
    Seq<char>,
> {
    if trim(host).len() > 0 {
        m.insert("host"@, trim(host))
    } else {
        m
    }
}

/// The variables of a request: environment variables, then the environment
/// host as `host`, then project globals, then interface variables, each
/// layer overriding the ones before it.
pub open spec fn collect_vars_spec(
    iface_vars: Seq<KeyValue>,
    env_vars: Seq<KeyValue>,
    env_host: Seq<char>,
    globals: Seq<KeyValue>,
) -> Map<Seq<char>, Seq<char>> {
    bind_enabled(bind_enabled(with_host(layer(env_vars), env_host), globals), iface_vars)
}

fn bind_all(vars: &mut Vars, kvs: &[KeyValue])
    ensures
        final(vars)@ == bind_enabled(old(vars)@, kvs@),
{
    let mut i: usize = 0;
    while i < kvs.len()
        invariant
            i <= kvs.len(),
            vars@ == bind_enabled(old(vars)@, kvs@.take(i as int)),
        decreases kvs.len() - i,
    {
        proof {
            assert(kvs@.take(i + 1).drop_last() =~= kvs@.take(i as int));
            assert(kvs@.take(i + 1).last() == kvs@[i as int]);
        }
        let kv = &kvs[i];
        if kv.enabled && !is_blank(kv.key.as_str()) {
            let k = trim_chars(kv.key.as_str());
            vars.insert_chars(k, kv.value.clone());
        }
        i += 1;
    }
    assert(kvs@.take(kvs.len() as int) =~= kvs@);
}

/// Collects the variables of a request with precedence interface > project
/// globals > environment (the environment host is bound as `host` and can be
/// overridden).
pub fn collect_vars(iface: &InterfaceFile, env: &EnvironmentFile, globals: &[KeyValue]) -> (r:
    Vars)
    ensures
        r@ == collect_vars_spec(iface.variables@, env.variables@, env.host@, globals@),
{
    let mut vars = Vars::new();
    bind_all(&mut vars, env.variables.as_slice());
    if !is_blank(env.host.as_str()) {
        let k = chars_of("host");
        let h = trim_chars(env.host.as_str());
        vars.insert_chars(k, string_of(&h));
    }
    bind_all(&mut vars, globals);
    bind_all(&mut vars, iface.variables.as_slice());
    vars
}

// ----- laws -----

proof fn lemma_bind_enabled_union(m: Map<Seq<char>, Seq<char>>, kvs: Seq<KeyValue>)
    ensures
        bind_enabled(m, kvs) == m.union_prefer_right(layer(kvs)),
    decreases kvs.len(),
{
    if kvs.len() == 0 {
        assert(m.union_prefer_right(Map::empty()) =~= m);
    } else {
        lemma_bind_enabled_union(m, kvs.drop_last());
        lemma_bind_enabled_union(Map::empty(), kvs.drop_last());
        assert(Map::<Seq<char>, Seq<char>>::empty().union_prefer_right(layer(kvs.drop_last()))
            =~= layer(kvs.drop_last()));
        let kv = kvs.last();
        if kv.enabled && trim(kv.key@).len() > 0 {
            assert(bind_enabled(m, kvs) =~= m.union_prefer_right(layer(kvs)));
        }
    }
}

/// Variable precedence: a name bound by the interface takes the interface's
/// value; otherwise one bound by the project globals takes the globals'
/// value; otherwise `host` takes the trimmed environment host when that is
/// not blank; otherwise the environment decides.
pub proof fn law_variable_precedence(
    iface_vars: Seq<KeyValue>,
    env_vars: Seq<KeyValue>,
    env_host: Seq<char>,
    globals: Seq<KeyValue>,
    k: Seq<char>,
)
    ensures
        ({
            let r = collect_vars_spec(iface_vars, env_vars, env_host, globals);
            if layer(iface_vars).contains_key(k) {
                r.contains_key(k) && r[k] == layer(iface_vars)[k]
            } else if layer(globals).contains_key(k) {
                r.contains_key(k) && r[k] == layer(globals)[k]
            } else if k == "host"@ && trim(env_host).len() > 0 {
                r.contains_key(k) && r[k] == trim(env_host)
            } else {
                r.contains_key(k) == layer(env_vars).contains_key(k) && (r.contains_key(k) ==> r[k]
                    == layer(env_vars)[k])
            }
        }),
{
    let base = with_host(layer(env_vars), env_host);
    lemma_bind_enabled_union(base, globals);
    lemma_bind_enabled_union(bind_enabled(base, globals), iface_vars);
}

/// A template without placeholders bound in `vars` comes back unchanged:
/// one pass that replaces nothing copies the text as it is.
pub proof fn law_render_without_replacement_is_identity(
    s: Seq<char>,
    vars: Map<Seq<char>, Seq<char>>,
    i: int,
)
    requires
        0 <= i <= s.len(),
        !replaces_from(s, vars, i),
    ensures
        render_from(s, vars, i) == s.subrange(i, s.len() as int),
    decreases s.len() - i,
{
    if i < s.len() {
        law_render_without_replacement_is_identity(s, vars, i + 1);
        assert(seq![s[i]] + s.subrange(i + 1, s.len() as int) =~= s.subrange(i, s.len() as int));
    } else {
        assert(s.subrange(i, s.len() as int) =~= Seq::<char>::empty());
    }
}

/// Substitution leaves a template in which no placeholder is bound exactly
/// as written (in particular any template under an empty variable map).
pub proof fn law_substitute_keeps_unbound(template: Seq<char>, vars: Map<Seq<char>, Seq<char>>)
    requires
        !replaces_from(template, vars, 0),
    ensures
        substitute_spec(template, vars) == template,
{
    law_render_without_replacement_is_identity(template, vars, 0);
    assert(template.subrange(0, template.len() as int) =~= template);
}

proof fn lemma_nothing_replaced_without_vars(s: Seq<char>, i: int)
    ensures
        !replaces_from(s, Map::empty(), i),
    decreases s.len() - i,
{
    if 0 <= i < s.len() {
        lemma_nothing_replaced_without_vars(s, i + 1);
    }
}

/// With no variables at all, substitution is the identity.
pub proof fn law_substitute_without_vars(template: Seq<char>)
    ensures
        substitute_spec(template, Map::empty()) == template,
{
    lemma_nothing_replaced_without_vars(template, 0);
    law_substitute_keeps_unbound(template, Map::empty());
}

/// `unresolved` lists each placeholder name once.
pub proof fn law_unresolved_has_no_duplicates(template: Seq<char>)
    ensures
        unresolved_spec(template).no_duplicates(),
{
    lemma_remove_duplicates_unique(placeholders_from(template, 0), Seq::empty());
}

proof fn lemma_remove_duplicates_unique(s: Seq<Seq<char>>, seen: Seq<Seq<char>>)
    requires
        seen.no_duplicates(),
    ensures
        s.remove_duplicates(seen).no_duplicates(),
    decreases s.len(),
{
    if s.len() > 0 {
        if seen.contains(s[0]) {
            lemma_remove_duplicates_unique(s.skip(1), seen);
        } else {
            let seen2 = seen + seq![s[0]];
            assert forall|a: int, b: int| 0 <= a < seen2.len() && 0 <= b < seen2.len() && a != b implies seen2[a]
                != seen2[b] by {
                if a < seen.len() && b < seen.len() {
                } else if a == seen.len() as int {
                    assert(seen2[a] == s[0]);
                    assert(seen2[b] == seen[b]);
                } else {
                    assert(seen2[b] == s[0]);
                    assert(seen2[a] == seen[a]);
                }
            }
            lemma_remove_duplicates_unique(s.skip(1), seen2);
        }
    }
}

} // verus!
