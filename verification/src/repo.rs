//! The plain records and rules of the storage layer: import items, history
//! inputs, the built-in environments and the ordering key of tree nodes.

use vstd::prelude::*;

use crate::domain::{owned, str_eq, EnvironmentFile, EnvironmentSummary, HistorySummary, InterfaceFile, SCHEMA_VERSION};
use crate::text::{chars_of, extend_str, string_of, string_views};

verus! {

/// An interface to store by an import: its group path, key and document.
pub struct ImportItem {
    pub group_path: Vec<String>,
    pub key: String,
    pub doc: InterfaceFile,
}

/// Every field of a new history record; the JSON columns come serialised.
pub struct HistoryInput {
    pub team_key: String,
    pub project_key: String,
    pub project_name: String,
    pub env_id: String,
    pub env_name: String,
    pub iface_key: String,
    pub iface_name: String,
    pub method: String,
    pub url: String,
    pub status: Option<u16>,
    pub ok: bool,
    pub time_ms: u64,
    pub created_at_ms: i64,
    pub team_id: Option<i32>,
    pub project_id: Option<i32>,
    pub group_id: Option<i32>,
    pub iface_id: Option<i32>,
    pub doc_json: String,
    pub env_json: String,
    pub global_variables_json: String,
    pub global_params_json: String,
    pub response_json: Option<String>,
    pub error_json: Option<String>,
}

/// The row ids a history record refers to, as far as they were found.
pub struct HistoryRefs {
    pub team_id: Option<i32>,
    pub project_id: Option<i32>,
    pub group_id: Option<i32>,
    pub iface_id: Option<i32>,
}

impl Default for HistoryRefs {
    /// Nothing found.
    fn default() -> (r: HistoryRefs)
        ensures
            r.team_id.is_none(),
            r.project_id.is_none(),
            r.group_id.is_none(),
            r.iface_id.is_none(),
    {
        HistoryRefs { team_id: None, project_id: None, group_id: None, iface_id: None }
    }
}

/// A built-in environment with no host and no variables.
fn builtin_environment(id: &str, file: &str, name: &str) -> (r: EnvironmentFile)
    ensures
        r.version == SCHEMA_VERSION,
        r.id@ == id@,
        r.file@ == file@,
        r.name@ == name@,
        r.host@.len() == 0,
        r.builtin,
        r.variables@.len() == 0,
{
    EnvironmentFile {
        version: SCHEMA_VERSION,
        id: owned(id),
        file: owned(file),
        name: owned(name),
        host: String::new(),
        builtin: true,
        variables: Vec::new(),
    }
}

/// A stored environment: its id, file key, name, host and whether it is
/// built in.
pub struct EnvironmentRow {
    pub env_id: String,
    pub file_key: String,
    pub name: String,
    pub host: String,
    pub builtin: bool,
}

/// The list entries of a project's environments, in the order given: each
/// row's fields, and `active` exactly for the row whose id is the project's
/// active environment id.
pub fn environment_summaries(rows: Vec<EnvironmentRow>, active: &Option<String>) -> (r: Vec<EnvironmentSummary>)
    ensures
        r@.len() == rows@.len(),
        forall|i: int|
            0 <= i < r@.len() ==> {
                let s = #[trigger] r@[i];
                let row = rows@[i];
                &&& s.id == row.env_id
                &&& s.file == row.file_key
                &&& s.name == row.name
                &&& s.host == row.host
                &&& s.builtin == row.builtin
                &&& s.active == (active matches Some(a) && a@ == row.env_id@)
            },
{
    let ghost orig = rows@;
    let total = rows.len();
    assert(orig.len() == total);
    let mut out: Vec<EnvironmentSummary> = Vec::new();
    let mut rest = rows;
    let mut i: usize = 0;
    while rest.len() > 0
        invariant
            orig.len() <= usize::MAX,
            i + rest@.len() == orig.len(),
            rest@ == orig.skip(i as int),
            out@.len() == i,
            forall|k: int|
                0 <= k < i ==> {
                    let s = #[trigger] out@[k];
                    let row = orig[k];
                    &&& s.id == row.env_id
                    &&& s.file == row.file_key
                    &&& s.name == row.name
                    &&& s.host == row.host
                    &&& s.builtin == row.builtin
                    &&& s.active == (active matches Some(a) && a@ == row.env_id@)
                },
        decreases rest@.len(),
    {
        let row = rest.remove(0);
        proof {
            assert(row == orig[i as int]);
            assert(rest@ =~= orig.skip(i + 1));
        }
        let is_active = match active {
            Some(a) => str_eq(a.as_str(), row.env_id.as_str()),
            None => false,
        };
        out.push(EnvironmentSummary {
            id: row.env_id,
            file: row.file_key,
            name: row.name,
            host: row.host,
            builtin: row.builtin,
            active: is_active,
        });
        i += 1;
    }
    out
}

/// Whether an environment may be deleted: built-in ones may not.
pub fn check_environment_delete(builtin: bool) -> (r: Result<(), String>)
    ensures
        r is Err <==> builtin,
        r matches Err(e) ==> e@ == "内置环境不可删除"@,
{
    if builtin {
        Err(owned("内置环境不可删除"))
    } else {
        Ok(())
    }
}

/// The three environments every new project starts with, keyed by file:
/// `prod` (正式环境), `test` (测试环境) and `dev` (开发环境), built in, with no
/// host and no variables.
pub fn default_environments() -> (r: Vec<(String, EnvironmentFile)>)
    ensures
        r@.len() == 3,
        r@[0].0@ == "prod"@,
        r@[0].1.id@ == "env-prod"@,
        r@[0].1.file@ == "prod"@,
        r@[0].1.name@ == "正式环境"@,
        r@[1].0@ == "test"@,
        r@[1].1.id@ == "env-test"@,
        r@[1].1.file@ == "test"@,
        r@[1].1.name@ == "测试环境"@,
        r@[2].0@ == "dev"@,
        r@[2].1.id@ == "env-dev"@,
        r@[2].1.file@ == "dev"@,
        r@[2].1.name@ == "开发环境"@,
        forall|i: int|
            0 <= i < 3 ==> {
                &&& (#[trigger] r@[i]).1.version == SCHEMA_VERSION
                &&& r@[i].1.host@.len() == 0
                &&& r@[i].1.builtin
                &&& r@[i].1.variables@.len() == 0
            },
{
    let mut v: Vec<(String, EnvironmentFile)> = Vec::new();
    v.push((owned("prod"), builtin_environment("env-prod", "prod", "正式环境")));
    v.push((owned("test"), builtin_environment("env-test", "test", "测试环境")));
    v.push((owned("dev"), builtin_environment("env-dev", "dev", "开发环境")));
    v
}

/// The ordering key of a tree node: a group's key itself, an interface's key
/// followed by `.json`.
pub open spec fn sort_key_spec(key: Seq<char>, is_group: bool) -> Seq<char> {
    if is_group {
        key
    } else {
        key + ".json"@
    }
}

/// See `sort_key_spec`.
pub fn sort_key(key: &str, is_group: bool) -> (r: String)
    ensures
        r@ == sort_key_spec(key@, is_group),
{
    if is_group {
        owned(key)
    } else {
        let mut v = chars_of(key);
        extend_str(&mut v, ".json");
        string_of(&v)
    }
}

// ----- sibling order -----

/// The siblings other than `src`, as (id, key), in order.
pub open spec fn others_by_key(s: Seq<(i64, String)>, src: i64) -> Seq<(i64, Seq<char>)>
    decreases s.len(),
{
    if s.len() == 0 {
        Seq::empty()
    } else {
        let r = others_by_key(s.drop_last(), src);
        if s.last().0 != src {
            r.push((s.last().0, s.last().1@))
        } else {
            r
        }
    }
}

/// The index of the first sibling whose key is `before` (the length when
/// there is none).
pub open spec fn key_anchor(o: Seq<(i64, Seq<char>)>, before: Option<Seq<char>>) -> int
    decreases o.len(),
{
    if o.len() == 0 {
        0
    } else if before == Some(o[0].1) {
        0
    } else {
        1 + key_anchor(o.drop_first(), before)
    }
}

/// The ids of siblings.
pub open spec fn key_ids(o: Seq<(i64, Seq<char>)>) -> Seq<i64> {
    o.map_values(|e: (i64, Seq<char>)| e.0)
}

/// `ids` with `src` inserted at index `a`.
pub open spec fn insert_at(ids: Seq<i64>, a: int, src: i64) -> Seq<i64> {
    ids.take(a) + seq![src] + ids.skip(a)
}

/// The new order of a level after moving `src` into it: the other siblings
/// in their order, with `src` just before the first one keyed `before`, or
/// last.
pub open spec fn place_by_key_spec(s: Seq<(i64, String)>, src: i64, before: Option<Seq<char>>) -> Seq<i64> {
    let o = others_by_key(s, src);
    insert_at(key_ids(o), key_anchor(o, before), src)
}

proof fn lemma_key_anchor_push(o: Seq<(i64, Seq<char>)>, x: (i64, Seq<char>), before: Option<Seq<char>>)
    ensures
        0 <= key_anchor(o, before) <= o.len(),
        key_anchor(o.push(x), before) == if key_anchor(o, before) < o.len() {
            key_anchor(o, before)
        } else if before == Some(x.1) {
            o.len() as int
        } else {
            o.len() + 1int
        },
    decreases o.len(),
{
    let p = o.push(x);
    if o.len() > 0 {
        let d = o.drop_first();
        assert(p.drop_first() =~= d.push(x));
        assert(p[0] == o[0]);
        lemma_key_anchor_push(d, x, before);
        if before != Some(o[0].1) {
            assert(key_anchor(o, before) == 1 + key_anchor(d, before));
            assert(key_anchor(p, before) == 1 + key_anchor(d.push(x), before));
        }
    } else {
        assert(p[0] == x);
        assert(p.drop_first() =~= Seq::<(i64, Seq<char>)>::empty());
        assert(key_anchor(p.drop_first(), before) == 0);
    }
}

/// The ids of the other siblings as (id, key) (see `place_by_key_spec`):
/// the new order of a level of groups or interfaces after a move.
pub fn place_by_key(siblings: &Vec<(i64, String)>, src: i64, before: Option<&str>) -> (r: Vec<i64>)
    ensures
        r@ == place_by_key_spec(siblings@, src, match before {
            Some(b) => Some(b@),
            None => None,
        }),
{
    let ghost b = match before {
        Some(b) => Some(b@),
        None => None::<Seq<char>>,
    };
    let mut out: Vec<i64> = Vec::new();
    let mut placed = false;
    let mut i: usize = 0;
    proof {
        assert(siblings@.take(0) =~= Seq::<(i64, String)>::empty());
        assert(key_ids(Seq::empty()) =~= Seq::<i64>::empty());
    }
    while i < siblings.len()
        invariant
            i <= siblings.len(),
            b == match before {
                Some(x) => Some(x@),
                None => None::<Seq<char>>,
            },
            ({
                let o = others_by_key(siblings@.take(i as int), src);
                &&& 0 <= key_anchor(o, b) <= o.len()
                &&& placed == (key_anchor(o, b) < o.len())
                &&& placed ==> out@ == insert_at(key_ids(o), key_anchor(o, b), src)
                &&& !placed ==> out@ == key_ids(o)
            }),
        decreases siblings.len() - i,
    {
        let ghost o = others_by_key(siblings@.take(i as int), src);
        proof {
            assert(siblings@.take(i + 1).drop_last() =~= siblings@.take(i as int));
            assert(siblings@.take(i + 1).last() == siblings@[i as int]);
        }
        let id = siblings[i].0;
        if id != src {
            let ghost x = (id, siblings@[i as int].1@);
            proof {
                lemma_key_anchor_push(o, x, b);
                assert(others_by_key(siblings@.take(i + 1), src) == o.push(x));
                assert(key_ids(o.push(x)) =~= key_ids(o).push(id));
            }
            let hit = match before {
                Some(k) => str_eq(siblings[i].1.as_str(), k),
                None => false,
            };
            if !placed && hit {
                out.push(src);
                placed = true;
            }
            let ghost prev = out@;
            out.push(id);
            proof {
                let o2 = o.push(x);
                let a = key_anchor(o2, b);
                if placed {
                    assert(out@ =~= insert_at(key_ids(o2), a, src));
                }
            }
        }
        i += 1;
    }
    proof {
        assert(siblings@.take(siblings.len() as int) =~= siblings@);
    }
    if !placed {
        out.push(src);
        proof {
            let o = others_by_key(siblings@, src);
            assert(out@ =~= insert_at(key_ids(o), key_anchor(o, b), src));
        }
    }
    out
}

/// The siblings other than `src`, in order.
pub open spec fn others_by_id(s: Seq<i64>, src: i64) -> Seq<i64>
    decreases s.len(),
{
    if s.len() == 0 {
        Seq::empty()
    } else {
        let r = others_by_id(s.drop_last(), src);
        if s.last() != src {
            r.push(s.last())
        } else {
            r
        }
    }
}

/// The index of the first of `o` equal to `before` (the length when there
/// is none).
pub open spec fn id_anchor(o: Seq<i64>, before: Option<i64>) -> int
    decreases o.len(),
{
    if o.len() == 0 {
        0
    } else if before == Some(o[0]) {
        0
    } else {
        1 + id_anchor(o.drop_first(), before)
    }
}

/// The new order of a level after moving `src` into it: the other siblings
/// in their order, with `src` just before `before`, or last.
pub open spec fn place_by_id_spec(s: Seq<i64>, src: i64, before: Option<i64>) -> Seq<i64> {
    let o = others_by_id(s, src);
    insert_at(o, id_anchor(o, before), src)
}

proof fn lemma_id_anchor_push(o: Seq<i64>, x: i64, before: Option<i64>)
    ensures
        0 <= id_anchor(o, before) <= o.len(),
        id_anchor(o.push(x), before) == if id_anchor(o, before) < o.len() {
            id_anchor(o, before)
        } else if before == Some(x) {
            o.len() as int
        } else {
            o.len() + 1int
        },
    decreases o.len(),
{
    let p = o.push(x);
    if o.len() > 0 {
        let d = o.drop_first();
        assert(p.drop_first() =~= d.push(x));
        assert(p[0] == o[0]);
        lemma_id_anchor_push(d, x, before);
        if before != Some(o[0]) {
            assert(id_anchor(o, before) == 1 + id_anchor(d, before));
            assert(id_anchor(p, before) == 1 + id_anchor(d.push(x), before));
        }
    } else {
        assert(p[0] == x);
        assert(p.drop_first() =~= Seq::<i64>::empty());
        assert(id_anchor(p.drop_first(), before) == 0);
    }
}

/// See `place_by_id_spec`: the new order of a level of quick-request groups
/// or quick requests after a move.
pub fn place_by_id(siblings: &Vec<i64>, src: i64, before: Option<i64>) -> (r: Vec<i64>)
    ensures
        r@ == place_by_id_spec(siblings@, src, before),
{
    let mut out: Vec<i64> = Vec::new();
    let mut placed = false;
    let mut i: usize = 0;
    proof {
        assert(siblings@.take(0) =~= Seq::<i64>::empty());
    }
    while i < siblings.len()
        invariant
            i <= siblings.len(),
            ({
                let o = others_by_id(siblings@.take(i as int), src);
                &&& 0 <= id_anchor(o, before) <= o.len()
                &&& placed == (id_anchor(o, before) < o.len())
                &&& placed ==> out@ == insert_at(o, id_anchor(o, before), src)
                &&& !placed ==> out@ == o
            }),
        decreases siblings.len() - i,
    {
        let ghost o = others_by_id(siblings@.take(i as int), src);
        proof {
            assert(siblings@.take(i + 1).drop_last() =~= siblings@.take(i as int));
            assert(siblings@.take(i + 1).last() == siblings@[i as int]);
        }
        let id = siblings[i];
        if id != src {
            proof {
                lemma_id_anchor_push(o, id, before);
                assert(others_by_id(siblings@.take(i + 1), src) == o.push(id));
            }
            if !placed && before == Some(id) {
                out.push(src);
                placed = true;
            }
            out.push(id);
            proof {
                let o2 = o.push(id);
                if placed {
                    assert(out@ =~= insert_at(o2, id_anchor(o2, before), src));
                }
            }
        }
        i += 1;
    }
    proof {
        assert(siblings@.take(siblings.len() as int) =~= siblings@);
    }
    if !placed {
        out.push(src);
        proof {
            let o = others_by_id(siblings@, src);
            assert(out@ =~= insert_at(o, id_anchor(o, before), src));
        }
    }
    out
}

/// A move keeps every other sibling, in order, and puts the moved one in
/// exactly once: removing it from the new order gives back the others.
pub proof fn law_move_keeps_siblings(s: Seq<i64>, src: i64, before: Option<i64>)
    ensures
        place_by_id_spec(s, src, before).len() == others_by_id(s, src).len() + 1,
        others_by_id(place_by_id_spec(s, src, before), src) == others_by_id(s, src),
        place_by_id_spec(s, src, before).contains(src),
{
    let o = others_by_id(s, src);
    lemma_others_exclude(s, src);
    lemma_id_anchor_push(o, src, before);
    let a = id_anchor(o, before);
    let r = insert_at(o, a, src);
    assert(r[a] == src);
    lemma_others_of_insert(o, a, src);
}

proof fn lemma_others_exclude(s: Seq<i64>, src: i64)
    ensures
        forall|j: int| 0 <= j < others_by_id(s, src).len() ==> others_by_id(s, src)[j] != src,
    decreases s.len(),
{
    if s.len() > 0 {
        lemma_others_exclude(s.drop_last(), src);
        let r = others_by_id(s.drop_last(), src);
        if s.last() != src {
            assert forall|j: int| 0 <= j < r.push(s.last()).len() implies r.push(s.last())[j] != src by {
                if j < r.len() {
                    assert(r.push(s.last())[j] == r[j]);
                }
            }
        }
    }
}

proof fn lemma_others_of_free(o: Seq<i64>, src: i64)
    requires
        forall|j: int| 0 <= j < o.len() ==> o[j] != src,
    ensures
        others_by_id(o, src) == o,
    decreases o.len(),
{
    if o.len() > 0 {
        lemma_others_of_free(o.drop_last(), src);
        assert(o.drop_last().push(o.last()) =~= o);
    }
}

proof fn lemma_others_concat(x: Seq<i64>, y: Seq<i64>, src: i64)
    ensures
        others_by_id(x + y, src) == others_by_id(x, src) + others_by_id(y, src),
    decreases y.len(),
{
    if y.len() == 0 {
        assert(x + y =~= x);
        assert(others_by_id(x, src) + others_by_id(y, src) =~= others_by_id(x, src));
    } else {
        assert((x + y).drop_last() =~= x + y.drop_last());
        lemma_others_concat(x, y.drop_last(), src);
        if y.last() != src {
            assert(others_by_id(x, src) + others_by_id(y.drop_last(), src).push(y.last()) =~= (others_by_id(x, src)
                + others_by_id(y.drop_last(), src)).push(y.last()));
        }
    }
}

proof fn lemma_others_of_insert(o: Seq<i64>, a: int, src: i64)
    requires
        0 <= a <= o.len(),
        forall|j: int| 0 <= j < o.len() ==> o[j] != src,
    ensures
        others_by_id(insert_at(o, a, src), src) == o,
        insert_at(o, a, src).len() == o.len() + 1,
{
    let x = o.take(a);
    let y = o.skip(a);
    lemma_others_concat(x + seq![src], y, src);
    lemma_others_concat(x, seq![src], src);
    assert(seq![src].drop_last() =~= Seq::<i64>::empty());
    assert(seq![src].last() == src);
    assert(others_by_id(Seq::<i64>::empty(), src) =~= Seq::<i64>::empty());
    assert(others_by_id(seq![src], src) =~= Seq::<i64>::empty());
    lemma_others_of_free(x, src);
    lemma_others_of_free(y, src);
    assert(x + y =~= o);
    assert(x + Seq::<i64>::empty() =~= x);
}

/// The ids kept by `others_by_key` are those of the siblings other than
/// `src`.
proof fn lemma_key_ids_others(s: Seq<(i64, String)>, src: i64)
    ensures
        key_ids(others_by_key(s, src)) == others_by_id(s.map_values(|e: (i64, String)| e.0), src),
    decreases s.len(),
{
    if s.len() > 0 {
        let t = s.map_values(|e: (i64, String)| e.0);
        assert(s.drop_last().map_values(|e: (i64, String)| e.0) =~= t.drop_last());
        lemma_key_ids_others(s.drop_last(), src);
        let r = others_by_key(s.drop_last(), src);
        if s.last().0 != src {
            assert(key_ids(r.push((s.last().0, s.last().1@))) =~= key_ids(r).push(s.last().0));
        }
    }
}

/// A move by key keeps every other sibling, in order, and puts the moved
/// one in exactly once: removing it from the new order gives back the ids
/// of the others.
pub proof fn law_move_by_key_keeps_siblings(s: Seq<(i64, String)>, src: i64, before: Option<Seq<char>>)
    ensures
        place_by_key_spec(s, src, before).len() == key_ids(others_by_key(s, src)).len() + 1,
        others_by_id(place_by_key_spec(s, src, before), src) == key_ids(others_by_key(s, src)),
        place_by_key_spec(s, src, before).contains(src),
{
    let o = others_by_key(s, src);
    let ids = key_ids(o);
    lemma_key_ids_others(s, src);
    lemma_others_exclude(s.map_values(|e: (i64, String)| e.0), src);
    lemma_key_anchor_push(o, (src, Seq::empty()), before);
    let a = key_anchor(o, before);
    let r = insert_at(ids, a, src);
    assert(r[a] == src);
    lemma_others_of_insert(ids, a, src);
}

/// A level's sort orders after a move: the ids in their new order,
/// numbered from 1.
pub open spec fn numbered(o: Seq<i64>) -> Seq<(i64, int)> {
    Seq::new(o.len(), |i: int| (o[i], i + 1))
}

/// The plain content of a list of (id, sort order).
pub open spec fn orders_view(r: Seq<(i64, i32)>) -> Seq<(i64, int)> {
    r.map_values(|x: (i64, i32)| (x.0, x.1 as int))
}

/// The sort orders to store for a level in its new order (see `numbered`).
pub fn sort_orders(ordered: &Vec<i64>) -> (r: Vec<(i64, i32)>)
    requires
        ordered@.len() < i32::MAX,
    ensures
        orders_view(r@) == numbered(ordered@),
{
    let mut out: Vec<(i64, i32)> = Vec::new();
    let mut i: usize = 0;
    while i < ordered.len()
        invariant
            i <= ordered@.len() < i32::MAX,
            out@.len() == i,
            orders_view(out@) == numbered(ordered@.take(i as int)),
        decreases ordered.len() - i,
    {
        let n: i32 = (i + 1) as i32;
        let ghost before = out@;
        out.push((ordered[i], n));
        proof {
            assert(n as int == i + 1);
            assert(out@ == before.push((ordered@[i as int], n)));
            assert forall|k: int| 0 <= k < i + 1 implies #[trigger] orders_view(out@)[k] == numbered(ordered@.take(i + 1))[k] by {
                if k < i {
                    assert(out@[k] == before[k]);
                    assert(orders_view(out@)[k] == orders_view(before)[k]);
                    assert(numbered(ordered@.take(i as int))[k] == numbered(ordered@.take(i + 1))[k]);
                }
            }
            assert(orders_view(out@) =~= numbered(ordered@.take(i + 1)));
        }
        i += 1;
    }
    proof {
        assert(ordered@.take(ordered.len() as int) =~= ordered@);
    }
    out
}

/// After a move by key the level is numbered 1 to n + 1 (n other
/// siblings): the moved one gets the place just before the first sibling
/// keyed `before` (last when there is none), and the others keep their
/// order around it.
pub proof fn law_move_numbers_the_level(s: Seq<(i64, String)>, src: i64, before: Option<Seq<char>>)
    ensures
        ({
            let others = key_ids(others_by_key(s, src));
            let a = key_anchor(others_by_key(s, src), before);
            let n = numbered(place_by_key_spec(s, src, before));
            &&& n.len() == others.len() + 1
            &&& forall|i: int| 0 <= i < n.len() ==> (#[trigger] n[i]).1 == i + 1
            &&& 0 <= a <= others.len()
            &&& n[a] == (src, a + 1)
            &&& forall|i: int| 0 <= i < a ==> (#[trigger] n[i]).0 == others[i]
            &&& forall|i: int| a < i < n.len() ==> (#[trigger] n[i]).0 == others[i - 1]
        }),
{
    let o = others_by_key(s, src);
    lemma_key_anchor_push(o, (src, Seq::empty()), before);
    law_move_by_key_keeps_siblings(s, src, before);
}

// ----- moving groups -----

/// Whether a group at `group_path` may move under `target`: not the root
/// level, not onto itself, not into its own subtree.
pub open spec fn group_move_check(group_path: Seq<Seq<char>>, target: Seq<Seq<char>>) -> Result<(), Seq<char>> {
    if group_path.len() == 0 {
        Err("不能移动根级"@)
    } else if group_path == target {
        Err("目标即自身"@)
    } else if group_path.len() <= target.len() && target.take(group_path.len() as int) == group_path {
        Err("不能移动到自己的子分组下"@)
    } else {
        Ok(())
    }
}

/// See `group_move_check`.
pub fn check_group_move(group_path: &Vec<String>, target: &Vec<String>) -> (r: Result<(), String>)
    ensures
        match r {
            Ok(()) => group_move_check(string_views(group_path@), string_views(target@)) == Ok::<(), Seq<char>>(()),
            Err(e) => group_move_check(string_views(group_path@), string_views(target@)) == Err::<(), Seq<char>>(e@),
        },
{
    let ghost g = string_views(group_path@);
    let ghost t = string_views(target@);
    if group_path.len() == 0 {
        return Err(owned("不能移动根级"));
    }
    // whether the first `group_path.len()` segments of `target` are `group_path`
    let n = group_path.len();
    let mut prefix = n <= target.len();
    let mut i: usize = 0;
    while prefix && i < n
        invariant
            n == group_path.len(),
            g == string_views(group_path@),
            t == string_views(target@),
            i <= n,
            prefix ==> n <= target.len(),
            prefix ==> forall|j: int| 0 <= j < i ==> g[j] == t[j],
            !prefix ==> !(n <= t.len() && t.take(n as int) == g),
        decreases n - i,
    {
        if !str_eq(group_path[i].as_str(), target[i].as_str()) {
            proof {
                assert(g[i as int] != t[i as int]);
                assert(t.take(n as int)[i as int] == t[i as int]);
            }
            prefix = false;
            i = n;
        } else {
            i += 1;
        }
    }
    proof {
        if prefix {
            assert(t.take(n as int) =~= g);
        }
    }
    if prefix && n == target.len() {
        proof {
            assert(t =~= g);
        }
        return Err(owned("目标即自身"));
    }
    proof {
        if g == t {
            assert(t.take(n as int) =~= g);
        }
    }
    if prefix {
        return Err(owned("不能移动到自己的子分组下"));
    }
    Ok(())
}

// ----- quick-request group subtrees -----

/// Whether some group row is `child` with parent `parent`.
pub open spec fn is_child(groups: Seq<(i64, Option<i64>)>, child: i64, parent: i64) -> bool {
    exists|g: int| 0 <= g < groups.len() && #[trigger] groups[g] == (child, Some(parent))
}

/// Whether the `k`-th of `s` is a child of an earlier one.
pub open spec fn has_parent_before(groups: Seq<(i64, Option<i64>)>, s: Seq<i64>, k: int) -> bool {
    exists|j: int| 0 <= j < k && is_child(groups, s[k], #[trigger] s[j])
}

/// The number of set flags.
pub open spec fn count_true(s: Seq<bool>) -> nat
    decreases s.len(),
{
    if s.len() == 0 {
        0
    } else {
        count_true(s.drop_last()) + if s.last() {
            1nat
        } else {
            0nat
        }
    }
}

proof fn lemma_count_true_bound(s: Seq<bool>)
    ensures
        count_true(s) <= s.len(),
    decreases s.len(),
{
    if s.len() > 0 {
        lemma_count_true_bound(s.drop_last());
    }
}

proof fn lemma_count_true_set(s: Seq<bool>, j: int)
    requires
        0 <= j < s.len(),
        !s[j],
    ensures
        count_true(s.update(j, true)) == count_true(s) + 1,
    decreases s.len(),
{
    let u = s.update(j, true);
    if j < s.len() - 1 {
        assert(u.drop_last() =~= s.drop_last().update(j, true));
        lemma_count_true_set(s.drop_last(), j);
    } else {
        assert(u.drop_last() =~= s.drop_last());
    }
}

proof fn lemma_count_true_none(n: nat)
    ensures
        count_true(Seq::new(n, |i: int| false)) == 0,
    decreases n,
{
    if n > 0 {
        assert(Seq::new(n, |i: int| false).drop_last() =~= Seq::new((n - 1) as nat, |i: int| false));
        lemma_count_true_none((n - 1) as nat);
    }
}

fn contains_id(ids: &Vec<i64>, x: i64) -> (r: bool)
    ensures
        r == ids@.contains(x),
{
    let mut i: usize = 0;
    while i < ids.len()
        invariant
            i <= ids.len(),
            forall|j: int| 0 <= j < i ==> ids@[j] != x,
        decreases ids.len() - i,
    {
        if ids[i] == x {
            return true;
        }
        i += 1;
    }
    false
}

/// Pushing a new id keeps the ids distinct.
proof fn lemma_push_distinct(before: Seq<i64>, id: i64)
    requires
        before.no_duplicates(),
        !before.contains(id),
    ensures
        before.push(id).no_duplicates(),
{
    let after = before.push(id);
    assert forall|a: int, b: int| 0 <= a < b < after.len() implies after[a] != after[b] by {
        if b == before.len() {
            assert(before.contains(before[a]));
        }
    }
}

/// Pushing a child of `before[i]` keeps every later id a child of an
/// earlier one.
proof fn lemma_push_parent(groups: Seq<(i64, Option<i64>)>, before: Seq<i64>, id: i64, i: int)
    requires
        0 <= i < before.len(),
        is_child(groups, id, before[i]),
        forall|k: int| 1 <= k < before.len() ==> #[trigger] has_parent_before(groups, before, k),
    ensures
        forall|k: int| 1 <= k < before.push(id).len() ==> #[trigger] has_parent_before(groups, before.push(id), k),
{
    let after = before.push(id);
    assert forall|k: int| 1 <= k < after.len() implies #[trigger] has_parent_before(groups, after, k) by {
        if k == before.len() {
            assert(after[i] == before[i]);
            assert(is_child(groups, after[k], after[i]));
        } else {
            assert(has_parent_before(groups, before, k));
            let j = choose|j: int| 0 <= j < k && is_child(groups, before[k], #[trigger] before[j]);
            assert(after[j] == before[j]);
            assert(after[k] == before[k]);
            assert(is_child(groups, after[k], after[j]));
        }
    }
}

/// What `before` contains, the longer list contains too.
proof fn lemma_push_contains(before: Seq<i64>, id: i64, x: i64)
    requires
        before.contains(x) || x == id,
    ensures
        before.push(id).contains(x),
{
    if x == id {
        assert(before.push(id)[before.len() as int] == id);
    } else {
        let w = choose|w: int| 0 <= w < before.len() && before[w] == x;
        assert(before.push(id)[w] == before[w]);
    }
}

/// One scan of `groups` (its first `g` rows, in order) for the children of
/// `cur`: each child not yet listed is appended.
pub open spec fn scan_children(groups: Seq<(i64, Option<i64>)>, ids: Seq<i64>, cur: i64, g: nat) -> Seq<i64>
    decreases g,
{
    if g == 0 || g > groups.len() {
        ids
    } else {
        let s = scan_children(groups, ids, cur, (g - 1) as nat);
        let row = groups[g - 1];
        if row.1 == Some(cur) && !s.contains(row.0) {
            s.push(row.0)
        } else {
            s
        }
    }
}

/// Breadth-first walk: the listed ids from position `i` on are visited in
/// turn, each scanning all rows for its children (at most `fuel` visits).
pub open spec fn walk_from(groups: Seq<(i64, Option<i64>)>, ids: Seq<i64>, i: nat, fuel: nat) -> Seq<i64>
    decreases fuel,
{
    if fuel == 0 || i >= ids.len() {
        ids
    } else {
        walk_from(groups, scan_children(groups, ids, ids[i as int], groups.len()), i + 1, (fuel - 1) as nat)
    }
}

/// The ids of the subtree of `root`, in the order of a breadth-first walk;
/// a walk visits at most one id more than there are rows.
pub open spec fn subtree_order(groups: Seq<(i64, Option<i64>)>, root: i64) -> Seq<i64> {
    walk_from(groups, seq![root], 0, groups.len() + 1)
}

/// The quick-request group `root` and all its descendants among `groups`
/// (id, parent id), breadth first (`subtree_order`): `root` comes first, no
/// id twice, every later one is a child of an earlier one, and every child
/// of one of them is among them.
pub fn quick_group_subtree(root: i64, groups: &Vec<(i64, Option<i64>)>) -> (r: Vec<i64>)
    ensures
        r@ == subtree_order(groups@, root),
        r@.len() > 0,
        r@[0] == root,
        r@.no_duplicates(),
        forall|k: int| 1 <= k < r@.len() ==> #[trigger] has_parent_before(groups@, r@, k),
        forall|g: int, k: int|
            0 <= g < groups@.len() && 0 <= k < r@.len() && #[trigger] groups@[g].1 == Some(#[trigger] r@[k]) ==> r@.contains(groups@[g].0),
{
    let mut ids: Vec<i64> = vec![root];
    let mut taken: Vec<bool> = Vec::new();
    let mut t: usize = 0;
    while t < groups.len()
        invariant
            t <= groups.len(),
            taken@ == Seq::new(t as nat, |i: int| false),
        decreases groups.len() - t,
    {
        taken.push(false);
        proof {
            assert(taken@ =~= Seq::new((t + 1) as nat, |i: int| false));
        }
        t += 1;
    }
    proof {
        lemma_count_true_none(groups.len() as nat);
        assert(ids@ =~= seq![root]);
    }
    let mut i: usize = 0;
    while i < ids.len()
        invariant
            ids@.len() > 0,
            ids@[0] == root,
            ids@.no_duplicates(),
            taken@.len() == groups@.len(),
            ids@.len() == 1 + count_true(taken@),
            forall|j: int| 0 <= j < taken@.len() && #[trigger] taken@[j] ==> ids@.contains(groups@[j].0),
            i <= ids@.len(),
            forall|k: int| 1 <= k < ids@.len() ==> #[trigger] has_parent_before(groups@, ids@, k),
            forall|g: int, k: int|
                0 <= g < groups@.len() && 0 <= k < i && #[trigger] groups@[g].1 == Some(#[trigger] ids@[k]) ==> ids@.contains(groups@[g].0),
            walk_from(groups@, ids@, i as nat, (groups@.len() + 1 - i) as nat) == subtree_order(groups@, root),
        decreases groups@.len() + 1 - i,
    {
        proof {
            lemma_count_true_bound(taken@);
        }
        let cur = ids[i];
        let ghost start = ids@;
        let mut g: usize = 0;
        while g < groups.len()
            invariant
                ids@.len() > 0,
                ids@[0] == root,
                ids@.no_duplicates(),
                taken@.len() == groups@.len(),
                ids@.len() == 1 + count_true(taken@),
                forall|j: int| 0 <= j < taken@.len() && #[trigger] taken@[j] ==> ids@.contains(groups@[j].0),
                i < ids@.len(),
                cur == ids@[i as int],
                g <= groups@.len(),
                forall|k: int| 1 <= k < ids@.len() ==> #[trigger] has_parent_before(groups@, ids@, k),
                forall|gg: int, k: int|
                    0 <= gg < groups@.len() && 0 <= k < i && #[trigger] groups@[gg].1 == Some(#[trigger] ids@[k]) ==> ids@.contains(groups@[gg].0),
                forall|gg: int| 0 <= gg < g && #[trigger] groups@[gg].1 == Some(cur) ==> ids@.contains(groups@[gg].0),
                ids@ == scan_children(groups@, start, cur, g as nat),
                i < start.len(),
                start[i as int] == cur,
                walk_from(groups@, start, i as nat, (groups@.len() + 1 - i) as nat) == subtree_order(groups@, root),
            decreases groups@.len() - g,
        {
            let (id, parent) = groups[g];
            if parent == Some(cur) && !contains_id(&ids, id) {
                let ghost before = ids@;
                let ghost tb = taken@;
                proof {
                    if tb[g as int] {
                        assert(before.contains(groups@[g as int].0));
                    }
                    lemma_count_true_set(tb, g as int);
                    assert(is_child(groups@, id, cur));
                }
                ids.push(id);
                taken.set(g, true);
                proof {
                    assert(ids@ == before.push(id));
                    assert(taken@ == tb.update(g as int, true));
                    lemma_push_distinct(before, id);
                    lemma_push_parent(groups@, before, id, i as int);
                    assert forall|j: int| 0 <= j < taken@.len() && #[trigger] taken@[j] implies ids@.contains(groups@[j].0) by {
                        if j != g {
                            assert(tb[j]);
                        }
                        lemma_push_contains(before, id, groups@[j].0);
                    }
                    assert forall|gg: int, k: int|
                        0 <= gg < groups@.len() && 0 <= k < i && #[trigger] groups@[gg].1 == Some(#[trigger] ids@[k]) implies ids@.contains(groups@[gg].0) by {
                        assert(ids@[k] == before[k]);
                        lemma_push_contains(before, id, groups@[gg].0);
                    }
                    assert forall|gg: int| 0 <= gg < g + 1 && #[trigger] groups@[gg].1 == Some(cur) implies ids@.contains(groups@[gg].0) by {
                        lemma_push_contains(before, id, groups@[gg].0);
                    }
                }
            }
            g += 1;
        }
        proof {
            assert forall|gg: int, k: int|
                0 <= gg < groups@.len() && 0 <= k < i + 1 && #[trigger] groups@[gg].1 == Some(#[trigger] ids@[k]) implies ids@.contains(groups@[gg].0) by {
                if k == i {
                    assert(groups@[gg].1 == Some(cur));
                }
            }
            lemma_count_true_bound(taken@);
            assert(i < groups@.len() + 1);
            assert(ids@ == scan_children(groups@, start, start[i as int], groups@.len()));
        }
        i += 1;
    }
    ids
}

/// Whether the quick-request group `id` may move under `parent`: not under
/// itself, nor under one of the groups of `subtree` (its descendants).
pub open spec fn quick_group_move_check(id: i64, parent: Option<i64>, subtree: Seq<i64>) -> Result<(), Seq<char>> {
    if parent == Some(id) {
        Err("目标即自身"@)
    } else if parent matches Some(p) && subtree.contains(p) {
        Err("不能移动到自己的子分组下"@)
    } else {
        Ok(())
    }
}

/// See `quick_group_move_check`.
pub fn check_quick_group_move(id: i64, parent: Option<i64>, subtree: &Vec<i64>) -> (r: Result<(), String>)
    ensures
        match r {
            Ok(()) => quick_group_move_check(id, parent, subtree@) == Ok::<(), Seq<char>>(()),
            Err(e) => quick_group_move_check(id, parent, subtree@) == Err::<(), Seq<char>>(e@),
        },
{
    if parent == Some(id) {
        return Err(owned("目标即自身"));
    }
    match parent {
        Some(p) => {
            if contains_id(subtree, p) {
                return Err(owned("不能移动到自己的子分组下"));
            }
        },
        None => {},
    }
    Ok(())
}

// ----- history rows -----

/// A stored history row: the columns of the history table, the snapshots
/// as JSON text.
pub struct HistoryRow {
    pub id: i64,
    pub team_key: String,
    pub project_key: String,
    pub project_name: String,
    pub env_id: String,
    pub env_name: String,
    pub iface_key: String,
    pub iface_name: String,
    pub team_id: Option<i32>,
    pub project_id: Option<i32>,
    pub group_id: Option<i32>,
    pub iface_id: Option<i32>,
    pub method: String,
    pub url: String,
    pub status: Option<i32>,
    pub ok: bool,
    pub time_ms: i64,
    pub created_at_ms: i64,
    pub doc: String,
    pub env_json: String,
    pub global_variables: String,
    pub global_params: String,
    pub response: Option<String>,
    pub error: Option<String>,
}

/// A stored status as an HTTP status (its low 16 bits, as stored from one).
pub open spec fn stored_status(s: Option<i32>) -> Option<u16> {
    match s {
        Some(x) => Some(x as u16),
        None => None,
    }
}

/// A stored duration; a negative one counts as 0.
pub open spec fn stored_time(t: i64) -> u64 {
    if t < 0 {
        0
    } else {
        t as u64
    }
}

/// The list form of a history row: its columns, the status and duration
/// read back (see `stored_status`, `stored_time`).
pub fn history_summary(m: &HistoryRow) -> (r: HistorySummary)
    ensures
        r.id == m.id,
        r.team_key == m.team_key,
        r.project_key == m.project_key,
        r.project_name == m.project_name,
        r.env_id == m.env_id,
        r.env_name == m.env_name,
        r.iface_key == m.iface_key,
        r.iface_name == m.iface_name,
        r.team_id == m.team_id,
        r.project_id == m.project_id,
        r.group_id == m.group_id,
        r.iface_id == m.iface_id,
        r.method == m.method,
        r.url == m.url,
        r.status == stored_status(m.status),
        r.ok == m.ok,
        r.time_ms == stored_time(m.time_ms),
        r.created_at_ms == m.created_at_ms,
{
    HistorySummary {
        id: m.id,
        team_key: m.team_key.clone(),
        project_key: m.project_key.clone(),
        project_name: m.project_name.clone(),
        env_id: m.env_id.clone(),
        env_name: m.env_name.clone(),
        iface_key: m.iface_key.clone(),
        iface_name: m.iface_name.clone(),
        team_id: m.team_id,
        project_id: m.project_id,
        group_id: m.group_id,
        iface_id: m.iface_id,
        method: m.method.clone(),
        url: m.url.clone(),
        status: match m.status {
            Some(s) => Some(s as u16),
            None => None,
        },
        ok: m.ok,
        time_ms: if m.time_ms < 0 {
            0
        } else {
            m.time_ms as u64
        },
        created_at_ms: m.created_at_ms,
    }
}

} // verus!
