//! The interface tree of a project, built from its stored group and
//! interface rows: each level lists its groups, then its interfaces, each
//! by manual order and then by key.

use vstd::prelude::*;

use crate::domain::{str_eq, TreeNode};
use crate::repo::{sort_key, sort_key_spec};
use crate::text::{chars_of, string_views};

verus! {

/// A stored group: its id, its parent (none for the project's root), key,
/// name and manual order.
pub struct GroupRow {
    pub id: i32,
    pub parent_id: Option<i32>,
    pub key: String,
    pub name: String,
    pub sort_order: i32,
}

/// A stored interface: its group, key, name, method and manual order.
pub struct IfaceRow {
    pub group_id: i32,
    pub key: String,
    pub name: String,
    pub method: String,
    pub sort_order: i32,
}

/// The plain content of a tree node.
pub enum NodeView {
    Group { key: Seq<char>, name: Seq<char>, children: Seq<NodeView> },
    Interface { key: Seq<char>, name: Seq<char>, method: Seq<char> },
}

/// The plain content of a node.
pub open spec fn node_view(n: TreeNode) -> NodeView
    decreases n,
{
    match n {
        TreeNode::Group { key, name, children } => {
            proof {
                assert(decreases_to!(n => children));
                assert(decreases_to!(children => children@));
            }
            NodeView::Group { key: key@, name: name@, children: nodes_view(children@) }
        },
        TreeNode::Interface { key, name, method } => NodeView::Interface { key: key@, name: name@, method: method@ },
    }
}

/// The plain contents of a list of nodes.
pub open spec fn nodes_view(s: Seq<TreeNode>) -> Seq<NodeView>
    decreases s,
{
    if s.len() == 0 {
        Seq::empty()
    } else {
        proof {
            assert(decreases_to!(s => s.subrange(0, s.len() - 1)));
            assert(decreases_to!(s => s[s.len() - 1]));
        }
        nodes_view(s.drop_last()).push(node_view(s.last()))
    }
}

/// A node waiting in the level of its parent: the parent, the layer
/// (groups 0, interfaces 1), the manual order, the ordering key, the
/// group's id (none for an interface), and its key, name and method.
pub struct Entry {
    pub parent: Option<i32>,
    pub layer: u8,
    pub order: i32,
    pub skey: Seq<char>,
    pub gid: Option<i32>,
    pub key: Seq<char>,
    pub name: Seq<char>,
    pub method: Seq<char>,
}

/// The entries of the groups that have a parent, in row order.
pub open spec fn group_entries(gs: Seq<GroupRow>) -> Seq<Entry>
    decreases gs.len(),
{
    if gs.len() == 0 {
        Seq::empty()
    } else {
        let rest = group_entries(gs.drop_last());
        let g = gs.last();
        if g.parent_id.is_none() {
            rest
        } else {
            rest.push(
                Entry {
                    parent: g.parent_id,
                    layer: 0,
                    order: g.sort_order,
                    skey: sort_key_spec(g.key@, true),
                    gid: Some(g.id),
                    key: g.key@,
                    name: g.name@,
                    method: Seq::empty(),
                },
            )
        }
    }
}

/// The entry of an interface.
pub open spec fn iface_entry(i: IfaceRow) -> Entry {
    Entry {
        parent: Some(i.group_id),
        layer: 1,
        order: i.sort_order,
        skey: sort_key_spec(i.key@, false),
        gid: None,
        key: i.key@,
        name: i.name@,
        method: i.method@,
    }
}

/// The entries of all rows: groups first, then interfaces, in row order.
pub open spec fn entries(gs: Seq<GroupRow>, is: Seq<IfaceRow>) -> Seq<Entry> {
    group_entries(gs) + is.map_values(|i: IfaceRow| iface_entry(i))
}

/// Whether `a` comes before `b` by code points (the order of `String`).
pub open spec fn text_lt(a: Seq<char>, b: Seq<char>) -> bool
    decreases a.len(),
{
    if a.len() == 0 {
        b.len() > 0
    } else if b.len() == 0 {
        false
    } else if a[0] != b[0] {
        (a[0] as u32) < (b[0] as u32)
    } else {
        text_lt(a.drop_first(), b.drop_first())
    }
}

/// Whether `a` may stay before `b`: by layer, then manual order, then
/// ordering key.
pub open spec fn entry_le(a: Entry, b: Entry) -> bool {
    ||| a.layer < b.layer
    ||| a.layer == b.layer && a.order < b.order
    ||| a.layer == b.layer && a.order == b.order && !text_lt(b.skey, a.skey)
}

/// `x` put into `s` before its first entry that must come after `x`.
pub open spec fn ins(s: Seq<Entry>, x: Entry) -> Seq<Entry>
    decreases s.len(),
{
    if s.len() == 0 {
        seq![x]
    } else if entry_le(s[0], x) {
        seq![s[0]] + ins(s.drop_first(), x)
    } else {
        seq![x] + s
    }
}

/// The stable sort of a level (insertion, in order).
pub open spec fn isort(s: Seq<Entry>) -> Seq<Entry>
    decreases s.len(),
{
    if s.len() == 0 {
        Seq::empty()
    } else {
        ins(isort(s.drop_last()), s.last())
    }
}

/// The entries of the level of `p`, in row order.
pub open spec fn bucket(es: Seq<Entry>, p: Option<i32>) -> Seq<Entry>
    decreases es.len(),
{
    if es.len() == 0 {
        Seq::empty()
    } else if es.last().parent == p {
        bucket(es.drop_last(), p).push(es.last())
    } else {
        bucket(es.drop_last(), p)
    }
}

/// The number of entries whose level has not been taken yet.
pub open spec fn unremoved(es: Seq<Entry>, removed: Seq<Option<i32>>) -> nat
    decreases es.len(),
{
    if es.len() == 0 {
        0
    } else {
        unremoved(es.drop_last(), removed) + if removed.contains(es.last().parent) {
            0nat
        } else {
            1nat
        }
    }
}

/// Taking more levels leaves no more entries.
pub proof fn lemma_unremoved_mono(es: Seq<Entry>, removed: Seq<Option<i32>>, more: Seq<Option<i32>>)
    ensures
        unremoved(es, removed + more) <= unremoved(es, removed),
    decreases es.len(),
{
    if es.len() > 0 {
        lemma_unremoved_mono(es.drop_last(), removed, more);
        if removed.contains(es.last().parent) {
            let w = choose|w: int| 0 <= w < removed.len() && removed[w] == es.last().parent;
            assert((removed + more)[w] == removed[w]);
        }
    }
}

/// Taking a level with entries leaves fewer entries.
pub proof fn lemma_unremoved_take(es: Seq<Entry>, removed: Seq<Option<i32>>, p: Option<i32>)
    requires
        !removed.contains(p),
        bucket(es, p).len() > 0,
    ensures
        unremoved(es, removed.push(p)) < unremoved(es, removed),
    decreases es.len(),
{
    assert(removed + seq![p] =~= removed.push(p));
    if es.len() == 0 {
        assert(bucket(es, p).len() == 0);
    } else if es.last().parent == p {
        assert(removed.push(p)[removed.len() as int] == p);
        assert(removed.push(p).contains(p));
        lemma_unremoved_mono(es.drop_last(), removed, seq![p]);
        assert(unremoved(es, removed) == unremoved(es.drop_last(), removed) + 1);
        assert(unremoved(es, removed.push(p)) == unremoved(es.drop_last(), removed.push(p)));
    } else {
        lemma_unremoved_take(es.drop_last(), removed, p);
        if removed.push(p).contains(es.last().parent) {
            let w = choose|w: int| 0 <= w < removed.push(p).len() && removed.push(p)[w] == es.last().parent;
            assert(removed[w] == es.last().parent);
        }
        if removed.contains(es.last().parent) {
            let w = choose|w: int| 0 <= w < removed.len() && removed[w] == es.last().parent;
            assert(removed.push(p)[w] == es.last().parent);
        }
        assert(removed.contains(es.last().parent) == removed.push(p).contains(es.last().parent));
    }
}

/// The nodes of the level of `p`, and the levels taken while building it
/// (`p` first). A level already taken is empty: each level is built once.
pub open spec fn level(es: Seq<Entry>, p: Option<i32>, removed: Seq<Option<i32>>) -> (Seq<NodeView>, Seq<Option<i32>>)
    decreases unremoved(es, removed), 0nat,
{
    if removed.contains(p) {
        (Seq::empty(), Seq::empty())
    } else {
        let list = isort(bucket(es, p));
        if list.len() == 0 {
            (Seq::empty(), seq![p])
        } else {
            proof {
                lemma_isort_len(bucket(es, p));
                lemma_unremoved_take(es, removed, p);
            }
            let r = level_list(es, list, removed.push(p));
            (r.0, seq![p] + r.1)
        }
    }
}

/// The nodes of a sorted level, each group with the level of its id, and
/// the levels taken while building them.
pub open spec fn level_list(es: Seq<Entry>, list: Seq<Entry>, removed: Seq<Option<i32>>) -> (Seq<NodeView>, Seq<Option<i32>>)
    decreases unremoved(es, removed), list.len() + 1,
{
    if list.len() == 0 {
        (Seq::empty(), Seq::empty())
    } else {
        let e = list[0];
        let first: (NodeView, Seq<Option<i32>>) = match e.gid {
            Some(id) => {
                let sub = level(es, Some(id), removed);
                (NodeView::Group { key: e.key, name: e.name, children: sub.0 }, sub.1)
            },
            None => (NodeView::Interface { key: e.key, name: e.name, method: e.method }, Seq::empty()),
        };
        proof {
            lemma_unremoved_mono(es, removed, first.1);
        }
        let rest = level_list(es, list.drop_first(), removed + first.1);
        (seq![first.0] + rest.0, first.1 + rest.1)
    }
}

/// Sorting keeps the number of entries.
pub proof fn lemma_isort_len(s: Seq<Entry>)
    ensures
        isort(s).len() == s.len(),
    decreases s.len(),
{
    if s.len() > 0 {
        lemma_isort_len(s.drop_last());
        lemma_ins_len(isort(s.drop_last()), s.last());
    }
}

/// Inserting adds one entry.
pub proof fn lemma_ins_len(s: Seq<Entry>, x: Entry)
    ensures
        ins(s, x).len() == s.len() + 1,
    decreases s.len(),
{
    if s.len() > 0 && entry_le(s[0], x) {
        lemma_ins_len(s.drop_first(), x);
    }
}

/// The id of the project's root group: the first group without a parent.
pub open spec fn root_id(gs: Seq<GroupRow>) -> Option<i32>
    decreases gs.len(),
{
    if gs.len() == 0 {
        None
    } else if gs[0].parent_id.is_none() {
        Some(gs[0].id)
    } else {
        root_id(gs.drop_first())
    }
}

/// The interface tree: the level of the root group.
pub open spec fn interface_tree(gs: Seq<GroupRow>, is: Seq<IfaceRow>) -> Seq<NodeView> {
    level(entries(gs, is), root_id(gs), Seq::empty()).0
}

// ----- building the tree -----

/// `nodes_view` of a list with one more node.
pub proof fn lemma_nodes_view_push(s: Seq<TreeNode>, x: TreeNode)
    ensures
        nodes_view(s.push(x)) == nodes_view(s).push(node_view(x)),
{
    assert(s.push(x).drop_last() =~= s);
}

/// A node waiting in its parent's level (see `Entry`).
struct LevelEntry {
    parent: Option<i32>,
    layer: u8,
    order: i32,
    skey: Vec<char>,
    gid: Option<i32>,
    key: String,
    name: String,
    method: String,
}

spec fn entry_of(e: LevelEntry) -> Entry {
    Entry {
        parent: e.parent,
        layer: e.layer,
        order: e.order,
        skey: e.skey@,
        gid: e.gid,
        key: e.key@,
        name: e.name@,
        method: e.method@,
    }
}

spec fn entries_of(s: Seq<LevelEntry>) -> Seq<Entry> {
    s.map_values(|e: LevelEntry| entry_of(e))
}

/// The entries at the given indices.
spec fn pick(es: Seq<Entry>, idx: Seq<usize>) -> Seq<Entry> {
    idx.map_values(|k: usize| es[k as int])
}

/// See `entries`.
fn entries_exec(groups: &Vec<GroupRow>, ifaces: &Vec<IfaceRow>) -> (r: Vec<LevelEntry>)
    ensures
        entries_of(r@) == entries(groups@, ifaces@),
{
    let mut out: Vec<LevelEntry> = Vec::new();
    let mut i: usize = 0;
    proof {
        assert(groups@.take(0) =~= Seq::<GroupRow>::empty());
        assert(entries_of(out@) =~= Seq::<Entry>::empty());
    }
    while i < groups.len()
        invariant
            i <= groups.len(),
            entries_of(out@) == group_entries(groups@.take(i as int)),
        decreases groups.len() - i,
    {
        proof {
            assert(groups@.take(i + 1).drop_last() =~= groups@.take(i as int));
            assert(groups@.take(i + 1).last() == groups@[i as int]);
        }
        let g = &groups[i];
        if g.parent_id.is_some() {
            let e = LevelEntry {
                parent: g.parent_id,
                layer: 0,
                order: g.sort_order,
                skey: chars_of(sort_key(g.key.as_str(), true).as_str()),
                gid: Some(g.id),
                key: g.key.clone(),
                name: g.name.clone(),
                method: String::new(),
            };
            let ghost before = out@;
            out.push(e);
            proof {
                assert(entries_of(out@) =~= entries_of(before).push(entry_of(out@.last())));
            }
        }
        i += 1;
    }
    proof {
        assert(groups@.take(groups.len() as int) =~= groups@);
    }
    let ghost ge = entries_of(out@);
    let mut j: usize = 0;
    proof {
        assert(ge + ifaces@.take(0).map_values(|x: IfaceRow| iface_entry(x)) =~= ge);
    }
    while j < ifaces.len()
        invariant
            j <= ifaces.len(),
            ge == group_entries(groups@),
            entries_of(out@) == ge + ifaces@.take(j as int).map_values(|x: IfaceRow| iface_entry(x)),
        decreases ifaces.len() - j,
    {
        let f = &ifaces[j];
        let e = LevelEntry {
            parent: Some(f.group_id),
            layer: 1,
            order: f.sort_order,
            skey: chars_of(sort_key(f.key.as_str(), false).as_str()),
            gid: None,
            key: f.key.clone(),
            name: f.name.clone(),
            method: f.method.clone(),
        };
        let ghost before = out@;
        out.push(e);
        proof {
            assert(entries_of(out@) =~= entries_of(before).push(entry_of(out@.last())));
            assert(ifaces@.take(j + 1).map_values(|x: IfaceRow| iface_entry(x)) =~= ifaces@.take(j as int).map_values(
                |x: IfaceRow| iface_entry(x),
            ).push(iface_entry(ifaces@[j as int])));
        }
        j += 1;
    }
    proof {
        assert(ifaces@.take(ifaces.len() as int) =~= ifaces@);
    }
    out
}

/// See `text_lt`.
fn text_lt_exec(a: &Vec<char>, b: &Vec<char>) -> (r: bool)
    ensures
        r == text_lt(a@, b@),
{
    let mut i: usize = 0;
    proof {
        assert(a@.skip(0) =~= a@);
        assert(b@.skip(0) =~= b@);
    }
    while i < a.len() && i < b.len() && a[i] == b[i]
        invariant
            i <= a.len(),
            i <= b.len(),
            text_lt(a@, b@) == text_lt(a@.skip(i as int), b@.skip(i as int)),
        decreases a.len() - i,
    {
        proof {
            assert(a@.skip(i as int).drop_first() =~= a@.skip(i + 1));
            assert(b@.skip(i as int).drop_first() =~= b@.skip(i + 1));
            assert(a@.skip(i as int)[0] == a@[i as int]);
            assert(b@.skip(i as int)[0] == b@[i as int]);
        }
        i += 1;
    }
    if i == a.len() {
        i < b.len()
    } else if i == b.len() {
        false
    } else {
        proof {
            assert(a@.skip(i as int)[0] == a@[i as int]);
            assert(b@.skip(i as int)[0] == b@[i as int]);
        }
        (a[i] as u32) < (b[i] as u32)
    }
}

/// See `entry_le`.
fn entry_le_exec(a: &LevelEntry, b: &LevelEntry) -> (r: bool)
    ensures
        r == entry_le(entry_of(*a), entry_of(*b)),
{
    a.layer < b.layer || (a.layer == b.layer && a.order < b.order) || (a.layer == b.layer && a.order == b.order
        && !text_lt_exec(&b.skey, &a.skey))
}

/// The index of the first entry of `s` that must come after `x`.
spec fn first_after(s: Seq<Entry>, x: Entry) -> int
    decreases s.len(),
{
    if s.len() == 0 {
        0
    } else if entry_le(s[0], x) {
        1 + first_after(s.drop_first(), x)
    } else {
        0
    }
}

proof fn lemma_ins_at(s: Seq<Entry>, x: Entry)
    ensures
        0 <= first_after(s, x) <= s.len(),
        ins(s, x) == s.take(first_after(s, x)) + seq![x] + s.skip(first_after(s, x)),
    decreases s.len(),
{
    if s.len() == 0 {
        assert(ins(s, x) =~= s.take(0) + seq![x] + s.skip(0));
    } else if entry_le(s[0], x) {
        lemma_ins_at(s.drop_first(), x);
        let j = first_after(s.drop_first(), x);
        assert(s.take(j + 1) =~= seq![s[0]] + s.drop_first().take(j));
        assert(s.skip(j + 1) =~= s.drop_first().skip(j));
        assert(ins(s, x) =~= s.take(j + 1) + seq![x] + s.skip(j + 1));
    } else {
        assert(ins(s, x) =~= s.take(0) + seq![x] + s.skip(0));
    }
}

/// The indices of the level of `p`, sorted (see `isort`, `bucket`).
fn sorted_level(es: &Vec<LevelEntry>, p: Option<i32>) -> (r: Vec<usize>)
    ensures
        forall|k: int| 0 <= k < r@.len() ==> r@[k] < es@.len(),
        pick(entries_of(es@), r@) == isort(bucket(entries_of(es@), p)),
{
    let ghost e = entries_of(es@);
    let mut idx: Vec<usize> = Vec::new();
    let mut i: usize = 0;
    proof {
        assert(e.take(0) =~= Seq::<Entry>::empty());
        assert(pick(e, idx@) =~= Seq::<Entry>::empty());
    }
    while i < es.len()
        invariant
            i <= es.len(),
            e == entries_of(es@),
            forall|k: int| 0 <= k < idx@.len() ==> idx@[k] < i,
            pick(e, idx@) == bucket(e.take(i as int), p),
        decreases es.len() - i,
    {
        proof {
            assert(e.take(i + 1).drop_last() =~= e.take(i as int));
            assert(e.take(i + 1).last() == e[i as int]);
        }
        if es[i].parent == p {
            let ghost before = idx@;
            idx.push(i);
            proof {
                assert(pick(e, idx@) =~= pick(e, before).push(e[i as int]));
            }
        }
        i += 1;
    }
    proof {
        assert(e.take(es.len() as int) =~= e);
    }
    let ghost b = pick(e, idx@);
    let mut sorted: Vec<usize> = Vec::new();
    let mut t: usize = 0;
    proof {
        assert(b.take(0) =~= Seq::<Entry>::empty());
        assert(pick(e, sorted@) =~= Seq::<Entry>::empty());
    }
    while t < idx.len()
        invariant
            t <= idx.len(),
            e == entries_of(es@),
            b == pick(e, idx@),
            forall|k: int| 0 <= k < idx@.len() ==> idx@[k] < es@.len(),
            forall|k: int| 0 <= k < sorted@.len() ==> sorted@[k] < es@.len(),
            pick(e, sorted@) == isort(b.take(t as int)),
        decreases idx.len() - t,
    {
        let x = idx[t];
        let ghost s = pick(e, sorted@);
        let ghost xe = e[x as int];
        let mut j: usize = 0;
        proof {
            assert(s.skip(0) =~= s);
        }
        while j < sorted.len() && entry_le_exec(&es[sorted[j]], &es[x])
            invariant
                j <= sorted.len(),
                e == entries_of(es@),
                s == pick(e, sorted@),
                xe == e[x as int],
                x < es@.len(),
                forall|k: int| 0 <= k < sorted@.len() ==> sorted@[k] < es@.len(),
                first_after(s, xe) == j + first_after(s.skip(j as int), xe),
            decreases sorted.len() - j,
        {
            proof {
                assert(s.skip(j as int)[0] == s[j as int]);
                assert(s.skip(j as int).drop_first() =~= s.skip(j + 1));
            }
            j += 1;
        }
        proof {
            if j < sorted.len() {
                assert(s.skip(j as int)[0] == s[j as int]);
            }
            lemma_ins_at(s, xe);
            assert(b.take(t + 1).drop_last() =~= b.take(t as int));
            assert(b.take(t + 1).last() == xe);
        }
        let ghost before = sorted@;
        sorted.insert(j, x);
        proof {
            assert(pick(e, sorted@) =~= s.take(j as int) + seq![xe] + s.skip(j as int));
        }
        t += 1;
    }
    proof {
        assert(b.take(idx.len() as int) =~= b);
    }
    sorted
}

fn contains_key(removed: &Vec<Option<i32>>, p: Option<i32>) -> (r: bool)
    ensures
        r == removed@.contains(p),
{
    let mut i: usize = 0;
    while i < removed.len()
        invariant
            i <= removed.len(),
            forall|j: int| 0 <= j < i ==> removed@[j] != p,
        decreases removed.len() - i,
    {
        if removed[i] == p {
            return true;
        }
        i += 1;
    }
    false
}

/// See `level`: builds the level of `p`, taking the levels it builds.
fn level_exec(es: &Vec<LevelEntry>, p: Option<i32>, removed: &mut Vec<Option<i32>>) -> (r: Vec<TreeNode>)
    ensures
        nodes_view(r@) == level(entries_of(es@), p, old(removed)@).0,
        final(removed)@ == old(removed)@ + level(entries_of(es@), p, old(removed)@).1,
    decreases unremoved(entries_of(es@), old(removed)@), 0nat,
{
    let ghost e = entries_of(es@);
    let ghost r0 = removed@;
    if contains_key(removed, p) {
        proof {
            assert(removed@ =~= r0 + Seq::<Option<i32>>::empty());
            assert(nodes_view(Seq::<TreeNode>::empty()) =~= Seq::<NodeView>::empty());
        }
        return Vec::new();
    }
    let list = sorted_level(es, p);
    let ghost l = pick(e, list@);
    removed.push(p);
    if list.len() == 0 {
        proof {
            assert(removed@ =~= r0 + seq![p]);
            assert(nodes_view(Seq::<TreeNode>::empty()) =~= Seq::<NodeView>::empty());
        }
        return Vec::new();
    }
    let ghost r1 = removed@;
    proof {
        lemma_isort_len(bucket(e, p));
        lemma_unremoved_take(e, r0, p);
        assert(l.skip(0) =~= l);
        assert(nodes_view(Seq::<TreeNode>::empty()) =~= Seq::<NodeView>::empty());
        assert(Seq::<NodeView>::empty() + level_list(e, l, r1).0 =~= level_list(e, l, r1).0);
    }
    let mut out: Vec<TreeNode> = Vec::new();
    let mut k: usize = 0;
    while k < list.len()
        invariant
            e == entries_of(es@),
            l == pick(e, list@),
            l.len() == list@.len(),
            forall|q: int| 0 <= q < list@.len() ==> list@[q] < es@.len(),
            k <= list.len(),
            r1 == r0.push(p),
            r0 == old(removed)@,
            unremoved(e, r1) < unremoved(e, r0),
            unremoved(e, removed@) <= unremoved(e, r1),
            nodes_view(out@) + level_list(e, l.skip(k as int), removed@).0 == level_list(e, l, r1).0,
            removed@ + level_list(e, l.skip(k as int), removed@).1 == r1 + level_list(e, l, r1).1,
        decreases list.len() - k,
    {
        let ghost rb = removed@;
        let ghost rest_l = l.skip(k as int);
        proof {
            assert(rest_l[0] == l[k as int]);
            assert(rest_l.drop_first() =~= l.skip(k + 1));
        }
        let ent = &es[list[k]];
        let node = match ent.gid {
            Some(id) => {
                proof {
                    assert(unremoved(entries_of(es@), removed@) < unremoved(entries_of(es@), old(removed)@));
                }
                let children = level_exec(es, Some(id), removed);
                TreeNode::Group { key: ent.key.clone(), name: ent.name.clone(), children }
            },
            None => {
                proof {
                    assert(removed@ =~= rb + Seq::<Option<i32>>::empty());
                }
                TreeNode::Interface { key: ent.key.clone(), name: ent.name.clone(), method: ent.method.clone() }
            },
        };
        proof {
            let first_added = removed@.subrange(rb.len() as int, removed@.len() as int);
            assert(removed@ =~= rb + first_added);
            lemma_unremoved_mono(e, rb, first_added);
            lemma_nodes_view_push(out@, node);
        }
        let ghost ob = out@;
        out.push(node);
        proof {
            assert(nodes_view(out@) =~= nodes_view(ob).push(node_view(node)));
            let nxt = level_list(e, l.skip(k + 1), removed@);
            assert(nodes_view(out@) + nxt.0 =~= nodes_view(ob) + (seq![node_view(node)] + nxt.0));
        }
        k += 1;
    }
    proof {
        assert(l.skip(list.len() as int) =~= Seq::<Entry>::empty());
        assert(nodes_view(out@) + Seq::<NodeView>::empty() =~= nodes_view(out@));
        assert(removed@ + Seq::<Option<i32>>::empty() =~= removed@);
        assert(r1 + level_list(e, l, r1).1 =~= r0 + (seq![p] + level_list(e, l, r1).1));
    }
    out
}

/// The id of the first group without a parent (see `root_id`).
fn root_id_exec(groups: &Vec<GroupRow>) -> (r: Option<i32>)
    ensures
        r == root_id(groups@),
{
    let mut i: usize = 0;
    proof {
        assert(groups@.skip(0) =~= groups@);
    }
    while i < groups.len()
        invariant
            i <= groups.len(),
            root_id(groups@) == root_id(groups@.skip(i as int)),
        decreases groups.len() - i,
    {
        proof {
            assert(groups@.skip(i as int)[0] == groups@[i as int]);
            assert(groups@.skip(i as int).drop_first() =~= groups@.skip(i + 1));
        }
        if groups[i].parent_id.is_none() {
            return Some(groups[i].id);
        }
        i += 1;
    }
    proof {
        assert(groups@.skip(i as int) =~= Seq::<GroupRow>::empty());
    }
    None
}

/// The interface tree of a project from its group and interface rows (see
/// `interface_tree`): under each group its subgroups, then its interfaces,
/// each by manual order and then by key (an interface by its key with
/// `.json`).
pub fn list_interface_tree(groups: &Vec<GroupRow>, ifaces: &Vec<IfaceRow>) -> (r: Vec<TreeNode>)
    ensures
        nodes_view(r@) == interface_tree(groups@, ifaces@),
{
    let es = entries_exec(groups, ifaces);
    let root = root_id_exec(groups);
    let mut removed: Vec<Option<i32>> = Vec::new();
    proof {
        assert(removed@ =~= Seq::<Option<i32>>::empty());
    }
    level_exec(&es, root, &mut removed)
}

// ----- the order of a level -----

proof fn lemma_text_lt_asym(a: Seq<char>, b: Seq<char>)
    ensures
        !(text_lt(a, b) && text_lt(b, a)),
    decreases a.len(),
{
    if a.len() > 0 && b.len() > 0 && a[0] == b[0] {
        lemma_text_lt_asym(a.drop_first(), b.drop_first());
    }
}

proof fn lemma_text_lt_total(a: Seq<char>, b: Seq<char>)
    ensures
        a == b || text_lt(a, b) || text_lt(b, a),
    decreases a.len(),
{
    if a.len() > 0 && b.len() > 0 {
        if a[0] == b[0] {
            lemma_text_lt_total(a.drop_first(), b.drop_first());
            if a.drop_first() == b.drop_first() {
                assert(a =~= seq![a[0]] + a.drop_first());
                assert(b =~= seq![b[0]] + b.drop_first());
            }
        } else {
            vstd::utf8::char_u32_cast(a[0], a[0] as u32);
            vstd::utf8::char_u32_cast(b[0], b[0] as u32);
        }
    } else if a.len() == 0 && b.len() == 0 {
        assert(a =~= b);
    }
}

proof fn lemma_text_lt_trans(a: Seq<char>, b: Seq<char>, c: Seq<char>)
    requires
        text_lt(a, b),
        text_lt(b, c),
    ensures
        text_lt(a, c),
    decreases a.len(),
{
    if a.len() > 0 && b.len() > 0 && c.len() > 0 && a[0] == b[0] && b[0] == c[0] {
        lemma_text_lt_trans(a.drop_first(), b.drop_first(), c.drop_first());
    }
}

proof fn lemma_entry_le_total(a: Entry, b: Entry)
    ensures
        entry_le(a, b) || entry_le(b, a),
{
    lemma_text_lt_asym(a.skey, b.skey);
}

proof fn lemma_entry_le_trans(a: Entry, b: Entry, c: Entry)
    requires
        entry_le(a, b),
        entry_le(b, c),
    ensures
        entry_le(a, c),
{
    if a.layer == c.layer && a.order == c.order && text_lt(c.skey, a.skey) {
        assert(a.layer == b.layer && a.order == b.order);
        lemma_text_lt_total(a.skey, b.skey);
        if text_lt(a.skey, b.skey) {
            lemma_text_lt_trans(c.skey, a.skey, b.skey);
        }
    }
}

/// Whether every entry may stay before every later one.
pub open spec fn level_sorted(s: Seq<Entry>) -> bool {
    forall|i: int, j: int| 0 <= i < j < s.len() ==> entry_le(#[trigger] s[i], #[trigger] s[j])
}

proof fn lemma_first_after(s: Seq<Entry>, x: Entry)
    ensures
        forall|k: int| 0 <= k < first_after(s, x) ==> entry_le(#[trigger] s[k], x),
        first_after(s, x) < s.len() ==> !entry_le(s[first_after(s, x)], x),
    decreases s.len(),
{
    lemma_ins_at(s, x);
    if s.len() > 0 && entry_le(s[0], x) {
        let d = s.drop_first();
        lemma_first_after(d, x);
        lemma_ins_at(d, x);
        assert forall|k: int| 0 <= k < first_after(s, x) implies entry_le(#[trigger] s[k], x) by {
            if k > 0 {
                assert(s[k] == d[k - 1]);
            }
        }
        if first_after(s, x) < s.len() {
            assert(s[first_after(s, x)] == d[first_after(d, x)]);
        }
    }
}

proof fn lemma_ins_sorted(s: Seq<Entry>, x: Entry)
    requires
        level_sorted(s),
    ensures
        level_sorted(ins(s, x)),
{
    lemma_ins_at(s, x);
    lemma_first_after(s, x);
    let j = first_after(s, x);
    let r = ins(s, x);
    assert forall|a: int, b: int| 0 <= a < b < r.len() implies entry_le(#[trigger] r[a], #[trigger] r[b]) by {
        if b < j {
            assert(r[a] == s[a] && r[b] == s[b]);
        } else if b == j {
            assert(r[a] == s[a] && r[b] == x);
        } else if a == j {
            assert(r[b] == s[b - 1]);
            lemma_entry_le_total(s[j], x);
            if b - 1 > j {
                lemma_entry_le_trans(x, s[j], s[b - 1]);
            }
        } else if a < j {
            assert(r[a] == s[a] && r[b] == s[b - 1]);
        } else {
            assert(r[a] == s[a - 1] && r[b] == s[b - 1]);
        }
    }
}

/// Each level of the tree is in order: groups before interfaces, then by
/// manual order, then by ordering key; entries that tie keep their row
/// order.
pub proof fn law_level_sorted(s: Seq<Entry>)
    ensures
        level_sorted(isort(s)),
    decreases s.len(),
{
    if s.len() > 0 {
        law_level_sorted(s.drop_last());
        lemma_ins_sorted(isort(s.drop_last()), s.last());
    }
}

// ----- group paths -----

/// The id of the last group without a parent (the root that paths start
/// from).
pub open spec fn last_root_id(gs: Seq<GroupRow>) -> Option<i32>
    decreases gs.len(),
{
    if gs.len() == 0 {
        None
    } else if gs.last().parent_id.is_none() {
        Some(gs.last().id)
    } else {
        last_root_id(gs.drop_last())
    }
}

/// The position of the last row with this id.
pub open spec fn row_of(gs: Seq<GroupRow>, id: i32) -> Option<int>
    decreases gs.len(),
{
    if gs.len() == 0 {
        None
    } else if gs.last().id == id {
        Some(gs.len() - 1)
    } else {
        row_of(gs.drop_last(), id)
    }
}

/// The keys of the groups on the way down from `root` to `id` (`root`
/// excluded, `id` included), found by going up the parents at most `fuel`
/// times; none when the way up does not reach `root`.
pub open spec fn path_up(gs: Seq<GroupRow>, id: i32, root: i32, fuel: nat) -> Option<Seq<Seq<char>>>
    decreases fuel,
{
    if id == root {
        Some(Seq::empty())
    } else if fuel == 0 {
        None
    } else {
        match row_of(gs, id) {
            Some(i) => match gs[i].parent_id {
                Some(p) => match path_up(gs, p, root, (fuel - 1) as nat) {
                    Some(path) => Some(path.push(gs[i].key@)),
                    None => None,
                },
                None => None,
            },
            None => None,
        }
    }
}

/// The group path of the group `id`: the keys from the root down to it, or
/// empty when it does not hang below the root (a way up from a group in a
/// tree of `gs.len()` rows takes at most that many steps).
pub open spec fn group_path_spec(gs: Seq<GroupRow>, id: i32) -> Seq<Seq<char>> {
    match last_root_id(gs) {
        Some(root) => match path_up(gs, id, root, gs.len()) {
            Some(path) => path,
            None => Seq::empty(),
        },
        None => Seq::empty(),
    }
}

/// `path_up` with what is already known below the current group.
pub open spec fn with_tail(o: Option<Seq<Seq<char>>>, tail: Seq<Seq<char>>) -> Option<Seq<Seq<char>>> {
    match o {
        Some(p) => Some(p + tail),
        None => None,
    }
}

fn last_root_exec(groups: &Vec<GroupRow>) -> (r: Option<i32>)
    ensures
        r == last_root_id(groups@),
{
    let mut i: usize = groups.len();
    proof {
        assert(groups@.take(i as int) =~= groups@);
    }
    while i > 0
        invariant
            i <= groups.len(),
            last_root_id(groups@) == last_root_id(groups@.take(i as int)),
        decreases i,
    {
        proof {
            assert(groups@.take(i as int).last() == groups@[i - 1]);
            assert(groups@.take(i as int).drop_last() =~= groups@.take(i - 1));
        }
        if groups[i - 1].parent_id.is_none() {
            return Some(groups[i - 1].id);
        }
        i -= 1;
    }
    None
}

fn row_of_exec(groups: &Vec<GroupRow>, id: i32) -> (r: Option<usize>)
    ensures
        match r {
            Some(i) => row_of(groups@, id) == Some(i as int) && i < groups@.len(),
            None => row_of(groups@, id).is_none(),
        },
{
    let mut i: usize = groups.len();
    proof {
        assert(groups@.take(i as int) =~= groups@);
    }
    while i > 0
        invariant
            i <= groups.len(),
            row_of(groups@, id) == row_of(groups@.take(i as int), id),
        decreases i,
    {
        proof {
            assert(groups@.take(i as int).last() == groups@[i - 1]);
            assert(groups@.take(i as int).drop_last() =~= groups@.take(i - 1));
        }
        if groups[i - 1].id == id {
            return Some(i - 1);
        }
        i -= 1;
    }
    None
}

/// The group path of the group `group_id` among `groups` (see
/// `group_path_spec`): the keys from the root down to it.
pub fn group_path(groups: &Vec<GroupRow>, group_id: i32) -> (r: Vec<String>)
    ensures
        string_views(r@) == group_path_spec(groups@, group_id),
{
    let root = match last_root_exec(groups) {
        Some(root) => root,
        None => {
            return Vec::new();
        },
    };
    let n = groups.len();
    let mut cur = group_id;
    let mut steps: usize = 0;
    let mut acc: Vec<String> = Vec::new();
    proof {
        assert(with_tail(path_up(groups@, group_id, root, n as nat), string_views(acc@)) =~~= path_up(groups@, group_id, root, n as nat)) by {
            match path_up(groups@, group_id, root, n as nat) {
                Some(p) => assert(p + Seq::<Seq<char>>::empty() =~= p),
                None => {},
            }
        }
    }
    while cur != root && steps < n
        invariant
            n == groups@.len(),
            steps <= n,
            last_root_id(groups@) == Some(root),
            with_tail(path_up(groups@, cur, root, (n - steps) as nat), string_views(acc@))
                == path_up(groups@, group_id, root, n as nat),
        decreases n - steps,
    {
        match row_of_exec(groups, cur) {
            Some(i) => match groups[i].parent_id {
                Some(p) => {
                    let ghost before = string_views(acc@);
                    let ghost key = groups@[i as int].key@;
                    acc.insert(0, groups[i].key.clone());
                    proof {
                        assert(string_views(acc@) =~= seq![key] + before);
                        match path_up(groups@, p, root, (n - steps - 1) as nat) {
                            Some(q) => assert(q.push(key) + before =~= q + (seq![key] + before)),
                            None => {},
                        }
                    }
                    cur = p;
                    steps += 1;
                },
                None => {
                    return Vec::new();
                },
            },
            None => {
                return Vec::new();
            },
        }
    }
    if cur == root {
        proof {
            assert(Seq::<Seq<char>>::empty() + string_views(acc@) =~= string_views(acc@));
        }
        acc
    } else {
        Vec::new()
    }
}

} // verus!
