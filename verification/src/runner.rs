//! Running every interface of a project in tree order: which interfaces a
//! run covers, and the report that each outcome adds to.

use vstd::prelude::*;

use crate::assertions::AssertionResult;
use crate::domain::{owned, str_eq, InterfaceFile, TreeNode};
use crate::http::SendErrorInfo;
use crate::imports::{flatten_ifaces, refs_view, tree_refs};
use crate::text::{chars_of, copy_strings, extend_str, string_of, string_views};

verus! {

/// The outcome of one interface in a run.
#[derive(Debug)]
pub struct RunItem {
    pub group_path: Vec<String>,
    pub key: String,
    pub name: String,
    pub method: String,
    pub url: String,
    pub status: Option<u16>,
    pub time_ms: Option<u64>,
    pub ok: bool,
    pub error: Option<String>,
    pub assertion_results: Vec<AssertionResult>,
}

/// The outcome of a run: counts and one item per interface run. Only the
/// methods below change it, so every item is counted once (see
/// `report_ok`).
#[derive(Debug)]
pub struct RunReport {
    total: usize,
    passed: usize,
    failed: usize,
    items: Vec<RunItem>,
}

/// The interface references of a tree, depth first, each with its group
/// path (see `tree_refs`).
pub fn collect(nodes: &Vec<TreeNode>, base: &Vec<String>, out: &mut Vec<(Vec<String>, String)>)
    ensures
        refs_view(final(out)@) == refs_view(old(out)@) + tree_refs(nodes@, string_views(base@)),
{
    flatten_ifaces(nodes, base, out);
}

/// Whether a group path lies under the filter: no filter takes every path,
/// otherwise the filter must be a prefix of the path.
pub open spec fn in_group_spec(path: Seq<Seq<char>>, filter: Option<Seq<Seq<char>>>) -> bool {
    match filter {
        None => true,
        Some(f) => f.len() <= path.len() && path.take(f.len() as int) == f,
    }
}

/// See `in_group_spec`.
pub fn in_group(path: &Vec<String>, filter: Option<&Vec<String>>) -> (r: bool)
    ensures
        r == in_group_spec(
            string_views(path@),
            match filter {
                Some(f) => Some(string_views(f@)),
                None => None,
            },
        ),
{
    match filter {
        None => true,
        Some(f) => {
            assert(string_views(f@).len() == f@.len() && string_views(path@).len() == path@.len());
            if f.len() > path.len() {
                return false;
            }
            let mut i: usize = 0;
            while i < f.len()
                invariant
                    filter == Some(f),
                    f.len() <= path.len(),
                    i <= f.len(),
                    forall|k: int| 0 <= k < i ==> path@[k]@ == f@[k]@,
                decreases f.len() - i,
            {
                if !str_eq(path[i].as_str(), f[i].as_str()) {
                    assert(string_views(path@).take(f.len() as int)[i as int] != string_views(f@)[i as int]);
                    return false;
                }
                i += 1;
            }
            assert(string_views(path@).take(f.len() as int) =~= string_views(f@));
            true
        },
    }
}

impl RunReport {
    /// How many interfaces the report counts.
    pub closed spec fn counted_total(self) -> nat {
        self.total as nat
    }

    /// How many of them passed.
    pub closed spec fn counted_passed(self) -> nat {
        self.passed as nat
    }

    /// How many of them failed.
    pub closed spec fn counted_failed(self) -> nat {
        self.failed as nat
    }

    /// The items, in the order they were recorded.
    pub closed spec fn item_list(self) -> Seq<RunItem> {
        self.items@
    }

    /// Every item is counted once, as passed or failed.
    #[verifier::type_invariant]
    spec fn counts_match(self) -> bool {
        &&& self.passed + self.failed == self.items@.len()
        &&& self.total == self.passed + self.failed
        &&& self.passed == passed_items(self.items@)
    }
}

/// The report's counts: every item counted once, as passed or failed, the
/// passed ones being the items that are `ok`.
pub open spec fn report_ok(r: RunReport) -> bool {
    &&& r.counted_passed() + r.counted_failed() == r.item_list().len()
    &&& r.counted_total() == r.counted_passed() + r.counted_failed()
    &&& r.counted_passed() == passed_items(r.item_list())
}

/// How many items passed.
pub open spec fn passed_items(items: Seq<RunItem>) -> nat
    decreases items.len(),
{
    if items.len() == 0 {
        0
    } else {
        passed_items(items.drop_last()) + if items.last().ok { 1nat } else { 0nat }
    }
}

proof fn lemma_passed_push(items: Seq<RunItem>, x: RunItem)
    ensures
        passed_items(items.push(x)) == passed_items(items) + if x.ok { 1nat } else { 0nat },
{
    assert(items.push(x).drop_last() =~= items);
}

/// Whether every assertion result passed.
pub open spec fn all_passed(results: Seq<AssertionResult>) -> bool {
    forall|i: int| 0 <= i < results.len() ==> (#[trigger] results[i]).passed
}

impl RunReport {
    /// An empty report.
    pub fn new() -> (r: RunReport)
        ensures
            report_ok(r),
            r.item_list().len() == 0,
    {
        RunReport { total: 0, passed: 0, failed: 0, items: Vec::new() }
    }

    /// How many interfaces the report counts.
    pub fn total(&self) -> (r: usize)
        ensures
            r == self.counted_total(),
            report_ok(*self),
    {
        proof {
            use_type_invariant(self);
        }
        self.total
    }

    /// How many of them passed.
    pub fn passed(&self) -> (r: usize)
        ensures
            r == self.counted_passed(),
            report_ok(*self),
    {
        proof {
            use_type_invariant(self);
        }
        self.passed
    }

    /// How many of them failed.
    pub fn failed(&self) -> (r: usize)
        ensures
            r == self.counted_failed(),
            report_ok(*self),
    {
        proof {
            use_type_invariant(self);
        }
        self.failed
    }

    /// The items, in the order they were recorded.
    pub fn items(&self) -> (r: &Vec<RunItem>)
        ensures
            r@ == self.item_list(),
            report_ok(*self),
    {
        proof {
            use_type_invariant(self);
        }
        &self.items
    }

    /// The report taken apart: total, passed, failed and the items.
    pub fn into_parts(self) -> (r: (usize, usize, usize, Vec<RunItem>))
        ensures
            r.0 == self.counted_total(),
            r.1 == self.counted_passed(),
            r.2 == self.counted_failed(),
            r.3@ == self.item_list(),
            report_ok(self),
    {
        proof {
            use_type_invariant(&self);
        }
        let RunReport { total, passed, failed, items } = self;
        (total, passed, failed, items)
    }

    /// Adds `item`, counted as passed or failed by its `ok`.
    fn add(&mut self, item: RunItem)
        requires
            old(self).item_list().len() < usize::MAX,
        ensures
            report_ok(*final(self)),
            final(self).item_list() == old(self).item_list().push(item),
            final(self).counted_passed() == old(self).counted_passed() + if item.ok { 1nat } else { 0nat },
            final(self).counted_failed() == old(self).counted_failed() + if item.ok { 0nat } else { 1nat },
    {
        proof {
            use_type_invariant(&*self);
        }
        let mut taken = RunReport::new();
        std::mem::swap(self, &mut taken);
        proof {
            use_type_invariant(&taken);
        }
        let RunReport { total: _, passed, failed, items } = taken;
        let mut items = items;
        proof {
            lemma_passed_push(items@, item);
        }
        let (p, f) = if item.ok {
            (passed + 1, failed)
        } else {
            (passed, failed + 1)
        };
        items.push(item);
        *self = RunReport { total: p + f, passed: p, failed: f, items };
        proof {
            use_type_invariant(&*self);
        }
    }

    /// Records an interface of the tree whose document could not be found:
    /// a failed item named by its key, with the error `接口 <key> 不存在`.
    pub fn record_missing(&mut self, group_path: Vec<String>, key: String)
        requires
            old(self).item_list().len() < usize::MAX,
        ensures
            report_ok(*final(self)),
            final(self).counted_failed() == old(self).counted_failed() + 1,
            final(self).counted_passed() == old(self).counted_passed(),
            final(self).item_list().len() == old(self).item_list().len() + 1,
            final(self).item_list().drop_last() == old(self).item_list(),
            ({
                let it = final(self).item_list().last();
                &&& it.group_path == group_path
                &&& it.key == key
                &&& it.name@ == key@
                &&& it.method@.len() == 0
                &&& it.url@.len() == 0
                &&& it.status.is_none()
                &&& it.time_ms.is_none()
                &&& !it.ok
                &&& it.error matches Some(e) && e@ == "接口 "@ + key@ + " 不存在"@
                &&& it.assertion_results@.len() == 0
            }),
    {
        let mut m = chars_of("接口 ");
        extend_str(&mut m, key.as_str());
        extend_str(&mut m, " 不存在");
        let item = RunItem {
            group_path,
            name: key.clone(),
            key,
            method: String::new(),
            url: String::new(),
            status: None,
            time_ms: None,
            ok: false,
            error: Some(string_of(&m)),
            assertion_results: Vec::new(),
        };
        self.add(item);
        assert(self.item_list().drop_last() =~= old(self).item_list());
    }

    /// Records a response: the item passes when every assertion result
    /// passed (no assertions: it passes).
    pub fn record_response(
        &mut self,
        group_path: Vec<String>,
        key: String,
        iface: &InterfaceFile,
        status: u16,
        time_ms: u64,
        results: Vec<AssertionResult>,
    )
        requires
            old(self).item_list().len() < usize::MAX,
        ensures
            report_ok(*final(self)),
            final(self).item_list().len() == old(self).item_list().len() + 1,
            final(self).item_list().drop_last() == old(self).item_list(),
            ({
                let it = final(self).item_list().last();
                &&& it.group_path == group_path
                &&& it.key == key
                &&& it.name@ == iface.name@
                &&& it.method@ == iface.method@
                &&& it.url@ == iface.url@
                &&& it.status == Some(status)
                &&& it.time_ms == Some(time_ms)
                &&& it.ok == all_passed(results@)
                &&& it.error.is_none()
                &&& it.assertion_results == results
            }),
            all_passed(results@) ==> final(self).counted_passed() == old(self).counted_passed() + 1,
            !all_passed(results@) ==> final(self).counted_failed() == old(self).counted_failed() + 1,
    {
        let mut ok = true;
        let mut i: usize = 0;
        while i < results.len()
            invariant
                i <= results.len(),
                ok == forall|k: int| 0 <= k < i ==> (#[trigger] results@[k]).passed,
            decreases results.len() - i,
        {
            ok = ok && results[i].passed;
            i += 1;
        }
        let item = RunItem {
            group_path,
            key,
            name: iface.name.clone(),
            method: iface.method.clone(),
            url: iface.url.clone(),
            status: Some(status),
            time_ms: Some(time_ms),
            ok,
            error: None,
            assertion_results: results,
        };
        self.add(item);
        assert(self.item_list().drop_last() =~= old(self).item_list());
    }

    /// Records a failed send: a failed item with the error
    /// `请求失败（<kind>）：<message>`.
    pub fn record_failure(&mut self, group_path: Vec<String>, key: String, iface: &InterfaceFile, e: &SendErrorInfo)
        requires
            old(self).item_list().len() < usize::MAX,
        ensures
            report_ok(*final(self)),
            final(self).counted_failed() == old(self).counted_failed() + 1,
            final(self).counted_passed() == old(self).counted_passed(),
            final(self).item_list().len() == old(self).item_list().len() + 1,
            final(self).item_list().drop_last() == old(self).item_list(),
            ({
                let it = final(self).item_list().last();
                &&& it.group_path == group_path
                &&& it.key == key
                &&& it.name@ == iface.name@
                &&& it.method@ == iface.method@
                &&& it.url@ == iface.url@
                &&& it.status.is_none()
                &&& it.time_ms.is_none()
                &&& !it.ok
                &&& it.error matches Some(m) && m@ == "请求失败（"@ + e.kind@ + "）："@ + e.message@
                &&& it.assertion_results@.len() == 0
            }),
    {
        let mut m = chars_of("请求失败（");
        extend_str(&mut m, e.kind.as_str());
        extend_str(&mut m, "）：");
        extend_str(&mut m, e.message.as_str());
        let item = RunItem {
            group_path,
            key,
            name: iface.name.clone(),
            method: iface.method.clone(),
            url: iface.url.clone(),
            status: None,
            time_ms: None,
            ok: false,
            error: Some(string_of(&m)),
            assertion_results: Vec::new(),
        };
        self.add(item);
        assert(self.item_list().drop_last() =~= old(self).item_list());
    }
}

} // verus!
