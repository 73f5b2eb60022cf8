use apidock::commands::{history_input, HistorySnapshots};
use apidock::domain::{EnvironmentFile, InterfaceFile, TreeNode};
use apidock::http::{SendErrorInfo, SendResponse};
use apidock::repo::{
    check_group_move, check_quick_group_move, history_summary, place_by_id, place_by_key, quick_group_subtree,
    HistoryRefs, HistoryRow,
};
use apidock::tree::{group_path, list_interface_tree, GroupRow, IfaceRow};

fn s(v: &[&str]) -> Vec<String> {
    v.iter().map(|x| x.to_string()).collect()
}

#[test]
fn move_places_before_the_anchor_or_last() {
    let sib = vec![(1, "a".to_string()), (2, "b".to_string()), (3, "c".to_string())];
    assert_eq!(place_by_key(&sib, 9, Some("b")), vec![1, 9, 2, 3]);
    assert_eq!(place_by_key(&sib, 9, None), vec![1, 2, 3, 9]);
    assert_eq!(place_by_key(&sib, 9, Some("zz")), vec![1, 2, 3, 9]);
    // the moved node is taken out of its old place first
    assert_eq!(place_by_key(&sib, 3, Some("a")), vec![3, 1, 2]);
    assert_eq!(place_by_id(&vec![5, 6, 7], 6, Some(5)), vec![6, 5, 7]);
    assert_eq!(place_by_id(&vec![5, 6, 7], 8, Some(7)), vec![5, 6, 8, 7]);
    assert_eq!(place_by_id(&vec![], 8, Some(7)), vec![8]);
}

#[test]
fn group_move_rejects_root_self_and_descendants() {
    assert_eq!(check_group_move(&s(&[]), &s(&["x"])), Err("不能移动根级".to_string()));
    assert_eq!(check_group_move(&s(&["a", "b"]), &s(&["a", "b"])), Err("目标即自身".to_string()));
    assert_eq!(check_group_move(&s(&["a"]), &s(&["a", "b"])), Err("不能移动到自己的子分组下".to_string()));
    assert_eq!(check_group_move(&s(&["a", "b"]), &s(&["a"])), Ok(()));
    assert_eq!(check_group_move(&s(&["a"]), &s(&[])), Ok(()));
    assert_eq!(check_group_move(&s(&["a"]), &s(&["ab"])), Ok(()));
}

#[test]
fn quick_subtree_collects_descendants_breadth_first() {
    let groups = vec![(1, None), (2, Some(1)), (3, Some(2)), (4, Some(1)), (5, None), (6, Some(5))];
    assert_eq!(quick_group_subtree(1, &groups), vec![1, 2, 4, 3]);
    assert_eq!(quick_group_subtree(6, &groups), vec![6]);
    // a cycle does not loop
    let cyc = vec![(1, Some(2)), (2, Some(1))];
    assert_eq!(quick_group_subtree(1, &cyc), vec![1, 2]);
}

fn g(id: i32, parent: Option<i32>, key: &str, order: i32) -> GroupRow {
    GroupRow { id, parent_id: parent, key: key.into(), name: key.to_uppercase(), sort_order: order }
}

fn i(group: i32, key: &str, order: i32) -> IfaceRow {
    IfaceRow { group_id: group, key: key.into(), name: key.into(), method: "GET".into(), sort_order: order }
}

fn keys(nodes: &[TreeNode]) -> Vec<String> {
    nodes
        .iter()
        .map(|n| match n {
            TreeNode::Group { key, .. } => format!("g:{key}"),
            TreeNode::Interface { key, .. } => format!("i:{key}"),
        })
        .collect()
}

#[test]
fn tree_levels_follow_sort_order() {
    let groups = vec![g(1, None, "", 0), g(2, Some(1), "z-group", 0), g(3, Some(1), "a-group", 2), g(4, Some(2), "inner", 0)];
    let ifaces = vec![i(1, "b", 0), i(1, "a", 0), i(1, "c", -1), i(2, "x", 1), i(4, "deep", 0), i(99, "lost", 0)];
    let tree = list_interface_tree(&groups, &ifaces);
    assert_eq!(keys(&tree), vec!["g:z-group", "g:a-group", "i:c", "i:a", "i:b"]);
    match &tree[0] {
        TreeNode::Group { name, children, .. } => {
            assert_eq!(name, "Z-GROUP");
            assert_eq!(keys(children), vec!["g:inner", "i:x"]);
            match &children[0] {
                TreeNode::Group { children, .. } => assert_eq!(keys(children), vec!["i:deep"]),
                _ => panic!("expected a group"),
            }
        }
        _ => panic!("expected a group"),
    }
    // no root group: nothing to show
    assert!(list_interface_tree(&vec![g(2, Some(1), "x", 0)], &ifaces).is_empty());
}

fn iface() -> InterfaceFile {
    let mut f = InterfaceFile::new("登录");
    f.url = "{{host}}/login".into();
    f.method = "POST".into();
    f
}

fn snapshots(outcome: Option<&str>) -> HistorySnapshots {
    HistorySnapshots {
        doc_json: "{}".into(),
        env_json: "{}".into(),
        global_variables_json: "[]".into(),
        global_params_json: "{}".into(),
        outcome_json: outcome.map(String::from),
    }
}

#[test]
fn history_input_records_the_outcome() {
    let env = EnvironmentFile { id: "env-dev".into(), name: "开发".into(), ..Default::default() };
    let res = SendResponse {
        status: 201,
        status_text: "Created".into(),
        headers: Vec::new(),
        body: String::new(),
        time_ms: 12,
        size_bytes: 0,
        truncated: false,
        resolved_url: "http://h/login".into(),
    };
    let ok = history_input("ops", "p", "项目", &env, &iface(), None, None, &Ok(res), HistoryRefs::default(), 7, snapshots(Some("R")));
    assert_eq!(ok.url, "http://h/login");
    assert_eq!(ok.status, Some(201));
    assert!(ok.ok);
    assert_eq!(ok.time_ms, 12);
    assert_eq!(ok.iface_key, "");
    assert_eq!(ok.iface_name, "登录");
    assert_eq!(ok.response_json.as_deref(), Some("R"));
    assert!(ok.error_json.is_none());
    assert_eq!(ok.env_name, "开发");
    let err = SendErrorInfo { kind: "connect".into(), message: "refused".into() };
    let bad = history_input(
        "ops",
        "p",
        "项目",
        &env,
        &iface(),
        Some("login".into()),
        Some("别名".into()),
        &Err(err),
        HistoryRefs { team_id: Some(3), ..HistoryRefs::default() },
        8,
        snapshots(Some("E")),
    );
    assert_eq!(bad.url, "{{host}}/login");
    assert_eq!(bad.status, None);
    assert!(!bad.ok);
    assert_eq!(bad.time_ms, 0);
    assert_eq!(bad.iface_key, "login");
    assert_eq!(bad.iface_name, "别名");
    assert_eq!(bad.error_json.as_deref(), Some("E"));
    assert!(bad.response_json.is_none());
    assert_eq!(bad.team_id, Some(3));
    // a blank resolved URL falls back to the interface's own
    let blank = SendResponse {
        status: 200,
        status_text: String::new(),
        headers: Vec::new(),
        body: String::new(),
        time_ms: 1,
        size_bytes: 0,
        truncated: false,
        resolved_url: "  ".into(),
    };
    let b = history_input("ops", "p", "项目", &env, &iface(), None, None, &Ok(blank), HistoryRefs::default(), 9, snapshots(None));
    assert_eq!(b.url, "{{host}}/login");
}

#[test]
fn history_summary_reads_back_status_and_time() {
    let row = HistoryRow {
        id: 4,
        team_key: "ops".into(),
        project_key: "p".into(),
        project_name: "项目".into(),
        env_id: "env-dev".into(),
        env_name: "开发".into(),
        iface_key: "k".into(),
        iface_name: "n".into(),
        team_id: None,
        project_id: Some(2),
        group_id: None,
        iface_id: None,
        method: "GET".into(),
        url: "/x".into(),
        status: Some(404),
        ok: true,
        time_ms: -5,
        created_at_ms: 99,
        doc: "{}".into(),
        env_json: "{}".into(),
        global_variables: "[]".into(),
        global_params: "{}".into(),
        response: None,
        error: None,
    };
    let h = history_summary(&row);
    assert_eq!(h.status, Some(404));
    assert_eq!(h.time_ms, 0);
    assert_eq!(h.project_id, Some(2));
    assert_eq!(h.created_at_ms, 99);
}

/// Writes a new order as sort orders 1..n (what a move stores).
fn renumber(ifaces: &mut Vec<IfaceRow>, group: i32, order: &[i64], ids: &[(i64, String)]) {
    for (pos, id) in order.iter().enumerate() {
        let key = &ids.iter().find(|(i, _)| i == id).unwrap().1;
        let row = ifaces.iter_mut().find(|r| &r.key == key).unwrap();
        row.group_id = group;
        row.sort_order = pos as i32 + 1;
    }
}

fn iface_keys(nodes: &[TreeNode]) -> Vec<String> {
    nodes
        .iter()
        .filter_map(|n| match n {
            TreeNode::Interface { key, .. } => Some(key.clone()),
            _ => None,
        })
        .collect()
}

#[test]
fn interface_tree_order_follows_sort_order() {
    let mut groups = vec![g(1, None, "", 0)];
    let mut ifaces = vec![i(1, "a", 1), i(1, "b", 2), i(1, "c", 3)];
    assert_eq!(iface_keys(&list_interface_tree(&groups, &ifaces)), vec!["a", "b", "c"]);

    // c dragged before a (same group: a reorder)
    let ids: Vec<(i64, String)> = vec![(10, "a".into()), (11, "b".into()), (12, "c".into())];
    let order = place_by_key(&ids, 12, Some("a"));
    renumber(&mut ifaces, 1, &order, &ids);
    assert_eq!(iface_keys(&list_interface_tree(&groups, &ifaces)), vec!["c", "a", "b"]);

    // b dragged to the end
    let ids: Vec<(i64, String)> = vec![(12, "c".into()), (10, "a".into()), (11, "b".into())];
    let order = place_by_key(&ids, 11, None);
    renumber(&mut ifaces, 1, &order, &ids);
    assert_eq!(iface_keys(&list_interface_tree(&groups, &ifaces)), vec!["c", "a", "b"]);

    // groups always come before the interfaces of their level
    groups.push(g(2, Some(1), "z-group", 1));
    let tree = list_interface_tree(&groups, &ifaces);
    assert!(matches!(&tree[0], TreeNode::Group { key, .. } if key == "z-group"));
    assert_eq!(iface_keys(&tree).len(), 3);

    // dragged into the group: its place there follows before_key
    ifaces.push(i(2, "inner", 1));
    let ids: Vec<(i64, String)> = vec![(13, "inner".into()), (12, "c".into())];
    let order = place_by_key(&ids[..1].to_vec(), 12, Some("inner"));
    renumber(&mut ifaces, 2, &order, &ids);
    let tree = list_interface_tree(&groups, &ifaces);
    let inner = match &tree[0] {
        TreeNode::Group { children, .. } => iface_keys(children),
        _ => panic!("expected a group"),
    };
    assert_eq!(inner, vec!["c", "inner"]);
}

/// Writes a new order of groups under `parent` as sort orders 1..n.
fn renumber_groups(groups: &mut Vec<GroupRow>, parent: i32, order: &[i64]) {
    for (pos, id) in order.iter().enumerate() {
        let row = groups.iter_mut().find(|r| r.id as i64 == *id).unwrap();
        row.parent_id = Some(parent);
        row.sort_order = pos as i32 + 1;
    }
}

fn root_group_keys(tree: &[TreeNode]) -> Vec<String> {
    tree.iter()
        .filter_map(|n| match n {
            TreeNode::Group { key, .. } => Some(key.clone()),
            _ => None,
        })
        .collect()
}

/// The siblings of a level as (id, key), in sort order.
fn level(groups: &[GroupRow], parent: i32) -> Vec<(i64, String)> {
    let mut v: Vec<&GroupRow> = groups.iter().filter(|r| r.parent_id == Some(parent)).collect();
    v.sort_by_key(|r| r.sort_order);
    v.iter().map(|r| (r.id as i64, r.key.clone())).collect()
}

#[test]
fn group_order_follows_sort_order() {
    let mut groups = vec![g(1, None, "", 0), g(2, Some(1), "a", 1), g(3, Some(1), "b", 2), g(4, Some(1), "c", 3)];
    let mut ifaces = vec![i(1, "i1", 1)];
    let tree = list_interface_tree(&groups, &ifaces);
    assert_eq!(root_group_keys(&tree), vec!["a", "b", "c"]);
    // groups come before the interfaces of their level
    assert_eq!(tree.len(), 4);

    // c dragged before a
    assert_eq!(check_group_move(&s(&["c"]), &s(&[])), Ok(()));
    let order = place_by_key(&level(&groups, 1), 4, Some("a"));
    renumber_groups(&mut groups, 1, &order);
    assert_eq!(root_group_keys(&list_interface_tree(&groups, &ifaces)), vec!["c", "a", "b"]);

    // b dragged to the end
    let order = place_by_key(&level(&groups, 1), 3, None);
    renumber_groups(&mut groups, 1, &order);
    assert_eq!(root_group_keys(&list_interface_tree(&groups, &ifaces)), vec!["c", "a", "b"]);

    // a dragged into b: its subtree moves along
    ifaces.push(i(2, "in-a", 1));
    assert_eq!(check_group_move(&s(&["a"]), &s(&["b"])), Ok(()));
    let order = place_by_key(&level(&groups, 3), 2, None);
    renumber_groups(&mut groups, 3, &order);
    let rest: Vec<i64> = level(&groups, 1).iter().map(|(id, _)| *id).collect();
    renumber_groups(&mut groups, 1, &rest);
    let tree = list_interface_tree(&groups, &ifaces);
    assert_eq!(root_group_keys(&tree), vec!["c", "b"]);
    let b_children = match &tree[1] {
        TreeNode::Group { children, .. } => children,
        _ => panic!("expected a group"),
    };
    assert_eq!(keys(b_children), vec!["g:a"]);
    match &b_children[0] {
        TreeNode::Group { children, .. } => assert_eq!(keys(children), vec!["i:in-a"]),
        _ => panic!("expected a group"),
    }
    // b cannot move into its own descendant a
    assert!(check_group_move(&s(&["b"]), &s(&["b", "a"])).is_err());
}

#[test]
fn quick_request_order_follows_sort_order() {
    // a, b, c at the root level (ids 1, 2, 3)
    let root = vec![1, 2, 3];
    // c dragged before a
    let root = place_by_id(&root, 3, Some(1));
    assert_eq!(root, vec![3, 1, 2]);
    // b dragged to the end
    let root = place_by_id(&root, 2, None);
    assert_eq!(root, vec![3, 1, 2]);
    // a dragged into a group: both levels keep their own order
    let group = place_by_id(&vec![], 1, None);
    let root: Vec<i64> = root.into_iter().filter(|id| *id != 1).collect();
    assert_eq!(root, vec![3, 2]);
    assert_eq!(group, vec![1]);
    // d (id 4) added to the group, then dragged before a
    let group = place_by_id(&group, 4, None);
    assert_eq!(group, vec![1, 4]);
    let group = place_by_id(&group, 4, Some(1));
    assert_eq!(group, vec![4, 1]);
    assert_eq!(root, vec![3, 2]);
}

#[test]
fn quick_group_order_and_move() {
    // a, b, c (ids 1, 2, 3) at the root level
    let order = place_by_id(&vec![1, 2, 3], 3, Some(1));
    assert_eq!(order, vec![3, 1, 2]);
    // b moved into c
    let groups = vec![(1, None), (2, None), (3, None)];
    assert_eq!(check_quick_group_move(2, Some(3), &quick_group_subtree(2, &groups)), Ok(()));
    let groups = vec![(1, None), (2, Some(3)), (3, None)];
    assert_eq!(groups.iter().filter(|(_, p)| p.is_none()).count(), 2);
    // c cannot move under its descendant b, nor under itself
    assert_eq!(
        check_quick_group_move(3, Some(2), &quick_group_subtree(3, &groups)),
        Err("不能移动到自己的子分组下".to_string())
    );
    assert_eq!(check_quick_group_move(3, Some(3), &quick_group_subtree(3, &groups)), Err("目标即自身".to_string()));
    assert_eq!(check_quick_group_move(3, None, &quick_group_subtree(3, &groups)), Ok(()));
}

#[test]
fn group_paths_run_from_the_root_down() {
    let groups = vec![
        g(1, None, "", 0),
        g(2, Some(1), "a", 1),
        g(3, Some(2), "b", 1),
        g(5, Some(99), "x", 1),
        g(6, Some(7), "c1", 1),
        g(7, Some(6), "c2", 1),
    ];
    assert_eq!(group_path(&groups, 3), vec!["a", "b"]);
    assert_eq!(group_path(&groups, 2), vec!["a"]);
    assert!(group_path(&groups, 1).is_empty());
    // not below the root, unknown, or on a cycle: no path
    assert!(group_path(&groups, 5).is_empty());
    assert!(group_path(&groups, 42).is_empty());
    assert!(group_path(&groups, 6).is_empty());
    // no root at all
    assert!(group_path(&vec![g(2, Some(1), "a", 1)], 2).is_empty());
}

#[test]
fn a_move_keeps_the_other_siblings_in_order() {
    let sib = vec![(1, "a".to_string()), (2, "b".to_string()), (3, "c".to_string())];
    for (src, before) in [(2, Some("a")), (2, None), (9, Some("c")), (1, Some("zz"))] {
        let r = place_by_key(&sib, src, before);
        let others: Vec<i64> = sib.iter().map(|(id, _)| *id).filter(|id| *id != src).collect();
        assert_eq!(r.len(), others.len() + 1);
        assert_eq!(r.iter().filter(|x| **x == src).count(), 1);
        assert_eq!(r.iter().copied().filter(|x| *x != src).collect::<Vec<_>>(), others);
    }
    assert_eq!(place_by_key(&sib, 2, Some("a")), vec![2, 1, 3]);
}

#[test]
fn a_moved_level_is_numbered_from_one() {
    let order = place_by_key(&vec![(1, "a".to_string()), (2, "b".to_string()), (3, "c".to_string())], 3, Some("a"));
    assert_eq!(apidock::repo::sort_orders(&order), vec![(3, 1), (1, 2), (2, 3)]);
    assert!(apidock::repo::sort_orders(&Vec::new()).is_empty());
}
