use apidock::repo::{default_environments, sort_key, HistoryRefs};

#[test]
fn default_environments_are_builtin() {
    let envs = default_environments();
    assert_eq!(envs.len(), 3);
    assert_eq!(envs[0].1.id, "env-prod");
    assert_eq!(envs[1].0, "test");
    assert_eq!(envs[2].1.name, "开发环境");
    assert!(envs.iter().all(|(_, e)| e.builtin && e.host.is_empty() && e.variables.is_empty()));
}

#[test]
fn sort_keys() {
    assert_eq!(sort_key("auth", true), "auth");
    assert_eq!(sort_key("login", false), "login.json");
}

#[test]
fn history_refs_default_is_empty() {
    let r = HistoryRefs::default();
    assert!(r.team_id.is_none() && r.project_id.is_none() && r.group_id.is_none() && r.iface_id.is_none());
}

#[test]
fn new_project_environments_list_by_id_with_prod_active() {
    use_summaries();
}

fn use_summaries() {
    let mut rows: Vec<apidock::repo::EnvironmentRow> = apidock::repo::default_environments()
        .into_iter()
        .map(|(_, e)| apidock::repo::EnvironmentRow {
            env_id: e.id,
            file_key: e.file,
            name: e.name,
            host: e.host,
            builtin: e.builtin,
        })
        .collect();
    // the store lists them by id
    rows.sort_by(|a, b| a.env_id.cmp(&b.env_id));
    let list = apidock::repo::environment_summaries(rows, &Some("env-prod".to_string()));
    let ids: Vec<&str> = list.iter().map(|s| s.id.as_str()).collect();
    assert_eq!(ids, vec!["env-dev", "env-prod", "env-test"]);
    assert!(list.iter().all(|s| s.builtin));
    let active: Vec<&str> = list.iter().filter(|s| s.active).map(|s| s.id.as_str()).collect();
    assert_eq!(active, vec!["env-prod"]);
    assert_eq!(apidock::repo::check_environment_delete(true), Err("内置环境不可删除".to_string()));
    assert_eq!(apidock::repo::check_environment_delete(false), Ok(()));
}
