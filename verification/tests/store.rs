use agent_switch::store::{Provider, Store, StoreData};

fn named(id: &str, name: &str) -> Provider {
    Provider { id: id.to_string(), name: name.to_string(), ..Default::default() }
}

fn store_with(ps: Vec<Provider>) -> Store {
    Store::with_data(
        "/data/agent-switch-cn/config.json".to_string(),
        StoreData { providers: ps, active: Vec::new() },
    )
}

#[test]
fn upsert_replaces_by_id_or_appends() {
    let mut s = store_with(vec![named("a", "A"), named("b", "B")]);
    s.upsert_provider(named("b", "B2"));
    s.upsert_provider(named("c", "C"));
    let names: Vec<String> = s.list_providers().into_iter().map(|p| p.name).collect();
    assert_eq!(names, vec!["A", "B2", "C"]);
    assert_eq!(s.get_provider("b").unwrap().name, "B2");
    assert!(s.get_provider("zz").is_none());
}

#[test]
fn delete_removes_provider_and_its_activations() {
    let mut s = store_with(vec![named("a", "A"), named("b", "B")]);
    s.set_active("codex", "a");
    s.set_active("zcode", "b");
    s.delete_provider("a");
    assert!(s.get_provider("a").is_none());
    assert_eq!(s.list_providers().len(), 1);
    assert_eq!(s.get_active("codex"), None);
    assert_eq!(s.get_active("zcode").as_deref(), Some("b"));
}

#[test]
fn set_active_then_get_active() {
    let mut s = store_with(Vec::new());
    assert_eq!(s.get_active("trae"), None);
    s.set_active("trae", "p1");
    s.set_active("trae", "p2");
    assert_eq!(s.get_active("trae").as_deref(), Some("p2"));
    assert_eq!(s.data.active.len(), 1);
}

#[test]
fn backups_sit_beside_the_config_file() {
    let s = store_with(Vec::new());
    assert_eq!(s.backup_dir(), "/data/agent-switch-cn/backups");
    let bare = Store::with_data("config.json".to_string(), StoreData::default());
    assert_eq!(bare.backup_dir(), "backups");
}

#[test]
fn backups_are_listed_latest_first_up_to_the_limit() {
    let entries: Vec<(String, String)> = vec!["b.2024-01-02", "b.2024-03-01", "a.2025-01-01", "b.2024-02-01"]
        .into_iter()
        .map(|n| (n.to_string(), format!("/bk/{n}")))
        .collect();
    assert_eq!(
        Store::list_backups(&entries, 3),
        vec!["/bk/b.2024-03-01", "/bk/b.2024-02-01", "/bk/b.2024-01-02"]
    );
    assert_eq!(Store::list_backups(&entries, 10).len(), 4);
    assert!(Store::list_backups(&entries, 0).is_empty());
    assert!(Store::list_backups(&Vec::new(), 20).is_empty());
}

#[test]
fn default_model_and_selected_models() {
    let mut p = named("a", "A");
    assert_eq!(p.default_model(), None);
    p.model_names = Some(vec!["".into(), "x".into(), "y".into(), "x".into()]);
    assert_eq!(p.default_model().as_deref(), Some("x"));
    assert_eq!(p.selected_models(), vec!["x", "y"]);
    p.model_name = Some("y".into());
    assert_eq!(p.default_model().as_deref(), Some("y"));
    assert_eq!(p.selected_models(), vec!["y", "x"]);
}
