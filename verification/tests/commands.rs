use agent_switch::commands::{data_dir, getrandom_fallback, prepare_provider, providers_save, uuid};
use agent_switch::store::{Provider, Store, StoreData};
use std::path::Path;

#[test]
fn saving_normalizes_the_provider() {
    let p = Provider {
        id: String::new(),
        name: "  My source ".into(),
        base_url: " https://api.x/v1 ".into(),
        api_key: " sk ".into(),
        model_name: Some("   ".into()),
        website: Some(" ftp://x ".into()),
        models: Some(vec![" a ".into(), "".into(), "b".into(), "a".into(), "  ".into()]),
        ..Default::default()
    };
    let r = prepare_provider(p, 1000, "fresh-id".into());
    assert_eq!(r.id, "fresh-id");
    assert_eq!(r.name, "My source");
    assert_eq!(r.base_url, "https://api.x/v1");
    assert_eq!(r.api_key, "sk");
    assert_eq!(r.model_name, None);
    assert_eq!(r.website, None);
    assert_eq!(r.models, Some(vec!["a".to_string(), "b".to_string()]));
    assert_eq!(r.created_at, 1000);
    assert_eq!(r.updated_at, 1000);
}

#[test]
fn saving_keeps_id_creation_time_and_http_website() {
    let p = Provider {
        id: "keep".into(),
        website: Some(" https://x.example ".into()),
        model_name: Some(" m ".into()),
        models: Some(vec!["".into()]),
        created_at: 5,
        ..Default::default()
    };
    let r = prepare_provider(p, 9, "unused".into());
    assert_eq!(r.id, "keep");
    assert_eq!(r.website.as_deref(), Some("https://x.example"));
    assert_eq!(r.model_name.as_deref(), Some("m"));
    assert_eq!(r.models, None);
    assert_eq!(r.created_at, 5);
    assert_eq!(r.updated_at, 9);
}

#[test]
fn saving_keeps_at_most_500_models() {
    let many: Vec<String> = (0..600).map(|i| format!("m{i}")).collect();
    let p = Provider { id: "x".into(), models: Some(many), ..Default::default() };
    let r = prepare_provider(p, 1, String::new());
    let kept = r.models.unwrap();
    assert_eq!(kept.len(), 500);
    assert_eq!(kept[499], "m499");
}

#[test]
fn saving_puts_the_provider_in_the_store() {
    let mut store = Store::with_data("c.json".into(), StoreData::default());
    let r = providers_save(&mut store, Provider { name: " n ".into(), ..Default::default() }, 7, "id1".into());
    assert_eq!(r.id, "id1");
    assert_eq!(store.get_provider("id1").unwrap().name, "n");
}

#[test]
fn identifiers_are_version_4_uuids() {
    let u = uuid(42);
    assert_eq!(u.len(), 36);
    let c: Vec<char> = u.chars().collect();
    assert_eq!(c[8], '-');
    assert_eq!(c[13], '-');
    assert_eq!(c[18], '-');
    assert_eq!(c[23], '-');
    assert_eq!(c[14], '4');
    assert!(matches!(c[19], '8' | '9' | 'a' | 'b'));
    assert!(u.chars().all(|ch| ch == '-' || ch.is_ascii_hexdigit() && !ch.is_ascii_uppercase()));
    assert_eq!(uuid(42), u);
    assert_ne!(uuid(43), u);
}

#[test]
fn random_bytes_follow_the_generator() {
    let mut buf = [0u8; 3];
    getrandom_fallback(&mut buf, 0);
    let mut s: u64 = 0;
    let mut want = [0u8; 3];
    for b in want.iter_mut() {
        s = s.wrapping_mul(6364136223846793005).wrapping_add(1442695040888963407);
        *b = (s >> 33) as u8;
    }
    assert_eq!(buf, want);
}

#[test]
fn data_dir_prefers_appdata() {
    assert_eq!(
        data_dir(Some("/roaming".into()), Some("/home/u".into()), false),
        Path::new("/roaming").join("agent-switch-cn").to_str().unwrap()
    );
    assert_eq!(
        data_dir(None, Some("/home/u".into()), true),
        Path::new("/home/u").join("AppData").join("Roaming").join("agent-switch-cn-dev").to_str().unwrap()
    );
    assert_eq!(
        data_dir(None, None, false),
        Path::new(".").join("AppData").join("Roaming").join("agent-switch-cn").to_str().unwrap()
    );
}

#[test]
fn saving_a_saved_provider_only_moves_its_update_time() {
    let p = Provider {
        name: "  n ".into(),
        base_url: " https://b/ ".into(),
        model_name: Some(" m ".into()),
        website: Some(" https://w ".into()),
        models: Some(vec![" x ".into(), "x".into(), " y".into()]),
        ..Default::default()
    };
    let once = prepare_provider(p, 10, "id-1".into());
    let twice = prepare_provider(once.copy(), 20, "id-2".into());
    assert_eq!(twice.id, once.id);
    assert_eq!(twice.name, once.name);
    assert_eq!(twice.base_url, once.base_url);
    assert_eq!(twice.model_name, once.model_name);
    assert_eq!(twice.website, once.website);
    assert_eq!(twice.models, once.models);
    assert_eq!(twice.created_at, 10);
    assert_eq!(twice.updated_at, 20);
}
