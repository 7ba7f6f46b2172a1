use agent_switch::agent_service::{
    cdp_not_ready, cdp_switch_result, config_write_is_safe, disable_entry, file_switch_result,
    normalized_base,
    file_switch_backed_up, qoder_apply, workbuddy_apply, workbuddy_url, zcode_apply, AgentInstance,
    AgentService, ConfigContent, FileStep, SwitchPlan,
};
use agent_switch::agents::{codegeex_agent, generic_cli_agent, zcode_agent};
use agent_switch::trae::{EnsureResult, SwitchOutcome};
use agent_switch::json::Json;
use agent_switch::store::{Provider, Store, StoreData};

fn text(x: &str) -> Json {
    Json::Str(x.to_string())
}

fn object(entries: Vec<(&str, Json)>) -> Json {
    Json::Obj(entries.into_iter().map(|(k, v)| (k.to_string(), v)).collect())
}

fn entries_of(j: Json) -> Vec<(String, Json)> {
    match j {
        Json::Obj(e) => e,
        _ => panic!("not an object"),
    }
}

fn at<'a>(j: &'a Json, k: &str) -> &'a Json {
    match j {
        Json::Obj(e) => match e.iter().find(|(kk, _)| kk == k) {
            Some((_, v)) => v,
            None => panic!("missing member {k}"),
        },
        _ => panic!("not an object"),
    }
}

fn has(j: &Json, k: &str) -> bool {
    match j {
        Json::Obj(e) => e.iter().any(|(kk, _)| kk == k),
        _ => false,
    }
}

fn string_at(j: &Json, k: &str) -> String {
    match at(j, k) {
        Json::Str(s) => s.clone(),
        _ => panic!("member {k} is not a string"),
    }
}

fn bool_at(j: &Json, k: &str) -> bool {
    match at(j, k) {
        Json::Bool(b) => *b,
        _ => panic!("member {k} is not a boolean"),
    }
}

fn items<'a>(j: &'a Json) -> &'a Vec<Json> {
    match j {
        Json::Arr(a) => a,
        _ => panic!("not an array"),
    }
}

fn provider(base_url: &str, model_name: Option<&str>) -> Provider {
    Provider {
        id: "abc".into(),
        name: "测试源".into(),
        base_url: base_url.into(),
        api_key: "sk-test".into(),
        model_name: model_name.map(|s| s.to_string()),
        ..Default::default()
    }
}

fn empty_store() -> Store {
    Store::with_data("config.json".to_string(), StoreData::default())
}

#[test]
fn qoder_apply_preserves_other_providers_and_plugins() {
    let before = entries_of(object(vec![
        ("enabledPlugins", object(vec![("demo@bundler", Json::Bool(true))])),
        (
            "providers",
            object(vec![(
                "qoder-custom-keep",
                object(vec![("baseUrl", text("https://keep.example.com"))]),
            )]),
        ),
    ]));
    let v = Json::Obj(qoder_apply(before, &provider("https://api.example.com/v1", Some("m1"))).unwrap());

    assert!(bool_at(at(&v, "enabledPlugins"), "demo@bundler"));
    assert_eq!(
        string_at(at(at(&v, "providers"), "qoder-custom-keep"), "baseUrl"),
        "https://keep.example.com"
    );

    let entry = at(at(&v, "providers"), "qoder-custom-abc");
    assert_eq!(string_at(entry, "providerId"), "qoder-custom-abc");
    assert_eq!(string_at(entry, "baseUrl"), "https://api.example.com/v1");
    assert_eq!(string_at(entry, "apiKey"), "sk-test");
    assert_eq!(string_at(entry, "displayName"), "测试源");
    assert_eq!(string_at(entry, "type"), "openai-compatible");
    assert_eq!(string_at(entry, "protocol"), "openai");
    assert_eq!(string_at(entry, "authType"), "bearer");
    assert_eq!(string_at(entry, "model"), "m1");
    assert_eq!(string_at(&items(at(entry, "models"))[0], "model"), "m1");
}

#[test]
fn qoder_apply_marks_anthropic_endpoints() {
    let v = Json::Obj(
        qoder_apply(Vec::new(), &provider("https://api.anthropic.com/v1", Some("anthropic-model"))).unwrap(),
    );
    let entry = at(at(&v, "providers"), "qoder-custom-abc");
    assert_eq!(string_at(entry, "protocol"), "anthropic");
    assert_eq!(string_at(entry, "authType"), "api-key");
}

#[test]
fn qoder_apply_rejects_invalid_input() {
    let plain_http = qoder_apply(Vec::new(), &provider("http://api.example.com", Some("m1")));
    assert!(plain_http.is_err());
    let no_model = qoder_apply(Vec::new(), &provider("https://api.example.com", None));
    assert!(no_model.is_err());
    let written: Vec<Vec<(String, Json)>> =
        vec![plain_http, no_model].into_iter().filter_map(|r| r.ok()).collect();
    assert!(written.is_empty());
}

#[test]
fn qoder_apply_writes_all_selected_models() {
    let mut p = provider("https://api.example.com/v1", Some("m2"));
    p.model_names = Some(vec!["m1".into(), "m2".into(), "m3".into()]);
    let v = Json::Obj(qoder_apply(Vec::new(), &p).unwrap());
    let entry = at(at(&v, "providers"), "qoder-custom-abc");
    assert_eq!(string_at(entry, "model"), "m2");

    let models = items(at(entry, "models"));
    let names: Vec<String> = models.iter().map(|m| string_at(m, "model")).collect();
    assert_eq!(names, vec!["m2", "m1", "m3"]);
    assert_eq!(string_at(&models[0], "displayName"), "m2");
}

#[test]
fn qoder_apply_defaults_to_first_checked_model() {
    let mut p = provider("https://api.example.com/v1", None);
    p.model_names = Some(vec!["only-one".into(), "another".into()]);
    let v = Json::Obj(qoder_apply(Vec::new(), &p).unwrap());
    let entry = at(at(&v, "providers"), "qoder-custom-abc");
    assert_eq!(string_at(entry, "model"), "only-one");
    assert_eq!(items(at(entry, "models")).len(), 2);
}

#[test]
fn zcode_apply_writes_all_selected_models() {
    let mut p = provider("https://api.example.com/v1", Some("m1"));
    p.model_names = Some(vec!["m1".into(), "m2".into()]);
    let v = Json::Obj(zcode_apply(Vec::new(), &p));
    let models = at(at(at(&v, "provider"), "agent-switch:abc"), "models");
    match models {
        Json::Obj(e) => assert_eq!(e.len(), 2),
        _ => panic!("models is not an object"),
    }
    assert!(has(models, "m1"));
    assert!(has(models, "m2"));
}

#[test]
fn workbuddy_apply_registers_openai_endpoint_and_preserves_others() {
    let before = entries_of(object(vec![
        (
            "models",
            Json::Arr(vec![object(vec![
                ("id", text("native")),
                ("name", text("native")),
                ("url", text("https://x/y")),
            ])]),
        ),
        ("extra", Json::Num("1".to_string())),
    ]));
    let mut p = provider("https://api.example.com/v1", Some("m1"));
    p.model_names = Some(vec!["m1".into(), "m2".into()]);
    let v = Json::Obj(workbuddy_apply(before, &p).unwrap());

    match at(&v, "extra") {
        Json::Num(n) => assert_eq!(n, "1"),
        _ => panic!("extra changed"),
    }
    let list = items(at(&v, "models"));
    assert_eq!(list.len(), 3);
    assert!(list.iter().any(|e| string_at(e, "id") == "native"));

    let managed = list.iter().find(|e| string_at(e, "id") == "agent-switch:abc:m1").unwrap();
    assert_eq!(string_at(managed, "name"), "m1");
    assert_eq!(string_at(managed, "vendor"), "测试源");
    assert_eq!(string_at(managed, "url"), "https://api.example.com/v1/chat/completions");
    assert_eq!(string_at(managed, "apiKey"), "sk-test");
    assert!(bool_at(managed, "supportsToolCall"));
    assert!(list.iter().any(|e| string_at(e, "id") == "agent-switch:abc:m2"));
}

#[test]
fn workbuddy_apply_replaces_managed_entries_on_reswitch() {
    let first = workbuddy_apply(Vec::new(), &provider("https://api.example.com/v1", Some("m1"))).unwrap();
    let second = workbuddy_apply(first, &provider("https://api.example.com/v1", Some("m3"))).unwrap();
    let v = Json::Obj(second);
    let list = items(at(&v, "models"));
    assert_eq!(list.len(), 1);
    assert_eq!(string_at(&list[0], "id"), "agent-switch:abc:m3");
}

#[test]
fn workbuddy_apply_rejects_invalid_input() {
    let no_model = workbuddy_apply(Vec::new(), &provider("https://api.example.com/v1", None));
    assert!(no_model.is_err());
    let no_url = workbuddy_apply(Vec::new(), &provider("", Some("m1")));
    assert!(no_url.is_err());
    let written: Vec<Vec<(String, Json)>> =
        vec![no_model, no_url].into_iter().filter_map(|r| r.ok()).collect();
    assert!(written.is_empty());
}

#[test]
fn workbuddy_read_status_matches_provider_by_url() {
    let mut store = empty_store();
    let mut p = provider("https://api.example.com/v1", Some("m1"));
    p.model_names = Some(vec!["m1".into()]);
    store.upsert_provider(p.copy());

    let svc = AgentService::new(&store);
    let file = Json::Obj(workbuddy_apply(Vec::new(), &p).unwrap());
    let st = svc.workbuddy_read_status(Some(&file));
    assert!(st.configured);
    assert_eq!(st.provider_name.as_deref(), Some("测试源"));
    assert_eq!(st.model_name.as_deref(), Some("m1"));
}

// ---- further cases ----

#[test]
fn qoder_error_messages_name_the_problem() {
    let e = qoder_apply(Vec::new(), &provider("https://api.example.com", None)).err().unwrap();
    assert_eq!(e, "Qoder 需要先填写或勾选「模型名」");
    let e = qoder_apply(Vec::new(), &provider("http://api.example.com", Some("m"))).err().unwrap();
    assert_eq!(e, "Qoder 仅接受 https 开头的 Base URL");
}

#[test]
fn workbuddy_error_messages_name_the_problem() {
    let e = workbuddy_apply(Vec::new(), &provider("https://a.example", None)).err().unwrap();
    assert_eq!(e, "WorkBuddy 需要先填写或勾选「模型名」");
    let e = workbuddy_apply(Vec::new(), &provider("  / ", Some("m"))).err().unwrap();
    assert_eq!(e, "WorkBuddy 需要先填写 Base URL");
}

#[test]
fn qoder_apply_twice_is_the_same_as_once() {
    let p = provider("https://api.example.com/v1", Some("m1"));
    let once = qoder_apply(Vec::new(), &p).unwrap();
    let twice = qoder_apply(qoder_apply(Vec::new(), &p).unwrap(), &p).unwrap();
    assert_eq!(once.len(), twice.len());
    let a = Json::Obj(once);
    let b = Json::Obj(twice);
    let ea = at(at(&a, "providers"), "qoder-custom-abc");
    let eb = at(at(&b, "providers"), "qoder-custom-abc");
    assert_eq!(string_at(ea, "model"), string_at(eb, "model"));
    match at(&b, "providers") {
        Json::Obj(e) => assert_eq!(e.len(), 1),
        _ => panic!("providers is not an object"),
    }
}

#[test]
fn zcode_apply_disables_other_providers_and_keeps_the_rest() {
    let before = entries_of(object(vec![
        ("theme", text("dark")),
        (
            "provider",
            object(vec![
                ("other", object(vec![("enabled", Json::Bool(true)), ("name", text("x"))])),
                ("plain", object(vec![("name", text("y"))])),
            ]),
        ),
    ]));
    let p = provider("https://api.anthropic.com", Some("anthropic-model"));
    let v = Json::Obj(zcode_apply(before, &p));
    assert_eq!(string_at(&v, "theme"), "dark");
    let table = at(&v, "provider");
    assert!(!bool_at(at(table, "other"), "enabled"));
    assert_eq!(string_at(at(table, "other"), "name"), "x");
    assert!(!has(at(table, "plain"), "enabled"));
    let mine = at(table, "agent-switch:abc");
    assert!(bool_at(mine, "enabled"));
    assert_eq!(string_at(mine, "kind"), "anthropic");
    assert_eq!(string_at(mine, "source"), "custom");
    assert_eq!(string_at(at(mine, "options"), "baseURL"), "https://api.anthropic.com");
}

#[test]
fn disable_entry_only_touches_an_existing_enabled_flag() {
    let on = disable_entry(object(vec![("enabled", Json::Bool(true))]));
    assert!(!bool_at(&on, "enabled"));
    let none = disable_entry(object(vec![("name", text("n"))]));
    assert!(!has(&none, "enabled"));
}

#[test]
fn zcode_status_reports_the_enabled_provider() {
    let mut store = empty_store();
    let p = provider("https://api.example.com/v1/", Some("m1"));
    store.upsert_provider(p.copy());
    let svc = AgentService::new(&store);
    let file = Json::Obj(zcode_apply(Vec::new(), &p));
    let st = svc.zcode_read_status(Some(&file));
    assert!(st.configured);
    assert_eq!(st.provider_name.as_deref(), Some("测试源"));
    assert_eq!(st.model_name.as_deref(), Some("m1"));
    let missing = svc.zcode_read_status(None);
    assert!(!missing.configured);
}

#[test]
fn base_urls_are_normalized() {
    assert_eq!(normalized_base("  https://a.example/v1// "), "https://a.example/v1");
    assert_eq!(workbuddy_url("https://a.example/v1/"), "https://a.example/v1/chat/completions");
    assert_eq!(
        workbuddy_url("https://a.example/v1/chat/completions"),
        "https://a.example/v1/chat/completions"
    );
}

fn store_with_provider(p: &Provider) -> Store {
    let mut store = empty_store();
    store.upsert_provider(p.copy());
    store
}

fn linux_env() -> agent_switch::fsutil::PathEnv {
    agent_switch::fsutil::PathEnv {
        userprofile: None,
        home: Some("/home/u".to_string()),
        appdata: None,
        xdg_config_home: None,
    }
}

#[test]
fn codegeex_settings_are_written_as_flat_keys() {
    let p = provider("https://api.example.com/v1", Some("glm-4"));
    let store = store_with_provider(&p);
    let svc = AgentService::new(&store);
    let current = ConfigContent::Json(object(vec![("editor.fontSize", Json::Num("14".into()))]));
    let out = svc
        .write_provider_to_config(&codegeex_agent(), "/x/settings.json", Some(current), &p)
        .unwrap();
    let v = match out {
        ConfigContent::Json(v) => v,
        _ => panic!("json expected"),
    };
    assert_eq!(string_at(&v, "codegeex.apiBase"), "https://api.example.com/v1");
    assert_eq!(string_at(&v, "codegeex.apiKey"), "sk-test");
    assert_eq!(string_at(&v, "codegeex.model"), "glm-4");
    assert!(has(&v, "editor.fontSize"));
    assert!(!has(&v, "codegeex"));
}

#[test]
fn generic_cli_toml_settings_are_written() {
    let p = provider("https://api.example.com/v1", None);
    let store = store_with_provider(&p);
    let svc = AgentService::new(&store);
    let out = svc
        .write_provider_to_config(&generic_cli_agent(), "/x/custom.toml", None, &p)
        .unwrap();
    match out {
        ConfigContent::Toml(m) => {
            assert_eq!(
                m,
                vec![
                    ("api_base".to_string(), "https://api.example.com/v1".to_string()),
                    ("api_key".to_string(), "sk-test".to_string()),
                ]
            );
        }
        _ => panic!("toml expected"),
    }
}

#[test]
fn generic_cli_json_settings_are_nested_by_path() {
    let p = provider("https://api.example.com/v1", Some("m"));
    let store = store_with_provider(&p);
    let svc = AgentService::new(&store);
    let out = svc
        .write_provider_to_config(&generic_cli_agent(), "/x/custom.json", None, &p)
        .unwrap();
    let v = match out {
        ConfigContent::Json(v) => v,
        _ => panic!("json expected"),
    };
    assert_eq!(string_at(&v, "api_base"), "https://api.example.com/v1");
    assert_eq!(string_at(&v, "model"), "m");
}

#[test]
fn file_status_matches_the_provider_by_base_url() {
    let p = provider("https://api.example.com/v1", Some("m"));
    let store = store_with_provider(&p);
    let svc = AgentService::new(&store);
    let inst = AgentInstance {
        agent_id: "codegeex-vscode".into(),
        agent_name: String::new(),
        config_file_path: "/x/settings.json".into(),
        format: "json".into(),
        exists: true,
    };
    let content = ConfigContent::Json(object(vec![
        ("codegeex.apiBase", text("https://api.example.com/v1/")),
        ("codegeex.model", text("other")),
    ]));
    let st = svc.read_status(&inst, Some(content));
    assert!(st.configured);
    assert_eq!(st.provider_name.as_deref(), Some("测试源"));
    assert_eq!(st.model_name.as_deref(), Some("other"));
    let unreadable = svc.read_status(&inst, None);
    assert!(!unreadable.configured);
    let missing = AgentInstance { exists: false, ..inst };
    assert!(!svc.read_status(&missing, None).configured);
}

#[test]
fn trae_status_comes_from_the_active_provider() {
    let p = provider("https://api.example.com/v1", Some("m"));
    let mut store = store_with_provider(&p);
    store.set_active("trae", "abc");
    let svc = AgentService::new(&store);
    let inst = AgentInstance {
        agent_id: "trae".into(),
        agent_name: String::new(),
        config_file_path: String::new(),
        format: "json".into(),
        exists: true,
    };
    let st = svc.read_status(&inst, None);
    assert!(st.configured);
    assert_eq!(st.provider_name.as_deref(), Some("测试源"));
    assert_eq!(st.model_name.as_deref(), Some("m"));
}

#[test]
fn agents_are_detected_from_existing_paths() {
    let store = empty_store();
    let svc = AgentService::new(&store);
    let env = linux_env();
    let second = "/home/u/.agent-switch-cn/custom.json".to_string();
    let found = svc.detect_agents(&env, &vec![second.clone()], true);
    let ids: Vec<&str> = found.iter().map(|i| i.agent_id.as_str()).collect();
    assert_eq!(ids, vec!["codegeex-vscode", "zcode", "trae", "generic-cli"]);
    assert!(!found[0].exists);
    assert!(found[2].exists);
    assert_eq!(found[2].config_file_path, "");
    assert!(found[3].exists);
    assert_eq!(found[3].config_file_path, second);
    assert_eq!(found[3].format, "json");
}

#[test]
fn agents_are_listed_for_the_ui() {
    let store = empty_store();
    let list = AgentService::new(&store).list_agents();
    assert_eq!(list.len(), 4);
    assert_eq!(string_at(&list[2], "kind"), "cdp");
    assert_eq!(string_at(&list[0], "kind"), "file");
    assert_eq!(string_at(&list[0], "detection"), "first");
    assert_eq!(string_at(&list[1], "id"), "zcode");
}

#[test]
fn switch_plans_follow_agent_and_provider() {
    let p = provider("https://api.example.com/v1", Some("m"));
    let store = store_with_provider(&p);
    let svc = AgentService::new(&store);
    let env = linux_env();
    match svc.switch_plan("nope", "abc", &env, &vec![], false) {
        SwitchPlan::Done(r) => {
            assert!(!r.ok);
            assert_eq!(r.message.as_deref(), Some("未知 agent: nope"));
        }
        _ => panic!("unknown agent accepted"),
    }
    match svc.switch_plan("zcode", "zz", &env, &vec![], false) {
        SwitchPlan::Done(r) => assert_eq!(r.message.as_deref(), Some("未知 provider: zz")),
        _ => panic!("unknown provider accepted"),
    }
    assert!(matches!(svc.switch_plan("trae", "abc", &env, &vec![], false), SwitchPlan::Cdp(_)));
    match svc.switch_plan("zcode", "abc", &env, &vec![], false) {
        SwitchPlan::File(d, q, inst) => {
            assert_eq!(d.id, "zcode");
            assert_eq!(q.id, "abc");
            assert!(!inst.exists);
        }
        _ => panic!("file plan expected"),
    }
}

#[test]
fn switch_results_carry_their_messages() {
    let p = provider("https://api.example.com/v1", Some("m"));
    let ok = file_switch_result(&zcode_agent(), &p, Some("/b/x".into()), Ok(()));
    assert!(ok.ok);
    assert_eq!(ok.message.as_deref(), Some("已切换 ZCode (Z.ai 桌面 Agent) → 测试源"));
    assert_eq!(ok.backup_path.as_deref(), Some("/b/x"));
    let bad = file_switch_result(&codegeex_agent(), &p, Some("/b/y".into()), Err("disk".into()));
    assert!(!bad.ok);
    assert_eq!(bad.message.as_deref(), Some("切换失败: disk"));
    assert_eq!(bad.backup_path, None);
    assert!(cdp_not_ready(&EnsureResult { ok: true, message: "x".into() }).is_none());
    let nr = cdp_not_ready(&EnsureResult { ok: false, message: "down".into() }).unwrap();
    assert_eq!(nr.message.as_deref(), Some("down"));
    let r = cdp_switch_result(Err("ws".into()));
    assert_eq!(r.message.as_deref(), Some("Trae 切换失败: ws"));
    let r = cdp_switch_result(Ok(SwitchOutcome { ok: true, message: "done".into() }));
    assert!(r.ok);
}

fn instance_for(agent_id: &str, file: &str, format: &str) -> AgentInstance {
    AgentInstance {
        agent_id: agent_id.into(),
        agent_name: String::new(),
        config_file_path: file.into(),
        format: format.into(),
        exists: true,
    }
}

#[test]
fn codegeex_status_reads_back_what_was_written() {
    let p = provider("https://api.example.com/v1", Some("glm-4"));
    let store = store_with_provider(&p);
    let svc = AgentService::new(&store);
    let written = svc
        .write_provider_to_config(&codegeex_agent(), "/x/settings.json", None, &p)
        .unwrap();
    let st = svc.read_status(&instance_for("codegeex-vscode", "/x/settings.json", "json"), Some(written));
    assert!(st.configured);
    assert_eq!(st.provider_name.as_deref(), Some("测试源"));
    assert_eq!(st.model_name.as_deref(), Some("glm-4"));
}

#[test]
fn generic_toml_status_keeps_the_old_model_without_a_default() {
    let p = provider("https://api.example.com/v1", None);
    let store = store_with_provider(&p);
    let svc = AgentService::new(&store);
    let before = ConfigContent::Toml(vec![("model".to_string(), "old".to_string())]);
    let written = svc
        .write_provider_to_config(&generic_cli_agent(), "/x/custom.toml", Some(before), &p)
        .unwrap();
    let st = svc.read_status(&instance_for("generic-cli", "/x/custom.toml", "toml"), Some(written));
    assert!(st.configured);
    assert_eq!(st.provider_name.as_deref(), Some("测试源"));
    assert_eq!(st.model_name.as_deref(), Some("old"));
}

#[test]
fn qoder_status_reads_back_the_registered_provider() {
    let mut p = provider("https://api.example.com/v1", None);
    p.model_names = Some(vec!["m7".into()]);
    let mut store = store_with_provider(&p);
    store.set_active("qoder", "abc");
    let svc = AgentService::new(&store);
    let file = Json::Obj(qoder_apply(Vec::new(), &p).unwrap());
    let st = svc.qoder_read_status(Some(&file), "qoder");
    assert!(st.configured);
    assert_eq!(st.provider_name.as_deref(), Some("测试源"));
    assert_eq!(st.model_name.as_deref(), Some("m7"));
    let other = svc.qoder_read_status(Some(&Json::Obj(Vec::new())), "qoder");
    assert!(!other.configured);
}

#[test]
fn writing_is_safe_unless_a_flat_key_meets_a_non_object() {
    let p = provider("https://api.example.com/v1", Some("m"));
    let arr = Some(ConfigContent::Json(Json::Arr(vec![])));
    assert!(!config_write_is_safe(&codegeex_agent(), "/x/settings.json", &arr, &p));
    assert!(config_write_is_safe(&codegeex_agent(), "/x/settings.json", &None, &p));
    assert!(config_write_is_safe(&generic_cli_agent(), "/x/custom.json", &arr, &p));
    assert!(config_write_is_safe(&zcode_agent(), "/x/config.json", &arr, &p));
}

#[test]
fn zcode_apply_twice_is_the_same_as_once() {
    let before = entries_of(object(vec![(
        "provider",
        object(vec![("other", object(vec![("enabled", Json::Bool(true))]))]),
    )]));
    let p = provider("https://api.example.com/v1", Some("m1"));
    let once = Json::Obj(zcode_apply(entries_of(Json::Obj(before.iter().map(|(k, v)| (k.clone(), copy_json(v))).collect())), &p));
    let twice = Json::Obj(zcode_apply(zcode_apply(before, &p), &p));
    assert!(same_json(&once, &twice));
}

fn copy_json(j: &Json) -> Json {
    match j {
        Json::Null => Json::Null,
        Json::Bool(b) => Json::Bool(*b),
        Json::Num(n) => Json::Num(n.clone()),
        Json::Str(s) => Json::Str(s.clone()),
        Json::Arr(a) => Json::Arr(a.iter().map(copy_json).collect()),
        Json::Obj(e) => Json::Obj(e.iter().map(|(k, v)| (k.clone(), copy_json(v))).collect()),
    }
}

fn same_json(a: &Json, b: &Json) -> bool {
    match (a, b) {
        (Json::Null, Json::Null) => true,
        (Json::Bool(x), Json::Bool(y)) => x == y,
        (Json::Num(x), Json::Num(y)) => x == y,
        (Json::Str(x), Json::Str(y)) => x == y,
        (Json::Arr(x), Json::Arr(y)) => x.len() == y.len() && x.iter().zip(y).all(|(p, q)| same_json(p, q)),
        (Json::Obj(x), Json::Obj(y)) => {
            x.len() == y.len() && x.iter().zip(y).all(|((k1, v1), (k2, v2))| k1 == k2 && same_json(v1, v2))
        }
        _ => false,
    }
}

#[test]
fn workbuddy_apply_twice_is_the_same_as_once() {
    let p = provider("https://api.example.com/v1", Some("m1"));
    let once = Json::Obj(workbuddy_apply(Vec::new(), &p).unwrap());
    let twice = Json::Obj(workbuddy_apply(workbuddy_apply(Vec::new(), &p).unwrap(), &p).unwrap());
    assert!(same_json(&once, &twice));
}

#[test]
fn file_switches_back_up_exactly_the_existing_files() {
    let store = Store::with_data("/data/config.json".to_string(), StoreData::default());
    let svc = AgentService::new(&store);
    let mut inst = instance_for("zcode", "/home/u/.zcode/v2/config.json", "json");
    match svc.file_switch_start(&inst) {
        FileStep::Backup { file, dir } => {
            assert_eq!(file, "/home/u/.zcode/v2/config.json");
            assert_eq!(dir, "/data/backups");
        }
        _ => panic!("an existing file is backed up first"),
    }
    inst.exists = false;
    assert!(matches!(svc.file_switch_start(&inst), FileStep::Write { backup: None }));
    match file_switch_backed_up(Ok("/data/backups/x".into())) {
        FileStep::Write { backup } => assert_eq!(backup.as_deref(), Some("/data/backups/x")),
        _ => panic!("the rewrite follows a backup"),
    }
    match file_switch_backed_up(Err("copy failed".into())) {
        FileStep::Done(r) => {
            assert!(!r.ok);
            assert_eq!(r.message.as_deref(), Some("切换失败: copy failed"));
        }
        _ => panic!("a failed backup ends the switch"),
    }
}

#[test]
fn unsafe_writes_are_reported_not_attempted() {
    let p = provider("https://api.example.com/v1", Some("m"));
    let store = store_with_provider(&p);
    let svc = AgentService::new(&store);
    let arr = Some(ConfigContent::Json(Json::Arr(vec![])));
    assert!(svc.write_provider_checked(&codegeex_agent(), "/x/settings.json", arr, &p).is_none());
    assert!(matches!(
        svc.write_provider_checked(&codegeex_agent(), "/x/settings.json", None, &p),
        Some(Ok(ConfigContent::Json(_)))
    ));
}
