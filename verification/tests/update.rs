use agent_switch::json::Json;
use agent_switch::update::{
    manifest_url, model_ids, models_response_error, models_url, parse_version, retry_pause, update_error,
    update_from_manifest, update_status_error, UPDATE_MANIFEST_URL,
};
use agent_switch::version::compare_versions;
use std::cmp::Ordering;

fn obj(entries: Vec<(&str, Json)>) -> Json {
    Json::Obj(entries.into_iter().map(|(k, v)| (k.to_string(), v)).collect())
}

fn s(x: &str) -> Json {
    Json::Str(x.to_string())
}

#[test]
fn versions_compare_numerically_with_prereleases_lower() {
    assert_eq!(compare_versions("1.2.10", "1.2.9"), Ordering::Greater);
    assert_eq!(compare_versions("v1.2", "1.2.0"), Ordering::Equal);
    assert_eq!(compare_versions("1.2.0-beta", "1.2.0"), Ordering::Less);
    assert_eq!(compare_versions("1.2.0", "1.2.0-rc1"), Ordering::Greater);
    assert_eq!(compare_versions("1.x.3", "1.0.3"), Ordering::Equal);
    assert_eq!(compare_versions(" V2 ", "1.99"), Ordering::Greater);
}

#[test]
fn versions_parse_into_numbers_and_prerelease_flag() {
    assert_eq!(parse_version(" v1.20.3-beta.1"), (vec![1, 20, 3], true));
    assert_eq!(parse_version("7"), (vec![7], false));
    assert_eq!(parse_version(""), (vec![0], false));
    assert_eq!(parse_version("99999999999999999999"), (vec![0], false));
}

#[test]
fn models_endpoint_is_derived_from_the_base_url() {
    assert_eq!(models_url(" https://api.x/v1/ "), "https://api.x/v1/models");
    assert_eq!(models_url("https://api.x/v1/models"), "https://api.x/v1/models");
}

#[test]
fn models_responses_are_checked() {
    assert_eq!(
        models_response_error(302, "x").as_deref(),
        Some("接口返回重定向，已拒绝（仅允许直连清单地址）")
    );
    let long = "é".repeat(250);
    let e = models_response_error(500, &long).unwrap();
    assert_eq!(e, format!("拉取失败 HTTP 500: {}", "é".repeat(200)));
    assert_eq!(models_response_error(200, "ok"), None);
}

#[test]
fn model_ids_come_from_the_data_array() {
    let j = obj(vec![(
        "data",
        Json::Arr(vec![
            obj(vec![("id", s("gpt-4o"))]),
            obj(vec![("id", s(""))]),
            obj(vec![("name", s("no id"))]),
            obj(vec![("id", Json::Num("3".into()))]),
            obj(vec![("id", s("glm-4"))]),
        ]),
    )]);
    assert_eq!(model_ids(&j), vec!["gpt-4o", "glm-4"]);
    assert!(model_ids(&obj(vec![("data", s("x"))])).is_empty());
}

#[test]
fn manifests_decide_whether_an_update_exists() {
    let m = obj(vec![("version", s("1.3.0")), ("url", s("https://d")), ("notes", s("n"))]);
    let r = update_from_manifest(&m, "1.2.0");
    assert!(r.has_update);
    assert_eq!(r.latest.as_deref(), Some("1.3.0"));
    assert_eq!(r.url.as_deref(), Some("https://d"));
    assert_eq!(r.notes.as_deref(), Some("n"));
    assert_eq!(r.message, "发现新版本 v1.3.0（当前 v1.2.0）");
    assert_eq!(r.error, Some(false));

    let same = update_from_manifest(&obj(vec![("version", s("1.2.0"))]), "1.2.0");
    assert!(!same.has_update);
    assert_eq!(same.message, "已是最新版本（v1.2.0）");

    let bad = update_from_manifest(&obj(vec![("version", s("  "))]), "1.2.0");
    assert_eq!(bad.message, "更新清单格式无效（缺少 version 字段）");
    assert_eq!(bad.error, Some(true));
    let missing = update_from_manifest(&obj(vec![]), "1.2.0");
    assert_eq!(missing.latest, None);
    assert_eq!(missing.error, Some(true));
}

#[test]
fn update_failures_are_reported() {
    let r = update_error("1.0.0", "boom");
    assert_eq!(r.message, "检查更新失败: boom");
    assert_eq!(r.current, "1.0.0");
    assert_eq!(r.error, Some(true));
    assert_eq!(update_status_error(301).as_deref(), Some("更新服务器返回重定向，已拒绝（仅允许直连清单地址）"));
    assert_eq!(update_status_error(404).as_deref(), Some("更新服务器返回 HTTP 404"));
    assert_eq!(update_status_error(204), None);
}

#[test]
fn the_manifest_address_can_be_overridden() {
    assert_eq!(manifest_url(Some("https://env".into()), Some("https://file".into())), "https://env");
    assert_eq!(manifest_url(Some(String::new()), Some("  https://file \n".into())), "https://file");
    assert_eq!(manifest_url(None, Some("   ".into())), UPDATE_MANIFEST_URL);
    assert_eq!(manifest_url(None, None), UPDATE_MANIFEST_URL);
}

#[test]
fn a_failed_get_is_retried_once() {
    assert_eq!(retry_pause(0), Some(900));
    assert_eq!(retry_pause(1), None);
    assert_eq!(retry_pause(7), None);
}

#[test]
fn version_order_laws_on_examples() {
    let vs = ["1.0.0-rc", "1.0.0", "1.0.1", "1.1", "v2"];
    for (i, a) in vs.iter().enumerate() {
        assert_eq!(compare_versions(a, a), Ordering::Equal);
        for (j, b) in vs.iter().enumerate() {
            assert_eq!(compare_versions(a, b), i.cmp(&j), "{a} vs {b}");
            assert_eq!(compare_versions(a, b), compare_versions(b, a).reverse());
        }
    }
}
