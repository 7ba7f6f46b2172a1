use agent_switch::json::Json;
use agent_switch::store::Provider;
use agent_switch::trae::{
    cdp_reply, cdp_request_frame, debug_port_arg, ensure_finish, ensure_start, evaluate_result,
    executable_candidates, find_trae_executable, http_body, http_get_request, is_debug_up,
    local_cdp_base, model_candidates, pick_target_index, preflight, session_target, split_http_url, switch_model_label,
    targets_from_json, tasklist_shows_trae, Target, TRAE_DEBUG_PORT,
};
use std::path::Path;

fn obj(entries: Vec<(&str, Json)>) -> Json {
    Json::Obj(entries.into_iter().map(|(k, v)| (k.to_string(), v)).collect())
}

fn s(x: &str) -> Json {
    Json::Str(x.to_string())
}

fn target(t: &str, url: &str) -> Target {
    Target { ttype: t.into(), url: url.into(), title: String::new(), ws_url: String::new() }
}

#[test]
fn only_the_fixed_debug_port_is_allowed() {
    assert_eq!(local_cdp_base(TRAE_DEBUG_PORT), Ok("http://127.0.0.1:9333".to_string()));
    assert_eq!(local_cdp_base(9222), Err("仅允许使用固定调试端口 9333".to_string()));
    assert_eq!(debug_port_arg(), "--remote-debugging-port=9333");
}

#[test]
fn trae_is_looked_for_in_fixed_places() {
    let local = Some("/L".to_string());
    let c = executable_candidates(&local);
    let programs = Path::new("/L").join("Programs");
    assert_eq!(c.len(), 4);
    assert_eq!(c[1], programs.join("Trae CN").join("Trae.exe").to_str().unwrap());
    assert!(executable_candidates(&None).is_empty());
    let existing = vec![c[3].clone(), c[2].clone()];
    assert_eq!(find_trae_executable(&local, &existing), Some(c[2].clone()));
    assert_eq!(find_trae_executable(&local, &vec!["/elsewhere".into()]), None);
}

#[test]
fn process_listings_are_searched_case_insensitively() {
    assert!(tasklist_shows_trae("Image Name\ntrae cn.exe  1234"));
    assert!(!tasklist_shows_trae("explorer.exe"));
}

#[test]
fn targets_come_from_the_listing() {
    let listing = Json::Arr(vec![
        obj(vec![("type", s("page")), ("url", s("https://x/workbench.html")), ("webSocketDebuggerUrl", s("ws://1"))]),
        obj(vec![("url", s("no type"))]),
        obj(vec![("type", s("webview")), ("title", s("t"))]),
    ]);
    let t = targets_from_json(&listing);
    assert_eq!(t.len(), 2);
    assert_eq!(t[0].ws_url, "ws://1");
    assert_eq!(t[1].ttype, "webview");
    assert_eq!(t[1].url, "");
    assert!(is_debug_up(Some(&listing)));
    assert!(!is_debug_up(Some(&Json::Arr(vec![]))));
    assert!(!is_debug_up(None));
}

#[test]
fn the_webview_or_a_workbench_page_is_driven() {
    assert_eq!(pick_target_index(&vec![target("page", "a"), target("webview", "b")]), 1);
    assert_eq!(pick_target_index(&vec![target("page", "a"), target("page", "x/CHAT")]), 1);
    assert_eq!(pick_target_index(&vec![target("page", "a"), target("other", "b")]), 0);
    assert_eq!(pick_target_index(&vec![]), 0);
}

#[test]
fn plain_http_requests_are_built_and_read() {
    assert_eq!(
        split_http_url("http://127.0.0.1:9333/json/list"),
        Ok(("127.0.0.1:9333".to_string(), "json/list".to_string()))
    );
    assert!(split_http_url("https://x/y").is_err());
    assert!(split_http_url("http://nopath").is_err());
    assert_eq!(
        http_get_request("h:1", "json/list"),
        "GET /json/list HTTP/1.1\r\nHost: h:1\r\nConnection: close\r\nAccept: application/json\r\n\r\n"
    );
    assert_eq!(http_body("HTTP/1.1 200 OK\r\nA: b\r\n\r\n[1]"), "[1]");
    assert_eq!(http_body("no header"), "no header");
}

#[test]
fn cdp_frames_and_replies() {
    match cdp_request_frame(3, "Page.enable", None) {
        Json::Obj(e) => {
            assert_eq!(e.len(), 2);
            assert_eq!(e[0].0, "id");
            assert_eq!(e[1].0, "method");
        }
        _ => panic!("frame is not an object"),
    }
    let ok = obj(vec![("id", Json::Num("3".into())), ("result", obj(vec![]))]);
    assert!(matches!(cdp_reply(ok, 3), Some(Ok(Json::Obj(_)))));
    let other = obj(vec![("id", Json::Num("4".into()))]);
    assert!(cdp_reply(other, 3).is_none());
    let err = obj(vec![("id", Json::Num("3".into())), ("error", obj(vec![("message", s("bad"))]))]);
    match cdp_reply(err, 3) {
        Some(Err(m)) => assert_eq!(m, "bad"),
        _ => panic!("error reply not recognised"),
    }
    let anon = obj(vec![("id", Json::Num("3".into())), ("error", obj(vec![]))]);
    match cdp_reply(anon, 3) {
        Some(Err(m)) => assert_eq!(m, "未知调试错误"),
        _ => panic!("error reply not recognised"),
    }
}

#[test]
fn evaluation_results_are_unwrapped() {
    match evaluate_result(obj(vec![("result", obj(vec![("value", s("v"))]))])) {
        Ok(Json::Str(v)) => assert_eq!(v, "v"),
        _ => panic!("value not unwrapped"),
    }
    assert!(matches!(evaluate_result(obj(vec![])), Ok(Json::Null)));
    match evaluate_result(obj(vec![("exceptionDetails", obj(vec![]))])) {
        Err(e) => assert_eq!(e, "页面脚本异常"),
        _ => panic!("exception not reported"),
    }
}

#[test]
fn preflight_messages() {
    assert_eq!(preflight(None, false, true).message, "Trae 已以调试模式运行，可直接切换。");
    assert_eq!(
        preflight(None, true, false).message,
        "Trae 正在运行但未开调试端口。切换时将先退出 Trae，再以调试模式重启。"
    );
    let p = preflight(Some("/t".into()), false, false);
    assert_eq!(p.message, "Trae 未在运行，切换时将自动以调试模式启动。");
    assert_eq!(p.executable.as_deref(), Some("/t"));
}

#[test]
fn ensuring_debug_mode_steps() {
    let cands = vec!["/a".to_string(), "/b".to_string()];
    match ensure_start(true, &cands, None) {
        Err(r) => {
            assert!(r.ok);
            assert_eq!(r.message, "调试就绪");
        }
        Ok(_) => panic!("nothing to start"),
    }
    match ensure_start(false, &cands, None) {
        Err(r) => assert!(!r.ok),
        Ok(_) => panic!("no executable"),
    }
    match ensure_start(false, &cands, Some("/evil".into())) {
        Err(r) => assert_eq!(r.message, "Trae 路径不在白名单内，已拒绝启动"),
        Ok(_) => panic!("unlisted executable started"),
    }
    assert_eq!(ensure_start(false, &cands, Some("/b".into())).ok(), Some("/b".to_string()));
    assert!(ensure_finish(true, true).ok);
    assert_eq!(ensure_finish(false, true).message, "启动 Trae 失败（进程创建被拒绝）");
    assert!(!ensure_finish(true, false).ok);
}

#[test]
fn trae_needs_a_model_to_switch_to() {
    let none = Provider::default();
    match switch_model_label(&none) {
        Err(o) => assert_eq!(o.message, "Trae 切换需要先填写“模型 ID”"),
        Ok(_) => panic!("switched without a model"),
    }
    let p = Provider { model_name: Some("glm".into()), ..Default::default() };
    assert_eq!(switch_model_label(&p).ok(), Some("glm".to_string()));
}

#[test]
fn sessions_attach_to_the_chosen_target() {
    assert_eq!(
        session_target(&vec![]),
        Err("未发现 Trae 可调试页面，请确认已用 --remote-debugging-port 启动".to_string())
    );
    assert_eq!(session_target(&vec![target("webview", "x")]), Err("无法获取调试 WebSocket 地址".to_string()));
    let mut chosen = target("webview", "x");
    chosen.ws_url = "ws://127.0.0.1:9333/devtools/page/1".into();
    let mut other = target("page", "workbench");
    other.ws_url = "ws://other".into();
    assert_eq!(session_target(&vec![other, chosen]), Ok("ws://127.0.0.1:9333/devtools/page/1".to_string()));
}

#[test]
fn the_selector_texts_are_read_from_the_page_list() {
    assert_eq!(model_candidates(&Json::Arr(vec![s("GLM-4.6"), s("Kimi")])), vec!["GLM-4.6", "Kimi"]);
    assert!(model_candidates(&Json::Arr(vec![s("a"), Json::Null])).is_empty());
    assert!(model_candidates(&s("[\"a\"]")).is_empty());
}
