use agent_switch::fsutil::{json_file_text, object_or_empty, read_json, read_json_object};
use agent_switch::json::Json;
use agent_switch::trae::{
    cdp_reply_text, cdp_request_text, debug_listing, listing_of_parsed, page_model_candidates,
};

fn show(j: &Json) -> String {
    match j {
        Json::Null => "null".to_string(),
        Json::Bool(b) => b.to_string(),
        Json::Num(n) => n.clone(),
        Json::Str(s) => format!("'{s}'"),
        Json::Arr(a) => format!("[{}]", a.iter().map(show).collect::<Vec<_>>().join(",")),
        Json::Obj(e) => format!(
            "{{{}}}",
            e.iter().map(|(k, v)| format!("{k}:{}", show(v))).collect::<Vec<_>>().join(",")
        ),
    }
}

fn err_of(r: Result<Json, String>) -> String {
    match r {
        Err(e) => e,
        Ok(j) => panic!("unexpected value {}", show(&j)),
    }
}

#[test]
fn json_text_is_read_into_values() {
    let j = read_json("{\"b\": [true, null, \"x\"], \"a\": 1.50}").unwrap();
    assert_eq!(show(&j), "{a:1.5,b:[true,null,'x']}");
}

#[test]
fn text_that_is_no_json_gives_the_parser_message() {
    let e = err_of(read_json("{ nope"));
    assert!(e.contains("line 1"));
}

#[test]
fn a_file_that_holds_no_object_reads_as_an_empty_object() {
    assert_eq!(show(&read_json_object(None)), "{}");
    assert_eq!(show(&read_json_object(Some("[1, 2]"))), "{}");
    assert_eq!(show(&read_json_object(Some("not json"))), "{}");
    assert_eq!(show(&read_json_object(Some("{\"k\": \"v\"}"))), "{k:'v'}");
    assert_eq!(show(&object_or_empty(Err("bad".to_string()))), "{}");
    assert_eq!(show(&object_or_empty(Ok(Json::Bool(true)))), "{}");
    assert_eq!(
        show(&object_or_empty(Ok(Json::Obj(vec![("x".to_string(), Json::Null)])))),
        "{x:null}"
    );
}

#[test]
fn json_files_are_written_pretty() {
    let j = Json::Obj(vec![
        ("a".to_string(), Json::Num("1".to_string())),
        ("b".to_string(), Json::Arr(vec![Json::Str("x".to_string())])),
    ]);
    assert_eq!(json_file_text(&j).unwrap(), "{\n  \"a\": 1,\n  \"b\": [\n    \"x\"\n  ]\n}");
}

#[test]
fn the_debug_listing_is_the_trimmed_body() {
    let ok = debug_listing("HTTP/1.1 200 OK\r\nContent-Type: application/json\r\n\r\n  [ {\"id\": \"t\"} ]  \n");
    assert_eq!(show(&ok.unwrap()), "[{id:'t'}]");
    let bad = err_of(debug_listing("HTTP/1.1 200 OK\r\n\r\n<html>"));
    assert!(bad.starts_with("解析调试目标失败: "));
    let e = err_of(listing_of_parsed(Err("boom".to_string())));
    assert_eq!(e, "解析调试目标失败: boom");
}

#[test]
fn devtools_messages_are_read_from_their_text() {
    let r = cdp_reply_text("{\"id\": 3, \"result\": {\"v\": 7}}", 3).unwrap().unwrap();
    assert_eq!(show(&r), "{v:7}");
    assert!(cdp_reply_text("{\"id\": 4, \"result\": {}}", 3).is_none());
    assert!(cdp_reply_text("garbage", 3).is_none());
    let e = err_of(cdp_reply_text("{\"id\": 3, \"error\": {\"message\": \"no\"}}", 3).unwrap());
    assert_eq!(e, "no");
}

#[test]
fn devtools_requests_are_written_compact() {
    assert_eq!(cdp_request_text(1, "Page.enable", None), "{\"id\":1,\"method\":\"Page.enable\"}");
    let p = Json::Obj(vec![("expression".to_string(), Json::Str("1+1".to_string()))]);
    assert_eq!(
        cdp_request_text(2, "Runtime.evaluate", Some(p)),
        "{\"id\":2,\"method\":\"Runtime.evaluate\",\"params\":{\"expression\":\"1+1\"}}"
    );
}

#[test]
fn the_page_list_is_read_from_its_json_text() {
    let got = page_model_candidates(&Json::Str("[\"GPT-4o\", \"Kimi\"]".to_string()));
    assert_eq!(got, vec!["GPT-4o".to_string(), "Kimi".to_string()]);
    assert!(page_model_candidates(&Json::Str("oops".to_string())).is_empty());
    let direct = page_model_candidates(&Json::Arr(vec![Json::Str("a".to_string())]));
    assert_eq!(direct, vec!["a".to_string()]);
}
