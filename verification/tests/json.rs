use agent_switch::json::{get_by_path, set_by_path, Json};

fn string_of(j: Option<&Json>) -> Option<String> {
    match j {
        Some(Json::Str(s)) => Some(s.clone()),
        _ => None,
    }
}

#[test]
fn set_then_get_by_path() {
    let mut v = Json::Null;
    set_by_path(&mut v, "a.b.c", Json::Str("x".into()));
    assert_eq!(string_of(get_by_path(&v, "a.b.c")), Some("x".to_string()));
    set_by_path(&mut v, "a.d", Json::Str("y".into()));
    assert_eq!(string_of(get_by_path(&v, "a.d")), Some("y".to_string()));
    assert_eq!(string_of(get_by_path(&v, "a.b.c")), Some("x".to_string()));
    assert!(get_by_path(&v, "a.zz").is_none());
}

#[test]
fn set_by_path_replaces_non_objects_on_the_way() {
    let mut v = Json::Obj(vec![("a".into(), Json::Num("1".into()))]);
    set_by_path(&mut v, "a.b", Json::Bool(true));
    match get_by_path(&v, "a.b") {
        Some(Json::Bool(true)) => {}
        _ => panic!("a.b not set"),
    }
}

#[test]
fn get_by_path_on_a_plain_key() {
    let v = Json::Obj(vec![("k".into(), Json::Str("v".into()))]);
    assert_eq!(string_of(get_by_path(&v, "k")), Some("v".to_string()));
    assert!(get_by_path(&Json::Null, "k").is_none());
}
