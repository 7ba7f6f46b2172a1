use agent_switch::fsutil::{
    backup_file_name, backup_path, detect_format, quote_toml, read_toml_flat, resolve_tmpl,
    strip_toml_quotes, write_toml_flat, PathEnv,
};
use std::path::Path;

fn chars(s: &str) -> Vec<char> {
    s.chars().collect()
}

fn unchars(v: Vec<char>) -> String {
    v.into_iter().collect()
}

fn pairs(v: &[(&str, &str)]) -> Vec<(String, String)> {
    v.iter().map(|(k, x)| (k.to_string(), x.to_string())).collect()
}

#[test]
fn backup_file_writes_into_given_dir() {
    let root = Path::new("/tmp").join("agent-switch-test-backup-path");
    let cfg_dir = root.join("cfg");
    let backup_dir = root.join("backups");
    let bp = backup_path(
        backup_dir.to_str().unwrap(),
        cfg_dir.to_str().unwrap(),
        "settings.json",
        "2024-01-02T03-04-05-678",
    );
    let bp = Path::new(&bp);
    assert_eq!(bp.parent().unwrap(), backup_dir);
    assert!(!bp.starts_with(backup_dir.join("backups")));
}

#[test]
fn backup_names_flatten_the_directory() {
    assert_eq!(
        backup_file_name("C:\\Users\\me/.codex", "config.toml", "2024-01-02T03-04-05-678"),
        "C__Users_me_.codex_config.toml.2024-01-02T03-04-05-678"
    );
    assert_eq!(backup_file_name("", "a.json", "t"), "_a.json.t");
}

#[test]
fn toml_is_read_flat_with_sections() {
    let raw = "# comment\nmodel = \"gpt\"\n\n[provider]\nbase_url = 'https://x'\nkey=plain\n=skip\nnoeq\n";
    let m = read_toml_flat(raw);
    assert_eq!(
        m,
        pairs(&[("model", "gpt"), ("provider.base_url", "https://x"), ("provider.key", "plain")])
    );
}

#[test]
fn toml_later_keys_override_earlier_ones() {
    let m = read_toml_flat("a = 1\na = 2\n");
    assert_eq!(m, pairs(&[("a", "2")]));
}

#[test]
fn toml_is_written_grouped_by_section() {
    let data = pairs(&[("model", "gpt"), ("p.url", "https://x"), ("n", "42"), ("p.on", "true")]);
    assert_eq!(
        write_toml_flat(&data),
        "model = \"gpt\"\nn = 42\n\n[p]\nurl = \"https://x\"\non = true\n"
    );
}

#[test]
fn toml_values_are_quoted_unless_literal() {
    assert_eq!(unchars(quote_toml(&chars("12"))), "12");
    assert_eq!(unchars(quote_toml(&chars("-7"))), "-7");
    assert_eq!(unchars(quote_toml(&chars("1.5"))), "1.5");
    assert_eq!(unchars(quote_toml(&chars("false"))), "false");
    assert_eq!(unchars(quote_toml(&chars("1e5"))), "\"1e5\"");
    assert_eq!(unchars(quote_toml(&chars(""))), "\"\"");
    assert_eq!(unchars(quote_toml(&chars("a\"b\\c"))), "\"a\\\"b\\\\c\"");
}

#[test]
fn toml_quotes_are_stripped_in_pairs() {
    assert_eq!(unchars(strip_toml_quotes(&chars("\"x\""))), "x");
    assert_eq!(unchars(strip_toml_quotes(&chars("'y'"))), "y");
    assert_eq!(unchars(strip_toml_quotes(&chars("\"z'"))), "\"z'");
    assert_eq!(unchars(strip_toml_quotes(&chars("\""))), "\"");
}

#[test]
fn format_follows_the_extension() {
    assert_eq!(detect_format("C:/x/CONFIG.TOML"), "toml");
    assert_eq!(detect_format("a.tml"), "toml");
    assert_eq!(detect_format("settings.json"), "json");
    assert_eq!(detect_format("noext"), "json");
}

#[test]
fn templates_resolve_against_the_environment() {
    let env = PathEnv {
        userprofile: None,
        home: Some("/home/u".to_string()),
        appdata: None,
        xdg_config_home: Some("/cfg".to_string()),
    };
    assert_eq!(resolve_tmpl("{config}/zcode/zcode.json", &env), "/cfg/zcode/zcode.json");
    assert_eq!(resolve_tmpl("{appdata}/x", &env), "/home/u/.config/x");
    assert_eq!(resolve_tmpl("~", &env), "/home/u");
    assert_eq!(
        resolve_tmpl("~/.codex/config.toml", &env),
        Path::new("/home/u").join(".codex/config.toml").to_str().unwrap()
    );
    let bare = PathEnv { userprofile: None, home: None, appdata: None, xdg_config_home: None };
    assert_eq!(resolve_tmpl("{home}", &bare), "/");
}

fn value_of<'a>(m: &'a [(String, String)], k: &str) -> Option<&'a str> {
    m.iter().find(|(key, _)| key == k).map(|(_, v)| v.as_str())
}

#[test]
fn written_toml_reads_back_as_the_same_entries() {
    let data = pairs(&[
        ("model", "gpt-4 turbo"),
        ("n", "-12"),
        ("p.url", "https://x/y?a=1"),
        ("p.on", "true"),
        ("q.ratio", "1.5"),
        ("p.note", "it's # fine"),
        ("q.empty", ""),
    ]);
    let back = read_toml_flat(&write_toml_flat(&data));
    assert_eq!(back.len(), data.len());
    for (k, v) in &data {
        assert_eq!(value_of(&back, k), Some(v.as_str()));
    }
}

#[test]
fn keys_without_section_are_written_before_any_header() {
    let data = pairs(&[("s.a", "1"), ("b", "2")]);
    let text = write_toml_flat(&data);
    assert_eq!(text, "b = 2\n\n[s]\na = 1\n");
    let back = read_toml_flat(&text);
    assert_eq!(value_of(&back, "b"), Some("2"));
    assert_eq!(value_of(&back, "s.a"), Some("1"));
    assert_eq!(value_of(&back, "s.b"), None);
}
