use agent_switch::agents::{
    agent_registry, codegeex_agent, generic_cli_agent, get_agent_def, qoder_protocol, trae_agent,
    zcode_agent, zcode_kind, AgentKind,
};

#[test]
fn registry_lists_the_built_in_agents_in_order() {
    let ids: Vec<&str> = agent_registry().iter().map(|d| d.id).collect();
    assert_eq!(ids, vec!["codegeex-vscode", "zcode", "trae", "generic-cli"]);
}

#[test]
fn agents_are_found_by_id() {
    let d = get_agent_def("zcode").unwrap();
    assert!(d.custom_zcode);
    assert_eq!(d.kind, AgentKind::File);
    assert_eq!(get_agent_def("trae").unwrap().kind, AgentKind::Cdp);
    assert!(get_agent_def("nope").is_none());
}

#[test]
fn agent_definitions_carry_their_fields() {
    let c = codegeex_agent();
    assert_eq!(c.config_paths, vec!["{appdata}/Code/User/settings.json"]);
    let paths: Vec<String> = c.fields.iter().map(|f| f.json_path.clone().unwrap()).collect();
    assert_eq!(paths, vec!["codegeex.apiBase", "codegeex.apiKey", "codegeex.model"]);
    assert!(c.fields.iter().all(|f| f.flat == Some(true)));
    let g = generic_cli_agent();
    assert_eq!(g.config_paths.len(), 2);
    assert_eq!(g.fields[0].toml_path.as_deref(), Some("api_base"));
    assert!(zcode_agent().fields.is_empty());
    assert_eq!(trae_agent().config_paths, vec!["{home}/.trae/.keep"]);
}

#[test]
fn endpoint_kinds_follow_the_base_url() {
    assert_eq!(zcode_kind("https://api.anthropic.com"), "anthropic");
    assert_eq!(zcode_kind("https://x.example/#fh"), "anthropic");
    assert_eq!(zcode_kind("https://api.openai.com/v1"), "openai-compatible");
    assert_eq!(qoder_protocol("https://api.anthropic.com"), "anthropic");
    assert_eq!(qoder_protocol("https://api.example.com"), "openai");
}
