use vstd::prelude::*;
use crate::text::{contains, str_contains, str_eq};
use crate::store::opt_str;

verus! {

/// How an agent is switched: by rewriting a configuration file, or by driving its UI over the
/// Chrome DevTools Protocol.
#[derive(Debug, Clone, Copy, PartialEq, Eq, Structural)]
pub enum AgentKind {
    File,
    Cdp,
}

/// One configuration entry an agent reads, and where its value comes from.
pub struct AgentField {
    pub name: String,
    pub json_path: Option<String>,
    pub toml_path: Option<String>,
    /// baseUrl | apiKey | modelName | const | header:xxx
    pub source: String,
    pub value: Option<String>,
    pub flat: Option<bool>,
}

/// A built-in agent adapter.
pub struct AgentDef {
    pub id: &'static str,
    pub name: &'static str,
    pub description: &'static str,
    pub config_paths: Vec<&'static str>,
    pub fields: Vec<AgentField>,
    pub kind: AgentKind,
    /// ZCode: the whole provider block is written and read.
    pub custom_zcode: bool,
    /// Qoder: a custom provider entry is registered.
    pub custom_qoder: bool,
    /// WorkBuddy: custom model entries are registered.
    pub custom_workbuddy: bool,
}

/// Prefix of the provider keys this tool manages in ZCode's configuration.
pub const ZCODE_PROVIDER_PREFIX: &'static str = "agent-switch:";

/// Prefix of the provider keys this tool manages in Qoder's settings.
pub const QODER_PROVIDER_PREFIX: &'static str = "qoder-custom-";

/// Prefix of the model ids this tool manages in WorkBuddy's model list.
pub const WORKBUDDY_MODEL_PREFIX: &'static str = "agent-switch:";

/// Whether a base URL points at an Anthropic-style endpoint.
pub open spec fn anthropic_style(base_url: Seq<char>) -> bool {
    contains(base_url, "anthropic"@) || contains(base_url, "#fh"@)
}

/// An endpoint is Anthropic-style exactly when its base URL contains `anthropic` or `#fh`
/// anywhere.
pub proof fn law_anthropic_style(u: Seq<char>)
    ensures
        anthropic_style(u) <==> (contains(u, "anthropic"@) || contains(u, "#fh"@)),
{
}

/// The provider kind ZCode is told for a base URL.
pub fn zcode_kind(base_url: &str) -> (r: &'static str)
    ensures
        r@ == if anthropic_style(base_url@) {
            "anthropic"@
        } else {
            "openai-compatible"@
        },
        (r@ == "anthropic"@) <==> (contains(base_url@, "anthropic"@) || contains(base_url@, "#fh"@)),
        (r@ == "anthropic"@) || (r@ == "openai-compatible"@),
{
    proof {
        reveal_strlit("anthropic");
        reveal_strlit("openai-compatible");
    }
    if str_contains(base_url, "anthropic") || str_contains(base_url, "#fh") {
        "anthropic"
    } else {
        "openai-compatible"
    }
}

/// The protocol Qoder is told for a base URL.
pub fn qoder_protocol(base_url: &str) -> (r: &'static str)
    ensures
        r@ == if anthropic_style(base_url@) {
            "anthropic"@
        } else {
            "openai"@
        },
        (r@ == "anthropic"@) <==> (contains(base_url@, "anthropic"@) || contains(base_url@, "#fh"@)),
        (r@ == "anthropic"@) || (r@ == "openai"@),
{
    proof {
        reveal_strlit("anthropic");
        reveal_strlit("openai");
    }
    if str_contains(base_url, "anthropic") || str_contains(base_url, "#fh") {
        "anthropic"
    } else {
        "openai"
    }
}

/// `f` is the field described by the other arguments.
pub open spec fn field_is(
    f: AgentField,
    name: Seq<char>,
    json_path: Option<Seq<char>>,
    toml_path: Option<Seq<char>>,
    source: Seq<char>,
    flat: Option<bool>,
) -> bool {
    &&& f.name@ == name
    &&& opt_str(f.json_path) == json_path
    &&& opt_str(f.toml_path) == toml_path
    &&& f.source@ == source
    &&& f.value is None
    &&& f.flat == flat
}

fn field(
    name: &str,
    json_path: Option<&str>,
    toml_path: Option<&str>,
    source: &str,
    flat: Option<bool>,
) -> (f: AgentField)
    ensures
        field_is(
            f,
            name@,
            match json_path {
                Some(s) => Some(s@),
                None => None,
            },
            match toml_path {
                Some(s) => Some(s@),
                None => None,
            },
            source@,
            flat,
        ),
{
    AgentField {
        name: name.to_owned(),
        json_path: match json_path {
            Some(s) => Some(s.to_owned()),
            None => None,
        },
        toml_path: match toml_path {
            Some(s) => Some(s.to_owned()),
            None => None,
        },
        source: source.to_owned(),
        value: None,
        flat,
    }
}

pub open spec fn is_codegeex(d: AgentDef) -> bool {
    &&& d.id@ == "codegeex-vscode"@
    &&& d.name@ == "CodeGeeX (VSCode 插件)"@
    &&& d.description@
        == "智谱 CodeGeeX 插件，通过 VSCode settings.json 的 codegeex.* 扁平键接入任意 OpenAI 兼容 API"@
    &&& d.config_paths@.len() == 1
    &&& d.config_paths@[0]@ == "{appdata}/Code/User/settings.json"@
    &&& d.fields@.len() == 3
    &&& field_is(
        d.fields@[0],
        "baseUrl"@,
        Some("codegeex.apiBase"@),
        None,
        "baseUrl"@,
        Some(true),
    )
    &&& field_is(d.fields@[1], "apiKey"@, Some("codegeex.apiKey"@), None, "apiKey"@, Some(true))
    &&& field_is(
        d.fields@[2],
        "modelName"@,
        Some("codegeex.model"@),
        None,
        "modelName"@,
        Some(true),
    )
    &&& d.kind == AgentKind::File
    &&& !d.custom_zcode && !d.custom_qoder && !d.custom_workbuddy
}

pub open spec fn is_generic_cli(d: AgentDef) -> bool {
    &&& d.id@ == "generic-cli"@
    &&& d.name@ == "通用 CLI Agent（JSON 约定）"@
    &&& d.description@
        == "面向以 config.json + api_base/api_key/model 为约定的国产 CLI agent，属试配用的兜底适配器"@
    &&& d.config_paths@.len() == 2
    &&& d.config_paths@[0]@ == "{config}/agent-switch-cn/custom.json"@
    &&& d.config_paths@[1]@ == "{home}/.agent-switch-cn/custom.json"@
    &&& d.fields@.len() == 3
    &&& field_is(
        d.fields@[0],
        "baseUrl"@,
        Some("api_base"@),
        Some("api_base"@),
        "baseUrl"@,
        None,
    )
    &&& field_is(d.fields@[1], "apiKey"@, Some("api_key"@), Some("api_key"@), "apiKey"@, None)
    &&& field_is(d.fields@[2], "modelName"@, Some("model"@), Some("model"@), "modelName"@, None)
    &&& d.kind == AgentKind::File
    &&& !d.custom_zcode && !d.custom_qoder && !d.custom_workbuddy
}

pub open spec fn is_zcode(d: AgentDef) -> bool {
    &&& d.id@ == "zcode"@
    &&& d.name@ == "ZCode (Z.ai 桌面 Agent)"@
    &&& d.description@
        == "智谱 ZCode，通过改写 ~/.zcode/v2/config.json 的 provider 区块接入任意 API（非破坏性写入）"@
    &&& d.config_paths@.len() == 1
    &&& d.config_paths@[0]@ == "{home}/.zcode/v2/config.json"@
    &&& d.fields@.len() == 0
    &&& d.kind == AgentKind::File
    &&& d.custom_zcode && !d.custom_qoder && !d.custom_workbuddy
}

pub open spec fn is_trae(d: AgentDef) -> bool {
    &&& d.id@ == "trae"@
    &&& d.name@ == "Trae (桌面版)"@
    &&& d.description@
        == "通过 Chrome DevTools Protocol 驱动 Trae 桌面版的模型选择器（需以调试模式运行）"@
    &&& d.config_paths@.len() == 1
    &&& d.config_paths@[0]@ == "{home}/.trae/.keep"@
    &&& d.fields@.len() == 0
    &&& d.kind == AgentKind::Cdp
    &&& !d.custom_zcode && !d.custom_qoder && !d.custom_workbuddy
}

/// The CodeGeeX VSCode extension, configured through flat `codegeex.*` keys.
pub fn codegeex_agent() -> (d: AgentDef)
    ensures
        is_codegeex(d),
{
    let mut paths: Vec<&'static str> = Vec::new();
    paths.push("{appdata}/Code/User/settings.json");
    let mut fields: Vec<AgentField> = Vec::new();
    fields.push(field("baseUrl", Some("codegeex.apiBase"), None, "baseUrl", Some(true)));
    fields.push(field("apiKey", Some("codegeex.apiKey"), None, "apiKey", Some(true)));
    fields.push(field("modelName", Some("codegeex.model"), None, "modelName", Some(true)));
    AgentDef {
        id: "codegeex-vscode",
        name: "CodeGeeX (VSCode 插件)",
        description: "智谱 CodeGeeX 插件，通过 VSCode settings.json 的 codegeex.* 扁平键接入任意 OpenAI 兼容 API",
        config_paths: paths,
        fields,
        kind: AgentKind::File,
        custom_zcode: false,
        custom_qoder: false,
        custom_workbuddy: false,
    }
}

/// The fallback adapter for CLI agents that follow the api_base/api_key/model convention.
pub fn generic_cli_agent() -> (d: AgentDef)
    ensures
        is_generic_cli(d),
{
    let mut paths: Vec<&'static str> = Vec::new();
    paths.push("{config}/agent-switch-cn/custom.json");
    paths.push("{home}/.agent-switch-cn/custom.json");
    let mut fields: Vec<AgentField> = Vec::new();
    fields.push(field("baseUrl", Some("api_base"), Some("api_base"), "baseUrl", None));
    fields.push(field("apiKey", Some("api_key"), Some("api_key"), "apiKey", None));
    fields.push(field("modelName", Some("model"), Some("model"), "modelName", None));
    AgentDef {
        id: "generic-cli",
        name: "通用 CLI Agent（JSON 约定）",
        description: "面向以 config.json + api_base/api_key/model 为约定的国产 CLI agent，属试配用的兜底适配器",
        config_paths: paths,
        fields,
        kind: AgentKind::File,
        custom_zcode: false,
        custom_qoder: false,
        custom_workbuddy: false,
    }
}

/// ZCode, whose provider block is rewritten as a whole.
pub fn zcode_agent() -> (d: AgentDef)
    ensures
        is_zcode(d),
{
    let mut paths: Vec<&'static str> = Vec::new();
    paths.push("{home}/.zcode/v2/config.json");
    AgentDef {
        id: "zcode",
        name: "ZCode (Z.ai 桌面 Agent)",
        description: "智谱 ZCode，通过改写 ~/.zcode/v2/config.json 的 provider 区块接入任意 API（非破坏性写入）",
        config_paths: paths,
        fields: Vec::new(),
        kind: AgentKind::File,
        custom_zcode: true,
        custom_qoder: false,
        custom_workbuddy: false,
    }
}

/// Trae desktop, driven over the DevTools protocol.
pub fn trae_agent() -> (d: AgentDef)
    ensures
        is_trae(d),
{
    let mut paths: Vec<&'static str> = Vec::new();
    paths.push("{home}/.trae/.keep");
    AgentDef {
        id: "trae",
        name: "Trae (桌面版)",
        description: "通过 Chrome DevTools Protocol 驱动 Trae 桌面版的模型选择器（需以调试模式运行）",
        config_paths: paths,
        fields: Vec::new(),
        kind: AgentKind::Cdp,
        custom_zcode: false,
        custom_qoder: false,
        custom_workbuddy: false,
    }
}

/// The registry in its fixed order.
pub open spec fn is_registry(r: Seq<AgentDef>) -> bool {
    &&& r.len() == 4
    &&& is_codegeex(r[0])
    &&& is_zcode(r[1])
    &&& is_trae(r[2])
    &&& is_generic_cli(r[3])
}

/// Every built-in agent adapter.
pub fn agent_registry() -> (r: Vec<AgentDef>)
    ensures
        is_registry(r@),
{
    let mut r: Vec<AgentDef> = Vec::new();
    r.push(codegeex_agent());
    r.push(zcode_agent());
    r.push(trae_agent());
    r.push(generic_cli_agent());
    r
}

/// The registry's definition for an agent id.
pub open spec fn agent_def_for(id: Seq<char>, d: AgentDef) -> bool {
    ||| id == "codegeex-vscode"@ && is_codegeex(d)
    ||| id == "zcode"@ && is_zcode(d)
    ||| id == "trae"@ && is_trae(d)
    ||| id == "generic-cli"@ && is_generic_cli(d)
}

pub open spec fn known_agent(id: Seq<char>) -> bool {
    id == "codegeex-vscode"@ || id == "zcode"@ || id == "trae"@ || id == "generic-cli"@
}

/// The adapter registered under an id.
pub fn get_agent_def(id: &str) -> (r: Option<AgentDef>)
    ensures
        r is Some <==> known_agent(id@),
        r matches Some(d) ==> agent_def_for(id@, d),
{
    let mut reg = agent_registry();
    let mut i: usize = 0;
    while i < reg.len()
        invariant
            is_registry(reg@),
            i <= reg.len(),
            forall|k: int| 0 <= k < i ==> reg@[k].id@ != id@,
        decreases reg.len() - i,
    {
        if str_eq(reg[i].id, id) {
            let d = reg.remove(i);
            return Some(d);
        }
        i = i + 1;
    }
    proof {
        assert(reg@[0].id@ != id@);
        assert(reg@[1].id@ != id@);
        assert(reg@[2].id@ != id@);
        assert(reg@[3].id@ != id@);
    }
    None
}

} // verus!

verus! {

/// The mathematical value of a field definition.
pub struct FieldV {
    pub name: Seq<char>,
    pub json_path: Option<Seq<char>>,
    pub toml_path: Option<Seq<char>>,
    pub source: Seq<char>,
    pub value: Option<Seq<char>>,
    pub flat: Option<bool>,
}

/// The mathematical value of an agent definition, as far as switching and reading use it.
pub struct DefV {
    pub id: Seq<char>,
    pub name: Seq<char>,
    pub description: Seq<char>,
    pub config_paths: Seq<Seq<char>>,
    pub kind: AgentKind,
    pub custom_zcode: bool,
    pub custom_qoder: bool,
    pub custom_workbuddy: bool,
    pub fields: Seq<FieldV>,
}

pub open spec fn field_view(f: AgentField) -> FieldV {
    FieldV {
        name: f.name@,
        json_path: opt_str(f.json_path),
        toml_path: opt_str(f.toml_path),
        source: f.source@,
        value: opt_str(f.value),
        flat: f.flat,
    }
}

pub open spec fn fields_view(s: Seq<AgentField>) -> Seq<FieldV> {
    Seq::new(s.len(), |i: int| field_view(s[i]))
}

pub open spec fn def_view(d: AgentDef) -> DefV {
    DefV {
        id: d.id@,
        name: d.name@,
        description: d.description@,
        config_paths: Seq::new(d.config_paths@.len(), |i: int| d.config_paths@[i]@),
        kind: d.kind,
        custom_zcode: d.custom_zcode,
        custom_qoder: d.custom_qoder,
        custom_workbuddy: d.custom_workbuddy,
        fields: fields_view(d.fields@),
    }
}

pub open spec fn fv(
    name: Seq<char>,
    json_path: Option<Seq<char>>,
    toml_path: Option<Seq<char>>,
    source: Seq<char>,
    flat: Option<bool>,
) -> FieldV {
    FieldV { name, json_path, toml_path, source, value: None, flat }
}

/// The registered definition of an agent id.
pub open spec fn registry_def(id: Seq<char>) -> Option<DefV> {
    if id == "codegeex-vscode"@ {
        Some(
            DefV {
                id,
                name: "CodeGeeX (VSCode 插件)"@,
                description: "智谱 CodeGeeX 插件，通过 VSCode settings.json 的 codegeex.* 扁平键接入任意 OpenAI 兼容 API"@,
                config_paths: seq!["{appdata}/Code/User/settings.json"@],
                kind: AgentKind::File,
                custom_zcode: false,
                custom_qoder: false,
                custom_workbuddy: false,
                fields: seq![
                    fv("baseUrl"@, Some("codegeex.apiBase"@), None, "baseUrl"@, Some(true)),
                    fv("apiKey"@, Some("codegeex.apiKey"@), None, "apiKey"@, Some(true)),
                    fv("modelName"@, Some("codegeex.model"@), None, "modelName"@, Some(true)),
                ],
            },
        )
    } else if id == "zcode"@ {
        Some(
            DefV {
                id,
                name: "ZCode (Z.ai 桌面 Agent)"@,
                description: "智谱 ZCode，通过改写 ~/.zcode/v2/config.json 的 provider 区块接入任意 API（非破坏性写入）"@,
                config_paths: seq!["{home}/.zcode/v2/config.json"@],
                kind: AgentKind::File,
                custom_zcode: true,
                custom_qoder: false,
                custom_workbuddy: false,
                fields: Seq::empty(),
            },
        )
    } else if id == "trae"@ {
        Some(
            DefV {
                id,
                name: "Trae (桌面版)"@,
                description: "通过 Chrome DevTools Protocol 驱动 Trae 桌面版的模型选择器（需以调试模式运行）"@,
                config_paths: seq!["{home}/.trae/.keep"@],
                kind: AgentKind::Cdp,
                custom_zcode: false,
                custom_qoder: false,
                custom_workbuddy: false,
                fields: Seq::empty(),
            },
        )
    } else if id == "generic-cli"@ {
        Some(
            DefV {
                id,
                name: "通用 CLI Agent（JSON 约定）"@,
                description: "面向以 config.json + api_base/api_key/model 为约定的国产 CLI agent，属试配用的兜底适配器"@,
                config_paths: seq!["{config}/agent-switch-cn/custom.json"@, "{home}/.agent-switch-cn/custom.json"@],
                kind: AgentKind::File,
                custom_zcode: false,
                custom_qoder: false,
                custom_workbuddy: false,
                fields: seq![
                    fv("baseUrl"@, Some("api_base"@), Some("api_base"@), "baseUrl"@, None),
                    fv("apiKey"@, Some("api_key"@), Some("api_key"@), "apiKey"@, None),
                    fv("modelName"@, Some("model"@), Some("model"@), "modelName"@, None),
                ],
            },
        )
    } else {
        None
    }
}

/// The registered definition of an id is what `get_agent_def` hands out for it.
pub proof fn lemma_registry_def(id: Seq<char>, d: AgentDef)
    requires
        agent_def_for(id, d),
    ensures
        registry_def(id) == Some(def_view(d)),
{
    reveal_strlit("codegeex-vscode");
    reveal_strlit("zcode");
    reveal_strlit("trae");
    reveal_strlit("generic-cli");
    assert("codegeex-vscode"@.len() == 15);
    assert("zcode"@.len() == 5);
    assert("trae"@.len() == 4);
    assert("generic-cli"@.len() == 11);
    if id == "codegeex-vscode"@ {
        assert(fields_view(d.fields@) =~= registry_def(id).unwrap().fields);
        assert(def_view(d).config_paths =~= registry_def(id).unwrap().config_paths);
    } else if id == "zcode"@ {
        assert(is_zcode(d));
        assert(fields_view(d.fields@) =~= registry_def(id).unwrap().fields);
        assert(def_view(d).config_paths =~= registry_def(id).unwrap().config_paths);
    } else if id == "trae"@ {
        assert(id != "zcode"@);
        assert(is_trae(d));
        assert(fields_view(d.fields@) =~= registry_def(id).unwrap().fields);
        assert(def_view(d).config_paths =~= registry_def(id).unwrap().config_paths);
    } else {
        assert(id != "zcode"@ && id != "trae"@ && id != "codegeex-vscode"@);
        assert(is_generic_cli(d));
        assert(fields_view(d.fields@) =~= registry_def(id).unwrap().fields);
        assert(def_view(d).config_paths =~= registry_def(id).unwrap().config_paths);
    }
}

pub proof fn lemma_registry_def_known(id: Seq<char>)
    ensures
        registry_def(id) is Some <==> known_agent(id),
{
}

} // verus!

verus! {

/// The ids of the registered agents, in registry order.
pub open spec fn registry_ids() -> Seq<Seq<char>> {
    seq!["codegeex-vscode"@, "zcode"@, "trae"@, "generic-cli"@]
}

/// Each definition of the registry is the registered definition of its id.
pub proof fn lemma_registry_views(reg: Seq<AgentDef>)
    requires
        is_registry(reg),
    ensures
        forall|i: int| 0 <= i < 4 ==> registry_def(#[trigger] registry_ids()[i]) == Some(def_view(reg[i])),
{
    lemma_registry_def(registry_ids()[0], reg[0]);
    lemma_registry_def(registry_ids()[1], reg[1]);
    lemma_registry_def(registry_ids()[2], reg[2]);
    lemma_registry_def(registry_ids()[3], reg[3]);
}

} // verus!
