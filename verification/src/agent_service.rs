use vstd::prelude::*;
use crate::agents::{
    anthropic_style, zcode_kind, qoder_protocol, ZCODE_PROVIDER_PREFIX, QODER_PROVIDER_PREFIX,
    WORKBUDDY_MODEL_PREFIX,
};
use crate::json::{
    Json, JVal, entries_view, items_view, obj, arr, jnum, jstr, jstring, find_key, obj_insert,
    obj_take, lemma_obj_view, lemma_arr_view,
};
use crate::kv::{
    lookup, insert, lemma_insert_lookup, lemma_lookup_first, lemma_lookup_none, lemma_insert_update,
    lemma_insert_append,
};
use crate::store::{Provider, ProviderV, Store, selected_models, strs, default_model};
use crate::text::{
    trim, trim_end_char, ends_with, starts_with, chars_of, trim_chars, trim_end_char_chars,
    string_of, ends_with_chars, concat, str_starts_with,
};

verus! {

/// `url` trimmed, without trailing slashes.
pub open spec fn normalized(url: Seq<char>) -> Seq<char> {
    trim_end_char(trim(url), '/')
}

/// The chat/completions endpoint WorkBuddy is given for a base URL.
pub open spec fn workbuddy_endpoint(base_url: Seq<char>) -> Seq<char> {
    let b = normalized(base_url);
    if ends_with(b, "/chat/completions"@) {
        b
    } else {
        b + "/chat/completions"@
    }
}

/// A base URL trimmed, without trailing slashes.
pub fn normalized_base(url: &str) -> (r: String)
    ensures
        r@ == normalized(url@),
{
    let v = chars_of(url);
    let t = trim_chars(&v);
    let u = trim_end_char_chars(&t, '/');
    string_of(&u)
}

/// WorkBuddy needs the full chat/completions endpoint: it is kept when the base URL already
/// ends with it, and appended otherwise.
pub fn workbuddy_url(base_url: &str) -> (r: String)
    ensures
        r@ == workbuddy_endpoint(base_url@),
{
    let base = normalized_base(base_url);
    let suffix = chars_of("/chat/completions");
    if ends_with_chars(&chars_of(base.as_str()), &suffix) {
        base
    } else {
        concat(base.as_str(), "/chat/completions")
    }
}

/// What ZCode is told of each model it may use.
pub open spec fn zcode_model_val() -> JVal {
    JVal::Obj(
        seq![
            ("limit"@, JVal::Obj(seq![("context"@, JVal::Num("999999"@)), ("output"@, JVal::Num("32000"@))])),
            ("modalities"@, JVal::Obj(seq![
                ("input"@, JVal::Arr(seq![JVal::Str("text"@), JVal::Str("image"@)])),
                ("output"@, JVal::Arr(seq![JVal::Str("text"@)])),
            ])),
            ("zcode"@, JVal::Obj(seq![("modified"@, JVal::Bool(true))])),
        ],
    )
}

/// The provider block this tool writes into ZCode's configuration.
pub open spec fn zcode_entry(p: ProviderV) -> JVal {
    let kind = if anthropic_style(p.base_url) {
        "anthropic"@
    } else {
        "openai-compatible"@
    };
    let base = seq![
        ("name"@, JVal::Str(p.name)),
        ("kind"@, JVal::Str(kind)),
        ("options"@, JVal::Obj(seq![
            ("apiKey"@, JVal::Str(p.api_key)),
            ("baseURL"@, JVal::Str(p.base_url)),
            ("apiKeyRequired"@, JVal::Bool(true)),
        ])),
        ("enabled"@, JVal::Bool(true)),
        ("source"@, JVal::Str("custom"@)),
    ];
    let ms = selected_models(p);
    if ms.len() > 0 {
        JVal::Obj(
            base.push(
                ("models"@, JVal::Obj(Seq::new(ms.len(), |i: int| (ms[i], zcode_model_val())))),
            ),
        )
    } else {
        JVal::Obj(base)
    }
}

/// A provider entry switched off: an object that has an `enabled` member gets it set to false.
pub open spec fn disabled(e: JVal) -> JVal {
    match e {
        JVal::Obj(f) => if lookup(f, "enabled"@) is Some {
            JVal::Obj(insert(f, "enabled"@, JVal::Bool(false)))
        } else {
            e
        },
        _ => e,
    }
}

/// Every entry but the one under `key` switched off.
pub open spec fn disable_others(s: Seq<(Seq<char>, JVal)>, key: Seq<char>) -> Seq<(Seq<char>, JVal)> {
    Seq::new(
        s.len(),
        |i: int|
            if s[i].0 == key {
                s[i]
            } else {
                (s[i].0, disabled(s[i].1))
            },
    )
}

/// The object member `k` of `data`, when it is an object; nothing otherwise.
pub open spec fn object_member(data: Seq<(Seq<char>, JVal)>, k: Seq<char>) -> Seq<(Seq<char>, JVal)> {
    match lookup(data, k) {
        Some(JVal::Obj(e)) => e,
        _ => Seq::empty(),
    }
}

/// ZCode's configuration after switching to `p`: the provider's block is written under this
/// tool's key and enabled, every other provider that can be switched off is, and the rest of
/// the file stays as it was.
pub open spec fn zcode_applied(data: Seq<(Seq<char>, JVal)>, p: ProviderV) -> Seq<(Seq<char>, JVal)> {
    let key = ZCODE_PROVIDER_PREFIX@ + p.id;
    insert(
        data,
        "provider"@,
        JVal::Obj(insert(disable_others(object_member(data, "provider"@), key), key, zcode_entry(p))),
    )
}

fn entry(k: &str, v: Json) -> (e: (String, Json))
    ensures
        e.0@ == k@,
        e.1 == v,
{
    (k.to_owned(), v)
}

fn zcode_model() -> (j: Json)
    ensures
        j@ == zcode_model_val(),
{
    let mut limit: Vec<(String, Json)> = Vec::new();
    limit.push(entry("context", jnum("999999")));
    limit.push(entry("output", jnum("32000")));
    let mut input: Vec<Json> = Vec::new();
    input.push(jstr("text"));
    input.push(jstr("image"));
    let mut output: Vec<Json> = Vec::new();
    output.push(jstr("text"));
    let mut modalities: Vec<(String, Json)> = Vec::new();
    let ji = arr(input);
    let jo = arr(output);
    assert(items_view(input@) =~= seq![JVal::Str("text"@), JVal::Str("image"@)]);
    assert(items_view(output@) =~= seq![JVal::Str("text"@)]);
    modalities.push(entry("input", ji));
    modalities.push(entry("output", jo));
    let mut zc: Vec<(String, Json)> = Vec::new();
    zc.push(entry("modified", Json::Bool(true)));
    let mut top: Vec<(String, Json)> = Vec::new();
    let jl = obj(limit);
    let jm = obj(modalities);
    let jz = obj(zc);
    assert(entries_view(limit@) =~= seq![("context"@, JVal::Num("999999"@)), ("output"@, JVal::Num("32000"@))]);
    assert(entries_view(modalities@) =~= seq![
        ("input"@, JVal::Arr(seq![JVal::Str("text"@), JVal::Str("image"@)])),
        ("output"@, JVal::Arr(seq![JVal::Str("text"@)])),
    ]);
    assert(entries_view(zc@) =~= seq![("modified"@, JVal::Bool(true))]);
    top.push(entry("limit", jl));
    top.push(entry("modalities", jm));
    top.push(entry("zcode", jz));
    let r = obj(top);
    assert(entries_view(top@) =~= entries_of_val(zcode_model_val()));
    r
}

/// The entries of an object value.
pub open spec fn entries_of_val(v: JVal) -> Seq<(Seq<char>, JVal)> {
    match v {
        JVal::Obj(e) => e,
        _ => Seq::empty(),
    }
}

/// The provider block written into ZCode's configuration for `p`.
pub fn zcode_provider_entry(p: &Provider) -> (j: Json)
    ensures
        j@ == zcode_entry(p@),
{
    let mut opts: Vec<(String, Json)> = Vec::new();
    opts.push(entry("apiKey", jstring(p.api_key.clone())));
    opts.push(entry("baseURL", jstring(p.base_url.clone())));
    opts.push(entry("apiKeyRequired", Json::Bool(true)));
    let mut e: Vec<(String, Json)> = Vec::new();
    e.push(entry("name", jstring(p.name.clone())));
    e.push(entry("kind", jstr(zcode_kind(p.base_url.as_str()))));
    let jopts = obj(opts);
    e.push(entry("options", jopts));
    e.push(entry("enabled", Json::Bool(true)));
    e.push(entry("source", jstr("custom")));
    assert(entries_view(opts@) =~= seq![
        ("apiKey"@, JVal::Str(p@.api_key)),
        ("baseURL"@, JVal::Str(p@.base_url)),
        ("apiKeyRequired"@, JVal::Bool(true)),
    ]);
    let ghost kind = if anthropic_style(p@.base_url) {
        "anthropic"@
    } else {
        "openai-compatible"@
    };
    let ghost base = entries_view(e@);
    assert(base =~= seq![
        ("name"@, JVal::Str(p@.name)),
        ("kind"@, JVal::Str(kind)),
        ("options"@, JVal::Obj(seq![
            ("apiKey"@, JVal::Str(p@.api_key)),
            ("baseURL"@, JVal::Str(p@.base_url)),
            ("apiKeyRequired"@, JVal::Bool(true)),
        ])),
        ("enabled"@, JVal::Bool(true)),
        ("source"@, JVal::Str("custom"@)),
    ]);
    let ms = p.selected_models();
    let ghost msv = selected_models(p@);
    if ms.len() > 0 {
        let mut models: Vec<(String, Json)> = Vec::new();
        let mut i: usize = 0;
        while i < ms.len()
            invariant
                i <= ms.len(),
                strs(ms@) == msv,
                models@.len() == i,
                forall|k: int| #![trigger models@[k]] 0 <= k < i ==> models@[k].0@ == msv[k] && models@[k].1@ == zcode_model_val(),
            decreases ms.len() - i,
        {
            assert(msv[i as int] == ms@[i as int]@);
            models.push((ms[i].clone(), zcode_model()));
            i = i + 1;
        }
        assert(entries_view(models@) =~= Seq::new(msv.len(), |k: int| (msv[k], zcode_model_val())));
        let jm = obj(models);
        e.push(entry("models", jm));
        assert(entries_view(e@) =~= base.push(
            ("models"@, JVal::Obj(Seq::new(msv.len(), |k: int| (msv[k], zcode_model_val())))),
        ));
    }
    let r = obj(e);
    assert(entries_view(e@) =~= entries_of_val(zcode_entry(p@)));
    r
}

/// A provider entry switched off, as ZCode's other providers are.
pub fn disable_entry(e: Json) -> (r: Json)
    ensures
        r@ == disabled(e@),
{
    match e {
        Json::Obj(f) => {
            proof {
                lemma_obj_view(f);
            }
            let mut f = f;
            if find_key(&f, "enabled").is_some() {
                obj_insert(&mut f, "enabled".to_owned(), Json::Bool(false));
            }
            obj(f)
        },
        other => other,
    }
}

/// Disables every entry but the one under `key`.
pub fn disable_all_but(entries: Vec<(String, Json)>, key: &str) -> (r: Vec<(String, Json)>)
    ensures
        entries_view(r@) == disable_others(entries_view(entries@), key@),
{
    let ghost s0 = entries_view(entries@);
    let mut rest = entries;
    let mut out: Vec<(String, Json)> = Vec::new();
    let n = rest.len();
    let mut i: usize = 0;
    while i < n
        invariant
            i <= n,
            n == s0.len(),
            entries_view(rest@) == s0.skip(i as int),
            entries_view(out@) == disable_others(s0, key@).take(i as int),
        decreases n - i,
    {
        assert(entries_view(rest@).len() == rest@.len());
        assert(rest@.len() == n - i);
        assert(entries_view(rest@)[0] == s0[i as int]);
        let ghost r0 = rest@;
        let (k, v) = rest.remove(0);
        assert(rest@ == r0.remove(0));
        assert forall|j: int| 0 <= j < rest@.len() implies #[trigger] entries_view(rest@)[j] == s0.skip(i + 1)[j] by {
            assert(rest@[j] == r0[j + 1]);
            assert(entries_view(r0)[j + 1] == s0.skip(i as int)[j + 1]);
        }
        assert(entries_view(rest@) =~= s0.skip(i + 1));
        assert(k@ == s0[i as int].0 && v@ == s0[i as int].1);
        let nv = if crate::text::str_eq(k.as_str(), key) {
            v
        } else {
            disable_entry(v)
        };
        let ghost before = entries_view(out@);
        let ghost kv = k@;
        let ghost nvv = nv@;
        assert((kv, nvv) == disable_others(s0, key@)[i as int]);
        out.push((k, nv));
        assert(entries_view(out@) =~= before.push((kv, nvv)));
        assert(disable_others(s0, key@).take(i + 1) =~= disable_others(s0, key@).take(i as int).push(disable_others(s0, key@)[i as int]));
        assert(entries_view(out@) =~= disable_others(s0, key@).take(i + 1));
        i = i + 1;
    }
    assert(disable_others(s0, key@).take(n as int) =~= disable_others(s0, key@));
    out
}

/// The object member `k` of `data` taken out, or an empty list when it is missing or not an
/// object; `data` then answers every lookup as before except that of `k`.
fn take_object_member(data: &mut Vec<(String, Json)>, k: &str) -> (r: Vec<(String, Json)>)
    ensures
        entries_view(r@) == object_member(entries_view(old(data)@), k@),
        forall|x: JVal|
            #[trigger] insert(entries_view(final(data)@), k@, x) == insert(
                entries_view(old(data)@),
                k@,
                x,
            ),
{
    match obj_take(data, k) {
        Some(Json::Obj(e)) => {
            proof {
                lemma_obj_view(e);
            }
            e
        },
        _ => {
            let e: Vec<(String, Json)> = Vec::new();
            assert(entries_view(e@) =~= Seq::<(Seq<char>, JVal)>::empty());
            e
        },
    }
}

/// Writes `p` into ZCode's configuration object (non-destructive: only this tool's provider
/// block is written, the others are switched off).
pub fn zcode_apply(data: Vec<(String, Json)>, p: &Provider) -> (r: Vec<(String, Json)>)
    ensures
        entries_view(r@) == zcode_applied(entries_view(data@), p@),
{
    let mut data = data;
    let providers = take_object_member(&mut data, "provider");
    let target_key = concat(ZCODE_PROVIDER_PREFIX, p.id.as_str());
    let mut providers = disable_all_but(providers, target_key.as_str());
    obj_insert(&mut providers, target_key, zcode_provider_entry(p));
    let jp = obj(providers);
    obj_insert(&mut data, "provider".to_owned(), jp);
    data
}

} // verus!

verus! {

/// The error Qoder's registration fails with when the provider has no model.
pub open spec fn qoder_no_model_msg() -> Seq<char> {
    "Qoder 需要先填写或勾选「模型名」"@
}

/// The error Qoder's registration fails with when the base URL is not https.
pub open spec fn qoder_not_https_msg() -> Seq<char> {
    "Qoder 仅接受 https 开头的 Base URL"@
}

/// What Qoder is told of one model.
pub open spec fn qoder_model_val(m: Seq<char>) -> JVal {
    JVal::Obj(
        seq![
            ("model"@, JVal::Str(m)),
            ("displayName"@, JVal::Str(m)),
            ("capabilities"@, JVal::Obj(seq![
                ("vision"@, JVal::Bool(false)),
                ("thinking"@, JVal::Obj(seq![
                    ("modes"@, JVal::Arr(Seq::empty())),
                    ("supportsEffort"@, JVal::Bool(false)),
                    ("supportedEffortLevels"@, JVal::Arr(Seq::empty())),
                ])),
            ])),
        ],
    )
}

/// The custom provider entry this tool registers in Qoder's settings.
pub open spec fn qoder_entry(p: ProviderV) -> JVal {
    let key = QODER_PROVIDER_PREFIX@ + p.id;
    let ms = selected_models(p);
    let anth = anthropic_style(p.base_url);
    JVal::Obj(
        seq![
            ("providerId"@, JVal::Str(key)),
            ("baseUrl"@, JVal::Str(p.base_url)),
            ("apiKey"@, JVal::Str(p.api_key)),
            ("type"@, JVal::Str("openai-compatible"@)),
            ("protocol"@, JVal::Str(if anth { "anthropic"@ } else { "openai"@ })),
            ("authType"@, JVal::Str(if anth { "api-key"@ } else { "bearer"@ })),
            ("displayName"@, JVal::Str(p.name)),
            ("model"@, JVal::Str(ms[0])),
            ("models"@, JVal::Arr(Seq::new(ms.len(), |i: int| qoder_model_val(ms[i])))),
        ],
    )
}

/// Qoder's settings after registering `p`: only this tool's provider entry is written.
pub open spec fn qoder_applied(data: Seq<(Seq<char>, JVal)>, p: ProviderV) -> Seq<(Seq<char>, JVal)> {
    let key = QODER_PROVIDER_PREFIX@ + p.id;
    insert(
        data,
        "providers"@,
        JVal::Obj(insert(object_member(data, "providers"@), key, qoder_entry(p))),
    )
}

fn qoder_model(m: &String) -> (j: Json)
    ensures
        j@ == qoder_model_val(m@),
{
    let mut thinking: Vec<(String, Json)> = Vec::new();
    thinking.push(entry("modes", arr(Vec::new())));
    thinking.push(entry("supportsEffort", Json::Bool(false)));
    thinking.push(entry("supportedEffortLevels", arr(Vec::new())));
    let mut caps: Vec<(String, Json)> = Vec::new();
    caps.push(entry("vision", Json::Bool(false)));
    let jt = obj(thinking);
    caps.push(entry("thinking", jt));
    let mut top: Vec<(String, Json)> = Vec::new();
    top.push(entry("model", jstring(m.clone())));
    top.push(entry("displayName", jstring(m.clone())));
    let jc = obj(caps);
    top.push(entry("capabilities", jc));
    assert(items_view(Seq::<Json>::empty()) =~= Seq::<JVal>::empty());
    assert(entries_view(thinking@) =~= seq![
        ("modes"@, JVal::Arr(Seq::empty())),
        ("supportsEffort"@, JVal::Bool(false)),
        ("supportedEffortLevels"@, JVal::Arr(Seq::empty())),
    ]);
    assert(entries_view(caps@) =~= seq![
        ("vision"@, JVal::Bool(false)),
        ("thinking"@, JVal::Obj(seq![
            ("modes"@, JVal::Arr(Seq::empty())),
            ("supportsEffort"@, JVal::Bool(false)),
            ("supportedEffortLevels"@, JVal::Arr(Seq::empty())),
        ])),
    ]);
    let r = obj(top);
    assert(entries_view(top@) =~= entries_of_val(qoder_model_val(m@)));
    r
}

fn qoder_provider_entry(p: &Provider, key: String, ms: &Vec<String>) -> (j: Json)
    requires
        key@ == QODER_PROVIDER_PREFIX@ + p@.id,
        strs(ms@) == selected_models(p@),
        ms@.len() > 0,
    ensures
        j@ == qoder_entry(p@),
{
    let protocol = qoder_protocol(p.base_url.as_str());
    let anth = crate::text::str_contains(p.base_url.as_str(), "anthropic")
        || crate::text::str_contains(p.base_url.as_str(), "#fh");
    let auth_type = if anth {
        "api-key"
    } else {
        "bearer"
    };
    let mut models: Vec<Json> = Vec::new();
    let mut i: usize = 0;
    while i < ms.len()
        invariant
            i <= ms.len(),
            models@.len() == i,
            forall|k: int| 0 <= k < i ==> #[trigger] models@[k]@ == qoder_model_val(ms@[k]@),
        decreases ms.len() - i,
    {
        models.push(qoder_model(&ms[i]));
        i = i + 1;
    }
    let ghost msv = selected_models(p@);
    assert(items_view(models@) =~= Seq::new(msv.len(), |k: int| qoder_model_val(msv[k])));
    let mut e: Vec<(String, Json)> = Vec::new();
    e.push(entry("providerId", jstring(key)));
    e.push(entry("baseUrl", jstring(p.base_url.clone())));
    e.push(entry("apiKey", jstring(p.api_key.clone())));
    e.push(entry("type", jstr("openai-compatible")));
    e.push(entry("protocol", jstr(protocol)));
    e.push(entry("authType", jstr(auth_type)));
    e.push(entry("displayName", jstring(p.name.clone())));
    e.push(entry("model", jstring(ms[0].clone())));
    let jm = arr(models);
    e.push(entry("models", jm));
    let r = obj(e);
    assert(msv[0] == ms@[0]@);
    assert(entries_view(e@) =~= entries_of_val(qoder_entry(p@)));
    r
}

/// Registers `p` as a custom provider in Qoder's settings object. Only this tool's entry is
/// added or updated; a provider without a model, or whose base URL is not https, is refused.
pub fn qoder_apply(data: Vec<(String, Json)>, p: &Provider) -> (r: Result<Vec<(String, Json)>, String>)
    ensures
        match r {
            Ok(d) => {
                &&& selected_models(p@).len() > 0
                &&& starts_with(p@.base_url, "https://"@)
                &&& entries_view(d@) == qoder_applied(entries_view(data@), p@)
            },
            Err(e) => if selected_models(p@).len() == 0 {
                e@ == qoder_no_model_msg()
            } else {
                !starts_with(p@.base_url, "https://"@) && e@ == qoder_not_https_msg()
            },
        },
{
    let models = p.selected_models();
    if models.len() == 0 {
        return Err("Qoder 需要先填写或勾选「模型名」".to_owned());
    }
    if !str_starts_with(p.base_url.as_str(), "https://") {
        return Err("Qoder 仅接受 https 开头的 Base URL".to_owned());
    }
    let mut data = data;
    let mut providers = take_object_member(&mut data, "providers");
    let key = concat(QODER_PROVIDER_PREFIX, p.id.as_str());
    let e = qoder_provider_entry(p, key.clone(), &models);
    obj_insert(&mut providers, key, e);
    let jp = obj(providers);
    obj_insert(&mut data, "providers".to_owned(), jp);
    Ok(data)
}

} // verus!

verus! {

/// The error WorkBuddy's registration fails with when the provider has no model.
pub open spec fn workbuddy_no_model_msg() -> Seq<char> {
    "WorkBuddy 需要先填写或勾选「模型名」"@
}

/// The error WorkBuddy's registration fails with when the base URL is empty.
pub open spec fn workbuddy_no_url_msg() -> Seq<char> {
    "WorkBuddy 需要先填写 Base URL"@
}

/// A model entry whose id marks it as one this tool manages.
pub open spec fn is_managed(e: JVal) -> bool {
    match crate::json::as_str(crate::json::member(e, "id"@)) {
        Some(id) => starts_with(id, WORKBUDDY_MODEL_PREFIX@),
        None => false,
    }
}

pub open spec fn managed_pred() -> spec_fn(JVal) -> bool {
    |e: JVal| is_managed(e)
}

pub open spec fn not_managed() -> spec_fn(JVal) -> bool {
    |e: JVal| !is_managed(e)
}

/// The vendor name WorkBuddy shows for a provider.
pub open spec fn workbuddy_vendor(p: ProviderV) -> Seq<char> {
    if trim(p.name).len() == 0 {
        "Custom"@
    } else {
        p.name
    }
}

/// The model entry registered in WorkBuddy for model `m` of `p`.
pub open spec fn workbuddy_model_val(p: ProviderV, m: Seq<char>) -> JVal {
    JVal::Obj(
        seq![
            ("id"@, JVal::Str(WORKBUDDY_MODEL_PREFIX@ + p.id + ":"@ + m)),
            ("name"@, JVal::Str(m)),
            ("vendor"@, JVal::Str(workbuddy_vendor(p))),
            ("url"@, JVal::Str(workbuddy_endpoint(p.base_url))),
            ("apiKey"@, JVal::Str(p.api_key)),
            ("supportsToolCall"@, JVal::Bool(true)),
            ("supportsImages"@, JVal::Bool(false)),
            ("supportsReasoning"@, JVal::Bool(false)),
        ],
    )
}

/// The array member `k` of `data`, when it is an array; nothing otherwise.
pub open spec fn array_member(data: Seq<(Seq<char>, JVal)>, k: Seq<char>) -> Seq<JVal> {
    match lookup(data, k) {
        Some(JVal::Arr(a)) => a,
        _ => Seq::empty(),
    }
}

/// WorkBuddy's model file after registering `p`: the entries this tool manages are replaced
/// by one entry per selected model, every other entry and member stays.
pub open spec fn workbuddy_applied(data: Seq<(Seq<char>, JVal)>, p: ProviderV) -> Seq<(Seq<char>, JVal)> {
    let ms = selected_models(p);
    insert(
        data,
        "models"@,
        JVal::Arr(
            array_member(data, "models"@).filter(not_managed()) + Seq::new(
                ms.len(),
                |i: int| workbuddy_model_val(p, ms[i]),
            ),
        ),
    )
}

/// Whether a model entry is one this tool manages.
pub fn is_managed_entry(e: &Json) -> (b: bool)
    ensures
        b == is_managed(e@),
{
    match crate::json::get(e, "id") {
        Some(Json::Str(id)) => str_starts_with(id.as_str(), WORKBUDDY_MODEL_PREFIX),
        _ => false,
    }
}

fn workbuddy_model(p: &Provider, m: &String, vendor: &String, url: &String) -> (j: Json)
    requires
        vendor@ == workbuddy_vendor(p@),
        url@ == workbuddy_endpoint(p@.base_url),
    ensures
        j@ == workbuddy_model_val(p@, m@),
{
    let id = concat(concat(concat(WORKBUDDY_MODEL_PREFIX, p.id.as_str()).as_str(), ":").as_str(), m.as_str());
    let mut e: Vec<(String, Json)> = Vec::new();
    e.push(entry("id", jstring(id)));
    e.push(entry("name", jstring(m.clone())));
    e.push(entry("vendor", jstring(vendor.clone())));
    e.push(entry("url", jstring(url.clone())));
    e.push(entry("apiKey", jstring(p.api_key.clone())));
    e.push(entry("supportsToolCall", Json::Bool(true)));
    e.push(entry("supportsImages", Json::Bool(false)));
    e.push(entry("supportsReasoning", Json::Bool(false)));
    let r = obj(e);
    assert(entries_view(e@) =~= entries_of_val(workbuddy_model_val(p@, m@)));
    r
}

/// The items of `items` that this tool does not manage.
fn drop_managed(items: Vec<Json>) -> (r: Vec<Json>)
    ensures
        items_view(r@) == items_view(items@).filter(not_managed()),
{
    let ghost s0 = items_view(items@);
    let mut rest = items;
    let mut out: Vec<Json> = Vec::new();
    let n = rest.len();
    let mut i: usize = 0;
    while i < n
        invariant
            i <= n,
            n == s0.len(),
            items_view(rest@) == s0.skip(i as int),
            items_view(out@) == s0.take(i as int).filter(not_managed()),
        decreases n - i,
    {
        assert(items_view(rest@).len() == rest@.len());
        assert(items_view(rest@)[0] == s0[i as int]);
        let ghost r0 = rest@;
        let x = rest.remove(0);
        assert(rest@ == r0.remove(0));
        assert forall|j: int| 0 <= j < rest@.len() implies #[trigger] items_view(rest@)[j] == s0.skip(i + 1)[j] by {
            assert(rest@[j] == r0[j + 1]);
            assert(items_view(r0)[j + 1] == s0.skip(i as int)[j + 1]);
        }
        assert(items_view(rest@) =~= s0.skip(i + 1));
        proof {
            assert(s0.take(i + 1) =~= s0.take(i as int).push(s0[i as int]));
            s0.take(i as int).lemma_filter_push(s0[i as int], not_managed());
        }
        if !is_managed_entry(&x) {
            let ghost before = items_view(out@);
            let ghost xv = x@;
            out.push(x);
            assert(items_view(out@) =~= before.push(xv));
        }
        i = i + 1;
    }
    assert(s0.take(n as int) =~= s0);
    out
}

/// The array member `k` of `data` taken out, or an empty list when it is missing or not an
/// array.
fn take_array_member(data: &mut Vec<(String, Json)>, k: &str) -> (r: Vec<Json>)
    ensures
        items_view(r@) == array_member(entries_view(old(data)@), k@),
        forall|x: JVal|
            #[trigger] insert(entries_view(final(data)@), k@, x) == insert(
                entries_view(old(data)@),
                k@,
                x,
            ),
{
    match obj_take(data, k) {
        Some(Json::Arr(a)) => {
            proof {
                lemma_arr_view(a);
            }
            a
        },
        _ => {
            let a: Vec<Json> = Vec::new();
            assert(items_view(a@) =~= Seq::<JVal>::empty());
            a
        },
    }
}

/// Registers the models of `p` in WorkBuddy's model file: the entries this tool manages are
/// replaced, every other entry stays. A provider without a model or without a base URL is
/// refused.
pub fn workbuddy_apply(data: Vec<(String, Json)>, p: &Provider) -> (r: Result<Vec<(String, Json)>, String>)
    ensures
        match r {
            Ok(d) => {
                &&& selected_models(p@).len() > 0
                &&& workbuddy_endpoint(p@.base_url) != "/chat/completions"@
                &&& entries_view(d@) == workbuddy_applied(entries_view(data@), p@)
            },
            Err(e) => if selected_models(p@).len() == 0 {
                e@ == workbuddy_no_model_msg()
            } else {
                workbuddy_endpoint(p@.base_url) == "/chat/completions"@ && e@ == workbuddy_no_url_msg()
            },
        },
{
    let models = p.selected_models();
    if models.len() == 0 {
        return Err("WorkBuddy 需要先填写或勾选「模型名」".to_owned());
    }
    let url = workbuddy_url(p.base_url.as_str());
    if crate::text::str_eq(url.as_str(), "/chat/completions") {
        return Err("WorkBuddy 需要先填写 Base URL".to_owned());
    }
    let vendor = if crate::text::trim_str(p.name.as_str()).as_str().is_empty() {
        "Custom".to_owned()
    } else {
        p.name.clone()
    };
    let mut data = data;
    let list = take_array_member(&mut data, "models");
    let mut list = drop_managed(list);
    let ghost kept = items_view(list@);
    let ghost msv = selected_models(p@);
    let mut i: usize = 0;
    while i < models.len()
        invariant
            i <= models.len(),
            strs(models@) == msv,
            vendor@ == workbuddy_vendor(p@),
            url@ == workbuddy_endpoint(p@.base_url),
            items_view(list@) =~= kept + Seq::new(i as nat, |k: int| workbuddy_model_val(p@, msv[k])),
        decreases models.len() - i,
    {
        let ghost before = items_view(list@);
        assert(msv[i as int] == models@[i as int]@);
        list.push(workbuddy_model(p, &models[i], &vendor, &url));
        assert(items_view(list@) =~= before.push(workbuddy_model_val(p@, msv[i as int])));
        i = i + 1;
    }
    let jl = arr(list);
    obj_insert(&mut data, "models".to_owned(), jl);
    Ok(data)
}

} // verus!

verus! {

/// A detected agent and its configuration file.
pub struct AgentInstance {
    pub agent_id: String,
    pub agent_name: String,
    pub config_file_path: String,
    pub format: String,
    pub exists: bool,
}

/// The outcome of a switch.
pub struct SwitchResult {
    pub ok: bool,
    pub message: Option<String>,
    pub backup_path: Option<String>,
}

/// What an agent's configuration currently points at.
pub struct SwitchStatus {
    pub configured: bool,
    pub provider_name: Option<String>,
    pub model_name: Option<String>,
}

/// The parsed content of an agent's configuration file.
pub enum ConfigContent {
    Json(Json),
    Toml(Vec<(String, String)>),
}

pub type StatusV = (bool, Option<Seq<char>>, Option<Seq<char>>);

impl SwitchStatus {
    pub open spec fn view(&self) -> StatusV {
        (self.configured, crate::store::opt_str(self.provider_name), crate::store::opt_str(self.model_name))
    }
}

pub open spec fn no_status() -> StatusV {
    (false, None, None)
}

fn none_status() -> (s: SwitchStatus)
    ensures
        s@ == no_status(),
{
    SwitchStatus { configured: false, provider_name: None, model_name: None }
}

/// The agent service works against a (read-only) store.
pub struct AgentService<'a> {
    pub store: &'a Store,
}

/// The name of the first provider whose normalized base URL is that of `base`.
pub open spec fn name_by_base(ps: Seq<ProviderV>, base: Seq<char>) -> Option<Seq<char>>
    decreases ps.len(),
{
    if ps.len() == 0 {
        None
    } else if normalized(ps[0].base_url) == normalized(base) {
        Some(ps[0].name)
    } else {
        name_by_base(ps.drop_first(), base)
    }
}

/// The name of the first provider whose WorkBuddy endpoint is the normalized `base`.
pub open spec fn name_by_endpoint(ps: Seq<ProviderV>, base: Seq<char>) -> Option<Seq<char>>
    decreases ps.len(),
{
    if ps.len() == 0 {
        None
    } else if workbuddy_endpoint(ps[0].base_url) == normalized(base) {
        Some(ps[0].name)
    } else {
        name_by_endpoint(ps.drop_first(), base)
    }
}

pub open spec fn str_or_empty(s: Option<Seq<char>>) -> Seq<char> {
    match s {
        Some(x) => x,
        None => Seq::empty(),
    }
}

impl<'a> AgentService<'a> {
    pub fn new(store: &'a Store) -> (s: Self)
        ensures
            s.store == store,
    {
        AgentService { store }
    }

    pub open spec fn providers(&self) -> Seq<ProviderV> {
        crate::store::providers_view(self.store.data.providers@)
    }

    fn provider_name_by_base(&self, base: &str, endpoint: bool) -> (r: Option<String>)
        ensures
            crate::store::opt_str(r) == if endpoint {
                name_by_endpoint(self.providers(), base@)
            } else {
                name_by_base(self.providers(), base@)
            },
    {
        let ps = &self.store.data.providers;
        let nb = normalized_base(base);
        let mut i: usize = 0;
        let ghost all = self.providers();
        assert(all.skip(0) =~= all);
        while i < ps.len()
            invariant
                i <= ps.len(),
                all == crate::store::providers_view(ps@),
                all == self.providers(),
                nb@ == normalized(base@),
                !endpoint ==> name_by_base(all, base@) == name_by_base(all.skip(i as int), base@),
                endpoint ==> name_by_endpoint(all, base@) == name_by_endpoint(all.skip(i as int), base@),
            decreases ps.len() - i,
        {
            assert(all.skip(i as int)[0] == ps@[i as int]@);
            assert(all.skip(i as int).drop_first() =~= all.skip(i + 1));
            let pb = if endpoint {
                workbuddy_url(ps[i].base_url.as_str())
            } else {
                normalized_base(ps[i].base_url.as_str())
            };
            if crate::text::str_eq(pb.as_str(), nb.as_str()) {
                return Some(ps[i].name.clone());
            }
            i = i + 1;
        }
        None
    }
}

/// WorkBuddy's status: the first entry this tool manages (else the first entry) names the
/// model, and its url finds the provider.
pub open spec fn workbuddy_status(ps: Seq<ProviderV>, data: Option<JVal>) -> StatusV {
    match data {
        Some(d) => match crate::json::member(d, "models"@) {
            Some(JVal::Arr(list)) => {
                let managed = list.filter(managed_pred());
                let entry = if managed.len() > 0 {
                    Some(managed[0])
                } else if list.len() > 0 {
                    Some(list[0])
                } else {
                    None
                };
                match entry {
                    Some(e) => {
                        let base = str_or_empty(crate::json::as_str(crate::json::member(e, "url"@)));
                        (
                            base.len() > 0,
                            name_by_endpoint(ps, base),
                            crate::json::as_str(crate::json::member(e, "name"@)),
                        )
                    },
                    None => no_status(),
                }
            },
            _ => no_status(),
        },
        None => no_status(),
    }
}

} // verus!

verus! {

/// The first element of a filtered sequence is the first element that passes.
pub proof fn lemma_filter_first<A>(s: Seq<A>, p: spec_fn(A) -> bool, i: int)
    requires
        0 <= i < s.len(),
        p(s[i]),
        forall|j: int| 0 <= j < i ==> !p(s[j]),
    ensures
        s.filter(p).len() > 0,
        s.filter(p)[0] == s[i],
{
    broadcast use vstd::seq_lib::group_filter_ensures;
    lemma_filter_none(s.take(i), p);
    assert(s.take(i + 1) =~= s.take(i).push(s[i]));
    s.take(i).lemma_filter_push(s[i], p);
    assert(s =~= s.take(i + 1) + s.skip(i + 1));
    Seq::filter_distributes_over_add(s.take(i + 1), s.skip(i + 1), p);
}

/// Filtering a sequence none of whose elements passes gives nothing.
pub proof fn lemma_filter_none<A>(s: Seq<A>, p: spec_fn(A) -> bool)
    requires
        forall|j: int| 0 <= j < s.len() ==> !p(s[j]),
    ensures
        s.filter(p) =~= Seq::<A>::empty(),
    decreases s.len(),
{
    if s.len() > 0 {
        lemma_filter_none(s.drop_last(), p);
        assert(s =~= s.drop_last().push(s.last()));
        s.drop_last().lemma_filter_push(s.last(), p);
    }
}

impl<'a> AgentService<'a> {
    /// WorkBuddy's current status, read from its model file (`None` when it could not be read).
    pub fn workbuddy_read_status(&self, data: Option<&Json>) -> (s: SwitchStatus)
        ensures
            s@ == workbuddy_status(self.providers(), match data {
                Some(d) => Some(d@),
                None => None,
            }),
    {
        let d = match data {
            Some(d) => d,
            None => return none_status(),
        };
        let list = match crate::json::get(d, "models") {
            Some(Json::Arr(list)) => list,
            _ => return none_status(),
        };
        proof {
            lemma_arr_view(*list);
        }
        let ghost lv = items_view(list@);
        let mut i: usize = 0;
        while i < list.len() && !is_managed_entry(&list[i])
            invariant
                i <= list.len(),
                lv == items_view(list@),
                forall|j: int| 0 <= j < i ==> !is_managed(lv[j]),
            decreases list.len() - i,
        {
            i = i + 1;
        }
        let idx = if i < list.len() {
            proof {
                lemma_filter_first(lv, managed_pred(), i as int);
            }
            i
        } else {
            proof {
                lemma_filter_none(lv, managed_pred());
            }
            if list.len() == 0 {
                return none_status();
            }
            0
        };
        let e = &list[idx];
        let base = match crate::json::get(e, "url") {
            Some(Json::Str(s)) => s.clone(),
            _ => String::new(),
        };
        let provider_name = self.provider_name_by_base(base.as_str(), true);
        let model_name = match crate::json::get(e, "name") {
            Some(Json::Str(s)) => Some(s.clone()),
            _ => None,
        };
        SwitchStatus { configured: !base.as_str().is_empty(), provider_name, model_name }
    }
}

} // verus!

verus! {

/// A provider block whose `enabled` member is `true`.
pub open spec fn is_enabled(e: JVal) -> bool {
    crate::json::as_bool(crate::json::member(e, "enabled"@)) == Some(true)
}

pub open spec fn enabled_pred() -> spec_fn((Seq<char>, JVal)) -> bool {
    |e: (Seq<char>, JVal)| is_enabled(e.1)
}

pub open spec fn enabled_mine_pred() -> spec_fn((Seq<char>, JVal)) -> bool {
    |e: (Seq<char>, JVal)| is_enabled(e.1) && starts_with(e.0, ZCODE_PROVIDER_PREFIX@)
}

/// ZCode's status: the first enabled provider block under this tool's prefix (else the first
/// enabled block) gives the base URL and the model.
pub open spec fn zcode_status(ps: Seq<ProviderV>, data: Option<JVal>) -> StatusV {
    match data {
        Some(d) => {
            let provs = match crate::json::member(d, "provider"@) {
                Some(JVal::Obj(e)) => e,
                _ => Seq::empty(),
            };
            let en = provs.filter(enabled_pred());
            let mine = provs.filter(enabled_mine_pred());
            let entry = if mine.len() > 0 {
                Some(mine[0])
            } else if en.len() > 0 {
                Some(en[0])
            } else {
                None
            };
            match entry {
                Some(e) => {
                    let base = str_or_empty(
                        crate::json::as_str(crate::json::get_path(e.1, seq!["options"@, "baseURL"@])),
                    );
                    let model = match crate::json::member(e.1, "models"@) {
                        Some(JVal::Obj(m)) => if m.len() > 0 {
                            Some(m[0].0)
                        } else {
                            None
                        },
                        _ => None,
                    };
                    (base.len() > 0, name_by_base(ps, base), model)
                },
                None => no_status(),
            }
        },
        None => no_status(),
    }
}

/// Whether a provider block is enabled.
pub fn is_enabled_entry(e: &Json) -> (b: bool)
    ensures
        b == is_enabled(e@),
{
    match crate::json::get(e, "enabled") {
        Some(Json::Bool(b)) => *b,
        _ => false,
    }
}

impl<'a> AgentService<'a> {
    /// ZCode's enabled provider, read from its configuration (`None` when the file is missing or
    /// could not be read).
    pub fn zcode_read_status(&self, data: Option<&Json>) -> (s: SwitchStatus)
        ensures
            s@ == zcode_status(self.providers(), match data {
                Some(d) => Some(d@),
                None => None,
            }),
    {
        let d = match data {
            Some(d) => d,
            None => return none_status(),
        };
        let empty: Vec<(String, Json)> = Vec::new();
        let provs: &Vec<(String, Json)> = match crate::json::get(d, "provider") {
            Some(Json::Obj(e)) => {
                proof {
                    lemma_obj_view(*e);
                }
                e
            },
            _ => {
                assert(entries_view(empty@) =~= Seq::<(Seq<char>, JVal)>::empty());
                &empty
            },
        };
        let ghost pv = entries_view(provs@);
        let prefix = chars_of(ZCODE_PROVIDER_PREFIX);
        let mut i: usize = 0;
        while i < provs.len() && !(is_enabled_entry(&provs[i].1) && crate::text::starts_with_chars(
            &chars_of(provs[i].0.as_str()),
            &prefix,
        ))
            invariant
                i <= provs.len(),
                pv == entries_view(provs@),
                prefix@ == ZCODE_PROVIDER_PREFIX@,
                forall|j: int| 0 <= j < i ==> !enabled_mine_pred()(pv[j]),
            decreases provs.len() - i,
        {
            i = i + 1;
        }
        let idx = if i < provs.len() {
            proof {
                lemma_filter_first(pv, enabled_mine_pred(), i as int);
            }
            i
        } else {
            proof {
                lemma_filter_none(pv, enabled_mine_pred());
            }
            let mut j: usize = 0;
            while j < provs.len() && !is_enabled_entry(&provs[j].1)
                invariant
                    j <= provs.len(),
                    pv == entries_view(provs@),
                    forall|k: int| 0 <= k < j ==> !enabled_pred()(pv[k]),
                decreases provs.len() - j,
            {
                j = j + 1;
            }
            if j < provs.len() {
                proof {
                    lemma_filter_first(pv, enabled_pred(), j as int);
                }
                j
            } else {
                proof {
                    lemma_filter_none(pv, enabled_pred());
                }
                return none_status();
            }
        };
        let e = &provs[idx].1;
        proof {
            let ks = seq!["options"@, "baseURL"@];
            assert(ks.drop_first() =~= seq!["baseURL"@]);
            assert(ks.drop_first().drop_first() =~= Seq::<Seq<char>>::empty());
            reveal_with_fuel(crate::json::get_path, 3);
        }
        let base = match crate::json::get(e, "options") {
            Some(o) => match crate::json::get(o, "baseURL") {
                Some(Json::Str(s)) => s.clone(),
                _ => String::new(),
            },
            None => String::new(),
        };
        let model_name = match crate::json::get(e, "models") {
            Some(Json::Obj(m)) => {
                proof {
                    lemma_obj_view(*m);
                }
                if m.len() > 0 {
                    Some(m[0].0.clone())
                } else {
                    None
                }
            },
            _ => None,
        };
        let provider_name = self.provider_name_by_base(base.as_str(), false);
        SwitchStatus { configured: !base.as_str().is_empty(), provider_name, model_name }
    }
}

} // verus!

verus! {

/// Qoder's status: Qoder does not record which provider is selected, so the provider this
/// tool last switched the agent to counts, as long as its entry is still in the settings.
pub open spec fn qoder_status(
    active: Seq<(Seq<char>, Seq<char>)>,
    providers: Seq<(Seq<char>, ProviderV)>,
    data: Option<JVal>,
    agent_id: Seq<char>,
) -> StatusV {
    match lookup(active, agent_id) {
        Some(pid) => match lookup(providers, pid) {
            Some(p) => match data {
                Some(d) => {
                    let present = match crate::json::member(d, "providers"@) {
                        Some(JVal::Obj(e)) => lookup(e, QODER_PROVIDER_PREFIX@ + p.id) is Some,
                        _ => false,
                    };
                    if present {
                        (true, Some(p.name), default_model(p))
                    } else {
                        no_status()
                    }
                },
                None => no_status(),
            },
            None => no_status(),
        },
        None => no_status(),
    }
}

impl<'a> AgentService<'a> {
    pub open spec fn active(&self) -> Seq<(Seq<char>, Seq<char>)> {
        crate::kv::pairs_view(self.store.data.active@)
    }

    pub open spec fn by_id(&self) -> Seq<(Seq<char>, ProviderV)> {
        crate::store::by_id(self.store.data.providers@)
    }

    /// Qoder's status for an agent id, given its settings (`None` when they could not be read).
    pub fn qoder_read_status(&self, data: Option<&Json>, agent_id: &str) -> (s: SwitchStatus)
        ensures
            s@ == qoder_status(self.active(), self.by_id(), match data {
                Some(d) => Some(d@),
                None => None,
            }, agent_id@),
    {
        let p = match self.store.get_active(agent_id) {
            Some(id) => match self.store.get_provider(id.as_str()) {
                Some(p) => p,
                None => return none_status(),
            },
            None => return none_status(),
        };
        let d = match data {
            Some(d) => d,
            None => return none_status(),
        };
        let key = concat(QODER_PROVIDER_PREFIX, p.id.as_str());
        let present = match crate::json::get(d, "providers") {
            Some(Json::Obj(e)) => {
                proof {
                    lemma_obj_view(*e);
                }
                find_key(e, key.as_str()).is_some()
            },
            _ => false,
        };
        if !present {
            return none_status();
        }
        let model_name = p.default_model();
        SwitchStatus { configured: true, provider_name: Some(p.name), model_name }
    }
}

/// The value a field takes from a provider: its base URL, key or default model, a constant,
/// or one of its headers (`header:Name`).
pub open spec fn field_value_of(f: crate::agents::AgentField, p: ProviderV) -> Option<Seq<char>> {
    let s = f.source@;
    if s == "baseUrl"@ {
        Some(p.base_url)
    } else if s == "apiKey"@ {
        Some(p.api_key)
    } else if s == "modelName"@ {
        default_model(p)
    } else if s == "const"@ {
        crate::store::opt_str(f.value)
    } else if starts_with(s, "header:"@) {
        match p.headers {
            Some(h) => lookup(h, s.skip(7)),
            None => None,
        }
    } else {
        None
    }
}

/// The value of a field for a provider.
pub fn field_value(f: &crate::agents::AgentField, p: &Provider) -> (r: Option<String>)
    ensures
        crate::store::opt_str(r) == field_value_of(*f, p@),
{
    let s = f.source.as_str();
    if crate::text::str_eq(s, "baseUrl") {
        Some(p.base_url.clone())
    } else if crate::text::str_eq(s, "apiKey") {
        Some(p.api_key.clone())
    } else if crate::text::str_eq(s, "modelName") {
        p.default_model()
    } else if crate::text::str_eq(s, "const") {
        crate::store::copy_opt_string(&f.value)
    } else if str_starts_with(s, "header:") {
        let v = chars_of(s);
        proof {
            reveal_strlit("header:");
        }
        let name = string_of(&crate::text::slice_chars(&v, 7, v.len()));
        assert(v@.subrange(7, v@.len() as int) =~= s@.skip(7));
        match &p.headers {
            Some(h) => crate::kv::pair_get(h, name.as_str()),
            None => None,
        }
    } else {
        None
    }
}

} // verus!

verus! {

/// The TOML key a field is written under: its TOML path, else its name.
pub open spec fn toml_key(f: crate::agents::AgentField) -> Seq<char> {
    match f.toml_path {
        Some(t) => t@,
        None => f.name@,
    }
}

/// TOML entries after writing the fields that have a value for `p`, in order.
pub open spec fn toml_applied(
    data: Seq<(Seq<char>, Seq<char>)>,
    fields: Seq<crate::agents::AgentField>,
    p: ProviderV,
) -> Seq<(Seq<char>, Seq<char>)>
    decreases fields.len(),
{
    if fields.len() == 0 {
        data
    } else {
        let d = toml_applied(data, fields.drop_last(), p);
        let f = fields.last();
        match field_value_of(f, p) {
            Some(v) => insert(d, toml_key(f), v),
            None => d,
        }
    }
}

/// Whether writing a field changes the JSON document: it has a JSON path and a value.
pub open spec fn json_writes(f: crate::agents::AgentField, p: ProviderV) -> bool {
    f.json_path is Some && field_value_of(f, p) is Some
}

/// A JSON document after writing the fields that have a JSON path and a value for `p`, in
/// order: a flat field sets a top-level key named by its whole path, any other sets the value
/// at its dotted path.
pub open spec fn json_applied(data: JVal, fields: Seq<crate::agents::AgentField>, p: ProviderV) -> JVal
    decreases fields.len(),
{
    if fields.len() == 0 {
        data
    } else {
        let d = json_applied(data, fields.drop_last(), p);
        let f = fields.last();
        match (crate::store::opt_str(f.json_path), field_value_of(f, p)) {
            (Some(path), Some(v)) => if f.flat == Some(true) {
                JVal::Obj(insert(crate::json::entries_of(d), path, JVal::Str(v)))
            } else {
                crate::json::set_path(d, crate::text::split(path, '.'), JVal::Str(v))
            },
            _ => d,
        }
    }
}

/// Writing the fields does not fail: a flat key can only be set on an object or on `null`,
/// and every write leaves an object behind.
pub open spec fn json_write_safe(d: JVal, fields: Seq<crate::agents::AgentField>, p: ProviderV) -> bool
    decreases fields.len(),
{
    if fields.len() == 0 {
        true
    } else if json_writes(fields[0], p) {
        fields[0].flat != Some(true) || d is Obj || d is Null
    } else {
        json_write_safe(d, fields.drop_first(), p)
    }
}

proof fn lemma_safe_obj(d: JVal, fields: Seq<crate::agents::AgentField>, p: ProviderV)
    requires
        d is Obj,
    ensures
        json_write_safe(d, fields, p),
    decreases fields.len(),
{
    if fields.len() > 0 {
        lemma_safe_obj(d, fields.drop_first(), p);
    }
}

/// Writes the fields of `fields` with a value for `p` into TOML entries.
pub fn apply_toml_fields(
    data: Vec<(String, String)>,
    fields: &Vec<crate::agents::AgentField>,
    p: &Provider,
) -> (r: Vec<(String, String)>)
    ensures
        crate::kv::pairs_view(r@) == toml_applied(crate::kv::pairs_view(data@), fields@, p@),
{
    let ghost d0 = crate::kv::pairs_view(data@);
    let mut data = data;
    let mut i: usize = 0;
    assert(fields@.take(0) =~= Seq::<crate::agents::AgentField>::empty());
    while i < fields.len()
        invariant
            i <= fields.len(),
            crate::kv::pairs_view(data@) == toml_applied(d0, fields@.take(i as int), p@),
        decreases fields.len() - i,
    {
        assert(fields@.take(i + 1).drop_last() =~= fields@.take(i as int));
        let f = &fields[i];
        let key = match &f.toml_path {
            Some(t) => t.clone(),
            None => f.name.clone(),
        };
        match field_value(f, p) {
            Some(v) => {
                crate::kv::pair_insert(&mut data, key, v);
            },
            None => {},
        }
        i = i + 1;
    }
    assert(fields@.take(i as int) =~= fields@);
    data
}

/// Writes the fields of `fields` with a JSON path and a value for `p` into a JSON document.
pub fn apply_json_fields(data: Json, fields: &Vec<crate::agents::AgentField>, p: &Provider) -> (r: Json)
    requires
        json_write_safe(data@, fields@, p@),
    ensures
        r@ == json_applied(data@, fields@, p@),
{
    let ghost d0 = data@;
    let mut data = data;
    let mut i: usize = 0;
    assert(fields@.take(0) =~= Seq::<crate::agents::AgentField>::empty());
    assert(fields@.skip(0) =~= fields@);
    while i < fields.len()
        invariant
            i <= fields.len(),
            data@ == json_applied(d0, fields@.take(i as int), p@),
            json_write_safe(data@, fields@.skip(i as int), p@),
        decreases fields.len() - i,
    {
        assert(fields@.take(i + 1).drop_last() =~= fields@.take(i as int));
        assert(fields@.skip(i as int)[0] == fields@[i as int]);
        assert(fields@.skip(i as int).drop_first() =~= fields@.skip(i + 1));
        let f = &fields[i];
        match &f.json_path {
            Some(path) => match field_value(f, p) {
                Some(v) => {
                    let flat = match f.flat {
                        Some(b) => b,
                        None => false,
                    };
                    if flat {
                        let mut e: Vec<(String, Json)> = match data {
                            Json::Obj(e) => {
                                proof {
                                    lemma_obj_view(e);
                                }
                                e
                            },
                            _ => {
                                let e: Vec<(String, Json)> = Vec::new();
                                assert(entries_view(e@) =~= Seq::<(Seq<char>, JVal)>::empty());
                                e
                            },
                        };
                        obj_insert(&mut e, path.clone(), Json::Str(v));
                        data = obj(e);
                    } else {
                        proof {
                            crate::text::lemma_split_acc_nonempty(Seq::empty(), path@, '.');
                        }
                        crate::json::set_by_path(&mut data, path.as_str(), Json::Str(v));
                    }
                    proof {
                        lemma_safe_obj(data@, fields@.skip(i + 1), p@);
                    }
                },
                None => {},
            },
            None => {},
        }
        i = i + 1;
    }
    assert(fields@.take(i as int) =~= fields@);
    data
}

} // verus!

verus! {

/// The mathematical value of parsed configuration content.
pub enum ContentV {
    Json(JVal),
    Toml(Seq<(Seq<char>, Seq<char>)>),
}

impl ConfigContent {
    pub open spec fn view(&self) -> ContentV {
        match self {
            ConfigContent::Json(j) => ContentV::Json(j@),
            ConfigContent::Toml(m) => ContentV::Toml(crate::kv::pairs_view(m@)),
        }
    }
}

pub open spec fn content_view(c: Option<ConfigContent>) -> Option<ContentV> {
    match c {
        Some(x) => Some(x@),
        None => None,
    }
}

/// The JSON document of a configuration, if it was read as JSON.
pub open spec fn json_of(c: Option<ContentV>) -> Option<JVal> {
    match c {
        Some(ContentV::Json(j)) => Some(j),
        _ => None,
    }
}

/// The object entries of a configuration read as JSON (nothing when it is missing or is not
/// an object).
pub open spec fn object_of(c: Option<ContentV>) -> Seq<(Seq<char>, JVal)> {
    match c {
        Some(ContentV::Json(JVal::Obj(e))) => e,
        _ => Seq::empty(),
    }
}

/// The document a generic JSON agent's fields are written into: the configuration read as
/// JSON, or an empty object when the file is missing.
pub open spec fn json_base(c: Option<ContentV>) -> JVal {
    match c {
        Some(ContentV::Json(j)) => j,
        _ => JVal::Obj(Seq::empty()),
    }
}

/// The entries a generic TOML agent's fields are written into.
pub open spec fn toml_base(c: Option<ContentV>) -> Seq<(Seq<char>, Seq<char>)> {
    match c {
        Some(ContentV::Toml(m)) => m,
        _ => Seq::empty(),
    }
}

/// The configuration after writing `p` for agent `d` into the file `file` whose current
/// content is `c` (`None`: the file does not exist yet).
pub open spec fn config_written(
    d: crate::agents::AgentDef,
    file: Seq<char>,
    c: Option<ContentV>,
    p: ProviderV,
) -> Result<ContentV, Seq<char>> {
    if d.custom_zcode {
        Ok(ContentV::Json(JVal::Obj(zcode_applied(object_of(c), p))))
    } else if d.custom_qoder {
        if selected_models(p).len() == 0 {
            Err(qoder_no_model_msg())
        } else if !starts_with(p.base_url, "https://"@) {
            Err(qoder_not_https_msg())
        } else {
            Ok(ContentV::Json(JVal::Obj(qoder_applied(object_of(c), p))))
        }
    } else if d.custom_workbuddy {
        if selected_models(p).len() == 0 {
            Err(workbuddy_no_model_msg())
        } else if workbuddy_endpoint(p.base_url) == "/chat/completions"@ {
            Err(workbuddy_no_url_msg())
        } else {
            Ok(ContentV::Json(JVal::Obj(workbuddy_applied(object_of(c), p))))
        }
    } else if crate::fsutil::format_of(file) == "toml"@ {
        Ok(ContentV::Toml(toml_applied(toml_base(c), d.fields@, p)))
    } else {
        Ok(ContentV::Json(json_applied(json_base(c), d.fields@, p)))
    }
}

/// Writing `p` for agent `d` does not fail on the shape of the current content (see
/// `json_write_safe`).
pub open spec fn config_write_safe(
    d: crate::agents::AgentDef,
    file: Seq<char>,
    c: Option<ContentV>,
    p: ProviderV,
) -> bool {
    d.custom_zcode || d.custom_qoder || d.custom_workbuddy || crate::fsutil::format_of(file)
        == "toml"@ || json_write_safe(json_base(c), d.fields@, p)
}

fn object_entries(c: Option<ConfigContent>) -> (r: Vec<(String, Json)>)
    ensures
        entries_view(r@) == object_of(content_view(c)),
{
    match c {
        Some(ConfigContent::Json(Json::Obj(e))) => {
            proof {
                lemma_obj_view(e);
            }
            e
        },
        _ => {
            let e: Vec<(String, Json)> = Vec::new();
            assert(entries_view(e@) =~= Seq::<(Seq<char>, JVal)>::empty());
            e
        },
    }
}

/// Whether writing the fields into `d` stays clear of a flat key on something that is neither
/// an object nor `null` (see `json_write_safe`).
pub fn json_write_is_safe(d: &Json, fields: &Vec<crate::agents::AgentField>, p: &Provider) -> (b: bool)
    ensures
        b == json_write_safe(d@, fields@, p@),
{
    let mut i: usize = 0;
    assert(fields@.skip(0) =~= fields@);
    while i < fields.len()
        invariant
            i <= fields.len(),
            json_write_safe(d@, fields@, p@) == json_write_safe(d@, fields@.skip(i as int), p@),
        decreases fields.len() - i,
    {
        assert(fields@.skip(i as int)[0] == fields@[i as int]);
        assert(fields@.skip(i as int).drop_first() =~= fields@.skip(i + 1));
        let f = &fields[i];
        if f.json_path.is_some() && field_value(f, p).is_some() {
            let flat = match f.flat {
                Some(b) => b,
                None => false,
            };
            let shaped = match d {
                Json::Obj(_) => true,
                Json::Null => true,
                _ => false,
            };
            return !flat || shaped;
        }
        i = i + 1;
    }
    assert(fields@.skip(i as int) =~= Seq::<crate::agents::AgentField>::empty());
    true
}

/// Whether `write_provider_to_config` can write `p` for `def` over the current content (see
/// `config_write_safe`).
pub fn config_write_is_safe(
    def: &crate::agents::AgentDef,
    file: &str,
    current: &Option<ConfigContent>,
    p: &Provider,
) -> (b: bool)
    ensures
        b == config_write_safe(*def, file@, content_view(*current), p@),
{
    if def.custom_zcode || def.custom_qoder || def.custom_workbuddy {
        return true;
    }
    if crate::text::str_eq(crate::fsutil::detect_format(file), "toml") {
        return true;
    }
    match current {
        Some(ConfigContent::Json(j)) => json_write_is_safe(j, &def.fields, p),
        _ => {
            let e = crate::json::empty_obj();
            json_write_is_safe(&e, &def.fields, p)
        },
    }
}

impl<'a> AgentService<'a> {
    /// The configuration after switching agent `def` to provider `p`, given the current content
    /// of its configuration file `file` (`None` when the file does not exist).
    pub fn write_provider_to_config(
        &self,
        def: &crate::agents::AgentDef,
        file: &str,
        current: Option<ConfigContent>,
        p: &Provider,
    ) -> (r: Result<ConfigContent, String>)
        requires
            config_write_safe(*def, file@, content_view(current), p@),
        ensures
            match r {
                Ok(c) => config_written(*def, file@, content_view(current), p@) == Ok::<
                    ContentV,
                    Seq<char>,
                >(c@),
                Err(e) => config_written(*def, file@, content_view(current), p@) == Err::<
                    ContentV,
                    Seq<char>,
                >(e@),
            },
    {
        if def.custom_zcode {
            let r = zcode_apply(object_entries(current), p);
            return Ok(ConfigContent::Json(obj(r)));
        }
        if def.custom_qoder {
            return match qoder_apply(object_entries(current), p) {
                Ok(r) => Ok(ConfigContent::Json(obj(r))),
                Err(e) => Err(e),
            };
        }
        if def.custom_workbuddy {
            return match workbuddy_apply(object_entries(current), p) {
                Ok(r) => Ok(ConfigContent::Json(obj(r))),
                Err(e) => Err(e),
            };
        }
        let format = crate::fsutil::detect_format(file);
        if crate::text::str_eq(format, "toml") {
            let data = match current {
                Some(ConfigContent::Toml(m)) => m,
                _ => {
                    let m: Vec<(String, String)> = Vec::new();
                    assert(crate::kv::pairs_view(m@) =~= Seq::<(Seq<char>, Seq<char>)>::empty());
                    m
                },
            };
            Ok(ConfigContent::Toml(apply_toml_fields(data, &def.fields, p)))
        } else {
            let data = match current {
                Some(ConfigContent::Json(j)) => j,
                _ => crate::json::empty_obj(),
            };
            Ok(ConfigContent::Json(apply_json_fields(data, &def.fields, p)))
        }
    }
}

} // verus!

verus! {

/// What a field reads from a JSON document: the member named by its whole path when it is
/// flat, the value at its dotted path otherwise.
pub open spec fn json_field_read(f: crate::agents::FieldV, d: JVal) -> Option<JVal> {
    match f.json_path {
        Some(path) => if f.flat == Some(true) {
            crate::json::member(d, path)
        } else {
            crate::json::get_path(d, crate::text::split(path, '.'))
        },
        None => None,
    }
}

/// The value read for source `src`: that of the last field with that source that found one.
pub open spec fn last_json_read(fields: Seq<crate::agents::FieldV>, d: JVal, src: Seq<char>) -> Option<JVal>
    decreases fields.len(),
{
    if fields.len() == 0 {
        None
    } else {
        let f = fields.last();
        if f.source == src && json_field_read(f, d) is Some {
            json_field_read(f, d)
        } else {
            last_json_read(fields.drop_last(), d, src)
        }
    }
}

pub open spec fn toml_key_v(f: crate::agents::FieldV) -> Seq<char> {
    match f.toml_path {
        Some(t) => t,
        None => f.name,
    }
}

/// The value read for source `src` from TOML entries, as a JSON string.
pub open spec fn last_toml_read(
    fields: Seq<crate::agents::FieldV>,
    m: Seq<(Seq<char>, Seq<char>)>,
    src: Seq<char>,
) -> Option<JVal>
    decreases fields.len(),
{
    if fields.len() == 0 {
        None
    } else {
        let f = fields.last();
        if f.source == src && lookup(m, toml_key_v(f)) is Some {
            Some(JVal::Str(lookup(m, toml_key_v(f)).unwrap()))
        } else {
            last_toml_read(fields.drop_last(), m, src)
        }
    }
}

/// The status of a generic agent from the values read for its base URL and model.
pub open spec fn values_status(ps: Seq<ProviderV>, base_v: Option<JVal>, model_v: Option<JVal>) -> StatusV {
    let base = str_or_empty(crate::json::as_str(base_v));
    (base.len() > 0, name_by_base(ps, base), crate::json::as_str(model_v))
}

/// The status of an agent with definition `d`, whose configuration exists or not, has the
/// given format, and holds `c` (`None`: it could not be read).
pub open spec fn status_for(
    ps: Seq<ProviderV>,
    active: Seq<(Seq<char>, Seq<char>)>,
    byid: Seq<(Seq<char>, ProviderV)>,
    d: crate::agents::DefV,
    exists: bool,
    format: Seq<char>,
    c: Option<ContentV>,
) -> StatusV {
    if !exists {
        no_status()
    } else if d.kind == crate::agents::AgentKind::Cdp {
        match lookup(active, d.id) {
            Some(pid) => match lookup(byid, pid) {
                Some(p) => (true, Some(p.name), p.model_name),
                None => no_status(),
            },
            None => no_status(),
        }
    } else if d.custom_zcode {
        zcode_status(ps, json_of(c))
    } else if d.custom_qoder {
        qoder_status(active, byid, json_of(c), d.id)
    } else if d.custom_workbuddy {
        workbuddy_status(ps, json_of(c))
    } else if format == "toml"@ {
        match c {
            Some(ContentV::Toml(m)) => values_status(
                ps,
                last_toml_read(d.fields, m, "baseUrl"@),
                last_toml_read(d.fields, m, "modelName"@),
            ),
            _ => no_status(),
        }
    } else {
        match c {
            Some(ContentV::Json(j)) => values_status(
                ps,
                last_json_read(d.fields, j, "baseUrl"@),
                last_json_read(d.fields, j, "modelName"@),
            ),
            _ => no_status(),
        }
    }
}

fn json_reads<'b>(fields: &Vec<crate::agents::AgentField>, d: &'b Json) -> (r: (Option<&'b Json>, Option<&'b Json>))
    ensures
        match r.0 {
            Some(x) => last_json_read(crate::agents::fields_view(fields@), d@, "baseUrl"@) == Some(x@),
            None => last_json_read(crate::agents::fields_view(fields@), d@, "baseUrl"@) is None,
        },
        match r.1 {
            Some(x) => last_json_read(crate::agents::fields_view(fields@), d@, "modelName"@) == Some(x@),
            None => last_json_read(crate::agents::fields_view(fields@), d@, "modelName"@) is None,
        },
{
    let ghost fv = crate::agents::fields_view(fields@);
    let mut base: Option<&Json> = None;
    let mut model: Option<&Json> = None;
    let mut i: usize = 0;
    while i < fields.len()
        invariant
            i <= fields.len(),
            fv == crate::agents::fields_view(fields@),
            match base {
                Some(x) => last_json_read(fv.take(i as int), d@, "baseUrl"@) == Some(x@),
                None => last_json_read(fv.take(i as int), d@, "baseUrl"@) is None,
            },
            match model {
                Some(x) => last_json_read(fv.take(i as int), d@, "modelName"@) == Some(x@),
                None => last_json_read(fv.take(i as int), d@, "modelName"@) is None,
            },
        decreases fields.len() - i,
    {
        assert(fv.take(i + 1).drop_last() =~= fv.take(i as int));
        assert(fv.take(i + 1).last() == crate::agents::field_view(fields@[i as int]));
        let f = &fields[i];
        match &f.json_path {
            Some(path) => {
                let flat = match f.flat {
                    Some(b) => b,
                    None => false,
                };
                let v = if flat {
                    crate::json::get(d, path.as_str())
                } else {
                    crate::json::get_by_path(d, path.as_str())
                };
                match v {
                    Some(x) => {
                        if crate::text::str_eq(f.source.as_str(), "baseUrl") {
                            base = Some(x);
                        }
                        if crate::text::str_eq(f.source.as_str(), "modelName") {
                            model = Some(x);
                        }
                    },
                    None => {},
                }
            },
            None => {},
        }
        i = i + 1;
    }
    assert(fv.take(i as int) =~= fv);
    (base, model)
}

fn toml_reads(fields: &Vec<crate::agents::AgentField>, m: &Vec<(String, String)>) -> (r: (Option<Json>, Option<Json>))
    ensures
        match r.0 {
            Some(x) => last_toml_read(crate::agents::fields_view(fields@), crate::kv::pairs_view(m@), "baseUrl"@) == Some(x@),
            None => last_toml_read(crate::agents::fields_view(fields@), crate::kv::pairs_view(m@), "baseUrl"@) is None,
        },
        match r.1 {
            Some(x) => last_toml_read(crate::agents::fields_view(fields@), crate::kv::pairs_view(m@), "modelName"@) == Some(x@),
            None => last_toml_read(crate::agents::fields_view(fields@), crate::kv::pairs_view(m@), "modelName"@) is None,
        },
{
    let ghost fv = crate::agents::fields_view(fields@);
    let ghost mv = crate::kv::pairs_view(m@);
    let mut base: Option<Json> = None;
    let mut model: Option<Json> = None;
    let mut i: usize = 0;
    while i < fields.len()
        invariant
            i <= fields.len(),
            fv == crate::agents::fields_view(fields@),
            mv == crate::kv::pairs_view(m@),
            match base {
                Some(x) => last_toml_read(fv.take(i as int), mv, "baseUrl"@) == Some(x@),
                None => last_toml_read(fv.take(i as int), mv, "baseUrl"@) is None,
            },
            match model {
                Some(x) => last_toml_read(fv.take(i as int), mv, "modelName"@) == Some(x@),
                None => last_toml_read(fv.take(i as int), mv, "modelName"@) is None,
            },
        decreases fields.len() - i,
    {
        assert(fv.take(i + 1).drop_last() =~= fv.take(i as int));
        assert(fv.take(i + 1).last() == crate::agents::field_view(fields@[i as int]));
        let f = &fields[i];
        let key = match &f.toml_path {
            Some(t) => t.as_str(),
            None => f.name.as_str(),
        };
        match crate::kv::pair_get(m, key) {
            Some(v) => {
                if crate::text::str_eq(f.source.as_str(), "baseUrl") {
                    base = Some(Json::Str(v.clone()));
                }
                if crate::text::str_eq(f.source.as_str(), "modelName") {
                    model = Some(Json::Str(v));
                }
            },
            None => {},
        }
        i = i + 1;
    }
    assert(fv.take(i as int) =~= fv);
    (base, model)
}

impl<'a> AgentService<'a> {
    fn values_read_status(&self, base_v: Option<&Json>, model_v: Option<&Json>) -> (s: SwitchStatus)
        ensures
            s@ == values_status(
                self.providers(),
                match base_v {
                    Some(x) => Some(x@),
                    None => None,
                },
                match model_v {
                    Some(x) => Some(x@),
                    None => None,
                },
            ),
    {
        let base = match base_v {
            Some(Json::Str(s)) => s.clone(),
            _ => String::new(),
        };
        let provider_name = self.provider_name_by_base(base.as_str(), false);
        let model_name = match model_v {
            Some(Json::Str(s)) => Some(s.clone()),
            _ => None,
        };
        SwitchStatus { configured: !base.as_str().is_empty(), provider_name, model_name }
    }
    /// Writes `p` for agent `def` over the current content when that is possible (see
    /// `config_write_is_safe`); `None` when a flat key would have to be set on JSON that is
    /// neither an object nor `null`, which the configuration cannot hold.
    pub fn write_provider_checked(
        &self,
        def: &crate::agents::AgentDef,
        file: &str,
        current: Option<ConfigContent>,
        p: &Provider,
    ) -> (r: Option<Result<ConfigContent, String>>)
        ensures
            !config_write_safe(*def, file@, content_view(current), p@) <==> r is None,
            r matches Some(Ok(c)) ==> config_written(*def, file@, content_view(current), p@)
                == Ok::<ContentV, Seq<char>>(c@),
            r matches Some(Err(e)) ==> config_written(*def, file@, content_view(current), p@)
                == Err::<ContentV, Seq<char>>(e@),
    {
        if !config_write_is_safe(def, file, &current, p) {
            return None;
        }
        Some(self.write_provider_to_config(def, file, current, p))
    }


    /// Whether the agent currently points at one of the configured providers, given the
    /// content of its configuration file (`None`: it could not be read).
    pub fn read_status(&self, instance: &AgentInstance, content: Option<ConfigContent>) -> (s: SwitchStatus)
        ensures
            s@ == match crate::agents::registry_def(instance.agent_id@) {
                Some(d) => status_for(
                    self.providers(),
                    self.active(),
                    self.by_id(),
                    d,
                    instance.exists,
                    instance.format@,
                    content_view(content),
                ),
                None => no_status(),
            },
    {
        let def = match crate::agents::get_agent_def(instance.agent_id.as_str()) {
            Some(d) => d,
            None => {
                proof {
                    crate::agents::lemma_registry_def_known(instance.agent_id@);
                }
                return none_status();
            },
        };
        proof {
            crate::agents::lemma_registry_def(instance.agent_id@, def);
        }
        if !instance.exists {
            return none_status();
        }
        if def.kind == crate::agents::AgentKind::Cdp {
            let p = match self.store.get_active(def.id) {
                Some(pid) => self.store.get_provider(pid.as_str()),
                None => None,
            };
            return match p {
                Some(p) => SwitchStatus {
                    configured: true,
                    provider_name: Some(p.name.clone()),
                    model_name: p.model_name,
                },
                None => none_status(),
            };
        }
        let json: Option<&Json> = match &content {
            Some(ConfigContent::Json(j)) => Some(j),
            _ => None,
        };
        if def.custom_zcode {
            return self.zcode_read_status(json);
        }
        if def.custom_qoder {
            return self.qoder_read_status(json, def.id);
        }
        if def.custom_workbuddy {
            return self.workbuddy_read_status(json);
        }
        if crate::text::str_eq(instance.format.as_str(), "toml") {
            match &content {
                Some(ConfigContent::Toml(m)) => {
                    let (b, md) = toml_reads(&def.fields, m);
                    let bref = match &b {
                        Some(x) => Some(x),
                        None => None,
                    };
                    let mref = match &md {
                        Some(x) => Some(x),
                        None => None,
                    };
                    self.values_read_status(bref, mref)
                },
                _ => none_status(),
            }
        } else {
            match &content {
                Some(ConfigContent::Json(j)) => {
                    let (b, md) = json_reads(&def.fields, j);
                    self.values_read_status(b, md)
                },
                _ => none_status(),
            }
        }
    }
}

} // verus!

verus! {

pub type InstanceV = (Seq<char>, Seq<char>, Seq<char>, Seq<char>, bool);

impl AgentInstance {
    pub open spec fn view(&self) -> InstanceV {
        (self.agent_id@, self.agent_name@, self.config_file_path@, self.format@, self.exists)
    }
}

/// The first of `paths` that exists.
pub open spec fn first_existing(paths: Seq<Seq<char>>, existing: Seq<Seq<char>>) -> Option<Seq<char>>
    decreases paths.len(),
{
    if paths.len() == 0 {
        None
    } else if existing.contains(paths[0]) {
        Some(paths[0])
    } else {
        first_existing(paths.drop_first(), existing)
    }
}

/// The detected instance of an agent: a DevTools agent has no file and exists when its
/// executable was found; a file agent uses the first of its configuration paths that exists,
/// else the first one.
pub open spec fn detected(
    d: crate::agents::DefV,
    env: crate::fsutil::PathEnv,
    existing: Seq<Seq<char>>,
    trae_found: bool,
) -> InstanceV {
    if d.kind == crate::agents::AgentKind::Cdp {
        (d.id, d.name, Seq::empty(), crate::fsutil::format_of(Seq::empty()), trae_found)
    } else {
        let rs = Seq::new(d.config_paths.len(), |j: int| crate::fsutil::resolved(d.config_paths[j], env));
        let hit = first_existing(rs, existing);
        let file = match hit {
            Some(h) => h,
            None => rs[0],
        };
        (d.id, d.name, file, crate::fsutil::format_of(file), hit is Some)
    }
}

impl<'a> AgentService<'a> {
    /// The instance record of an agent whose configuration file is `file`.
    pub fn to_instance(&self, def: &crate::agents::AgentDef, file: String, exists: bool) -> (r: AgentInstance)
        ensures
            r@ == (def.id@, def.name@, file@, crate::fsutil::format_of(file@), exists),
    {
        let format = crate::fsutil::detect_format(file.as_str()).to_owned();
        AgentInstance {
            agent_id: def.id.to_owned(),
            agent_name: def.name.to_owned(),
            config_file_path: file,
            format,
            exists,
        }
    }

    /// The instance of one agent (see `detected`).
    pub fn detect_one(
        &self,
        def: &crate::agents::AgentDef,
        env: &crate::fsutil::PathEnv,
        existing: &Vec<String>,
        trae_found: bool,
    ) -> (r: AgentInstance)
        requires
            def.kind != crate::agents::AgentKind::Cdp ==> def.config_paths@.len() > 0,
        ensures
            r@ == detected(crate::agents::def_view(*def), *env, crate::store::strs(existing@), trae_found),
            def.kind != crate::agents::AgentKind::Cdp && (forall|j: int|
                0 <= j < crate::agents::def_view(*def).config_paths.len() ==> !crate::store::strs(
                    existing@,
                ).contains(
                    #[trigger] crate::fsutil::resolved(crate::agents::def_view(*def).config_paths[j], *env),
                )) ==> r@.2 == crate::fsutil::resolved(
                crate::agents::def_view(*def).config_paths[0],
                *env,
            ) && !r@.4,
    {
        proof {
            law_detection_uses_first_existing_path(
                crate::agents::def_view(*def),
                *env,
                crate::store::strs(existing@),
                trae_found,
            );
        }
        if def.kind == crate::agents::AgentKind::Cdp {
            return self.to_instance(def, String::new(), trae_found);
        }
        let ghost dv = crate::agents::def_view(*def);
        let ghost rs = Seq::new(dv.config_paths.len(), |j: int| crate::fsutil::resolved(dv.config_paths[j], *env));
        let mut resolved: Vec<String> = Vec::new();
        let mut j: usize = 0;
        while j < def.config_paths.len()
            invariant
                j <= def.config_paths.len(),
                dv == crate::agents::def_view(*def),
                rs == Seq::new(dv.config_paths.len(), |j: int| crate::fsutil::resolved(dv.config_paths[j], *env)),
                resolved@.len() == j,
                forall|k: int| 0 <= k < j ==> #[trigger] resolved@[k]@ == rs[k],
            decreases def.config_paths.len() - j,
        {
            resolved.push(crate::fsutil::resolve_tmpl(def.config_paths[j], env));
            j = j + 1;
        }
        let mut h: usize = 0;
        assert(crate::store::strs(resolved@) =~= rs);
        assert(rs.skip(0) =~= rs);
        while h < resolved.len() && !crate::store::contains_string(existing, &resolved[h])
            invariant
                h <= resolved.len(),
                crate::store::strs(resolved@) == rs,
                first_existing(rs, crate::store::strs(existing@)) == first_existing(rs.skip(h as int), crate::store::strs(existing@)),
            decreases resolved.len() - h,
        {
            assert(rs.skip(h as int).drop_first() =~= rs.skip(h + 1));
            h = h + 1;
        }
        let exists = h < resolved.len();
        let file = if exists {
            resolved[h].clone()
        } else {
            assert(rs.skip(h as int).len() == 0);
            resolved[0].clone()
        };
        self.to_instance(def, file, exists)
    }

    /// Every registered agent with its configuration file: `existing` holds the candidate
    /// files that exist, `trae_found` whether Trae's executable was found.
    pub fn detect_agents(
        &self,
        env: &crate::fsutil::PathEnv,
        existing: &Vec<String>,
        trae_found: bool,
    ) -> (r: Vec<AgentInstance>)
        ensures
            r@.len() == 4,
            forall|i: int|
                0 <= i < 4 ==> #[trigger] r@[i]@ == detected(
                    crate::agents::registry_def(crate::agents::registry_ids()[i]).unwrap(),
                    *env,
                    crate::store::strs(existing@),
                    trae_found,
                ),
    {
        let reg = crate::agents::agent_registry();
        proof {
            crate::agents::lemma_registry_views(reg@);
        }
        let mut out: Vec<AgentInstance> = Vec::new();
        let mut i: usize = 0;
        while i < reg.len()
            invariant
                i <= reg.len(),
                crate::agents::is_registry(reg@),
                forall|k: int| 0 <= k < 4 ==> crate::agents::registry_def(#[trigger] crate::agents::registry_ids()[k]) == Some(crate::agents::def_view(reg@[k])),
                out@.len() == i,
                forall|k: int|
                    0 <= k < i ==> #[trigger] out@[k]@ == detected(
                        crate::agents::def_view(reg@[k]),
                        *env,
                        crate::store::strs(existing@),
                        trae_found,
                    ),
            decreases reg.len() - i,
        {
            let def = &reg[i];
            out.push(self.detect_one(def, env, existing, trae_found));
            i = i + 1;
        }
        out
    }
}

} // verus!

verus! {

pub open spec fn opt_member(k: Seq<char>, v: Option<Seq<char>>) -> Seq<(Seq<char>, JVal)> {
    match v {
        Some(s) => seq![(k, JVal::Str(s))],
        None => Seq::empty(),
    }
}

/// A field definition as the UI receives it (absent options are left out).
pub open spec fn field_json(f: crate::agents::FieldV) -> JVal {
    JVal::Obj(
        seq![("name"@, JVal::Str(f.name))] + opt_member("json_path"@, f.json_path) + opt_member(
            "toml_path"@,
            f.toml_path,
        ) + seq![("source"@, JVal::Str(f.source))] + opt_member("value"@, f.value) + match f.flat {
            Some(b) => seq![("flat"@, JVal::Bool(b))],
            None => Seq::empty(),
        },
    )
}

/// An agent definition as the UI receives it.
pub open spec fn agent_json(d: crate::agents::DefV) -> JVal {
    JVal::Obj(
        seq![
            ("id"@, JVal::Str(d.id)),
            ("name"@, JVal::Str(d.name)),
            ("description"@, JVal::Str(d.description)),
            ("configPaths"@, JVal::Arr(Seq::new(d.config_paths.len(), |i: int| JVal::Str(d.config_paths[i])))),
            ("fields"@, JVal::Arr(Seq::new(d.fields.len(), |i: int| field_json(d.fields[i])))),
            ("detection"@, JVal::Str("first"@)),
            ("kind"@, JVal::Str(if d.kind == crate::agents::AgentKind::Cdp { "cdp"@ } else { "file"@ })),
        ],
    )
}

fn push_opt(e: &mut Vec<(String, Json)>, k: &str, v: &Option<String>)
    ensures
        entries_view(final(e)@) == entries_view(old(e)@) + opt_member(k@, crate::store::opt_str(*v)),
{
    match v {
        Some(s) => {
            let ghost before = entries_view(e@);
            e.push(entry(k, jstring(s.clone())));
            assert(entries_view(e@) =~= before + seq![(k@, JVal::Str(s@))]);
        },
        None => {
            assert(entries_view(e@) =~= entries_view(e@) + Seq::<(Seq<char>, JVal)>::empty());
        },
    }
}

fn field_to_json(f: &crate::agents::AgentField) -> (j: Json)
    ensures
        j@ == field_json(crate::agents::field_view(*f)),
{
    let mut e: Vec<(String, Json)> = Vec::new();
    e.push(entry("name", jstring(f.name.clone())));
    assert(entries_view(e@) =~= seq![("name"@, JVal::Str(f.name@))]);
    push_opt(&mut e, "json_path", &f.json_path);
    push_opt(&mut e, "toml_path", &f.toml_path);
    let ghost before = entries_view(e@);
    e.push(entry("source", jstring(f.source.clone())));
    assert(entries_view(e@) =~= before + seq![("source"@, JVal::Str(f.source@))]);
    push_opt(&mut e, "value", &f.value);
    let ghost before2 = entries_view(e@);
    match f.flat {
        Some(b) => {
            e.push(entry("flat", Json::Bool(b)));
            assert(entries_view(e@) =~= before2 + seq![("flat"@, JVal::Bool(b))]);
        },
        None => {
            assert(entries_view(e@) =~= before2 + Seq::<(Seq<char>, JVal)>::empty());
        },
    }
    let r = obj(e);
    assert(entries_view(e@) =~= entries_of_val(field_json(crate::agents::field_view(*f))));
    r
}

fn agent_to_json(d: &crate::agents::AgentDef) -> (j: Json)
    ensures
        j@ == agent_json(crate::agents::def_view(*d)),
{
    let ghost dv = crate::agents::def_view(*d);
    let mut paths: Vec<Json> = Vec::new();
    let mut i: usize = 0;
    while i < d.config_paths.len()
        invariant
            i <= d.config_paths.len(),
            dv == crate::agents::def_view(*d),
            paths@.len() == i,
            forall|k: int| 0 <= k < i ==> #[trigger] paths@[k]@ == JVal::Str(dv.config_paths[k]),
        decreases d.config_paths.len() - i,
    {
        paths.push(jstr(d.config_paths[i]));
        i = i + 1;
    }
    assert(items_view(paths@) =~= Seq::new(dv.config_paths.len(), |k: int| JVal::Str(dv.config_paths[k])));
    let mut fields: Vec<Json> = Vec::new();
    let mut j: usize = 0;
    while j < d.fields.len()
        invariant
            j <= d.fields.len(),
            dv == crate::agents::def_view(*d),
            fields@.len() == j,
            forall|k: int| 0 <= k < j ==> #[trigger] fields@[k]@ == field_json(dv.fields[k]),
        decreases d.fields.len() - j,
    {
        fields.push(field_to_json(&d.fields[j]));
        j = j + 1;
    }
    assert(items_view(fields@) =~= Seq::new(dv.fields.len(), |k: int| field_json(dv.fields[k])));
    let mut e: Vec<(String, Json)> = Vec::new();
    e.push(entry("id", jstr(d.id)));
    e.push(entry("name", jstr(d.name)));
    e.push(entry("description", jstr(d.description)));
    let jp = arr(paths);
    e.push(entry("configPaths", jp));
    let jf = arr(fields);
    e.push(entry("fields", jf));
    e.push(entry("detection", jstr("first")));
    let kind = if d.kind == crate::agents::AgentKind::Cdp {
        "cdp"
    } else {
        "file"
    };
    e.push(entry("kind", jstr(kind)));
    let r = obj(e);
    assert(entries_view(e@) =~= entries_of_val(agent_json(dv)));
    r
}

impl<'a> AgentService<'a> {
    /// Every registered agent, described for the UI.
    pub fn list_agents(&self) -> (r: Vec<Json>)
        ensures
            r@.len() == 4,
            forall|i: int|
                0 <= i < 4 ==> #[trigger] r@[i]@ == agent_json(
                    crate::agents::registry_def(crate::agents::registry_ids()[i]).unwrap(),
                ),
    {
        let reg = crate::agents::agent_registry();
        proof {
            crate::agents::lemma_registry_views(reg@);
        }
        let mut out: Vec<Json> = Vec::new();
        let mut i: usize = 0;
        while i < reg.len()
            invariant
                i <= reg.len(),
                crate::agents::is_registry(reg@),
                out@.len() == i,
                forall|k: int| 0 <= k < i ==> #[trigger] out@[k]@ == agent_json(crate::agents::def_view(reg@[k])),
            decreases reg.len() - i,
        {
            out.push(agent_to_json(&reg[i]));
            i = i + 1;
        }
        out
    }
}

} // verus!

verus! {

pub type ResultV = (bool, Option<Seq<char>>, Option<Seq<char>>);

impl SwitchResult {
    pub open spec fn view(&self) -> ResultV {
        (self.ok, crate::store::opt_str(self.message), crate::store::opt_str(self.backup_path))
    }
}

/// What a switch does next once the agent and provider were looked up.
pub enum SwitchPlan {
    /// Nothing: the switch already ended so.
    Done(SwitchResult),
    /// Drive Trae to the provider's model.
    Cdp(Provider),
    /// Back up (when it exists) and rewrite the agent's configuration file.
    File(crate::agents::AgentDef, Provider, AgentInstance),
}

fn failed(msg: String) -> (r: SwitchResult)
    ensures
        r@ == (false, Some(msg@), None::<Seq<char>>),
{
    SwitchResult { ok: false, message: Some(msg), backup_path: None }
}

impl<'a> AgentService<'a> {
    /// Starts switching agent `agent_id` to provider `provider_id`: an unknown agent or
    /// provider ends the switch; a DevTools agent is driven; a file agent has its instance
    /// detected (see `detected`) and its file rewritten.
    pub fn switch_plan(
        &self,
        agent_id: &str,
        provider_id: &str,
        env: &crate::fsutil::PathEnv,
        existing: &Vec<String>,
        trae_found: bool,
    ) -> (r: SwitchPlan)
        ensures
            !crate::agents::known_agent(agent_id@) ==> (r matches SwitchPlan::Done(x) && x@ == (
                false,
                Some("未知 agent: "@ + agent_id@),
                None::<Seq<char>>,
            )),
            crate::agents::known_agent(agent_id@) && lookup(self.by_id(), provider_id@) is None
                ==> (r matches SwitchPlan::Done(x) && x@ == (
                false,
                Some("未知 provider: "@ + provider_id@),
                None::<Seq<char>>,
            )),
            crate::agents::known_agent(agent_id@) && lookup(self.by_id(), provider_id@) is Some
                && crate::agents::registry_def(agent_id@).unwrap().kind == crate::agents::AgentKind::Cdp
                ==> (r matches SwitchPlan::Cdp(p) && Some(p@) == lookup(self.by_id(), provider_id@)),
            crate::agents::known_agent(agent_id@) && lookup(self.by_id(), provider_id@) is Some
                && crate::agents::registry_def(agent_id@).unwrap().kind != crate::agents::AgentKind::Cdp
                ==> (r matches SwitchPlan::File(d, p, inst) && Some(crate::agents::def_view(d))
                == crate::agents::registry_def(agent_id@) && Some(p@) == lookup(
                self.by_id(),
                provider_id@,
            ) && inst@ == detected(
                crate::agents::def_view(d),
                *env,
                crate::store::strs(existing@),
                trae_found,
            )),
    {
        let def = match crate::agents::get_agent_def(agent_id) {
            Some(d) => d,
            None => {
                return SwitchPlan::Done(failed(concat("未知 agent: ", agent_id)));
            },
        };
        proof {
            crate::agents::lemma_registry_def(agent_id@, def);
        }
        let provider = match self.store.get_provider(provider_id) {
            Some(p) => p,
            None => {
                return SwitchPlan::Done(failed(concat("未知 provider: ", provider_id)));
            },
        };
        if def.kind == crate::agents::AgentKind::Cdp {
            return SwitchPlan::Cdp(provider);
        }
        let inst = self.detect_one(&def, env, existing, trae_found);
        SwitchPlan::File(def, provider, inst)
    }
}

/// The result of a DevTools switch when Trae could not be made debuggable.
pub fn cdp_not_ready(pre: &crate::trae::EnsureResult) -> (r: Option<SwitchResult>)
    ensures
        pre.ok ==> r is None,
        !pre.ok ==> (r matches Some(x) && x@ == (false, Some(pre.message@), None::<Seq<char>>)),
{
    if pre.ok {
        None
    } else {
        Some(failed(pre.message.clone()))
    }
}

/// The result of driving Trae to the provider's model.
pub fn cdp_switch_result(outcome: Result<crate::trae::SwitchOutcome, String>) -> (r: SwitchResult)
    ensures
        match outcome {
            Ok(o) => r@ == (o.ok, Some(o.message@), None::<Seq<char>>),
            Err(e) => r@ == (false, Some("Trae 切换失败: "@ + e@), None::<Seq<char>>),
        },
{
    match outcome {
        Ok(o) => SwitchResult { ok: o.ok, message: Some(o.message), backup_path: None },
        Err(e) => failed(concat("Trae 切换失败: ", e.as_str())),
    }
}

/// The message of a successful file switch.
pub open spec fn switched_text(d: crate::agents::DefV, provider_name: Seq<char>) -> Seq<char> {
    if d.custom_qoder {
        "已注册 "@ + d.name + " 自定义模型「"@ + provider_name + "」，请在 Qoder 的模型列表中选择它"@
    } else if d.custom_workbuddy {
        "已注册 "@ + d.name + " 自定义模型「"@ + provider_name
            + "」，请在 WorkBuddy 的模型列表中选择它（首次需重启 WorkBuddy）"@
    } else {
        "已切换 "@ + d.name + " → "@ + provider_name
    }
}

/// The next step of switching a file agent: the configuration file is backed up when it
/// exists, and rewritten only after that backup was taken.
pub enum FileStep {
    /// Copy the configuration file `file` into the backup directory `dir`.
    Backup { file: String, dir: String },
    /// Rewrite the configuration file; `backup` is where its earlier content was copied.
    Write { backup: Option<String> },
    /// The switch ended so.
    Done(SwitchResult),
}

impl<'a> AgentService<'a> {
    /// The first step of switching the file agent `inst`: a backup into this store's backup
    /// directory when its file exists, the rewrite otherwise.
    pub fn file_switch_start(&self, inst: &AgentInstance) -> (r: FileStep)
        ensures
            inst.exists ==> (r matches FileStep::Backup { file, dir } && file@ == inst.config_file_path@
                && dir@ == crate::store::backup_dir_of(self.store.path@)),
            !inst.exists ==> (r matches FileStep::Write { backup } && backup is None),
    {
        if inst.exists {
            FileStep::Backup { file: inst.config_file_path.clone(), dir: self.store.backup_dir() }
        } else {
            FileStep::Write { backup: None }
        }
    }
}

/// The step after the backup: the rewrite, carrying the backup's path, or the end of the switch
/// when the backup failed.
pub fn file_switch_backed_up(backup: Result<String, String>) -> (r: FileStep)
    ensures
        match backup {
            Ok(b) => r matches FileStep::Write { backup } && crate::store::opt_str(backup) == Some(b@),
            Err(e) => r matches FileStep::Done(x) && x@ == (false, Some("切换失败: "@ + e@), None::<Seq<char>>),
        },
{
    match backup {
        Ok(b) => FileStep::Write { backup: Some(b) },
        Err(e) => FileStep::Done(failed(concat("切换失败: ", e.as_str()))),
    }
}

/// The result of a file switch once the rewrite was attempted: success, with the backup's
/// path when one was taken, or the error of the rewrite.
pub fn file_switch_result(
    def: &crate::agents::AgentDef,
    provider: &Provider,
    backup: Option<String>,
    written: Result<(), String>,
) -> (r: SwitchResult)
    ensures
        match written {
            Ok(_) => r@ == (
                true,
                Some(switched_text(crate::agents::def_view(*def), provider@.name)),
                crate::store::opt_str(backup),
            ),
            Err(e) => r@ == (false, Some("切换失败: "@ + e@), None::<Seq<char>>),
        },
{
    match written {
        Ok(_) => {
            let name = provider.name.as_str();
            let message = if def.custom_qoder {
                concat(
                    concat(concat(concat("已注册 ", def.name).as_str(), " 自定义模型「").as_str(), name).as_str(),
                    "」，请在 Qoder 的模型列表中选择它",
                )
            } else if def.custom_workbuddy {
                concat(
                    concat(concat(concat("已注册 ", def.name).as_str(), " 自定义模型「").as_str(), name).as_str(),
                    "」，请在 WorkBuddy 的模型列表中选择它（首次需重启 WorkBuddy）",
                )
            } else {
                concat(concat(concat("已切换 ", def.name).as_str(), " → ").as_str(), name)
            };
            SwitchResult { ok: true, message: Some(message), backup_path: backup }
        },
        Err(e) => failed(concat("切换失败: ", e.as_str())),
    }
}

/// The result of a file switch run step by step (`file_switch_start`, then
/// `file_switch_backed_up` when the file exists, then `file_switch_result`): `exists` whether
/// the file existed, `backup` the outcome of the backup, `written` that of the rewrite (only
/// attempted once the backup, if any, was taken).
pub open spec fn file_switch_outcome(
    d: crate::agents::DefV,
    provider_name: Seq<char>,
    exists: bool,
    backup: Result<Seq<char>, Seq<char>>,
    written: Result<(), Seq<char>>,
) -> (bool, Option<Seq<char>>, Option<Seq<char>>) {
    let taken: Result<Option<Seq<char>>, Seq<char>> = if exists {
        match backup {
            Ok(b) => Ok(Some(b)),
            Err(e) => Err(e),
        }
    } else {
        Ok(None)
    };
    match taken {
        Err(e) => (false, Some("切换失败: "@ + e), None),
        Ok(b) => match written {
            Ok(_) => (true, Some(switched_text(d, provider_name)), b),
            Err(e) => (false, Some("切换失败: "@ + e), None),
        },
    }
}

/// A successful file switch reports a backup exactly when the configuration file existed (the
/// backup taken before the rewrite); a failed one reports no backup and a message that starts
/// with `切换失败: `.
pub proof fn law_file_switch_backs_up_existing_files(
    d: crate::agents::DefV,
    provider_name: Seq<char>,
    exists: bool,
    backup: Result<Seq<char>, Seq<char>>,
    written: Result<(), Seq<char>>,
)
    ensures
        ({
            let r = file_switch_outcome(d, provider_name, exists, backup, written);
            &&& r.0 ==> (r.2 is Some <==> exists)
            &&& r.0 && exists ==> backup == Ok::<Seq<char>, Seq<char>>(r.2.unwrap())
            &&& !r.0 ==> (r.2 is None && r.1 is Some && starts_with(r.1.unwrap(), "切换失败: "@))
        }),
{
    let r = file_switch_outcome(d, provider_name, exists, backup, written);
    if !r.0 {
        let m = r.1.unwrap();
        let pre = "切换失败: "@;
        assert(m.take(pre.len() as int) =~= pre);
    }
}

} // verus!

verus! {

proof fn lemma_insert_twice<V>(s: Seq<(Seq<char>, V)>, k: Seq<char>, v: V, w: V)
    ensures
        insert(insert(s, k, v), k, w) == insert(s, k, w),
    decreases s.len(),
{
    if s.len() == 0 {
        assert(insert(s, k, v) == seq![(k, v)]);
        assert(insert(seq![(k, v)], k, w) =~= seq![(k, w)]);
    } else if s[0].0 == k {
        let t = s.update(0, (k, v));
        assert(insert(t, k, w) == t.update(0, (k, w)));
        assert(t.update(0, (k, w)) =~= s.update(0, (k, w)));
    } else {
        lemma_insert_twice(s.drop_first(), k, v, w);
        let t = seq![s[0]] + insert(s.drop_first(), k, v);
        assert(t[0] == s[0]);
        assert(t.drop_first() =~= insert(s.drop_first(), k, v));
    }
}

proof fn lemma_disable_others_lookup(s: Seq<(Seq<char>, JVal)>, key: Seq<char>, q: Seq<char>)
    ensures
        lookup(disable_others(s, key), q) == if q == key {
            lookup(s, q)
        } else {
            match lookup(s, q) {
                Some(e) => Some(disabled(e)),
                None => None,
            }
        },
    decreases s.len(),
{
    if s.len() > 0 {
        let d = disable_others(s, key);
        assert(d.drop_first() =~= disable_others(s.drop_first(), key));
        lemma_disable_others_lookup(s.drop_first(), key, q);
    }
}

proof fn lemma_filter_idempotent(s: Seq<JVal>, f: spec_fn(JVal) -> bool)
    ensures
        s.filter(f).filter(f) == s.filter(f),
    decreases s.len(),
{
    reveal(Seq::filter);
    if s.len() > 0 {
        lemma_filter_idempotent(s.drop_last(), f);
        let t = s.drop_last().filter(f);
        if f(s.last()) {
            assert(t.push(s.last()).drop_last() =~= t);
        }
    }
}

proof fn lemma_filter_none_kept(s: Seq<JVal>, f: spec_fn(JVal) -> bool)
    requires
        forall|i: int| 0 <= i < s.len() ==> !f(#[trigger] s[i]),
    ensures
        s.filter(f) == Seq::<JVal>::empty(),
    decreases s.len(),
{
    reveal(Seq::filter);
    if s.len() > 0 {
        lemma_filter_none_kept(s.drop_last(), f);
        assert(!f(s[s.len() - 1]));
    }
}

proof fn lemma_workbuddy_models_managed(p: ProviderV, m: Seq<char>)
    ensures
        is_managed(workbuddy_model_val(p, m)),
{
    let id = WORKBUDDY_MODEL_PREFIX@ + p.id + ":"@ + m;
    let f = seq![
        ("id"@, JVal::Str(id)),
        ("name"@, JVal::Str(m)),
        ("vendor"@, JVal::Str(workbuddy_vendor(p))),
        ("url"@, JVal::Str(workbuddy_endpoint(p.base_url))),
        ("apiKey"@, JVal::Str(p.api_key)),
        ("supportsToolCall"@, JVal::Bool(true)),
        ("supportsImages"@, JVal::Bool(false)),
        ("supportsReasoning"@, JVal::Bool(false)),
    ];
    lemma_lookup_first(f, "id"@, 0);
    assert(id.take(WORKBUDDY_MODEL_PREFIX@.len() as int) =~= WORKBUDDY_MODEL_PREFIX@);
}

/// Switching ZCode to a provider is non-destructive: every other top-level member of its
/// configuration stays as it was; in the provider table this tool's block for the provider is
/// written, and every other provider keeps its settings, at most switched off.
pub proof fn law_zcode_switch_non_destructive(
    data: Seq<(Seq<char>, JVal)>,
    p: ProviderV,
    k: Seq<char>,
    q: Seq<char>,
)
    ensures
        k != "provider"@ ==> lookup(zcode_applied(data, p), k) == lookup(data, k),
        lookup(object_member(zcode_applied(data, p), "provider"@), ZCODE_PROVIDER_PREFIX@ + p.id)
            == Some(zcode_entry(p)),
        q != ZCODE_PROVIDER_PREFIX@ + p.id ==> lookup(
            object_member(zcode_applied(data, p), "provider"@),
            q,
        ) == match lookup(object_member(data, "provider"@), q) {
            Some(e) => Some(disabled(e)),
            None => None,
        },
{
    let key = ZCODE_PROVIDER_PREFIX@ + p.id;
    let others = disable_others(object_member(data, "provider"@), key);
    let table = insert(others, key, zcode_entry(p));
    lemma_insert_lookup(data, "provider"@, JVal::Obj(table), k);
    lemma_insert_lookup(data, "provider"@, JVal::Obj(table), "provider"@);
    lemma_insert_lookup(others, key, zcode_entry(p), key);
    lemma_insert_lookup(others, key, zcode_entry(p), q);
    lemma_disable_others_lookup(object_member(data, "provider"@), key, q);
}

/// Registering a provider in Qoder is non-destructive: every other top-level member of its
/// settings and every other entry of its provider table stay as they were; only this tool's
/// entry for the provider is written.
pub proof fn law_qoder_switch_non_destructive(
    data: Seq<(Seq<char>, JVal)>,
    p: ProviderV,
    k: Seq<char>,
    q: Seq<char>,
)
    ensures
        k != "providers"@ ==> lookup(qoder_applied(data, p), k) == lookup(data, k),
        lookup(object_member(qoder_applied(data, p), "providers"@), QODER_PROVIDER_PREFIX@ + p.id)
            == Some(qoder_entry(p)),
        q != QODER_PROVIDER_PREFIX@ + p.id ==> lookup(
            object_member(qoder_applied(data, p), "providers"@),
            q,
        ) == lookup(object_member(data, "providers"@), q),
{
    let key = QODER_PROVIDER_PREFIX@ + p.id;
    let table = insert(object_member(data, "providers"@), key, qoder_entry(p));
    lemma_insert_lookup(data, "providers"@, JVal::Obj(table), k);
    lemma_insert_lookup(data, "providers"@, JVal::Obj(table), "providers"@);
    lemma_insert_lookup(object_member(data, "providers"@), key, qoder_entry(p), key);
    lemma_insert_lookup(object_member(data, "providers"@), key, qoder_entry(p), q);
}

/// Registering the same provider in Qoder twice gives the same settings as registering it once.
pub proof fn law_qoder_switch_idempotent(data: Seq<(Seq<char>, JVal)>, p: ProviderV)
    ensures
        qoder_applied(qoder_applied(data, p), p) == qoder_applied(data, p),
{
    let key = QODER_PROVIDER_PREFIX@ + p.id;
    let table = insert(object_member(data, "providers"@), key, qoder_entry(p));
    let once = qoder_applied(data, p);
    lemma_insert_lookup(data, "providers"@, JVal::Obj(table), "providers"@);
    assert(object_member(once, "providers"@) == table);
    lemma_insert_twice(object_member(data, "providers"@), key, qoder_entry(p), qoder_entry(p));
    lemma_insert_twice(data, "providers"@, JVal::Obj(table), JVal::Obj(table));
}

/// Registering a provider in WorkBuddy keeps every other top-level member and every model
/// entry this tool does not manage, in order; the managed entries become exactly one entry per
/// selected model of the provider.
pub proof fn law_workbuddy_switch_non_destructive(
    data: Seq<(Seq<char>, JVal)>,
    p: ProviderV,
    k: Seq<char>,
)
    ensures
        k != "models"@ ==> lookup(workbuddy_applied(data, p), k) == lookup(data, k),
        array_member(workbuddy_applied(data, p), "models"@).filter(not_managed()) == array_member(
            data,
            "models"@,
        ).filter(not_managed()),
        array_member(workbuddy_applied(data, p), "models"@).filter(managed_pred()) == Seq::new(
            selected_models(p).len(),
            |i: int| workbuddy_model_val(p, selected_models(p)[i]),
        ),
{
    let ms = selected_models(p);
    let kept = array_member(data, "models"@).filter(not_managed());
    let fresh = Seq::new(ms.len(), |i: int| workbuddy_model_val(p, ms[i]));
    let models = kept + fresh;
    lemma_insert_lookup(data, "models"@, JVal::Arr(models), k);
    lemma_insert_lookup(data, "models"@, JVal::Arr(models), "models"@);
    assert(array_member(workbuddy_applied(data, p), "models"@) == models);
    assert forall|i: int| 0 <= i < fresh.len() implies !(#[trigger] not_managed()(fresh[i])) by {
        lemma_workbuddy_models_managed(p, ms[i]);
    }
    assert forall|i: int| 0 <= i < kept.len() implies !(#[trigger] managed_pred()(kept[i])) by {
        broadcast use vstd::seq_lib::group_filter_ensures;
        assert(kept.contains(kept[i]));
    }
    assert forall|i: int| 0 <= i < fresh.len() implies #[trigger] managed_pred()(fresh[i]) by {
        lemma_workbuddy_models_managed(p, ms[i]);
    }
    Seq::filter_distributes_over_add(kept, fresh, not_managed());
    Seq::filter_distributes_over_add(kept, fresh, managed_pred());
    lemma_filter_idempotent(array_member(data, "models"@), not_managed());
    lemma_filter_none_kept(fresh, not_managed());
    lemma_filter_none_kept(kept, managed_pred());
    lemma_filter_all_kept(fresh, managed_pred());
    assert(kept + Seq::<JVal>::empty() =~= kept);
    assert(Seq::<JVal>::empty() + fresh =~= fresh);
}

proof fn lemma_filter_all_kept(s: Seq<JVal>, f: spec_fn(JVal) -> bool)
    requires
        forall|i: int| 0 <= i < s.len() ==> f(#[trigger] s[i]),
    ensures
        s.filter(f) == s,
    decreases s.len(),
{
    reveal(Seq::filter);
    if s.len() > 0 {
        lemma_filter_all_kept(s.drop_last(), f);
        assert(f(s[s.len() - 1]));
        assert(s.drop_last().push(s.last()) =~= s);
    }
}

/// Switching WorkBuddy to a provider replaces whatever an earlier switch registered: the
/// result is the same as switching the file as it was before to that provider directly.
pub proof fn law_workbuddy_reswitch_replaces(
    data: Seq<(Seq<char>, JVal)>,
    p1: ProviderV,
    p2: ProviderV,
)
    ensures
        workbuddy_applied(workbuddy_applied(data, p1), p2) == workbuddy_applied(data, p2),
{
    let once = workbuddy_applied(data, p1);
    law_workbuddy_switch_non_destructive(data, p1, "models"@);
    let ms = selected_models(p2);
    let fresh = Seq::new(ms.len(), |i: int| workbuddy_model_val(p2, ms[i]));
    let x = JVal::Arr(array_member(once, "models"@).filter(not_managed()) + fresh);
    let ms1 = selected_models(p1);
    let models1 = JVal::Arr(
        array_member(data, "models"@).filter(not_managed()) + Seq::new(
            ms1.len(),
            |i: int| workbuddy_model_val(p1, ms1[i]),
        ),
    );
    assert(x == JVal::Arr(array_member(data, "models"@).filter(not_managed()) + fresh));
    lemma_insert_twice(data, "models"@, models1, x);
}

/// Reading Qoder's status after this tool registered a provider for the agent (and recorded it
/// as the agent's active provider) gives that provider back, with its default model.
pub proof fn law_qoder_read_after_write(
    active: Seq<(Seq<char>, Seq<char>)>,
    providers: Seq<(Seq<char>, ProviderV)>,
    data: Seq<(Seq<char>, JVal)>,
    agent_id: Seq<char>,
    p: ProviderV,
)
    requires
        lookup(active, agent_id) == Some(p.id),
        lookup(providers, p.id) == Some(p),
    ensures
        qoder_status(active, providers, Some(JVal::Obj(qoder_applied(data, p))), agent_id) == (
            true,
            Some(p.name),
            default_model(p),
        ),
{
    law_qoder_switch_non_destructive(data, p, "providers"@, QODER_PROVIDER_PREFIX@ + p.id);
    let table = insert(object_member(data, "providers"@), QODER_PROVIDER_PREFIX@ + p.id, qoder_entry(p));
    lemma_insert_lookup(data, "providers"@, JVal::Obj(table), "providers"@);
}

proof fn lemma_workbuddy_model_members(p: ProviderV, m: Seq<char>)
    ensures
        crate::json::member(workbuddy_model_val(p, m), "url"@) == Some(JVal::Str(workbuddy_endpoint(p.base_url))),
        crate::json::member(workbuddy_model_val(p, m), "name"@) == Some(JVal::Str(m)),
{
    let f = entries_of_val(workbuddy_model_val(p, m));
    reveal_strlit("id");
    reveal_strlit("name");
    reveal_strlit("vendor");
    reveal_strlit("url");
    assert(f[0].0 != "name"@) by {
        assert(f[0].0.len() != "name"@.len());
    }
    assert(f[0].0 != "url"@) by {
        assert(f[0].0.len() != "url"@.len());
    }
    assert(f[1].0 != "url"@) by {
        assert(f[1].0.len() != "url"@.len());
    }
    assert(f[2].0 != "url"@) by {
        assert(f[2].0.len() != "url"@.len());
    }
    lemma_lookup_first(f, "name"@, 1);
    lemma_lookup_first(f, "url"@, 3);
}

proof fn lemma_endpoint_nonempty(base_url: Seq<char>)
    ensures
        workbuddy_endpoint(base_url).len() > 0,
{
    reveal_strlit("/chat/completions");
    let b = normalized(base_url);
    if ends_with(b, "/chat/completions"@) {
        assert(b.len() >= 17);
    } else {
        assert((b + "/chat/completions"@).len() == b.len() + 17);
    }
}

proof fn lemma_workbuddy_status_of(ps: Seq<ProviderV>, d: JVal, list: Seq<JVal>, first: JVal)
    requires
        crate::json::member(d, "models"@) == Some(JVal::Arr(list)),
        list.filter(managed_pred()).len() > 0,
        list.filter(managed_pred())[0] == first,
    ensures
        workbuddy_status(ps, Some(d)) == {
            let base = str_or_empty(crate::json::as_str(crate::json::member(first, "url"@)));
            (base.len() > 0, name_by_endpoint(ps, base), crate::json::as_str(crate::json::member(first, "name"@)))
        },
{
}

proof fn lemma_workbuddy_first_managed(data: Seq<(Seq<char>, JVal)>, p: ProviderV) -> (list: Seq<JVal>)
    requires
        selected_models(p).len() > 0,
    ensures
        crate::json::member(JVal::Obj(workbuddy_applied(data, p)), "models"@) == Some(JVal::Arr(list)),
        list.filter(managed_pred()).len() > 0,
        list.filter(managed_pred())[0] == workbuddy_model_val(p, selected_models(p)[0]),
{
    let ms = selected_models(p);
    let models = JVal::Arr(
        array_member(data, "models"@).filter(not_managed()) + Seq::new(
            ms.len(),
            |i: int| workbuddy_model_val(p, ms[i]),
        ),
    );
    lemma_insert_lookup(data, "models"@, models, "models"@);
    let list = array_member(workbuddy_applied(data, p), "models"@);
    assert(crate::json::member(JVal::Obj(workbuddy_applied(data, p)), "models"@) == Some(JVal::Arr(list)));
    lemma_managed_models(data, p);
    list
}

proof fn lemma_managed_models(data: Seq<(Seq<char>, JVal)>, p: ProviderV)
    requires
        selected_models(p).len() > 0,
    ensures
        array_member(workbuddy_applied(data, p), "models"@).filter(managed_pred()).len() > 0,
        array_member(workbuddy_applied(data, p), "models"@).filter(managed_pred())[0]
            == workbuddy_model_val(p, selected_models(p)[0]),
{
    law_workbuddy_switch_non_destructive(data, p, "models"@);
}

proof fn lemma_default_is_first_selected(p: ProviderV)
    requires
        selected_models(p).len() > 0,
    ensures
        default_model(p) == Some(selected_models(p)[0]),
{
}

/// Reading WorkBuddy's status after registering a provider gives back the first model written
/// (the provider's default model) and the provider found by the endpoint written.
pub proof fn law_workbuddy_read_after_write(ps: Seq<ProviderV>, data: Seq<(Seq<char>, JVal)>, p: ProviderV)
    requires
        selected_models(p).len() > 0,
    ensures
        workbuddy_status(ps, Some(JVal::Obj(workbuddy_applied(data, p)))) == (
            true,
            name_by_endpoint(ps, workbuddy_endpoint(p.base_url)),
            default_model(p),
        ),
{
    let m0 = selected_models(p)[0];
    let list = lemma_workbuddy_first_managed(data, p);
    lemma_workbuddy_status_of(ps, JVal::Obj(workbuddy_applied(data, p)), list, workbuddy_model_val(p, m0));
    lemma_workbuddy_model_members(p, m0);
    lemma_endpoint_nonempty(p.base_url);
    lemma_default_is_first_selected(p);
}

proof fn lemma_disabled_not_enabled(e: JVal)
    ensures
        !is_enabled(disabled(e)),
{
    match e {
        JVal::Obj(f) => {
            if lookup(f, "enabled"@) is Some {
                lemma_insert_lookup(f, "enabled"@, JVal::Bool(false), "enabled"@);
            }
        },
        _ => {},
    }
}

proof fn lemma_zcode_entry_facts(p: ProviderV)
    ensures
        is_enabled(zcode_entry(p)),
        crate::json::as_str(crate::json::get_path(zcode_entry(p), seq!["options"@, "baseURL"@]))
            == Some(p.base_url),
        match crate::json::member(zcode_entry(p), "models"@) {
            Some(JVal::Obj(m)) => m.len() > 0 && default_model(p) == Some(m[0].0),
            _ => default_model(p) is None,
        },
{
    reveal_strlit("name");
    reveal_strlit("kind");
    reveal_strlit("options");
    reveal_strlit("enabled");
    reveal_strlit("source");
    reveal_strlit("models");
    reveal_strlit("apiKey");
    reveal_strlit("baseURL");
    let e = zcode_entry(p);
    let f = entries_of_val(e);
    assert(f[0].0 == "name"@ && f[1].0 == "kind"@ && f[2].0 == "options"@ && f[3].0 == "enabled"@);
    assert(f[4].0 == "source"@);
    assert("name"@ != "enabled"@ && "kind"@ != "enabled"@) by {
        assert("name"@.len() != "enabled"@.len());
    }
    assert("options"@ != "enabled"@) by {
        assert("options"@[0] != "enabled"@[0]);
    }
    assert("name"@ != "options"@ && "kind"@ != "options"@) by {
        assert("name"@.len() != "options"@.len());
    }
    lemma_lookup_first(f, "enabled"@, 3);
    lemma_lookup_first(f, "options"@, 2);
    let opts = entries_of_val(f[2].1);
    assert(opts[0].0 == "apiKey"@ && opts[1].0 == "baseURL"@);
    assert("apiKey"@ != "baseURL"@) by {
        assert("apiKey"@.len() != "baseURL"@.len());
    }
    lemma_lookup_first(opts, "baseURL"@, 1);
    assert(seq!["options"@, "baseURL"@].drop_first() =~= seq!["baseURL"@]);
    assert(seq!["baseURL"@].drop_first() =~= Seq::<Seq<char>>::empty());
    assert(crate::json::get_path(opts[1].1, Seq::<Seq<char>>::empty()) == Some(opts[1].1));
    assert(crate::json::get_path(f[2].1, seq!["baseURL"@]) == Some(opts[1].1));
    assert("name"@ != "models"@ && "kind"@ != "models"@) by {
        assert("name"@.len() != "models"@.len());
    }
    assert("options"@ != "models"@ && "enabled"@ != "models"@) by {
        assert("options"@.len() != "models"@.len());
    }
    assert("source"@ != "models"@) by {
        assert("source"@[0] != "models"@[0]);
    }
    let ms = selected_models(p);
    if ms.len() > 0 {
        assert(f[5].0 == "models"@);
        lemma_lookup_first(f, "models"@, 5);
    } else {
        lemma_lookup_none(f, "models"@);
    }
}

proof fn lemma_first_with_key(s: Seq<(Seq<char>, JVal)>, key: Seq<char>, k: int) -> (j: int)
    requires
        0 <= k < s.len(),
        s[k].0 == key,
    ensures
        0 <= j <= k,
        s[j].0 == key,
        forall|i: int| 0 <= i < j ==> s[i].0 != key,
    decreases k,
{
    if exists|i: int| 0 <= i < k && s[i].0 == key {
        let i = choose|i: int| 0 <= i < k && s[i].0 == key;
        lemma_first_with_key(s, key, i)
    } else {
        k
    }
}

proof fn lemma_zcode_table(s: Seq<(Seq<char>, JVal)>, key: Seq<char>, entry: JVal)
    requires
        is_enabled(entry),
        starts_with(key, ZCODE_PROVIDER_PREFIX@),
    ensures
        ({
            let t = insert(disable_others(s, key), key, entry);
            &&& t.filter(enabled_mine_pred()).len() > 0
            &&& t.filter(enabled_mine_pred())[0] == (key, entry)
        }),
{
    let d = disable_others(s, key);
    let t = insert(d, key, entry);
    assert forall|i: int| 0 <= i < d.len() && d[i].0 != key implies !enabled_mine_pred()(#[trigger] d[i]) by {
        lemma_disabled_not_enabled(s[i].1);
    }
    if exists|k: int| 0 <= k < d.len() && d[k].0 == key {
        let k = choose|k: int| 0 <= k < d.len() && d[k].0 == key;
        let j = lemma_first_with_key(d, key, k);
        lemma_insert_update(d, key, entry, j);
        assert(t[j] == (key, entry));
        assert forall|i: int| 0 <= i < j implies !enabled_mine_pred()(#[trigger] t[i]) by {
            assert(t[i] == d[i]);
        }
        lemma_filter_first(t, enabled_mine_pred(), j);
    } else {
        lemma_insert_append(d, key, entry);
        assert(t[d.len() as int] == (key, entry));
        assert forall|i: int| 0 <= i < d.len() implies !enabled_mine_pred()(#[trigger] t[i]) by {
            assert(t[i] == d[i]);
        }
        lemma_filter_first(t, enabled_mine_pred(), d.len() as int);
    }
}

proof fn lemma_zcode_status_of(ps: Seq<ProviderV>, d: JVal, provs: Seq<(Seq<char>, JVal)>, first: (Seq<char>, JVal))
    requires
        crate::json::member(d, "provider"@) == Some(JVal::Obj(provs)),
        provs.filter(enabled_mine_pred()).len() > 0,
        provs.filter(enabled_mine_pred())[0] == first,
    ensures
        zcode_status(ps, Some(d)) == {
            let base = str_or_empty(crate::json::as_str(crate::json::get_path(first.1, seq!["options"@, "baseURL"@])));
            let model = match crate::json::member(first.1, "models"@) {
                Some(JVal::Obj(m)) => if m.len() > 0 {
                    Some(m[0].0)
                } else {
                    None
                },
                _ => None,
            };
            (base.len() > 0, name_by_base(ps, base), model)
        },
{
}

/// Reading ZCode's status after switching it to a provider gives back that provider's base
/// URL (and the provider found by it) and its default model: this tool's block is then the
/// only enabled one.
pub proof fn law_zcode_read_after_write(ps: Seq<ProviderV>, data: Seq<(Seq<char>, JVal)>, p: ProviderV)
    ensures
        zcode_status(ps, Some(JVal::Obj(zcode_applied(data, p)))) == (
            p.base_url.len() > 0,
            name_by_base(ps, p.base_url),
            default_model(p),
        ),
{
    let key = ZCODE_PROVIDER_PREFIX@ + p.id;
    let table = insert(disable_others(object_member(data, "provider"@), key), key, zcode_entry(p));
    lemma_insert_lookup(data, "provider"@, JVal::Obj(table), "provider"@);
    lemma_zcode_entry_facts(p);
    assert(key.take(ZCODE_PROVIDER_PREFIX@.len() as int) =~= ZCODE_PROVIDER_PREFIX@);
    lemma_zcode_table(object_member(data, "provider"@), key, zcode_entry(p));
    lemma_zcode_status_of(ps, JVal::Obj(zcode_applied(data, p)), table, (key, zcode_entry(p)));
}

/// The model a flat-key agent reads back after a write: the provider's default model when it
/// has one (it is then written), else whatever the file held before.
pub open spec fn model_after_write(p: ProviderV, before: JVal, key: Seq<char>) -> Option<Seq<char>> {
    match default_model(p) {
        Some(m) => Some(m),
        None => crate::json::as_str(crate::json::member(before, key)),
    }
}

/// Switching CodeGeeX writes its flat `codegeex.*` keys; reading its status afterwards gives
/// back the provider's base URL (and the provider found by it) and its default model (or,
/// when it has none, the model the file already named).
pub proof fn law_codegeex_read_after_write(
    ps: Seq<ProviderV>,
    active: Seq<(Seq<char>, Seq<char>)>,
    byid: Seq<(Seq<char>, ProviderV)>,
    d: crate::agents::AgentDef,
    file: Seq<char>,
    c: Option<ContentV>,
    p: ProviderV,
)
    requires
        crate::agents::is_codegeex(d),
        crate::fsutil::format_of(file) != "toml"@,
        json_base(c) is Obj || json_base(c) is Null,
    ensures
        match config_written(d, file, c, p) {
            Ok(w) => status_for(ps, active, byid, crate::agents::def_view(d), true, crate::fsutil::format_of(file), Some(w))
                == (
                p.base_url.len() > 0,
                name_by_base(ps, p.base_url),
                model_after_write(p, json_base(c), "codegeex.model"@),
            ),
            Err(_) => false,
        },
{
    reveal_strlit("baseUrl");
    reveal_strlit("apiKey");
    reveal_strlit("modelName");
    reveal_strlit("codegeex.apiBase");
    reveal_strlit("codegeex.apiKey");
    reveal_strlit("codegeex.model");
    let fs = d.fields@;
    let base = json_base(c);
    let e0 = crate::json::entries_of(base);
    let kb = "codegeex.apiBase"@;
    let kk = "codegeex.apiKey"@;
    let km = "codegeex.model"@;
    assert(kb != kk && kb != km && kk != km) by {
        assert(kb.len() == 16 && kk.len() == 15 && km.len() == 14);
    }
    assert("apiKey"@ != "baseUrl"@ && "modelName"@ != "baseUrl"@ && "modelName"@ != "apiKey"@) by {
        assert("apiKey"@.len() == 6 && "baseUrl"@.len() == 7 && "modelName"@.len() == 9);
    }
    assert(field_value_of(fs[0], p) == Some(p.base_url));
    assert(field_value_of(fs[1], p) == Some(p.api_key));
    assert(field_value_of(fs[2], p) == default_model(p));
    assert(fs.drop_last() =~= seq![fs[0], fs[1]]);
    assert(seq![fs[0], fs[1]].drop_last() =~= seq![fs[0]]);
    assert(seq![fs[0]].drop_last() =~= Seq::<crate::agents::AgentField>::empty());
    let e1 = insert(e0, kb, JVal::Str(p.base_url));
    let e2 = insert(e1, kk, JVal::Str(p.api_key));
    assert(json_applied(base, Seq::<crate::agents::AgentField>::empty(), p) == base);
    assert(json_applied(base, seq![fs[0]], p) == JVal::Obj(e1));
    assert(json_applied(base, seq![fs[0], fs[1]], p) == JVal::Obj(e2));
    let doc = json_applied(base, fs, p);
    lemma_insert_lookup(e0, kb, JVal::Str(p.base_url), kb);
    lemma_insert_lookup(e0, kb, JVal::Str(p.base_url), km);
    lemma_insert_lookup(e1, kk, JVal::Str(p.api_key), kb);
    lemma_insert_lookup(e1, kk, JVal::Str(p.api_key), km);
    match default_model(p) {
        Some(m) => {
            assert(doc == JVal::Obj(insert(e2, km, JVal::Str(m))));
            lemma_insert_lookup(e2, km, JVal::Str(m), kb);
            lemma_insert_lookup(e2, km, JVal::Str(m), km);
        },
        None => {
            assert(doc == JVal::Obj(e2));
        },
    }
    let fv = crate::agents::def_view(d).fields;
    assert(fv.drop_last() =~= seq![fv[0], fv[1]]);
    assert(seq![fv[0], fv[1]].drop_last() =~= seq![fv[0]]);
    assert(seq![fv[0]].drop_last() =~= Seq::<crate::agents::FieldV>::empty());
    assert(json_field_read(fv[0], doc) == Some(JVal::Str(p.base_url)));
    assert(last_json_read(seq![fv[0]], doc, "baseUrl"@) == Some(JVal::Str(p.base_url)));
    assert(last_json_read(seq![fv[0], fv[1]], doc, "baseUrl"@) == Some(JVal::Str(p.base_url)));
    assert(last_json_read(fv, doc, "baseUrl"@) == Some(JVal::Str(p.base_url)));
    match base {
        JVal::Obj(_) => {},
        _ => {
            lemma_lookup_none(e0, km);
        },
    }
    assert(json_field_read(fv[2], doc) == crate::json::member(doc, km));
    if json_field_read(fv[2], doc) is None {
        assert(last_json_read(Seq::<crate::agents::FieldV>::empty(), doc, "modelName"@) is None);
        assert(last_json_read(seq![fv[0]], doc, "modelName"@) is None);
        assert(last_json_read(seq![fv[0], fv[1]], doc, "modelName"@) is None);
    }
}

/// Switching the generic CLI agent through a TOML file writes `api_base`, `api_key` and
/// `model`; reading its status afterwards gives back the provider's base URL (and the provider
/// found by it) and its default model (or, when it has none, the model the file already named).
pub proof fn law_generic_toml_read_after_write(
    ps: Seq<ProviderV>,
    active: Seq<(Seq<char>, Seq<char>)>,
    byid: Seq<(Seq<char>, ProviderV)>,
    d: crate::agents::AgentDef,
    file: Seq<char>,
    c: Option<ContentV>,
    p: ProviderV,
)
    requires
        crate::agents::is_generic_cli(d),
        crate::fsutil::format_of(file) == "toml"@,
    ensures
        match config_written(d, file, c, p) {
            Ok(w) => status_for(ps, active, byid, crate::agents::def_view(d), true, crate::fsutil::format_of(file), Some(w))
                == (
                p.base_url.len() > 0,
                name_by_base(ps, p.base_url),
                match default_model(p) {
                    Some(m) => Some(m),
                    None => lookup(toml_base(c), "model"@),
                },
            ),
            Err(_) => false,
        },
{
    reveal_strlit("baseUrl");
    reveal_strlit("apiKey");
    reveal_strlit("modelName");
    reveal_strlit("api_base");
    reveal_strlit("api_key");
    reveal_strlit("model");
    let fs = d.fields@;
    let m0 = toml_base(c);
    let kb = "api_base"@;
    let kk = "api_key"@;
    let km = "model"@;
    assert(kb != kk && kb != km && kk != km) by {
        assert(kb.len() == 8 && kk.len() == 7 && km.len() == 5);
    }
    assert("apiKey"@ != "baseUrl"@ && "modelName"@ != "baseUrl"@ && "modelName"@ != "apiKey"@) by {
        assert("apiKey"@.len() == 6 && "baseUrl"@.len() == 7 && "modelName"@.len() == 9);
    }
    assert(field_value_of(fs[0], p) == Some(p.base_url));
    assert(field_value_of(fs[1], p) == Some(p.api_key));
    assert(field_value_of(fs[2], p) == default_model(p));
    assert(toml_key(fs[0]) == kb && toml_key(fs[1]) == kk && toml_key(fs[2]) == km);
    assert(fs.drop_last() =~= seq![fs[0], fs[1]]);
    assert(seq![fs[0], fs[1]].drop_last() =~= seq![fs[0]]);
    assert(seq![fs[0]].drop_last() =~= Seq::<crate::agents::AgentField>::empty());
    let m1 = insert(m0, kb, p.base_url);
    let m2 = insert(m1, kk, p.api_key);
    assert(toml_applied(m0, Seq::<crate::agents::AgentField>::empty(), p) == m0);
    assert(toml_applied(m0, seq![fs[0]], p) == m1);
    assert(toml_applied(m0, seq![fs[0], fs[1]], p) == m2);
    let doc = toml_applied(m0, fs, p);
    lemma_insert_lookup(m0, kb, p.base_url, kb);
    lemma_insert_lookup(m0, kb, p.base_url, km);
    lemma_insert_lookup(m1, kk, p.api_key, kb);
    lemma_insert_lookup(m1, kk, p.api_key, km);
    match default_model(p) {
        Some(m) => {
            assert(doc == insert(m2, km, m));
            lemma_insert_lookup(m2, km, m, kb);
            lemma_insert_lookup(m2, km, m, km);
        },
        None => {
            assert(doc == m2);
        },
    }
    let fv = crate::agents::def_view(d).fields;
    assert(toml_key_v(fv[0]) == kb && toml_key_v(fv[1]) == kk && toml_key_v(fv[2]) == km);
    assert(fv.drop_last() =~= seq![fv[0], fv[1]]);
    assert(seq![fv[0], fv[1]].drop_last() =~= seq![fv[0]]);
    assert(seq![fv[0]].drop_last() =~= Seq::<crate::agents::FieldV>::empty());
    assert(last_toml_read(seq![fv[0]], doc, "baseUrl"@) == Some(JVal::Str(p.base_url)));
    assert(last_toml_read(seq![fv[0], fv[1]], doc, "baseUrl"@) == Some(JVal::Str(p.base_url)));
    assert(last_toml_read(fv, doc, "baseUrl"@) == Some(JVal::Str(p.base_url)));
    if lookup(doc, km) is None {
        assert(last_toml_read(Seq::<crate::agents::FieldV>::empty(), doc, "modelName"@) is None);
        assert(last_toml_read(seq![fv[0]], doc, "modelName"@) is None);
        assert(last_toml_read(seq![fv[0], fv[1]], doc, "modelName"@) is None);
    }
}

proof fn lemma_get_path_single(v: JVal, k: Seq<char>)
    ensures
        crate::json::get_path(v, seq![k]) == crate::json::member(v, k),
{
    assert(seq![k].drop_first() =~= Seq::<Seq<char>>::empty());
    match crate::json::member(v, k) {
        Some(x) => {
            assert(crate::json::get_path(x, Seq::<Seq<char>>::empty()) == Some(x));
        },
        None => {},
    }
}

proof fn lemma_generic_keys_single()
    ensures
        crate::text::split("api_base"@, '.') == seq!["api_base"@],
        crate::text::split("api_key"@, '.') == seq!["api_key"@],
        crate::text::split("model"@, '.') == seq!["model"@],
{
    reveal_strlit("api_base");
    reveal_strlit("api_key");
    reveal_strlit("model");
    let a = "api_base"@;
    let b = "api_key"@;
    let m = "model"@;
    assert forall|i: int| 0 <= i < a.len() implies a[i] != '.' by {
        if i == 0 {} else if i == 1 {} else if i == 2 {} else if i == 3 {} else if i == 4 {
        } else if i == 5 {} else if i == 6 {} else {}
    }
    assert forall|i: int| 0 <= i < b.len() implies b[i] != '.' by {
        if i == 0 {} else if i == 1 {} else if i == 2 {} else if i == 3 {} else if i == 4 {
        } else if i == 5 {} else {}
    }
    assert forall|i: int| 0 <= i < m.len() implies m[i] != '.' by {
        if i == 0 {} else if i == 1 {} else if i == 2 {} else if i == 3 {} else {}
    }
    crate::text::lemma_split_no_sep(a, '.');
    crate::text::lemma_split_no_sep(b, '.');
    crate::text::lemma_split_no_sep(m, '.');
}

/// Switching the generic CLI agent through a JSON file writes `api_base`, `api_key` and
/// `model`; reading its status afterwards gives back the provider's base URL (and the provider
/// found by it) and its default model (or, when it has none, the model the file already named).
pub proof fn law_generic_json_read_after_write(
    ps: Seq<ProviderV>,
    active: Seq<(Seq<char>, Seq<char>)>,
    byid: Seq<(Seq<char>, ProviderV)>,
    d: crate::agents::AgentDef,
    file: Seq<char>,
    c: Option<ContentV>,
    p: ProviderV,
)
    requires
        crate::agents::is_generic_cli(d),
        crate::fsutil::format_of(file) != "toml"@,
    ensures
        match config_written(d, file, c, p) {
            Ok(w) => status_for(ps, active, byid, crate::agents::def_view(d), true, crate::fsutil::format_of(file), Some(w))
                == (
                p.base_url.len() > 0,
                name_by_base(ps, p.base_url),
                model_after_write(p, json_base(c), "model"@),
            ),
            Err(_) => false,
        },
{
    reveal_strlit("baseUrl");
    reveal_strlit("apiKey");
    reveal_strlit("modelName");
    reveal_strlit("api_base");
    reveal_strlit("api_key");
    reveal_strlit("model");
    lemma_generic_keys_single();
    let fs = d.fields@;
    let base = json_base(c);
    let e0 = crate::json::entries_of(base);
    let kb = "api_base"@;
    let kk = "api_key"@;
    let km = "model"@;
    assert(kb != kk && kb != km && kk != km) by {
        assert(kb.len() == 8 && kk.len() == 7 && km.len() == 5);
    }
    assert("apiKey"@ != "baseUrl"@ && "modelName"@ != "baseUrl"@ && "modelName"@ != "apiKey"@) by {
        assert("apiKey"@.len() == 6 && "baseUrl"@.len() == 7 && "modelName"@.len() == 9);
    }
    assert(field_value_of(fs[0], p) == Some(p.base_url));
    assert(field_value_of(fs[1], p) == Some(p.api_key));
    assert(field_value_of(fs[2], p) == default_model(p));
    assert(fs.drop_last() =~= seq![fs[0], fs[1]]);
    assert(seq![fs[0], fs[1]].drop_last() =~= seq![fs[0]]);
    assert(seq![fs[0]].drop_last() =~= Seq::<crate::agents::AgentField>::empty());
    let e1 = insert(e0, kb, JVal::Str(p.base_url));
    let e2 = insert(e1, kk, JVal::Str(p.api_key));
    assert(json_applied(base, Seq::<crate::agents::AgentField>::empty(), p) == base);
    assert(crate::json::set_path(base, seq![kb], JVal::Str(p.base_url)) == JVal::Obj(e1));
    assert(json_applied(base, seq![fs[0]], p) == JVal::Obj(e1));
    assert(crate::json::set_path(JVal::Obj(e1), seq![kk], JVal::Str(p.api_key)) == JVal::Obj(e2));
    assert(json_applied(base, seq![fs[0], fs[1]], p) == JVal::Obj(e2));
    let doc = json_applied(base, fs, p);
    lemma_insert_lookup(e0, kb, JVal::Str(p.base_url), kb);
    lemma_insert_lookup(e0, kb, JVal::Str(p.base_url), km);
    lemma_insert_lookup(e1, kk, JVal::Str(p.api_key), kb);
    lemma_insert_lookup(e1, kk, JVal::Str(p.api_key), km);
    match default_model(p) {
        Some(m) => {
            assert(crate::json::set_path(JVal::Obj(e2), seq![km], JVal::Str(m)) == JVal::Obj(insert(e2, km, JVal::Str(m))));
            assert(doc == JVal::Obj(insert(e2, km, JVal::Str(m))));
            lemma_insert_lookup(e2, km, JVal::Str(m), kb);
            lemma_insert_lookup(e2, km, JVal::Str(m), km);
        },
        None => {
            assert(doc == JVal::Obj(e2));
        },
    }
    let fv = crate::agents::def_view(d).fields;
    assert(fv.drop_last() =~= seq![fv[0], fv[1]]);
    assert(seq![fv[0], fv[1]].drop_last() =~= seq![fv[0]]);
    assert(seq![fv[0]].drop_last() =~= Seq::<crate::agents::FieldV>::empty());
    assert(seq![kb].drop_first() =~= Seq::<Seq<char>>::empty());
    assert(seq![km].drop_first() =~= Seq::<Seq<char>>::empty());
    lemma_get_path_single(doc, kb);
    lemma_get_path_single(doc, km);
    assert(json_field_read(fv[0], doc) == Some(JVal::Str(p.base_url)));
    assert(last_json_read(seq![fv[0]], doc, "baseUrl"@) == Some(JVal::Str(p.base_url)));
    assert(last_json_read(seq![fv[0], fv[1]], doc, "baseUrl"@) == Some(JVal::Str(p.base_url)));
    assert(last_json_read(fv, doc, "baseUrl"@) == Some(JVal::Str(p.base_url)));
    match base {
        JVal::Obj(_) => {},
        _ => {
            lemma_lookup_none(e0, km);
        },
    }
    assert(json_field_read(fv[2], doc) == crate::json::member(doc, km));
    if json_field_read(fv[2], doc) is None {
        assert(last_json_read(Seq::<crate::agents::FieldV>::empty(), doc, "modelName"@) is None);
        assert(last_json_read(seq![fv[0]], doc, "modelName"@) is None);
        assert(last_json_read(seq![fv[0], fv[1]], doc, "modelName"@) is None);
    }
}

/// Trae's status is the provider recorded as its active one: after a switch is recorded, it is
/// that provider with its model name, whatever the agent's file holds.
pub proof fn law_trae_status_follows_active(
    ps: Seq<ProviderV>,
    active: Seq<(Seq<char>, Seq<char>)>,
    byid: Seq<(Seq<char>, ProviderV)>,
    format: Seq<char>,
    c: Option<ContentV>,
    p: ProviderV,
)
    requires
        lookup(active, "trae"@) == Some(p.id),
        lookup(byid, p.id) == Some(p),
    ensures
        status_for(ps, active, byid, crate::agents::registry_def("trae"@).unwrap(), true, format, c)
            == (true, Some(p.name), p.model_name),
{
    reveal_strlit("trae");
    reveal_strlit("codegeex-vscode");
    reveal_strlit("zcode");
    assert("trae"@ != "codegeex-vscode"@ && "trae"@ != "zcode"@) by {
        assert("trae"@.len() == 4 && "codegeex-vscode"@.len() == 15 && "zcode"@.len() == 5);
    }
}

proof fn lemma_disabled_idempotent(e: JVal)
    ensures
        disabled(disabled(e)) == disabled(e),
{
    match e {
        JVal::Obj(f) => {
            if lookup(f, "enabled"@) is Some {
                lemma_insert_lookup(f, "enabled"@, JVal::Bool(false), "enabled"@);
                lemma_insert_twice(f, "enabled"@, JVal::Bool(false), JVal::Bool(false));
            }
        },
        _ => {},
    }
}

proof fn lemma_disable_others_idempotent(s: Seq<(Seq<char>, JVal)>, k: Seq<char>)
    ensures
        disable_others(disable_others(s, k), k) == disable_others(s, k),
{
    let d = disable_others(s, k);
    assert forall|i: int| 0 <= i < d.len() implies #[trigger] disable_others(d, k)[i] == d[i] by {
        lemma_disabled_idempotent(s[i].1);
    }
    assert(disable_others(d, k) =~= d);
}

proof fn lemma_disable_others_insert(t: Seq<(Seq<char>, JVal)>, k: Seq<char>, e: JVal)
    ensures
        disable_others(insert(t, k, e), k) == insert(disable_others(t, k), k, e),
    decreases t.len(),
{
    let dt = disable_others(t, k);
    if t.len() == 0 {
        assert(disable_others(seq![(k, e)], k) =~= seq![(k, e)]);
    } else if t[0].0 == k {
        assert(dt[0].0 == k);
        assert(disable_others(t.update(0, (k, e)), k) =~= dt.update(0, (k, e)));
    } else {
        let rest = t.drop_first();
        lemma_disable_others_insert(rest, k, e);
        assert(dt[0].0 == t[0].0);
        assert(dt.drop_first() =~= disable_others(rest, k));
        let ins = insert(rest, k, e);
        assert(insert(t, k, e) == seq![t[0]] + ins);
        assert(disable_others(seq![t[0]] + ins, k) =~= seq![dt[0]] + disable_others(ins, k));
        assert(insert(dt, k, e) == seq![dt[0]] + insert(dt.drop_first(), k, e));
    }
}

/// Switching ZCode to the same provider twice gives the same configuration as switching once.
pub proof fn law_zcode_switch_idempotent(data: Seq<(Seq<char>, JVal)>, p: ProviderV)
    ensures
        zcode_applied(zcode_applied(data, p), p) == zcode_applied(data, p),
{
    let k = ZCODE_PROVIDER_PREFIX@ + p.id;
    let e = zcode_entry(p);
    let om = object_member(data, "provider"@);
    let t1 = insert(disable_others(om, k), k, e);
    let once = zcode_applied(data, p);
    lemma_insert_lookup(data, "provider"@, JVal::Obj(t1), "provider"@);
    assert(object_member(once, "provider"@) == t1);
    lemma_disable_others_insert(disable_others(om, k), k, e);
    lemma_disable_others_idempotent(om, k);
    lemma_insert_twice(disable_others(om, k), k, e, e);
    assert(insert(disable_others(t1, k), k, e) == t1);
    lemma_insert_twice(data, "provider"@, JVal::Obj(t1), JVal::Obj(t1));
}

} // verus!

verus! {

/// ZCode and Qoder are told an Anthropic-style endpoint exactly when the provider's base URL
/// contains `anthropic` or `#fh`: the block this tool writes into ZCode's provider table has
/// kind `anthropic` (else `openai-compatible`), and the entry it registers in Qoder has
/// protocol `anthropic` with auth type `api-key` (else `openai` with `bearer`).
pub proof fn law_anthropic_endpoints(data: Seq<(Seq<char>, JVal)>, p: ProviderV)
    ensures
        lookup(object_member(zcode_applied(data, p), "provider"@), ZCODE_PROVIDER_PREFIX@ + p.id)
            matches Some(b) && crate::json::member(b, "kind"@) == Some(
            JVal::Str(
                if crate::text::contains(p.base_url, "anthropic"@) || crate::text::contains(
                    p.base_url,
                    "#fh"@,
                ) {
                    "anthropic"@
                } else {
                    "openai-compatible"@
                },
            ),
        ),
        lookup(object_member(qoder_applied(data, p), "providers"@), QODER_PROVIDER_PREFIX@ + p.id)
            matches Some(e) && crate::json::member(e, "protocol"@) == Some(
            JVal::Str(
                if crate::text::contains(p.base_url, "anthropic"@) || crate::text::contains(
                    p.base_url,
                    "#fh"@,
                ) {
                    "anthropic"@
                } else {
                    "openai"@
                },
            ),
        ) && crate::json::member(e, "authType"@) == Some(
            JVal::Str(
                if crate::text::contains(p.base_url, "anthropic"@) || crate::text::contains(
                    p.base_url,
                    "#fh"@,
                ) {
                    "api-key"@
                } else {
                    "bearer"@
                },
            ),
        ),
{
    law_zcode_switch_non_destructive(data, p, "provider"@, ZCODE_PROVIDER_PREFIX@ + p.id);
    law_qoder_switch_non_destructive(data, p, "providers"@, QODER_PROVIDER_PREFIX@ + p.id);
    crate::agents::law_anthropic_style(p.base_url);
    reveal_strlit("name");
    reveal_strlit("kind");
    reveal_strlit("providerId");
    reveal_strlit("baseUrl");
    reveal_strlit("apiKey");
    reveal_strlit("type");
    reveal_strlit("protocol");
    reveal_strlit("authType");
    let z = zcode_entry(p);
    let zf = crate::json::entries_of(z);
    assert(zf[0].0 == "name"@);
    assert(zf[1].0 == "kind"@);
    assert(zf[0].0[0] != "kind"@[0]);
    lemma_lookup_first(zf, "kind"@, 1);
    let q = qoder_entry(p);
    let qf = crate::json::entries_of(q);
    assert(qf[0].0 == "providerId"@);
    assert(qf[1].0 == "baseUrl"@);
    assert(qf[2].0 == "apiKey"@);
    assert(qf[3].0 == "type"@);
    assert(qf[4].0 == "protocol"@);
    assert(qf[5].0 == "authType"@);
    assert(qf[4].0[0] != "authType"@[0]);
    lemma_lookup_first(qf, "protocol"@, 4);
    lemma_lookup_first(qf, "authType"@, 5);
}

} // verus!

verus! {

proof fn lemma_first_existing(paths: Seq<Seq<char>>, existing: Seq<Seq<char>>)
    ensures
        (forall|j: int| 0 <= j < paths.len() ==> !existing.contains(#[trigger] paths[j]))
            ==> first_existing(paths, existing) is None,
        forall|i: int|
            0 <= i < paths.len() && existing.contains(#[trigger] paths[i]) && (forall|j: int|
                0 <= j < i ==> !existing.contains(#[trigger] paths[j])) ==> first_existing(
                paths,
                existing,
            ) == Some(paths[i]),
    decreases paths.len(),
{
    if paths.len() > 0 {
        let rest = paths.drop_first();
        lemma_first_existing(rest, existing);
        assert forall|j: int| 0 <= j < rest.len() implies #[trigger] rest[j] == paths[j + 1] by {}
        assert forall|i: int|
            0 <= i < paths.len() && existing.contains(#[trigger] paths[i]) && (forall|j: int|
                0 <= j < i ==> !existing.contains(#[trigger] paths[j])) implies first_existing(
                paths,
                existing,
            ) == Some(paths[i]) by {
            if i > 0 {
                assert(!existing.contains(paths[0]));
                assert(rest[i - 1] == paths[i]);
                assert forall|j: int| 0 <= j < i - 1 implies !existing.contains(#[trigger] rest[j]) by {
                    assert(rest[j] == paths[j + 1]);
                }
            }
        }
        if forall|j: int| 0 <= j < paths.len() ==> !existing.contains(#[trigger] paths[j]) {
            assert(!existing.contains(paths[0]));
            assert forall|j: int| 0 <= j < rest.len() implies !existing.contains(#[trigger] rest[j]) by {
                assert(rest[j] == paths[j + 1]);
            }
        }
    }
}

/// How an agent is detected. A file agent gets the first of its configuration paths,
/// resolved against the environment, that exists, and is marked present; when none exists,
/// it gets the first path, resolved, and is marked missing, so that a switch creates that
/// file. A DevTools agent has no file and is present when its executable was found. The
/// instance keeps the agent's id and name, and its format follows the file's extension.
pub proof fn law_detection_uses_first_existing_path(
    d: crate::agents::DefV,
    env: crate::fsutil::PathEnv,
    existing: Seq<Seq<char>>,
    trae_found: bool,
)
    requires
        d.kind != crate::agents::AgentKind::Cdp ==> d.config_paths.len() > 0,
    ensures
        detected(d, env, existing, trae_found).0 == d.id,
        detected(d, env, existing, trae_found).1 == d.name,
        detected(d, env, existing, trae_found).3 == crate::fsutil::format_of(
            detected(d, env, existing, trae_found).2,
        ),
        d.kind == crate::agents::AgentKind::Cdp ==> detected(d, env, existing, trae_found).2
            == Seq::<char>::empty() && detected(d, env, existing, trae_found).4 == trae_found,
        d.kind != crate::agents::AgentKind::Cdp && (forall|j: int|
            0 <= j < d.config_paths.len() ==> !existing.contains(
                #[trigger] crate::fsutil::resolved(d.config_paths[j], env),
            )) ==> detected(d, env, existing, trae_found).2 == crate::fsutil::resolved(
            d.config_paths[0],
            env,
        ) && !detected(d, env, existing, trae_found).4,
        forall|i: int|
            d.kind != crate::agents::AgentKind::Cdp && 0 <= i < d.config_paths.len()
                && existing.contains(#[trigger] crate::fsutil::resolved(d.config_paths[i], env))
                && (forall|j: int|
                0 <= j < i ==> !existing.contains(
                    #[trigger] crate::fsutil::resolved(d.config_paths[j], env),
                )) ==> detected(d, env, existing, trae_found).2 == crate::fsutil::resolved(
                d.config_paths[i],
                env,
            ) && detected(d, env, existing, trae_found).4,
{
    if d.kind != crate::agents::AgentKind::Cdp {
        let rs = Seq::new(
            d.config_paths.len(),
            |j: int| crate::fsutil::resolved(d.config_paths[j], env),
        );
        lemma_first_existing(rs, existing);
        assert forall|j: int| 0 <= j < rs.len() implies #[trigger] rs[j] == crate::fsutil::resolved(
            d.config_paths[j],
            env,
        ) by {}
        assert forall|i: int|
            0 <= i < d.config_paths.len() && existing.contains(
                #[trigger] crate::fsutil::resolved(d.config_paths[i], env),
            ) && (forall|j: int|
                0 <= j < i ==> !existing.contains(
                    #[trigger] crate::fsutil::resolved(d.config_paths[j], env),
                )) implies detected(d, env, existing, trae_found).2 == crate::fsutil::resolved(
            d.config_paths[i],
            env,
        ) && detected(d, env, existing, trae_found).4 by {
            assert(rs[i] == crate::fsutil::resolved(d.config_paths[i], env));
            assert forall|j: int| 0 <= j < i implies !existing.contains(#[trigger] rs[j]) by {
                assert(rs[j] == crate::fsutil::resolved(d.config_paths[j], env));
            }
        }
        if forall|j: int|
            0 <= j < d.config_paths.len() ==> !existing.contains(
                #[trigger] crate::fsutil::resolved(d.config_paths[j], env),
            ) {
            assert forall|j: int| 0 <= j < rs.len() implies !existing.contains(#[trigger] rs[j]) by {
                assert(rs[j] == crate::fsutil::resolved(d.config_paths[j], env));
            }
        }
    }
}

} // verus!
