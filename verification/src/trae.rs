use vstd::prelude::*;
use crate::json::{Json, JVal, items_view, entries_view, lemma_arr_view, lemma_obj_view, member, as_str};
use crate::text::{contains, dec, dec_string, concat, str_contains, str_eq};
use crate::fsutil::{joined, path_join};
use crate::store::{opt_str, strs, contains_string};

verus! {

/// The fixed DevTools port Trae is driven through.
pub const TRAE_DEBUG_PORT: u16 = 9333;

/// The error for any port but the fixed one.
pub open spec fn wrong_port_msg() -> Seq<char> {
    "仅允许使用固定调试端口 9333"@
}

/// The local control endpoint: host 127.0.0.1, and only the fixed debug port.
pub fn local_cdp_base(port: u16) -> (r: Result<String, String>)
    ensures
        match r {
            Ok(s) => port == TRAE_DEBUG_PORT && s@ == "http://127.0.0.1:"@ + dec(port as nat),
            Err(e) => port != TRAE_DEBUG_PORT && e@ == wrong_port_msg(),
        },
{
    if port != TRAE_DEBUG_PORT {
        return Err("仅允许使用固定调试端口 9333".to_owned());
    }
    Ok(concat("http://127.0.0.1:", dec_string(port as u64).as_str()))
}

/// Where Trae may be installed, under `LOCALAPPDATA/Programs` (nothing when that variable is
/// not set).
pub open spec fn candidates(local_appdata: Option<Seq<char>>) -> Seq<Seq<char>> {
    match local_appdata {
        Some(l) => {
            let base = joined(l, "Programs"@);
            seq![
                joined(joined(base, "TRAE SOLO CN"@), "TRAE SOLO CN.exe"@),
                joined(joined(base, "Trae CN"@), "Trae.exe"@),
                joined(joined(base, "Trae CN"@), "Trae CN.exe"@),
                joined(joined(base, "Trae CN"@), "Trae Code.exe"@),
            ]
        },
        None => Seq::empty(),
    }
}

/// The fixed list of paths Trae's executable may have.
pub fn executable_candidates(local_appdata: &Option<String>) -> (r: Vec<String>)
    ensures
        strs(r@) == candidates(opt_str(*local_appdata)),
{
    let mut c: Vec<String> = Vec::new();
    match local_appdata {
        Some(l) => {
            let base = path_join(l.as_str(), "Programs");
            let solo = path_join(base.as_str(), "TRAE SOLO CN");
            let cn = path_join(base.as_str(), "Trae CN");
            c.push(path_join(solo.as_str(), "TRAE SOLO CN.exe"));
            c.push(path_join(cn.as_str(), "Trae.exe"));
            c.push(path_join(cn.as_str(), "Trae CN.exe"));
            c.push(path_join(cn.as_str(), "Trae Code.exe"));
        },
        None => {},
    }
    assert(strs(c@) =~= candidates(opt_str(*local_appdata)));
    c
}

/// The first candidate in `existing`.
pub open spec fn first_in(cands: Seq<Seq<char>>, existing: Seq<Seq<char>>) -> Option<Seq<char>>
    decreases cands.len(),
{
    if cands.len() == 0 {
        None
    } else if existing.contains(cands[0]) {
        Some(cands[0])
    } else {
        first_in(cands.drop_first(), existing)
    }
}

/// Trae's executable: the first candidate that exists (`existing` lists the candidate paths
/// that exist).
pub fn find_trae_executable(local_appdata: &Option<String>, existing: &Vec<String>) -> (r: Option<String>)
    ensures
        opt_str(r) == first_in(candidates(opt_str(*local_appdata)), strs(existing@)),
{
    let c = executable_candidates(local_appdata);
    let ghost cs = strs(c@);
    let mut i: usize = 0;
    assert(cs.skip(0) =~= cs);
    while i < c.len()
        invariant
            i <= c.len(),
            cs == strs(c@),
            cs == candidates(opt_str(*local_appdata)),
            first_in(cs, strs(existing@)) == first_in(cs.skip(i as int), strs(existing@)),
        decreases c.len() - i,
    {
        assert(cs.skip(i as int)[0] == c@[i as int]@);
        if contains_string(existing, &c[i]) {
            return Some(c[i].clone());
        }
        assert(cs.skip(i as int).drop_first() =~= cs.skip(i + 1));
        i = i + 1;
    }
    None
}

/// `str::to_uppercase` (Unicode uppercase mapping).
pub uninterp spec fn uppercased(s: Seq<char>) -> Seq<char>;

/// `str::to_uppercase`: the Unicode uppercase mapping, which depends on the text alone. Its
/// contract names the result.
#[verifier::external_body]
pub(crate) fn to_uppercase(s: &str) -> (r: String)
    ensures
        r@ == uppercased(s@),
{
    s.to_uppercase()
}

/// Whether a process listing shows a Trae process: one of Trae's image names occurs in the
/// listing, compared in upper case.
pub open spec fn lists_trae(text: Seq<char>) -> bool {
    let u = uppercased(text);
    contains(u, "TRAE SOLO CN.EXE"@) || contains(u, "TRAE.EXE"@) || contains(u, "TRAE CN.EXE"@)
        || contains(u, "TRAE CODE.EXE"@)
}

/// The process listing shows Trae exactly when, in upper case, it names one of Trae's four
/// executables: `TRAE SOLO CN.EXE`, `TRAE.EXE`, `TRAE CN.EXE` or `TRAE CODE.EXE` (the
/// images that are quit before Trae is started again in debug mode).
pub proof fn law_trae_listed_by_image(t: Seq<char>)
    ensures
        contains(uppercased(t), "TRAE SOLO CN.EXE"@) ==> lists_trae(t),
        contains(uppercased(t), "TRAE.EXE"@) ==> lists_trae(t),
        contains(uppercased(t), "TRAE CN.EXE"@) ==> lists_trae(t),
        contains(uppercased(t), "TRAE CODE.EXE"@) ==> lists_trae(t),
        lists_trae(t) ==> contains(uppercased(t), "TRAE SOLO CN.EXE"@) || contains(
            uppercased(t),
            "TRAE.EXE"@,
        ) || contains(uppercased(t), "TRAE CN.EXE"@) || contains(uppercased(t), "TRAE CODE.EXE"@),
{
}

/// Reads the output of the process listing for a Trae process.
pub fn tasklist_shows_trae(text: &str) -> (b: bool)
    ensures
        b == lists_trae(text@),
        b <==> (contains(uppercased(text@), "TRAE SOLO CN.EXE"@) || contains(
            uppercased(text@),
            "TRAE.EXE"@,
        ) || contains(uppercased(text@), "TRAE CN.EXE"@) || contains(
            uppercased(text@),
            "TRAE CODE.EXE"@,
        )),
{
    proof {
        law_trae_listed_by_image(text@);
    }
    let u = to_uppercase(text);
    str_contains(u.as_str(), "TRAE SOLO CN.EXE") || str_contains(u.as_str(), "TRAE.EXE")
        || str_contains(u.as_str(), "TRAE CN.EXE") || str_contains(u.as_str(), "TRAE CODE.EXE")
}

/// A debuggable page of Trae.
pub struct Target {
    pub ttype: String,
    pub url: String,
    pub title: String,
    pub ws_url: String,
}

pub type TargetV = (Seq<char>, Seq<char>, Seq<char>, Seq<char>);

impl Target {
    pub open spec fn view(&self) -> TargetV {
        (self.ttype@, self.url@, self.title@, self.ws_url@)
    }
}

pub open spec fn str_member(v: JVal, k: Seq<char>) -> Seq<char> {
    match as_str(member(v, k)) {
        Some(s) => s,
        None => Seq::empty(),
    }
}

/// The target an entry of the DevTools listing describes.
pub open spec fn target_of(v: JVal) -> TargetV {
    (
        str_member(v, "type"@),
        str_member(v, "url"@),
        str_member(v, "title"@),
        str_member(v, "webSocketDebuggerUrl"@),
    )
}

pub open spec fn has_type() -> spec_fn(JVal) -> bool {
    |v: JVal| member(v, "type"@) is Some
}

/// The targets of a DevTools listing: every entry with a `type`.
pub open spec fn targets_of(listing: JVal) -> Seq<TargetV> {
    match listing {
        JVal::Arr(items) => {
            let kept = items.filter(has_type());
            Seq::new(kept.len(), |i: int| target_of(kept[i]))
        },
        _ => Seq::empty(),
    }
}

pub open spec fn targets_view(t: Seq<Target>) -> Seq<TargetV> {
    Seq::new(t.len(), |i: int| t[i]@)
}

fn str_of(v: &Json, k: &str) -> (r: String)
    ensures
        r@ == str_member(v@, k@),
{
    match crate::json::get(v, k) {
        Some(Json::Str(s)) => s.clone(),
        _ => String::new(),
    }
}

/// The targets listed by Trae's `/json/list` endpoint.
pub fn targets_from_json(listing: &Json) -> (r: Vec<Target>)
    ensures
        targets_view(r@) == targets_of(listing@),
{
    let mut out: Vec<Target> = Vec::new();
    match listing {
        Json::Arr(items) => {
            proof {
                lemma_arr_view(*items);
            }
            let ghost iv = items_view(items@);
            let mut i: usize = 0;
            assert(iv.take(0).filter(has_type()) =~= Seq::<JVal>::empty()) by {
                iv.take(0).lemma_filter_len(has_type());
            }
            while i < items.len()
                invariant
                    i <= items.len(),
                    iv == items_view(items@),
                    targets_view(out@) =~= Seq::new(
                        iv.take(i as int).filter(has_type()).len(),
                        |k: int| target_of(iv.take(i as int).filter(has_type())[k]),
                    ),
                decreases items.len() - i,
            {
                proof {
                    assert(iv.take(i + 1) =~= iv.take(i as int).push(iv[i as int]));
                    iv.take(i as int).lemma_filter_push(iv[i as int], has_type());
                }
                let t = &items[i];
                if crate::json::get(t, "type").is_some() {
                    let ghost before = targets_view(out@);
                    out.push(
                        Target {
                            ttype: str_of(t, "type"),
                            url: str_of(t, "url"),
                            title: str_of(t, "title"),
                            ws_url: str_of(t, "webSocketDebuggerUrl"),
                        },
                    );
                    assert(targets_view(out@) =~= before.push(target_of(iv[i as int])));
                }
                i = i + 1;
            }
            assert(iv.take(i as int) =~= iv);
        },
        _ => {},
    }
    assert(targets_view(out@) =~= targets_of(listing@));
    out
}

/// Whether Trae's debug endpoint is up: its listing (`None` when it could not be fetched) has
/// a target.
pub fn is_debug_up(listing: Option<&Json>) -> (b: bool)
    ensures
        b == match listing {
            Some(l) => targets_of(l@).len() > 0,
            None => false,
        },
{
    match listing {
        Some(l) => targets_from_json(l).len() > 0,
        None => false,
    }
}

/// Whether a URL, lowercased, names a workbench, chat or Trae page.
pub open spec fn page_like(url: Seq<char>) -> bool {
    let u = crate::fsutil::lowercased(url);
    contains(u, "workbench"@) || contains(u, "index.html"@) || contains(u, "trae"@) || contains(
        u,
        "chat"@,
    )
}

/// The target to drive: the first webview (the VSCode workbench), else the first page whose
/// URL looks like a workbench or chat page, else the first target.
pub open spec fn target_choice(t: Seq<TargetV>) -> int {
    match first_index(t, |x: TargetV| x.0 == "webview"@) {
        Some(i) => i,
        None => match first_index(t, |x: TargetV| page_like(x.1)) {
            Some(i) => i,
            None => 0,
        },
    }
}

/// The index of the first element that passes `p`.
pub open spec fn first_index<A>(s: Seq<A>, p: spec_fn(A) -> bool) -> Option<int> {
    if exists|i: int| 0 <= i < s.len() && p(s[i]) {
        Some(choose|i: int| 0 <= i < s.len() && p(s[i]) && forall|j: int| 0 <= j < i ==> !p(s[j]))
    } else {
        None
    }
}

proof fn lemma_first_index<A>(s: Seq<A>, p: spec_fn(A) -> bool, i: int)
    requires
        0 <= i < s.len(),
        p(s[i]),
        forall|j: int| 0 <= j < i ==> !p(s[j]),
    ensures
        first_index(s, p) == Some(i),
{
    let k = choose|k: int| 0 <= k < s.len() && p(s[k]) && forall|j: int| 0 <= j < k ==> !p(s[j]);
    assert(0 <= k < s.len() && p(s[k]) && forall|j: int| 0 <= j < k ==> !p(s[j]));
    if k < i {
        assert(!p(s[k]));
    } else if k > i {
        assert(!p(s[i]));
    }
}

/// Picks the target to drive.
pub fn pick_target_index(targets: &Vec<Target>) -> (r: usize)
    ensures
        r as int == target_choice(targets_view(targets@)),
{
    let ghost tv = targets_view(targets@);
    let mut i: usize = 0;
    while i < targets.len() && !str_eq(targets[i].ttype.as_str(), "webview")
        invariant
            i <= targets.len(),
            tv == targets_view(targets@),
            forall|j: int| 0 <= j < i ==> !((|x: TargetV| x.0 == "webview"@)(tv[j])),
        decreases targets.len() - i,
    {
        i = i + 1;
    }
    if i < targets.len() {
        proof {
            lemma_first_index(tv, |x: TargetV| x.0 == "webview"@, i as int);
        }
        return i;
    }
    let mut k: usize = 0;
    while k < targets.len() && !page_url(targets[k].url.as_str())
        invariant
            k <= targets.len(),
            tv == targets_view(targets@),
            forall|j: int| 0 <= j < k ==> !((|x: TargetV| page_like(x.1))(tv[j])),
        decreases targets.len() - k,
    {
        k = k + 1;
    }
    if k < targets.len() {
        proof {
            lemma_first_index(tv, |x: TargetV| page_like(x.1), k as int);
        }
        return k;
    }
    0
}

fn page_url(url: &str) -> (b: bool)
    ensures
        b == page_like(url@),
{
    let u = crate::fsutil::to_lowercase(url);
    str_contains(u.as_str(), "workbench") || str_contains(u.as_str(), "index.html")
        || str_contains(u.as_str(), "trae") || str_contains(u.as_str(), "chat")
}

} // verus!

verus! {

/// The host:port and the path of an `http://host:port/path` URL.
pub open spec fn http_url_parts(url: Seq<char>) -> Result<(Seq<char>, Seq<char>), Seq<char>> {
    if !crate::text::starts_with(url, "http://"@) {
        Err("仅支持 http"@)
    } else {
        let rest = url.skip(7);
        match crate::text::find_char(rest, '/') {
            Some(i) => Ok((rest.take(i), rest.skip(i + 1))),
            None => Err("URL 缺少路径"@),
        }
    }
}

/// Splits a local `http://` URL into host:port and path.
pub fn split_http_url(url: &str) -> (r: Result<(String, String), String>)
    ensures
        match r {
            Ok((h, p)) => http_url_parts(url@) == Ok::<(Seq<char>, Seq<char>), Seq<char>>((h@, p@)),
            Err(e) => http_url_parts(url@) == Err::<(Seq<char>, Seq<char>), Seq<char>>(e@),
        },
{
    if !crate::text::str_starts_with(url, "http://") {
        return Err("仅支持 http".to_owned());
    }
    proof {
        reveal_strlit("http://");
    }
    let v = crate::text::chars_of(url);
    let rest = crate::text::slice_chars(&v, 7, v.len());
    assert(rest@ =~= url@.skip(7));
    match crate::text::find_char_in(&rest, '/') {
        Some(i) => {
            let h = crate::text::slice_chars(&rest, 0, i);
            let p = crate::text::slice_chars(&rest, i + 1, rest.len());
            assert(h@ =~= rest@.take(i as int));
            assert(p@ =~= rest@.skip(i + 1));
            Ok((crate::text::string_of(&h), crate::text::string_of(&p)))
        },
        None => Err("URL 缺少路径".to_owned()),
    }
}

/// The request sent to fetch a local JSON document.
pub open spec fn http_get_text(hostport: Seq<char>, path: Seq<char>) -> Seq<char> {
    "GET /"@ + path + " HTTP/1.1\r\nHost: "@ + hostport
        + "\r\nConnection: close\r\nAccept: application/json\r\n\r\n"@
}

pub fn http_get_request(hostport: &str, path: &str) -> (r: String)
    ensures
        r@ == http_get_text(hostport@, path@),
{
    let a = concat("GET /", path);
    let b = concat(a.as_str(), " HTTP/1.1\r\nHost: ");
    let c = concat(b.as_str(), hostport);
    concat(c.as_str(), "\r\nConnection: close\r\nAccept: application/json\r\n\r\n")
}

/// The body of an HTTP response: what follows the first blank line, or everything when there
/// is none.
pub open spec fn http_body_of(raw: Seq<char>) -> Seq<char> {
    match crate::text::find_str(raw, "\r\n\r\n"@) {
        Some(i) => raw.skip(i + 4),
        None => raw,
    }
}

pub fn http_body(raw: &str) -> (r: String)
    ensures
        r@ == http_body_of(raw@),
{
    let v = crate::text::chars_of(raw);
    let sep = crate::text::chars_of("\r\n\r\n");
    proof {
        reveal_strlit("\r\n\r\n");
    }
    assert(sep@.len() == 4);
    match crate::text::find_str_in(&v, &sep) {
        Some(i) => {
            let n = v.len();
            assert(i + sep@.len() <= n);
            let b = crate::text::slice_chars(&v, i + 4, n);
            assert(b@ =~= raw@.skip(i + 4));
            crate::text::string_of(&b)
        },
        None => raw.to_owned(),
    }
}

/// A JSON number read as an unsigned integer (`Value::as_u64`): its text is plain digits, as
/// serde_json writes a non-negative integer, and in range.
pub open spec fn json_u64(v: Option<JVal>) -> Option<int> {
    match v {
        Some(JVal::Num(t)) => if t.len() > 0 && crate::text::all_digits(t) && crate::text::digits_val(t)
            <= u64::MAX {
            Some(crate::text::digits_val(t))
        } else {
            None
        },
        _ => None,
    }
}

/// A DevTools request frame.
pub open spec fn cdp_frame(id: nat, method: Seq<char>, params: Option<JVal>) -> JVal {
    JVal::Obj(
        seq![("id"@, JVal::Num(dec(id))), ("method"@, JVal::Str(method))] + match params {
            Some(p) => seq![("params"@, p)],
            None => Seq::empty(),
        },
    )
}

pub fn cdp_request_frame(id: u64, method: &str, params: Option<Json>) -> (r: Json)
    ensures
        r@ == cdp_frame(id as nat, method@, crate::json::opt_view(params)),
{
    let ghost pv = crate::json::opt_view(params);
    let mut e: Vec<(String, Json)> = Vec::new();
    e.push(("id".to_owned(), Json::Num(dec_string(id))));
    e.push(("method".to_owned(), Json::Str(method.to_owned())));
    match params {
        Some(p) => {
            e.push(("params".to_owned(), p));
        },
        None => {},
    }
    let r = crate::json::obj(e);
    assert(entries_view(e@) =~= match cdp_frame(id as nat, method@, pv) {
        JVal::Obj(x) => x,
        _ => Seq::empty(),
    });
    r
}

/// What a DevTools message means to the request with id `id`: nothing when it answers another
/// request (or none), else the error message (or a generic one) or the result (or `null`).
pub open spec fn cdp_answer(v: JVal, id: nat) -> Option<Result<JVal, Seq<char>>> {
    if json_u64(member(v, "id"@)) != Some(id as int) {
        None
    } else {
        match member(v, "error"@) {
            Some(err) => Some(
                Err(
                    match as_str(member(err, "message"@)) {
                        Some(m) => m,
                        None => "未知调试错误"@,
                    },
                ),
            ),
            None => Some(
                Ok(
                    match member(v, "result"@) {
                        Some(r) => r,
                        None => JVal::Null,
                    },
                ),
            ),
        }
    }
}

fn json_as_u64(v: Option<&Json>) -> (r: Option<u64>)
    ensures
        match r {
            Some(x) => json_u64(match v {
                Some(j) => Some(j@),
                None => None,
            }) == Some(x as int),
            None => json_u64(match v {
                Some(j) => Some(j@),
                None => None,
            }) is None,
        },
{
    match v {
        Some(Json::Num(t)) => {
            let c = crate::text::chars_of(t.as_str());
            if c.len() == 0 || !crate::text::all_digits_in(&c, 0, c.len()) {
                assert(c@.subrange(0, c@.len() as int) =~= c@);
                return None;
            }
            assert(c@.subrange(0, c@.len() as int) =~= c@);
            crate::text::digits_upto(&c, 0, c.len(), 0xffff_ffff_ffff_ffff)
        },
        _ => None,
    }
}

/// Reads a DevTools message for the answer to request `id`.
pub fn cdp_reply(v: Json, id: u64) -> (r: Option<Result<Json, String>>)
    ensures
        match r {
            None => cdp_answer(v@, id as nat) is None,
            Some(Ok(x)) => cdp_answer(v@, id as nat) == Some(Ok::<JVal, Seq<char>>(x@)),
            Some(Err(e)) => cdp_answer(v@, id as nat) == Some(Err::<JVal, Seq<char>>(e@)),
        },
{
    let mut e = match v {
        Json::Obj(e) => {
            proof {
                lemma_obj_view(e);
            }
            e
        },
        _ => {
            return None;
        },
    };
    match json_as_u64(crate::json::obj_get(&e, "id")) {
        Some(x) => {
            if x != id {
                return None;
            }
        },
        None => {
            return None;
        },
    }
    match crate::json::obj_take(&mut e, "error") {
        Some(err) => {
            let m = match crate::json::get(&err, "message") {
                Some(Json::Str(s)) => s.clone(),
                _ => "未知调试错误".to_owned(),
            };
            Some(Err(m))
        },
        None => match {
            proof {
                reveal_strlit("result");
                reveal_strlit("error");
                assert("result"@ != "error"@) by {
                    assert("result"@[0] != "error"@[0]);
                }
            }
            crate::json::obj_take(&mut e, "result")
        } {
            Some(r) => Some(Ok(r)),
            None => Some(Ok(crate::json::jnull())),
        },
    }
}

/// The value a page evaluation returned, or the error when the script threw.
pub open spec fn evaluation(result: JVal) -> Result<JVal, Seq<char>> {
    if member(result, "exceptionDetails"@) is Some {
        Err("页面脚本异常"@)
    } else {
        Ok(
            match member(result, "result"@) {
                Some(r) => match member(r, "value"@) {
                    Some(x) => x,
                    None => JVal::Null,
                },
                None => JVal::Null,
            },
        )
    }
}

/// Reads the reply to `Runtime.evaluate`.
pub fn evaluate_result(result: Json) -> (r: Result<Json, String>)
    ensures
        match r {
            Ok(x) => evaluation(result@) == Ok::<JVal, Seq<char>>(x@),
            Err(e) => evaluation(result@) == Err::<JVal, Seq<char>>(e@),
        },
{
    if crate::json::get(&result, "exceptionDetails").is_some() {
        return Err("页面脚本异常".to_owned());
    }
    let mut e = match result {
        Json::Obj(e) => {
            proof {
                lemma_obj_view(e);
            }
            e
        },
        _ => {
            return Ok(crate::json::jnull());
        },
    };
    match crate::json::obj_take(&mut e, "result") {
        Some(Json::Obj(r)) => {
            proof {
                lemma_obj_view(r);
            }
            let mut r = r;
            match crate::json::obj_take(&mut r, "value") {
                Some(x) => Ok(x),
                None => Ok(crate::json::jnull()),
            }
        },
        _ => Ok(crate::json::jnull()),
    }
}

} // verus!

verus! {

/// What a check before driving Trae found.
pub struct TraePreflight {
    pub executable: Option<String>,
    pub running: bool,
    pub debug_up: bool,
    pub message: String,
}

/// The message shown for a preflight result.
pub open spec fn preflight_text(debug_up: bool, running: bool) -> Seq<char> {
    if debug_up {
        "Trae 已以调试模式运行，可直接切换。"@
    } else if running {
        "Trae 正在运行但未开调试端口。切换时将先退出 Trae，再以调试模式重启。"@
    } else {
        "Trae 未在运行，切换时将自动以调试模式启动。"@
    }
}

/// Trae's state before a switch: where its executable is, whether it runs and whether its
/// debug endpoint is up.
pub fn preflight(executable: Option<String>, running: bool, debug_up: bool) -> (r: TraePreflight)
    ensures
        opt_str(r.executable) == opt_str(executable),
        r.running == running,
        r.debug_up == debug_up,
        r.message@ == preflight_text(debug_up, running),
{
    let message = if debug_up {
        "Trae 已以调试模式运行，可直接切换。".to_owned()
    } else if running {
        "Trae 正在运行但未开调试端口。切换时将先退出 Trae，再以调试模式重启。".to_owned()
    } else {
        "Trae 未在运行，切换时将自动以调试模式启动。".to_owned()
    };
    TraePreflight { executable, running, debug_up, message }
}

/// Whether Trae is ready in debug mode, and why not.
pub struct EnsureResult {
    pub ok: bool,
    pub message: String,
}

/// The outcome of switching Trae's model.
pub struct SwitchOutcome {
    pub ok: bool,
    pub message: String,
}

/// The first step of making Trae debuggable: nothing to do when its endpoint is up;
/// otherwise the executable found among the fixed candidates is started, and a missing or
/// unlisted one is refused.
pub open spec fn ensure_first(debug_up: bool, cands: Seq<Seq<char>>, exe: Option<Seq<char>>) -> Result<Seq<char>, (bool, Seq<char>)> {
    if debug_up {
        Err((true, "调试就绪"@))
    } else {
        match exe {
            None => Err((false, "未找到 Trae 可执行文件，请在“设置”中指定路径"@)),
            Some(e) => if !cands.contains(e) {
                Err((false, "Trae 路径不在白名单内，已拒绝启动"@))
            } else {
                Ok(e)
            },
        }
    }
}

/// Decides the first step: `Ok(exe)` to (re)start Trae from `exe`, or the final result.
pub fn ensure_start(debug_up: bool, candidates: &Vec<String>, exe: Option<String>) -> (r: Result<String, EnsureResult>)
    ensures
        match r {
            Ok(e) => ensure_first(debug_up, strs(candidates@), opt_str(exe)) == Ok::<Seq<char>, (bool, Seq<char>)>(e@),
            Err(x) => ensure_first(debug_up, strs(candidates@), opt_str(exe)) == Err::<Seq<char>, (bool, Seq<char>)>((x.ok, x.message@)),
        },
{
    if debug_up {
        return Err(EnsureResult { ok: true, message: "调试就绪".to_owned() });
    }
    let e = match exe {
        Some(e) => e,
        None => {
            return Err(
                EnsureResult { ok: false, message: "未找到 Trae 可执行文件，请在“设置”中指定路径".to_owned() },
            );
        },
    };
    if !contains_string(candidates, &e) {
        return Err(EnsureResult { ok: false, message: "Trae 路径不在白名单内，已拒绝启动".to_owned() });
    }
    Ok(e)
}

/// The argument Trae is started with.
pub fn debug_port_arg() -> (r: String)
    ensures
        r@ == "--remote-debugging-port="@ + dec(TRAE_DEBUG_PORT as nat),
{
    concat("--remote-debugging-port=", dec_string(TRAE_DEBUG_PORT as u64).as_str())
}

/// The result after (re)starting Trae: whether the process could be created, and whether the
/// debug endpoint came up after the wait.
pub open spec fn ensure_last(spawned: bool, debug_up: bool) -> (bool, Seq<char>) {
    if !spawned {
        (false, "启动 Trae 失败（进程创建被拒绝）"@)
    } else if debug_up {
        (true, "Trae 已以调试模式启动"@)
    } else {
        (false, "Trae 已尝试重启，但调试端口未就绪，请稍候重试"@)
    }
}

pub fn ensure_finish(spawned: bool, debug_up: bool) -> (r: EnsureResult)
    ensures
        (r.ok, r.message@) == ensure_last(spawned, debug_up),
{
    if !spawned {
        EnsureResult { ok: false, message: "启动 Trae 失败（进程创建被拒绝）".to_owned() }
    } else if debug_up {
        EnsureResult { ok: true, message: "Trae 已以调试模式启动".to_owned() }
    } else {
        EnsureResult { ok: false, message: "Trae 已尝试重启，但调试端口未就绪，请稍候重试".to_owned() }
    }
}

/// The model to pick in Trae: the provider's default model; without one the switch is refused.
pub fn switch_model_label(p: &crate::store::Provider) -> (r: Result<String, SwitchOutcome>)
    ensures
        match r {
            Ok(m) => crate::store::default_model(p@) == Some(m@),
            Err(o) => crate::store::default_model(p@) is None && !o.ok && o.message@
                == "Trae 切换需要先填写“模型 ID”"@,
        },
{
    match p.default_model() {
        Some(m) => Ok(m),
        None => Err(SwitchOutcome { ok: false, message: "Trae 切换需要先填写“模型 ID”".to_owned() }),
    }
}

/// The WebSocket address of the target a DevTools session attaches to (see
/// `pick_target_index`): an error when nothing is listed or the chosen target has no address.
pub open spec fn session_address(t: Seq<TargetV>) -> Result<Seq<char>, Seq<char>> {
    if t.len() == 0 {
        Err("未发现 Trae 可调试页面，请确认已用 --remote-debugging-port 启动"@)
    } else if t[target_choice(t)].3.len() == 0 {
        Err("无法获取调试 WebSocket 地址"@)
    } else {
        Ok(t[target_choice(t)].3)
    }
}

proof fn lemma_first_index_range<A>(s: Seq<A>, p: spec_fn(A) -> bool)
    ensures
        first_index(s, p) matches Some(i) ==> 0 <= i < s.len(),
{
    if exists|i: int| 0 <= i < s.len() && p(s[i]) {
        let k = choose|i: int| 0 <= i < s.len() && p(s[i]);
        let m = first_true(s, p, k);
        assert(0 <= m < s.len() && p(s[m]) && forall|j: int| 0 <= j < m ==> !p(s[j]));
    }
}

proof fn first_true<A>(s: Seq<A>, p: spec_fn(A) -> bool, k: int) -> (m: int)
    requires
        0 <= k < s.len(),
        p(s[k]),
    ensures
        0 <= m <= k,
        p(s[m]),
        forall|j: int| 0 <= j < m ==> !p(s[j]),
    decreases k,
{
    if exists|j: int| 0 <= j < k && p(s[j]) {
        let j = choose|j: int| 0 <= j < k && p(s[j]);
        first_true(s, p, j)
    } else {
        k
    }
}

proof fn lemma_target_choice_in_range(t: Seq<TargetV>)
    requires
        t.len() > 0,
    ensures
        0 <= target_choice(t) < t.len(),
{
    lemma_first_index_range(t, |x: TargetV| x.0 == "webview"@);
    lemma_first_index_range(t, |x: TargetV| page_like(x.1));
}

/// Chooses the target a DevTools session attaches to and gives its WebSocket address.
pub fn session_target(targets: &Vec<Target>) -> (r: Result<String, String>)
    ensures
        match r {
            Ok(a) => session_address(targets_view(targets@)) == Ok::<Seq<char>, Seq<char>>(a@),
            Err(e) => session_address(targets_view(targets@)) == Err::<Seq<char>, Seq<char>>(e@),
        },
{
    if targets.len() == 0 {
        return Err("未发现 Trae 可调试页面，请确认已用 --remote-debugging-port 启动".to_owned());
    }
    let i = pick_target_index(targets);
    proof {
        lemma_target_choice_in_range(targets_view(targets@));
    }
    let t = &targets[i];
    if t.ws_url.as_str().is_empty() {
        return Err("无法获取调试 WebSocket 地址".to_owned());
    }
    Ok(t.ws_url.clone())
}


/// The texts of a JSON array of strings; nothing when it is not an array or holds anything
/// but strings.
pub open spec fn text_list(j: JVal) -> Seq<Seq<char>> {
    match j {
        JVal::Arr(items) => if forall|i: int| 0 <= i < items.len() ==> #[trigger] items[i] is Str {
            Seq::new(items.len(), |i: int| items[i]->Str_0)
        } else {
            Seq::empty()
        },
        _ => Seq::empty(),
    }
}

/// The texts the page listed as model-selector candidates (see `text_list`).
pub fn model_candidates(listing: &Json) -> (r: Vec<String>)
    ensures
        strs(r@) == text_list(listing@),
{
    let mut out: Vec<String> = Vec::new();
    match listing {
        Json::Arr(items) => {
            proof {
                lemma_arr_view(*items);
            }
            let ghost iv = items_view(items@);
            assert(listing@ == JVal::Arr(iv));
            let mut i: usize = 0;
            while i < items.len()
                invariant
                    i <= items.len(),
                    iv == items_view(items@),
                    listing@ == JVal::Arr(iv),
                    forall|k: int| 0 <= k < i ==> #[trigger] iv[k] is Str,
                    out@.len() == i,
                    forall|k: int| 0 <= k < i ==> iv[k] == JVal::Str(#[trigger] out@[k]@),
                decreases items.len() - i,
            {
                match &items[i] {
                    Json::Str(t) => {
                        out.push(t.clone());
                    },
                    _ => {
                        assert(!(iv[i as int] is Str));
                        assert(listing@ == JVal::Arr(iv));
                        assert(!(forall|k: int| 0 <= k < iv.len() ==> #[trigger] iv[k] is Str));
                        let empty: Vec<String> = Vec::new();
                        assert(strs(empty@) =~= Seq::<Seq<char>>::empty());
                        return empty;
                    },
                }
                i = i + 1;
            }
            assert(listing@ == JVal::Arr(iv));
            assert(strs(out@) =~= text_list(listing@));
        },
        _ => {
            assert(strs(out@) =~= Seq::<Seq<char>>::empty());
        },
    }
    out
}

} // verus!

verus! {

/// The DevTools listing a parse result gives, or the parse error under its heading.
pub open spec fn listing_result(parsed: Result<JVal, Seq<char>>) -> Result<JVal, Seq<char>> {
    match parsed {
        Ok(v) => Ok(v),
        Err(e) => Err("解析调试目标失败: "@ + e),
    }
}

/// The listing from a parse of the answer's body: the value, or the error under its heading.
pub fn listing_of_parsed(parsed: Result<Json, String>) -> (r: Result<Json, String>)
    ensures
        crate::json_text::parsed_view(r) == listing_result(crate::json_text::parsed_view(parsed)),
{
    match parsed {
        Ok(v) => Ok(v),
        Err(e) => Err(concat("解析调试目标失败: ", e.as_str())),
    }
}

/// The DevTools listing in a raw HTTP answer: its body, trimmed, read as JSON.
pub fn debug_listing(raw: &str) -> (r: Result<Json, String>)
    ensures
        crate::json_text::parsed_view(r) == listing_result(
            crate::json_text::json_parsed(crate::text::trim(http_body_of(raw@))),
        ),
{
    let body = http_body(raw);
    let t = crate::text::trim_str(body.as_str());
    listing_of_parsed(crate::fsutil::read_json(t.as_str()))
}

/// What a parsed DevTools message answers to request `id`: nothing when it is no JSON.
pub open spec fn reply_of(parsed: Result<JVal, Seq<char>>, id: nat) -> Option<Result<JVal, Seq<char>>> {
    match parsed {
        Ok(v) => cdp_answer(v, id),
        Err(_) => None,
    }
}

/// The answer to request `id` in a parsed DevTools message, if it is one.
pub fn reply_of_parsed(parsed: Result<Json, String>, id: u64) -> (r: Option<Result<Json, String>>)
    ensures
        match r {
            None => reply_of(crate::json_text::parsed_view(parsed), id as nat) is None,
            Some(x) => reply_of(crate::json_text::parsed_view(parsed), id as nat) == Some(
                crate::json_text::parsed_view(x),
            ),
        },
{
    match parsed {
        Ok(v) => match cdp_reply(v, id) {
            Some(Ok(x)) => Some(Ok(x)),
            Some(Err(e)) => Some(Err(e)),
            None => None,
        },
        Err(_) => None,
    }
}

/// The answer to request `id` in the text of a DevTools message, if it is one.
pub fn cdp_reply_text(text: &str, id: u64) -> (r: Option<Result<Json, String>>)
    ensures
        match r {
            None => reply_of(crate::json_text::json_parsed(text@), id as nat) is None,
            Some(x) => reply_of(crate::json_text::json_parsed(text@), id as nat) == Some(
                crate::json_text::parsed_view(x),
            ),
        },
{
    reply_of_parsed(crate::fsutil::read_json(text), id)
}

/// The text of the DevTools request `id` for `method` with `params`.
pub fn cdp_request_text(id: u64, method: &str, params: Option<Json>) -> (r: String)
    ensures
        r@ == crate::json_text::json_compact(cdp_frame(id as nat, method@, crate::json::opt_view(params))),
{
    let frame = cdp_request_frame(id, method, params);
    crate::json_text::compact_text(&frame)
}

/// The selector texts the page handed back: a JSON text (read as a list of strings), or the
/// value itself when it is no string.
pub open spec fn page_texts(raw: JVal) -> Seq<Seq<char>> {
    match raw {
        JVal::Str(t) => match crate::json_text::json_parsed(t) {
            Ok(v) => text_list(v),
            Err(_) => Seq::empty(),
        },
        _ => text_list(raw),
    }
}

/// The candidate model labels the page script returned.
pub fn page_model_candidates(raw: &Json) -> (r: Vec<String>)
    ensures
        strs(r@) == page_texts(raw@),
{
    match raw {
        Json::Str(t) => match crate::fsutil::read_json(t.as_str()) {
            Ok(v) => model_candidates(&v),
            Err(_) => {
                let out: Vec<String> = Vec::new();
                assert(strs(out@) =~= Seq::<Seq<char>>::empty());
                out
            },
        },
        _ => model_candidates(raw),
    }
}

} // verus!
