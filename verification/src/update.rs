use vstd::prelude::*;
use crate::text::{
    trim, trim_start_v, find_char, split, parse_u64, chars_of, trim_chars, trim_start_v_chars,
    find_char_in, slice_chars, split_chars, parse_u64_chars,
};

verus! {

/// A version without surrounding whitespace and leading `v`/`V`.
pub open spec fn version_text(v: Seq<char>) -> Seq<char> {
    trim_start_v(trim(v))
}

/// The numeric part of a version: what comes before its first `-`.
pub open spec fn version_core(v: Seq<char>) -> Seq<char> {
    let s = version_text(v);
    match find_char(s, '-') {
        Some(i) => s.take(i),
        None => s,
    }
}

/// Whether a version has a pre-release suffix (a `-` part).
pub open spec fn has_pre(v: Seq<char>) -> bool {
    find_char(version_text(v), '-') is Some
}

/// The numbers of a version: its dot-separated parts, each read as an unsigned integer
/// (0 when it is not one).
pub open spec fn version_nums(v: Seq<char>) -> Seq<int> {
    let parts = split(version_core(v), '.');
    Seq::new(
        parts.len(),
        |i: int|
            match parse_u64(parts[i]) {
                Some(n) => n,
                None => 0,
            },
    )
}

/// Component `i` of a version, 0 past its end.
pub open spec fn num_at(ns: Seq<int>, i: int) -> int {
    if 0 <= i < ns.len() {
        ns[i]
    } else {
        0
    }
}

/// -1, 0 or 1 as the numbers `na` compare with `nb` from component `k` on (up to `len`).
pub open spec fn nums_order(na: Seq<int>, nb: Seq<int>, k: int, len: int) -> int
    decreases len - k,
{
    if k >= len {
        0
    } else if num_at(na, k) < num_at(nb, k) {
        -1
    } else if num_at(na, k) > num_at(nb, k) {
        1
    } else {
        nums_order(na, nb, k + 1, len)
    }
}

/// -1, 0 or 1 as version `a` is lower than, equal to or higher than `b`: the numbers decide,
/// missing components counting as 0; at equal numbers a pre-release is lower than a release.
pub open spec fn version_order(a: Seq<char>, b: Seq<char>) -> int {
    let na = version_nums(a);
    let nb = version_nums(b);
    let len = if na.len() >= nb.len() {
        na.len() as int
    } else {
        nb.len() as int
    };
    let n = nums_order(na, nb, 0, len);
    if n != 0 {
        n
    } else if has_pre(a) && !has_pre(b) {
        -1
    } else if !has_pre(a) && has_pre(b) {
        1
    } else {
        0
    }
}

/// The numbers and pre-release flag of a version.
pub fn parse_version(v: &str) -> (r: (Vec<u64>, bool))
    ensures
        r.0@.len() == version_nums(v@).len(),
        forall|i: int| 0 <= i < r.0@.len() ==> r.0@[i] as int == #[trigger] version_nums(v@)[i],
        r.1 == has_pre(v@),
{
    let s = trim_start_v_chars(&trim_chars(&chars_of(v)));
    let (core, pre) = match find_char_in(&s, '-') {
        Some(i) => {
            assert(s@.take(i as int) =~= s@.subrange(0, i as int));
            (slice_chars(&s, 0, i), true)
        },
        None => {
            assert(s@.subrange(0, s@.len() as int) =~= s@);
            (slice_chars(&s, 0, s.len()), false)
        },
    };
    let parts = split_chars(&core, '.');
    let ghost ps = split(version_core(v@), '.');
    let mut nums: Vec<u64> = Vec::new();
    let mut i: usize = 0;
    while i < parts.len()
        invariant
            i <= parts.len(),
            parts@.len() == ps.len(),
            forall|k: int| 0 <= k < parts@.len() ==> #[trigger] parts@[k]@ == ps[k],
            ps == split(version_core(v@), '.'),
            nums@.len() == i,
            forall|k: int| 0 <= k < i ==> nums@[k] as int == #[trigger] version_nums(v@)[k],
        decreases parts.len() - i,
    {
        let n = match parse_u64_chars(&parts[i]) {
            Some(n) => n,
            None => 0,
        };
        nums.push(n);
        i = i + 1;
    }
    (nums, pre)
}

fn nth_or_zero(v: &Vec<u64>, i: usize) -> (r: u64)
    ensures
        r as int == num_at(Seq::new(v@.len(), |k: int| v@[k] as int), i as int),
{
    if i < v.len() {
        v[i]
    } else {
        0
    }
}

/// -1, 0 or 1 as version `a` compares with version `b` (see `version_order`).
pub fn version_sign(a: &str, b: &str) -> (r: i8)
    ensures
        r as int == version_order(a@, b@),
{
    let (na, pa) = parse_version(a);
    let (nb, pb) = parse_version(b);
    let ghost sa = Seq::new(na@.len(), |k: int| na@[k] as int);
    let ghost sb = Seq::new(nb@.len(), |k: int| nb@[k] as int);
    assert(sa =~= version_nums(a@));
    assert(sb =~= version_nums(b@));
    let len = if na.len() >= nb.len() {
        na.len()
    } else {
        nb.len()
    };
    let mut i: usize = 0;
    while i < len
        invariant
            i <= len,
            sa == Seq::new(na@.len(), |k: int| na@[k] as int),
            sb == Seq::new(nb@.len(), |k: int| nb@[k] as int),
            sa == version_nums(a@),
            sb == version_nums(b@),
            len as int == if sa.len() >= sb.len() {
                sa.len() as int
            } else {
                sb.len() as int
            },
            nums_order(sa, sb, 0, len as int) == nums_order(sa, sb, i as int, len as int),
        decreases len - i,
    {
        let x = nth_or_zero(&na, i);
        let y = nth_or_zero(&nb, i);
        if x < y {
            return -1;
        }
        if x > y {
            return 1;
        }
        i = i + 1;
    }
    if pa && !pb {
        -1
    } else if !pa && pb {
        1
    } else {
        0
    }
}

/// The comparison is antisymmetric: swapping the versions reverses it.
pub proof fn law_version_order_antisymmetric(a: Seq<char>, b: Seq<char>)
    ensures
        version_order(a, b) == -version_order(b, a),
{
    let na = version_nums(a);
    let nb = version_nums(b);
    let len = if na.len() >= nb.len() {
        na.len() as int
    } else {
        nb.len() as int
    };
    lemma_nums_order_swap(na, nb, 0, len);
}

proof fn lemma_nums_order_swap(na: Seq<int>, nb: Seq<int>, k: int, len: int)
    ensures
        nums_order(na, nb, k, len) == -nums_order(nb, na, k, len),
    decreases len - k,
{
    if k < len {
        lemma_nums_order_swap(na, nb, k + 1, len);
    }
}

/// Every version is equal to itself.
pub proof fn law_version_order_reflexive(a: Seq<char>)
    ensures
        version_order(a, a) == 0,
{
    let na = version_nums(a);
    lemma_nums_order_same(na, 0, na.len() as int);
}

proof fn lemma_nums_order_same(na: Seq<int>, k: int, len: int)
    ensures
        nums_order(na, na, k, len) == 0,
    decreases len - k,
{
    if k < len {
        lemma_nums_order_same(na, k + 1, len);
    }
}

proof fn lemma_nums_order_padded(na: Seq<int>, nb: Seq<int>, k: int, l1: int, l2: int)
    requires
        l1 >= na.len() && l1 >= nb.len(),
        l2 >= na.len() && l2 >= nb.len(),
    ensures
        nums_order(na, nb, k, l1) == nums_order(na, nb, k, l2),
    decreases (if l1 > l2 { l1 } else { l2 }) - k,
{
    if k < l1 && k < l2 {
        lemma_nums_order_padded(na, nb, k + 1, l1, l2);
    } else if k < l1 {
        lemma_nums_order_zero(na, nb, k, l1);
    } else if k < l2 {
        lemma_nums_order_zero(na, nb, k, l2);
    }
}

proof fn lemma_nums_order_zero(na: Seq<int>, nb: Seq<int>, k: int, len: int)
    requires
        k >= na.len() && k >= nb.len(),
    ensures
        nums_order(na, nb, k, len) == 0,
    decreases len - k,
{
    if k < len {
        lemma_nums_order_zero(na, nb, k + 1, len);
    }
}

proof fn lemma_nums_order_transitive(na: Seq<int>, nb: Seq<int>, nc: Seq<int>, k: int, len: int)
    ensures
        nums_order(na, nb, k, len) <= 0 && nums_order(nb, nc, k, len) <= 0 ==> nums_order(na, nc, k, len) <= 0,
        nums_order(na, nb, k, len) < 0 && nums_order(nb, nc, k, len) <= 0 ==> nums_order(na, nc, k, len) < 0,
        nums_order(na, nb, k, len) <= 0 && nums_order(nb, nc, k, len) < 0 ==> nums_order(na, nc, k, len) < 0,
        nums_order(na, nb, k, len) == 0 && nums_order(nb, nc, k, len) == 0 ==> nums_order(na, nc, k, len) == 0,
    decreases len - k,
{
    if k < len {
        lemma_nums_order_transitive(na, nb, nc, k + 1, len);
    }
}

/// The comparison is transitive: a version lower than a second one that is lower than a third
/// is lower than the third.
pub proof fn law_version_order_transitive(a: Seq<char>, b: Seq<char>, c: Seq<char>)
    requires
        version_order(a, b) < 0,
        version_order(b, c) < 0,
    ensures
        version_order(a, c) < 0,
{
    let na = version_nums(a);
    let nb = version_nums(b);
    let nc = version_nums(c);
    let lab = if na.len() >= nb.len() { na.len() as int } else { nb.len() as int };
    let lbc = if nb.len() >= nc.len() { nb.len() as int } else { nc.len() as int };
    let lac = if na.len() >= nc.len() { na.len() as int } else { nc.len() as int };
    let l = if lab >= nc.len() { lab } else { nc.len() as int };
    lemma_nums_order_padded(na, nb, 0, lab, l);
    lemma_nums_order_padded(nb, nc, 0, lbc, l);
    lemma_nums_order_padded(na, nc, 0, lac, l);
    lemma_nums_order_transitive(na, nb, nc, 0, l);
}

/// How long to pause before the next attempt of a GET that failed on attempt `attempt`
/// (counted from 0): one retry after 900 ms, then no more.
pub fn retry_pause(attempt: u32) -> (r: Option<u64>)
    ensures
        attempt == 0 ==> r == Some(900u64),
        attempt != 0 ==> r is None,
{
    if attempt == 0 {
        Some(900)
    } else {
        None
    }
}

} // verus!

verus! {

/// The `/models` endpoint for a base URL: the base trimmed and without trailing slashes,
/// with `/models` appended unless it already ends so.
pub open spec fn models_endpoint(base_url: Seq<char>) -> Seq<char> {
    let b = crate::agent_service::normalized(base_url);
    if crate::text::ends_with(b, "/models"@) {
        b
    } else {
        b + "/models"@
    }
}

pub fn models_url(base_url: &str) -> (r: String)
    ensures
        r@ == models_endpoint(base_url@),
{
    let b = crate::agent_service::normalized_base(base_url);
    if crate::text::str_ends_with(b.as_str(), "/models") {
        b
    } else {
        crate::text::concat(b.as_str(), "/models")
    }
}

/// The first `n` characters of `s`.
pub open spec fn prefix(s: Seq<char>, n: int) -> Seq<char> {
    if s.len() <= n {
        s
    } else {
        s.take(n)
    }
}

/// Why a `/models` response is refused: a redirect, or any status outside 2xx (with the
/// first 200 characters of the body).
pub open spec fn models_status_error(status: u16, body: Seq<char>) -> Option<Seq<char>> {
    if 300 <= status < 400 {
        Some("接口返回重定向，已拒绝（仅允许直连清单地址）"@)
    } else if !(200 <= status < 300) {
        Some("拉取失败 HTTP "@ + crate::text::dec(status as nat) + ": "@ + prefix(body, 200))
    } else {
        None
    }
}

pub fn models_response_error(status: u16, body: &str) -> (r: Option<String>)
    ensures
        crate::store::opt_str(r) == models_status_error(status, body@),
{
    if 300 <= status && status < 400 {
        return Some("接口返回重定向，已拒绝（仅允许直连清单地址）".to_owned());
    }
    if !(200 <= status && status < 300) {
        let v = chars_of(body);
        let n = if v.len() <= 200 {
            v.len()
        } else {
            200
        };
        let head = crate::text::string_of(&slice_chars(&v, 0, n));
        assert(head@ =~= prefix(body@, 200));
        let a = crate::text::concat("拉取失败 HTTP ", crate::text::dec_string(status as u64).as_str());
        let b = crate::text::concat(a.as_str(), ": ");
        return Some(crate::text::concat(b.as_str(), head.as_str()));
    }
    None
}

/// Whether a model entry has a non-empty string `id`.
pub open spec fn has_model_id() -> spec_fn(crate::json::JVal) -> bool {
    |e: crate::json::JVal| match crate::json::as_str(crate::json::member(e, "id"@)) {
        Some(s) => s.len() > 0,
        None => false,
    }
}

/// The model ids of a `/models` response: the non-empty string `id`s of the `data` array.
pub open spec fn model_ids_of(j: crate::json::JVal) -> Seq<Seq<char>> {
    match crate::json::member(j, "data"@) {
        Some(crate::json::JVal::Arr(items)) => {
            let kept = items.filter(has_model_id());
            Seq::new(kept.len(), |i: int| crate::json::as_str(crate::json::member(kept[i], "id"@)).unwrap())
        },
        _ => Seq::empty(),
    }
}

pub fn model_ids(j: &crate::json::Json) -> (r: Vec<String>)
    ensures
        crate::store::strs(r@) == model_ids_of(j@),
{
    let mut out: Vec<String> = Vec::new();
    match crate::json::get(j, "data") {
        Some(crate::json::Json::Arr(items)) => {
            proof {
                crate::json::lemma_arr_view(*items);
            }
            let ghost iv = crate::json::items_view(items@);
            let mut i: usize = 0;
            assert(iv.take(0).filter(has_model_id()) =~= Seq::<crate::json::JVal>::empty()) by {
                iv.take(0).lemma_filter_len(has_model_id());
            }
            while i < items.len()
                invariant
                    i <= items.len(),
                    iv == crate::json::items_view(items@),
                    crate::store::strs(out@) =~= Seq::new(
                        iv.take(i as int).filter(has_model_id()).len(),
                        |k: int| crate::json::as_str(crate::json::member(iv.take(i as int).filter(has_model_id())[k], "id"@)).unwrap(),
                    ),
                decreases items.len() - i,
            {
                proof {
                    assert(iv.take(i + 1) =~= iv.take(i as int).push(iv[i as int]));
                    iv.take(i as int).lemma_filter_push(iv[i as int], has_model_id());
                }
                match crate::json::get(&items[i], "id") {
                    Some(crate::json::Json::Str(s)) => {
                        if !s.as_str().is_empty() {
                            let ghost before = crate::store::strs(out@);
                            out.push(s.clone());
                            assert(crate::store::strs(out@) =~= before.push(s@));
                        }
                    },
                    _ => {},
                }
                i = i + 1;
            }
            assert(iv.take(i as int) =~= iv);
        },
        _ => {},
    }
    assert(crate::store::strs(out@) =~= model_ids_of(j@));
    out
}

} // verus!

verus! {

/// The result of an update check.
pub struct UpdateCheckResult {
    pub has_update: bool,
    pub current: String,
    pub latest: Option<String>,
    pub url: Option<String>,
    pub notes: Option<String>,
    pub message: String,
    pub error: Option<bool>,
}

pub type UpdateV = (bool, Seq<char>, Option<Seq<char>>, Option<Seq<char>>, Option<Seq<char>>, Seq<char>, Option<bool>);

impl UpdateCheckResult {
    pub open spec fn view(&self) -> UpdateV {
        (
            self.has_update,
            self.current@,
            crate::store::opt_str(self.latest),
            crate::store::opt_str(self.url),
            crate::store::opt_str(self.notes),
            self.message@,
            self.error,
        )
    }
}

/// The address of the update manifest the publisher configured.
pub const UPDATE_MANIFEST_URL: &'static str =
    "https://raw.githubusercontent.com/Turing007/agent-switch-cn/master/latest.json";

/// A check that ended without an update: the message says why, `error` whether it failed.
pub fn update_failure(current: &str, message: String, error: bool) -> (r: UpdateCheckResult)
    ensures
        r@ == (false, current@, None::<Seq<char>>, None::<Seq<char>>, None::<Seq<char>>, message@, Some(error)),
{
    UpdateCheckResult {
        has_update: false,
        current: current.to_owned(),
        latest: None,
        url: None,
        notes: None,
        message,
        error: Some(error),
    }
}

/// A check that failed on the way (address, client, request or response).
pub fn update_error(current: &str, e: &str) -> (r: UpdateCheckResult)
    ensures
        r@ == (false, current@, None::<Seq<char>>, None::<Seq<char>>, None::<Seq<char>>, "检查更新失败: "@ + e@, Some(true)),
{
    update_failure(current, crate::text::concat("检查更新失败: ", e), true)
}

/// Why the update server's answer is refused: a redirect, or a status outside 2xx.
pub open spec fn update_status_refusal(status: u16) -> Option<Seq<char>> {
    if 300 <= status < 400 {
        Some("更新服务器返回重定向，已拒绝（仅允许直连清单地址）"@)
    } else if !(200 <= status < 300) {
        Some("更新服务器返回 HTTP "@ + crate::text::dec(status as nat))
    } else {
        None
    }
}

pub fn update_status_error(status: u16) -> (r: Option<String>)
    ensures
        crate::store::opt_str(r) == update_status_refusal(status),
{
    if 300 <= status && status < 400 {
        return Some("更新服务器返回重定向，已拒绝（仅允许直连清单地址）".to_owned());
    }
    if !(200 <= status && status < 300) {
        return Some(crate::text::concat("更新服务器返回 HTTP ", crate::text::dec_string(status as u64).as_str()));
    }
    None
}

/// The manifest's string member `k`.
pub open spec fn manifest_str(m: crate::json::JVal, k: Seq<char>) -> Option<Seq<char>> {
    crate::json::as_str(crate::json::member(m, k))
}

/// The result of reading a manifest: a missing or blank `version` is an invalid manifest;
/// otherwise an update exists when that version is higher than the current one.
pub open spec fn update_from(m: crate::json::JVal, current: Seq<char>) -> UpdateV {
    match manifest_str(m, "version"@) {
        Some(latest) => if trim(latest).len() == 0 {
            (false, current, None, None, None, "更新清单格式无效（缺少 version 字段）"@, Some(true))
        } else {
            let has = version_order(latest, current) > 0;
            (
                has,
                current,
                Some(latest),
                manifest_str(m, "url"@),
                manifest_str(m, "notes"@),
                if has {
                    "发现新版本 v"@ + latest + "（当前 v"@ + current + "）"@
                } else {
                    "已是最新版本（v"@ + current + "）"@
                },
                Some(false),
            )
        },
        None => (false, current, None, None, None, "更新清单格式无效（缺少 version 字段）"@, Some(true)),
    }
}

fn str_member(m: &crate::json::Json, k: &str) -> (r: Option<String>)
    ensures
        crate::store::opt_str(r) == manifest_str(m@, k@),
{
    match crate::json::get(m, k) {
        Some(crate::json::Json::Str(s)) => Some(s.clone()),
        _ => None,
    }
}

/// Reads an update manifest against the current version.
pub fn update_from_manifest(m: &crate::json::Json, current: &str) -> (r: UpdateCheckResult)
    ensures
        r@ == update_from(m@, current@),
{
    let latest = match str_member(m, "version") {
        Some(l) => l,
        None => return update_failure(current, "更新清单格式无效（缺少 version 字段）".to_owned(), true),
    };
    if crate::text::trim_str(latest.as_str()).as_str().is_empty() {
        return update_failure(current, "更新清单格式无效（缺少 version 字段）".to_owned(), true);
    }
    let has_update = version_sign(latest.as_str(), current) > 0;
    let url = str_member(m, "url");
    let notes = str_member(m, "notes");
    let message = if has_update {
        let a = crate::text::concat("发现新版本 v", latest.as_str());
        let b = crate::text::concat(a.as_str(), "（当前 v");
        let c = crate::text::concat(b.as_str(), current);
        crate::text::concat(c.as_str(), "）")
    } else {
        let a = crate::text::concat("已是最新版本（v", current);
        crate::text::concat(a.as_str(), "）")
    };
    UpdateCheckResult {
        has_update,
        current: current.to_owned(),
        latest: Some(latest),
        url,
        notes,
        message,
        error: Some(false),
    }
}

/// The manifest address: `AGENT_SWITCH_UPDATE_URL` when it is set and non-empty, else the
/// trimmed content of `update-url.txt` in the data directory when it is non-empty, else the
/// built-in address (each of the first two `None` when unavailable). Either override takes
/// precedence over the built-in address.
pub open spec fn manifest_address(env_url: Option<Seq<char>>, file_text: Option<Seq<char>>) -> Seq<char> {
    match env_url {
        Some(e) if e.len() > 0 => e,
        _ => match file_text {
            Some(t) if trim(t).len() > 0 => trim(t),
            _ => UPDATE_MANIFEST_URL@,
        },
    }
}

pub fn manifest_url(env_url: Option<String>, file_text: Option<String>) -> (r: String)
    ensures
        r@ == manifest_address(crate::store::opt_str(env_url), crate::store::opt_str(file_text)),
{
    match env_url {
        Some(e) => {
            if !e.as_str().is_empty() {
                return e;
            }
        },
        None => {},
    }
    match file_text {
        Some(t) => {
            let tt = crate::text::trim_str(t.as_str());
            if !tt.as_str().is_empty() {
                return tt;
            }
        },
        None => {},
    }
    UPDATE_MANIFEST_URL.to_owned()
}

} // verus!
