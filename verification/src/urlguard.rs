use vstd::prelude::*;
use crate::store::opt_str;
use crate::iplit::{host_ip, ip_literal};
use crate::text::{
    trim, trim_end_char, ends_with, starts_with, ascii_lowercase, find_char, split, chars_of,
    trim_chars, trim_end_char_chars, ascii_lowercase_chars, string_of, str_eq, str_ends_with,
    split_str, find_char_in, slice_chars, trim_str,
    str_starts_with, concat,
};

verus! {

/// An IP address: four octets, or eight 16-bit segments.
#[derive(Debug, Clone, Copy, PartialEq, Eq, Structural)]
pub enum Ip {
    V4(u8, u8, u8, u8),
    V6(u16, u16, u16, u16, u16, u16, u16, u16),
}

/// Whether an IPv4 address is not a public one: "this network", private, loopback, carrier-grade
/// NAT, link-local, the IETF protocol block, benchmarking, multicast and reserved addresses.
pub open spec fn reserved_v4(a: u8, b: u8, c: u8) -> bool {
    ||| a == 0 || a == 10 || a == 127
    ||| a == 100 && 64 <= b <= 127
    ||| a == 169 && b == 254
    ||| a == 172 && 16 <= b <= 31
    ||| a == 192 && b == 168
    ||| a == 192 && b == 0 && c == 0
    ||| a == 198 && (b == 18 || b == 19)
    ||| a >= 224
}

pub fn is_reserved_ipv4(a: u8, b: u8, c: u8, d: u8) -> (r: bool)
    ensures
        r == reserved_v4(a, b, c),
{
    if a == 0 || a == 10 || a == 127 {
        return true;
    }
    if a == 100 && 64 <= b && b <= 127 {
        return true;
    }
    if a == 169 && b == 254 {
        return true;
    }
    if a == 172 && 16 <= b && b <= 31 {
        return true;
    }
    if a == 192 && b == 168 {
        return true;
    }
    if a == 192 && b == 0 && c == 0 {
        return true;
    }
    if a == 198 && (b == 18 || b == 19) {
        return true;
    }
    a >= 224
}

/// Whether an IPv6 address is not a public one: unspecified, loopback, an IPv4-mapped or
/// IPv4-compatible form of a reserved IPv4 address, unique local, link-local, documentation
/// and NAT64.
pub open spec fn reserved_v6(s: Seq<u16>) -> bool {
    ||| forall|i: int| 0 <= i < 8 ==> s[i] == 0
    ||| (forall|i: int| 0 <= i < 7 ==> s[i] == 0) && s[7] == 1
    ||| (forall|i: int| 0 <= i < 5 ==> s[i] == 0) && (s[5] == 0xffff || s[5] == 0) && reserved_v4(
        (s[6] >> 8u16) as u8,
        (s[6] & 0xffu16) as u8,
        (s[7] >> 8u16) as u8,
    )
    ||| (s[0] & 0xfe00u16) == 0xfc00u16
    ||| (s[0] & 0xffc0u16) == 0xfe80u16
    ||| s[0] == 0x2001 && s[1] == 0x0db8
    ||| s[0] == 0x0064 && s[1] == 0xff9b
}

pub fn is_reserved_ipv6(seg: [u16; 8]) -> (r: bool)
    ensures
        r == reserved_v6(seg@),
{
    let mut zero5 = true;
    let mut i: usize = 0;
    while i < 5
        invariant
            i <= 5,
            zero5 == forall|k: int| 0 <= k < i ==> seg@[k] == 0,
        decreases 5 - i,
    {
        if seg[i] != 0 {
            zero5 = false;
        }
        i = i + 1;
    }
    let zero7 = zero5 && seg[5] == 0 && seg[6] == 0;
    assert(zero7 == forall|k: int| 0 <= k < 7 ==> seg@[k] == 0) by {
        if zero5 && seg[5] == 0 && seg[6] == 0 {
            assert forall|k: int| 0 <= k < 7 implies seg@[k] == 0 by {
                if k < 5 {
                }
            }
        }
    }
    if zero7 && seg[7] == 0 {
        assert forall|k: int| 0 <= k < 8 implies seg@[k] == 0 by {
            if k < 7 {
            }
        }
        return true;
    }
    assert(!(forall|k: int| 0 <= k < 8 ==> seg@[k] == 0)) by {
        if forall|k: int| 0 <= k < 8 ==> seg@[k] == 0 {
            assert(seg@[7] == 0);
            assert forall|k: int| 0 <= k < 7 implies seg@[k] == 0 by {
                assert(0 <= k < 8);
            }
        }
    }
    if zero7 && seg[7] == 1 {
        return true;
    }
    if zero5 && (seg[5] == 0xffff || seg[5] == 0) {
        if is_reserved_ipv4((seg[6] >> 8u16) as u8, (seg[6] & 0xffu16) as u8, (seg[7] >> 8u16) as u8, (seg[7] & 0xffu16) as u8) {
            return true;
        }
    }
    if (seg[0] & 0xfe00u16) == 0xfc00u16 {
        return true;
    }
    if (seg[0] & 0xffc0u16) == 0xfe80u16 {
        return true;
    }
    if seg[0] == 0x2001 && seg[1] == 0x0db8 {
        return true;
    }
    if seg[0] == 0x0064 && seg[1] == 0xff9b {
        return true;
    }
    false
}

pub open spec fn reserved(ip: Ip) -> bool {
    match ip {
        Ip::V4(a, b, c, _) => reserved_v4(a, b, c),
        Ip::V6(s0, s1, s2, s3, s4, s5, s6, s7) => reserved_v6(seq![s0, s1, s2, s3, s4, s5, s6, s7]),
    }
}

/// Whether an address is not a public one.
pub fn is_reserved_ip(ip: &Ip) -> (r: bool)
    ensures
        r == reserved(*ip),
{
    match ip {
        Ip::V4(a, b, c, d) => is_reserved_ipv4(*a, *b, *c, *d),
        Ip::V6(s0, s1, s2, s3, s4, s5, s6, s7) => {
            let seg = [*s0, *s1, *s2, *s3, *s4, *s5, *s6, *s7];
            assert(seg@ =~= seq![*s0, *s1, *s2, *s3, *s4, *s5, *s6, *s7]);
            is_reserved_ipv6(seg)
        },
    }
}

/// What the parser makes of a URL, as plain values: the serialised URL, the scheme, the user
/// name, the password, the host and the port (the scheme's default where none is written).
pub type UrlFields = (Seq<char>, Seq<char>, Seq<char>, Option<Seq<char>>, Option<Seq<char>>, Option<u16>);

/// What `url::Url::parse` gives for `raw`, read out field by field; `None` where it refuses
/// the text.
pub uninterp spec fn url_parsed(raw: Seq<char>) -> Option<(Seq<char>, Seq<char>, Seq<char>, Option<Seq<char>>, Option<Seq<char>>, Option<u16>)>;

/// The parts of a parsed URL that the address check reads.
pub struct UrlParts {
    pub href: String,
    pub scheme: String,
    pub username: String,
    pub password: Option<String>,
    pub host: Option<String>,
    pub port: Option<u16>,
}

impl UrlParts {
    pub open spec fn view(&self) -> UrlFields {
        (self.href@, self.scheme@, self.username@, opt_str(self.password), opt_str(self.host), self.port)
    }
}

pub open spec fn parts_view(o: Option<UrlParts>) -> Option<UrlFields> {
    match o {
        Some(u) => Some(u.view()),
        None => None,
    }
}

/// Parses `raw` with `url::Url::parse` and reads out its serialisation (`as_str`), `scheme`,
/// `username`, `password`, `host_str` and `port_or_known_default`. The contract only ties the
/// result to `raw` through `url_parsed`; it says nothing of the URL grammar itself.
#[verifier::external_body]
fn parse_url(raw: &str) -> (r: Option<UrlParts>)
    ensures
        parts_view(r) == url_parsed(raw@),
{
    match url::Url::parse(raw) {
        Ok(u) => Some(UrlParts {
            href: u.as_str().to_owned(),
            scheme: u.scheme().to_owned(),
            username: u.username().to_owned(),
            password: u.password().map(String::from),
            host: u.host_str().map(String::from),
            port: u.port_or_known_default(),
        }),
        Err(_) => None,
    }
}

/// An address that passed the syntactic checks: its serialisation, its host (lowercased,
/// without trailing dots) and its port.
pub struct UrlTarget {
    pub href: String,
    pub host: String,
    pub port: u16,
}

impl UrlTarget {
    pub open spec fn view(&self) -> (Seq<char>, Seq<char>, u16) {
        (self.href@, self.host@, self.port)
    }
}

pub open spec fn msg_bad_url() -> Seq<char> {
    "URL 格式无效"@
}

pub open spec fn msg_bad_scheme() -> Seq<char> {
    "仅允许 http/https 地址"@
}

pub open spec fn msg_credentials() -> Seq<char> {
    "地址中不允许携带用户名密码"@
}

pub open spec fn msg_local_host() -> Seq<char> {
    "不允许访问本地/内网地址"@
}

pub open spec fn msg_reserved_ip() -> Seq<char> {
    "不允许访问内网/保留地址"@
}

pub open spec fn msg_unresolved() -> Seq<char> {
    "域名无法解析"@
}

pub open spec fn msg_resolves_reserved() -> Seq<char> {
    "域名解析到内网/保留地址，已拒绝访问"@
}

/// The host as the check compares it: ASCII-lowercased, trailing dots removed, empty where the
/// URL has none.
pub open spec fn normal_host(host: Option<Seq<char>>) -> Seq<char> {
    trim_end_char(ascii_lowercase(host.unwrap_or(Seq::empty())), '.')
}

/// A host name that names this machine or a local network.
pub open spec fn local_host(h: Seq<char>) -> bool {
    ||| h.len() == 0
    ||| h == "localhost"@
    ||| ends_with(h, ".localhost"@)
    ||| ends_with(h, ".local"@)
    ||| ends_with(h, ".internal"@)
}

/// The outcome of the syntactic checks on a parsed URL: the error message, or the serialised
/// URL, the normalised host and the port (80 where the scheme has no default).
pub open spec fn target_of(parsed: Option<UrlFields>) -> Result<(Seq<char>, Seq<char>, u16), Seq<char>> {
    match parsed {
        None => Err(msg_bad_url()),
        Some((href, scheme, user, password, host, port)) => {
            if scheme != "http"@ && scheme != "https"@ {
                Err(msg_bad_scheme())
            } else if user.len() != 0 || password is Some {
                Err(msg_credentials())
            } else if local_host(normal_host(host)) {
                Err(msg_local_host())
            } else {
                Ok((href, normal_host(host), port.unwrap_or(80u16)))
            }
        },
    }
}

pub open spec fn target_view(r: Result<UrlTarget, String>) -> Result<(Seq<char>, Seq<char>, u16), Seq<char>> {
    match r {
        Ok(t) => Ok(t.view()),
        Err(e) => Err(e@),
    }
}

fn is_local_host(h: &str) -> (b: bool)
    ensures
        b == local_host(h@),
{
    let v = chars_of(h);
    v.len() == 0 || str_eq(h, "localhost") || str_ends_with(h, ".localhost") || str_ends_with(
        h,
        ".local",
    ) || str_ends_with(h, ".internal")
}

/// The syntactic checks on a parsed URL: only http and https, no credentials, no host that
/// names this machine or a local network.
pub fn url_target(parsed: Option<UrlParts>) -> (r: Result<UrlTarget, String>)
    ensures
        target_view(r) == target_of(parts_view(parsed)),
{
    let u = match parsed {
        None => {
            return Err("URL 格式无效".to_owned());
        },
        Some(u) => u,
    };
    if !str_eq(u.scheme.as_str(), "http") && !str_eq(u.scheme.as_str(), "https") {
        return Err("仅允许 http/https 地址".to_owned());
    }
    if chars_of(u.username.as_str()).len() != 0 || u.password.is_some() {
        return Err("地址中不允许携带用户名密码".to_owned());
    }
    let raw_host: Vec<char> = match &u.host {
        Some(h) => chars_of(h.as_str()),
        None => Vec::new(),
    };
    assert(raw_host@ == opt_str(u.host).unwrap_or(Seq::empty()));
    let lowered = ascii_lowercase_chars(&raw_host);
    let trimmed = trim_end_char_chars(&lowered, '.');
    let host = string_of(&trimmed);
    if is_local_host(host.as_str()) {
        return Err("不允许访问本地/内网地址".to_owned());
    }
    let port = match u.port {
        Some(p) => p,
        None => 80u16,
    };
    Ok(UrlTarget { href: u.href, host, port })
}

/// Parses `raw` and applies the syntactic checks of `url_target` to what the parser gives.
/// An address that passes still has its host checked (`classify_target`) and, for a name,
/// every address it resolves to (`check_resolved_addrs`).
pub fn assert_public_http_url(raw: &str) -> (r: Result<UrlTarget, String>)
    ensures
        target_view(r) == target_of(url_parsed(raw@)),
{
    url_target(parse_url(raw))
}

/// The check on a host once it is known whether it is an IP address literal (`ip`): a
/// reserved address is refused; a public address needs nothing more (`Ok(false)`); a name
/// has to be resolved and its addresses checked (`Ok(true)`).
pub fn classify_target(ip: &Option<Ip>) -> (r: Result<bool, String>)
    ensures
        match *ip {
            Some(a) => if reserved(a) {
                r matches Err(e) && e@ == msg_reserved_ip()
            } else {
                r == Ok::<bool, String>(false)
            },
            None => r == Ok::<bool, String>(true),
        },
{
    match ip {
        Some(a) => {
            if is_reserved_ip(a) {
                Err("不允许访问内网/保留地址".to_owned())
            } else {
                Ok(false)
            }
        },
        None => Ok(true),
    }
}

/// The check on what a host name resolved to: nothing is refused as unresolvable, and any
/// reserved address among the results refuses the whole name.
pub fn check_resolved_addrs(addrs: &Vec<Ip>) -> (r: Result<(), String>)
    ensures
        addrs@.len() == 0 ==> (r matches Err(e) && e@ == msg_unresolved()),
        addrs@.len() != 0 && (exists|i: int| 0 <= i < addrs@.len() && reserved(#[trigger] addrs@[i]))
            ==> (r matches Err(e) && e@ == msg_resolves_reserved()),
        addrs@.len() != 0 && (forall|i: int| 0 <= i < addrs@.len() ==> !reserved(#[trigger] addrs@[i]))
            ==> r is Ok,
{
    if addrs.len() == 0 {
        return Err("域名无法解析".to_owned());
    }
    let mut i: usize = 0;
    while i < addrs.len()
        invariant
            i <= addrs.len(),
            forall|k: int| 0 <= k < i ==> !reserved(#[trigger] addrs@[k]),
        decreases addrs.len() - i,
    {
        if is_reserved_ip(&addrs[i]) {
            return Err("域名解析到内网/保留地址，已拒绝访问".to_owned());
        }
        i = i + 1;
    }
    Ok(())
}

/// The proxy address that one `;`-separated part of a proxy setting gives: the trimmed value
/// of an `http=` or `https=` entry (the key compared without regard to ASCII case).
pub open spec fn proxy_entry(part: Seq<char>) -> Option<Seq<char>> {
    match find_char(part, '=') {
        Some(i) => {
            let k = ascii_lowercase(part.take(i));
            if k == "https"@ || k == "http"@ {
                Some(trim(part.skip(i + 1)))
            } else {
                None
            }
        },
        None => None,
    }
}

/// The value of the first part that is an `http=` or `https=` entry.
pub open spec fn first_proxy_entry(parts: Seq<Seq<char>>) -> Option<Seq<char>>
    decreases parts.len(),
{
    if parts.len() == 0 {
        None
    } else {
        match proxy_entry(parts[0]) {
            Some(v) => Some(v),
            None => first_proxy_entry(parts.drop_first()),
        }
    }
}

/// The proxy a setting names: the first `http=`/`https=` entry, or else the whole setting,
/// trimmed.
pub open spec fn proxy_pick(server: Seq<char>) -> Seq<char> {
    trim(
        match first_proxy_entry(split(server, ';')) {
            Some(v) => v,
            None => trim(server),
        },
    )
}

/// The proxy URL for a system proxy setting such as `127.0.0.1:7892` or
/// `http=127.0.0.1:7892;https=127.0.0.1:7892`: none for an empty or SOCKS setting, the
/// address as it is where it already has an http(s) scheme, and with `http://` before it
/// otherwise.
pub open spec fn proxy_url(server: Seq<char>) -> Option<Seq<char>> {
    let pick = proxy_pick(server);
    if pick.len() == 0 || starts_with(ascii_lowercase(pick), "socks"@) {
        None
    } else if starts_with(pick, "http://"@) || starts_with(pick, "https://"@) {
        Some(pick)
    } else {
        Some("http://"@ + pick)
    }
}

fn proxy_entry_of(part: &str) -> (r: Option<String>)
    ensures
        opt_str(r) == proxy_entry(part@),
{
    let v = chars_of(part);
    match find_char_in(&v, '=') {
        Some(i) => {
            let key = slice_chars(&v, 0, i);
            assert(key@ =~= v@.take(i as int));
            let low = string_of(&ascii_lowercase_chars(&key));
            if str_eq(low.as_str(), "https") || str_eq(low.as_str(), "http") {
                let rest = slice_chars(&v, i + 1, v.len());
                assert(rest@ =~= v@.skip(i + 1));
                Some(string_of(&trim_chars(&rest)))
            } else {
                None
            }
        },
        None => None,
    }
}

/// The proxy URL for the system proxy setting `server` (see `proxy_url`).
pub fn proxy_from_server(server: &str) -> (r: Option<String>)
    ensures
        opt_str(r) == proxy_url(server@),
{
    let parts = split_str(server, ';');
    let ghost all = split(server@, ';');
    let mut found: Option<String> = None;
    let mut i: usize = 0;
    assert(all.skip(0) =~= all);
    while i < parts.len() && found.is_none()
        invariant
            i <= parts.len(),
            parts@.len() == all.len(),
            forall|k: int| 0 <= k < parts@.len() ==> #[trigger] parts@[k]@ == all[k],
            all == split(server@, ';'),
            found is None ==> first_proxy_entry(all) == first_proxy_entry(all.skip(i as int)),
            found is Some ==> opt_str(found) == first_proxy_entry(all),
        decreases parts.len() - i,
    {
        let e = proxy_entry_of(parts[i].as_str());
        proof {
            assert(all.skip(i as int)[0] == all[i as int]);
            assert(all.skip(i as int).drop_first() =~= all.skip(i + 1));
        }
        found = e;
        i = i + 1;
    }
    proof {
        if found is None {
            assert(all.skip(i as int) =~= Seq::<Seq<char>>::empty());
        }
    }
    let picked = match found {
        Some(v) => v,
        None => trim_str(server),
    };
    let pick = trim_str(picked.as_str());
    let low = string_of(&ascii_lowercase_chars(&chars_of(pick.as_str())));
    if chars_of(pick.as_str()).len() == 0 || str_starts_with(low.as_str(), "socks") {
        return None;
    }
    if str_starts_with(pick.as_str(), "http://") || str_starts_with(pick.as_str(), "https://") {
        return Some(pick);
    }
    Some(concat("http://", pick.as_str()))
}

/// Only public http(s) addresses pass the syntactic checks: what passes was parsed, has the
/// scheme http or https, carries no user name or password, and names neither this machine
/// nor a local network; its host is the parsed host, lowercased and without trailing dots.
pub proof fn law_accepted_addresses_are_public_http(raw: Seq<char>)
    ensures
        match target_of(url_parsed(raw)) {
            Ok((href, host, port)) => {
                &&& url_parsed(raw) matches Some((h, scheme, user, password, parsed_host, _))
                &&& href == h
                &&& (scheme == "http"@ || scheme == "https"@)
                &&& user.len() == 0
                &&& password is None
                &&& host == normal_host(parsed_host)
                &&& !local_host(host)
            },
            Err(_) => true,
        },
{
}


/// Whether a name's addresses make it acceptable: refused when it resolves to nothing or to any
/// reserved address; otherwise the address `href` is accepted.
pub open spec fn resolved_verdict(href: Seq<char>, addrs: Seq<Ip>) -> Result<Seq<char>, Seq<char>> {
    if addrs.len() == 0 {
        Err(msg_unresolved())
    } else if exists|i: int| 0 <= i < addrs.len() && reserved(#[trigger] addrs[i]) {
        Err(msg_resolves_reserved())
    } else {
        Ok(href)
    }
}

/// The whole outbound address rule for `raw`, given what its host resolves to (`addrs`, read
/// only when the host is a name): the syntactic checks; then a host that is an IP literal
/// (dotted IPv4, or IPv6 in brackets) passes when that address is not reserved, and a name
/// passes when it resolves to at least one address and to no reserved one. What passes is the
/// parsed URL's serialisation.
pub open spec fn address_verdict(raw: Seq<char>, addrs: Seq<Ip>) -> Result<Seq<char>, Seq<char>> {
    match target_of(url_parsed(raw)) {
        Err(e) => Err(e),
        Ok((href, host, _port)) => match ip_literal(host) {
            Some(ip) => if reserved(ip) {
                Err(msg_reserved_ip())
            } else {
                Ok(href)
            },
            None => resolved_verdict(href, addrs),
        },
    }
}

pub open spec fn verdict_view(r: Result<String, String>) -> Result<Seq<char>, Seq<char>> {
    match r {
        Ok(u) => Ok(u@),
        Err(e) => Err(e@),
    }
}

/// The first step of checking an outbound address: decided at once, or the host name (and
/// port) to resolve before `address_resolved` decides.
pub enum AddressStep {
    Resolve { href: String, host: String, port: u16 },
    Done(Result<String, String>),
}

/// Checks `raw` as far as it can without resolving its host (see `address_verdict`).
pub fn address_start(raw: &str) -> (r: AddressStep)
    ensures
        match r {
            AddressStep::Done(v) => forall|addrs: Seq<Ip>| #[trigger] address_verdict(raw@, addrs) == verdict_view(v),
            AddressStep::Resolve { href, host, port } => {
                &&& target_of(url_parsed(raw@)) == Ok::<(Seq<char>, Seq<char>, u16), Seq<char>>((href@, host@, port))
                &&& ip_literal(host@) is None
                &&& forall|addrs: Seq<Ip>| #[trigger] address_verdict(raw@, addrs) == resolved_verdict(href@, addrs)
            },
        },
{
    let t = match assert_public_http_url(raw) {
        Ok(t) => t,
        Err(e) => return AddressStep::Done(Err(e)),
    };
    let ip = host_ip(t.host.as_str());
    match classify_target(&ip) {
        Err(e) => AddressStep::Done(Err(e)),
        Ok(false) => AddressStep::Done(Ok(t.href)),
        Ok(true) => AddressStep::Resolve { href: t.href, host: t.host, port: t.port },
    }
}

/// Decides a name once it was resolved to `addrs` (see `resolved_verdict`).
pub fn address_resolved(href: String, addrs: &Vec<Ip>) -> (r: Result<String, String>)
    ensures
        verdict_view(r) == resolved_verdict(href@, addrs@),
{
    match check_resolved_addrs(addrs) {
        Ok(()) => Ok(href),
        Err(e) => Err(e),
    }
}

} // verus!
