use agent_switch::urlguard::{
    assert_public_http_url, check_resolved_addrs, classify_target, is_reserved_ip, is_reserved_ipv4,
    is_reserved_ipv6, proxy_from_server, url_target, Ip, UrlParts,
};

fn refusal(raw: &str) -> String {
    match assert_public_http_url(raw) {
        Ok(_) => panic!("accepted {raw}"),
        Err(e) => e,
    }
}

#[test]
fn public_addresses_pass_the_syntactic_checks() {
    let t = assert_public_http_url("HTTPS://Example.COM./models").unwrap();
    assert_eq!(t.host, "example.com");
    assert_eq!(t.port, 443);
    assert_eq!(t.href, "https://example.com./models");
    let t = assert_public_http_url("http://api.example.com:8080/x").unwrap();
    assert_eq!(t.port, 8080);
}

#[test]
fn bad_addresses_are_refused_with_their_reason() {
    assert_eq!(refusal("not a url"), "URL 格式无效");
    assert_eq!(refusal("ftp://example.com/"), "仅允许 http/https 地址");
    assert_eq!(refusal("https://user:pw@example.com/"), "地址中不允许携带用户名密码");
    assert_eq!(refusal("https://user@example.com/"), "地址中不允许携带用户名密码");
    assert_eq!(refusal("http://localhost:3000/"), "不允许访问本地/内网地址");
    assert_eq!(refusal("http://db.internal/"), "不允许访问本地/内网地址");
    assert_eq!(refusal("http://printer.local/"), "不允许访问本地/内网地址");
    assert_eq!(refusal("http://a.localhost/"), "不允许访问本地/内网地址");
}

#[test]
fn targets_are_checked_from_parsed_parts() {
    let parts = UrlParts {
        href: "http://Host./".into(),
        scheme: "http".into(),
        username: String::new(),
        password: None,
        host: Some("HOST..".into()),
        port: None,
    };
    let t = url_target(Some(parts)).unwrap();
    assert_eq!(t.host, "host");
    assert_eq!(t.port, 80);
    assert!(url_target(None).is_err());
}

#[test]
fn literal_addresses_are_classified() {
    assert_eq!(classify_target(&Some(Ip::V4(8, 8, 8, 8))), Ok(false));
    assert_eq!(classify_target(&None), Ok(true));
    assert_eq!(
        classify_target(&Some(Ip::V4(10, 0, 0, 1))),
        Err("不允许访问内网/保留地址".to_string())
    );
}

#[test]
fn resolved_addresses_are_all_checked() {
    assert_eq!(check_resolved_addrs(&vec![]), Err("域名无法解析".to_string()));
    assert_eq!(
        check_resolved_addrs(&vec![Ip::V4(1, 1, 1, 1), Ip::V4(127, 0, 0, 1)]),
        Err("域名解析到内网/保留地址，已拒绝访问".to_string())
    );
    assert_eq!(check_resolved_addrs(&vec![Ip::V4(1, 1, 1, 1)]), Ok(()));
}

#[test]
fn reserved_ipv4_ranges() {
    for (a, b, c) in [(0, 1, 2), (10, 0, 0), (127, 0, 0), (100, 64, 0), (100, 127, 9), (169, 254, 1), (172, 16, 0), (172, 31, 255), (192, 168, 1), (192, 0, 0), (198, 18, 0), (198, 19, 5), (224, 0, 0), (255, 255, 255)] {
        assert!(is_reserved_ipv4(a, b, c, 1), "{a}.{b}.{c}");
    }
    for (a, b, c) in [(8, 8, 8), (100, 63, 0), (100, 128, 0), (172, 15, 0), (172, 32, 0), (192, 0, 1), (198, 20, 0), (223, 255, 255)] {
        assert!(!is_reserved_ipv4(a, b, c, 1), "{a}.{b}.{c}");
    }
}

#[test]
fn reserved_ipv6_ranges() {
    assert!(is_reserved_ipv6([0, 0, 0, 0, 0, 0, 0, 0]));
    assert!(is_reserved_ipv6([0, 0, 0, 0, 0, 0, 0, 1]));
    assert!(is_reserved_ipv6([0, 0, 0, 0, 0, 0xffff, 0x0a00, 0x0001]));
    assert!(!is_reserved_ipv6([0, 0, 0, 0, 0, 0xffff, 0x0808, 0x0808]));
    assert!(is_reserved_ipv6([0xfd12, 0, 0, 0, 0, 0, 0, 1]));
    assert!(is_reserved_ipv6([0xfe80, 0, 0, 0, 0, 0, 0, 1]));
    assert!(is_reserved_ipv6([0x2001, 0x0db8, 0, 0, 0, 0, 0, 1]));
    assert!(is_reserved_ipv6([0x0064, 0xff9b, 0, 0, 0, 0, 0x0808, 0x0808]));
    assert!(!is_reserved_ipv6([0x2606, 0x4700, 0, 0, 0, 0, 0, 0x1111]));
    assert!(is_reserved_ip(&Ip::V6(0, 0, 0, 0, 0, 0, 0, 1)));
    assert!(!is_reserved_ip(&Ip::V4(1, 1, 1, 1)));
}

#[test]
fn system_proxy_settings_are_read() {
    assert_eq!(proxy_from_server("127.0.0.1:7892").as_deref(), Some("http://127.0.0.1:7892"));
    assert_eq!(
        proxy_from_server("ftp=1.2.3.4:21;HTTPS= 127.0.0.1:7890 ;http=9.9.9.9:1").as_deref(),
        Some("http://127.0.0.1:7890")
    );
    assert_eq!(proxy_from_server(" https://p.example:8443 ").as_deref(), Some("https://p.example:8443"));
    assert_eq!(proxy_from_server("SOCKS5://127.0.0.1:1080"), None);
    assert_eq!(proxy_from_server("socks=127.0.0.1:1080"), None);
    assert_eq!(proxy_from_server("ftp=1.2.3.4:21").as_deref(), Some("http://ftp=1.2.3.4:21"));
    assert_eq!(proxy_from_server("   "), None);
    assert_eq!(proxy_from_server("http=   "), None);
}
