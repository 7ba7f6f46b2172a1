use agent_switch::iplit::host_ip;
use agent_switch::urlguard::{address_resolved, address_start, AddressStep, Ip};

#[test]
fn dotted_ipv4_hosts_are_literals() {
    assert_eq!(host_ip("8.8.4.4"), Some(Ip::V4(8, 8, 4, 4)));
    assert_eq!(host_ip("0.0.0.0"), Some(Ip::V4(0, 0, 0, 0)));
    assert_eq!(host_ip("255.255.255.255"), Some(Ip::V4(255, 255, 255, 255)));
    assert_eq!(host_ip("256.1.1.1"), None);
    assert_eq!(host_ip("01.2.3.4"), None);
    assert_eq!(host_ip("1.2.3"), None);
    assert_eq!(host_ip("1.2.3.4.5"), None);
    assert_eq!(host_ip("example.com"), None);
    assert_eq!(host_ip(""), None);
}

#[test]
fn bracketed_ipv6_hosts_are_literals() {
    assert_eq!(host_ip("[::1]"), Some(Ip::V6(0, 0, 0, 0, 0, 0, 0, 1)));
    assert_eq!(host_ip("[::]"), Some(Ip::V6(0, 0, 0, 0, 0, 0, 0, 0)));
    assert_eq!(
        host_ip("[2606:4700::1111]"),
        Some(Ip::V6(0x2606, 0x4700, 0, 0, 0, 0, 0, 0x1111))
    );
    assert_eq!(host_ip("[1:2:3:4:5:6:7:8]"), Some(Ip::V6(1, 2, 3, 4, 5, 6, 7, 8)));
    assert_eq!(
        host_ip("[::ffff:10.0.0.1]"),
        Some(Ip::V6(0, 0, 0, 0, 0, 0xffff, 0x0a00, 0x0001))
    );
    assert_eq!(host_ip("[FE80::aB]"), Some(Ip::V6(0xfe80, 0, 0, 0, 0, 0, 0, 0xab)));
    assert_eq!(host_ip("[1:2:3:4:5:6:7]"), None);
    assert_eq!(host_ip("[1::2::3]"), None);
    assert_eq!(host_ip("[12345::1]"), None);
    assert_eq!(host_ip("[1:2:3:4::5:6:7:8]"), None);
    assert_eq!(host_ip("::1"), None);
}

fn decided(raw: &str) -> Result<String, String> {
    match address_start(raw) {
        AddressStep::Done(v) => v,
        AddressStep::Resolve { .. } => panic!("{raw} needs resolving"),
    }
}

#[test]
fn literal_hosts_are_decided_without_resolving() {
    assert_eq!(decided("https://[2606:4700::1111]/x"), Ok("https://[2606:4700::1111]/x".to_string()));
    assert_eq!(decided("http://[::1]:8080/"), Err("不允许访问内网/保留地址".to_string()));
    assert_eq!(decided("http://10.1.2.3/"), Err("不允许访问内网/保留地址".to_string()));
    assert_eq!(decided("http://1.1.1.1/"), Ok("http://1.1.1.1/".to_string()));
    assert_eq!(decided("ftp://1.1.1.1/"), Err("仅允许 http/https 地址".to_string()));
}

#[test]
fn names_are_decided_after_resolving() {
    match address_start("https://api.example.com/v1/models") {
        AddressStep::Resolve { href, host, port } => {
            assert_eq!(host, "api.example.com");
            assert_eq!(port, 443);
            assert_eq!(address_resolved(href.clone(), &vec![Ip::V4(93, 184, 216, 34)]), Ok(href.clone()));
            assert_eq!(
                address_resolved(href.clone(), &vec![Ip::V4(93, 184, 216, 34), Ip::V4(192, 168, 0, 1)]),
                Err("域名解析到内网/保留地址，已拒绝访问".to_string())
            );
            assert_eq!(address_resolved(href, &vec![]), Err("域名无法解析".to_string()));
        }
        AddressStep::Done(_) => panic!("a name is resolved first"),
    }
}
