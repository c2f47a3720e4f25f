use iptv_proxy::address::IpAddr;
use iptv_proxy::config::{allow_hosts, allow_private, configure, local_ip, proxy_base, Environment};
use iptv_proxy::resolver::{Ipv4Resolver, SocketAddr, CACHE_NANOS};
use iptv_proxy::system_proxy::{
    parse_ie_proxy, planned_variables, proxy_enabled, proxy_server, proxy_variables,
};

fn args(list: &[&str]) -> Vec<String> {
    list.iter().map(|a| a.to_string()).collect()
}

fn some(text: &str) -> Option<String> {
    Some(text.to_string())
}

fn nothing_set() -> Environment {
    Environment {
        local_ip: None,
        allow_private: None,
        allow_hosts: None,
        default_referer: None,
        default_ua: None,
        proxy_base: None,
    }
}

#[test]
fn usual_setup() {
    let state = configure(&args(&[]), &nothing_set(), 8080);
    assert_eq!(state.proxy_base, "http://192.168.1.1:8080/?url=");
    assert!(state.allow_hosts.is_none());
    assert!(!state.allow_private);
    assert_eq!(state.default_referer, "https://missav.ws/dm242/cn");
    assert!(state.default_ua.ends_with("Chrome/120.0.0.0 Safari/537.36"));
}

#[test]
fn everything_set() {
    let env = Environment {
        local_ip: some("10.0.0.2"),
        allow_private: some("TRUE"),
        allow_hosts: some("A.com"),
        default_referer: some("r"),
        default_ua: some("u"),
        proxy_base: some("https://p.q/?url="),
    };
    let state = configure(&args(&[]), &env, 1);
    assert_eq!(state.proxy_base, "https://p.q/?url=");
    assert_eq!(state.allow_hosts, Some(args(&["surrit.com", "a.com"])));
    assert!(state.allow_private);
    assert_eq!((state.default_referer.as_str(), state.default_ua.as_str()), ("r", "u"));
}

#[test]
fn address_of_the_machine() {
    assert_eq!(local_ip(&args(&["-v", "-Li", "1.2.3.4", "-Li", "5.6.7.8"]), &some("9.9.9.9")), "1.2.3.4");
    assert_eq!(local_ip(&args(&["-Li"]), &some("9.9.9.9")), "9.9.9.9");
    assert_eq!(local_ip(&args(&["-li", "1.2.3.4"]), &None), "192.168.1.1");
    assert_eq!(proxy_base(&None, "1.2.3.4", 0), "http://1.2.3.4:0/?url=");
    assert_eq!(proxy_base(&None, "h", 65535), "http://h:65535/?url=");
}

#[test]
fn switches() {
    assert!(allow_private(&some("1")));
    assert!(allow_private(&some("True")));
    assert!(!allow_private(&some("yes")));
    assert!(!allow_private(&some("")));
    assert!(!allow_private(&None));
}

#[test]
fn host_lists() {
    assert_eq!(allow_hosts(&None), None);
    assert_eq!(allow_hosts(&some("")), Some(args(&["surrit.com"])));
    assert_eq!(
        allow_hosts(&some(" A.b ,,\tC.D\u{3000}, \u{c4}.e")),
        Some(args(&["surrit.com", "a.b", "c.d", "\u{e4}.e"]))
    );
}

fn v4(a: u8, b: u8, c: u8, d: u8, port: u16) -> SocketAddr {
    SocketAddr { ip: IpAddr::V4(a, b, c, d), port }
}

#[test]
fn global_addresses_are_used_and_remembered() {
    let mut resolver = Ipv4Resolver::new(false);
    assert!(resolver.cached("a.b", 0).is_none());
    let found = vec![
        SocketAddr { ip: IpAddr::V6([1, 2, 3, 4, 5, 6, 7, 8]), port: 0 },
        v4(127, 0, 0, 1, 0),
        v4(1, 1, 1, 1, 53),
        v4(8, 8, 8, 8, 0),
    ];
    let used = resolver.resolve("a.b", &found, 1_000).unwrap();
    let kept = resolver.cached("a.b", 1_000 + CACHE_NANOS - 1).unwrap();
    for addrs in [used, kept] {
        assert_eq!(addrs.len(), 2);
        assert!(matches!(addrs[0], SocketAddr { ip: IpAddr::V4(1, 1, 1, 1), port: 0 }));
        assert!(matches!(addrs[1], SocketAddr { ip: IpAddr::V4(8, 8, 8, 8), port: 0 }));
    }
    assert!(resolver.cached("a.b", 1_000 + CACHE_NANOS).is_none());
    assert!(resolver.cached("c.d", 1_000).is_none());
}

#[test]
fn hosts_without_a_usable_address() {
    let mut resolver = Ipv4Resolver::new(false);
    assert_eq!(
        resolver.resolve("a.b", &vec![v4(10, 0, 0, 1, 0)], 0).unwrap_err(),
        "no global A record for a.b"
    );
    assert_eq!(
        resolver.resolve("240.0.0.1", &vec![v4(240, 0, 0, 1, 0)], 0).unwrap_err(),
        "no global A record for 240.0.0.1"
    );
    assert!(resolver.cached("a.b", 0).is_none());
    let mut open = Ipv4Resolver::new(true);
    assert_eq!(open.resolve("a.b", &vec![v4(10, 0, 0, 1, 0)], 0).unwrap().len(), 1);
}

#[test]
fn system_proxies() {
    let both = |a: &str, b: &str| (a.to_string(), b.to_string());
    assert_eq!(parse_ie_proxy("p:80"), both("p:80", "p:80"));
    assert_eq!(parse_ie_proxy("http=a:1;https=b:2"), both("a:1", "b:2"));
    assert_eq!(parse_ie_proxy(" HTTP = a:1 ;ftp=c:3"), both("a:1", "a:1"));
    assert_eq!(parse_ie_proxy("https=b:2"), both("b:2", "b:2"));
    assert_eq!(parse_ie_proxy("http=a;http=b=c"), both("b=c", "b=c"));
    assert_eq!(parse_ie_proxy("ftp=c:3"), both("", ""));
}

#[test]
fn system_proxy_variables() {
    assert_eq!(proxy_variables(""), vec![]);
    assert_eq!(proxy_variables("p:80"), vec![
        ("HTTP_PROXY".to_string(), "p:80".to_string()),
        ("HTTPS_PROXY".to_string(), "p:80".to_string()),
    ]);
    assert_eq!(proxy_variables("ftp=c:3"), vec![]);
}

#[test]
fn planned_proxy_variables() {
    let on = Some("ProxyEnable    REG_DWORD    0x1");
    let server = Some("ProxyServer    REG_SZ    p:80\r\n");
    assert_eq!(planned_variables(false, on, server), proxy_variables("p:80"));
    assert_eq!(planned_variables(true, on, server), vec![]);
    assert_eq!(planned_variables(false, Some("ProxyEnable    REG_DWORD    0x0"), server), vec![]);
    assert_eq!(planned_variables(false, None, server), vec![]);
    assert_eq!(planned_variables(false, on, None), vec![]);
    assert_eq!(planned_variables(false, on, Some("")), vec![]);
}

#[test]
fn registry_answers() {
    assert!(proxy_enabled("    ProxyEnable    REG_DWORD    0x1\r\n"));
    assert!(!proxy_enabled("    ProxyEnable    REG_DWORD    0x0\r\n"));
    assert_eq!(proxy_server("\r\nHKEY\r\n    ProxyServer    REG_SZ    p:80\r\n\r\n"), "p:80");
    assert_eq!(proxy_server("    ProxyServer    REG_BINARY"), "");
    assert_eq!(proxy_server(""), "");
}
