use http::{HeaderMap, HeaderValue};
use iptv_proxy::address::{is_global_ip, parse_ip, IpAddr};
use iptv_proxy::handler::{
    client_error, find_url_param, host_is_listed, make_fetch, plan_request, plan_target, refuse_host,
    refuse_target, route, state_is_private_ok, AppState, Fetch, Plan, Reply, Step,
};
use iptv_proxy::headers::{forward_headers, hv};
use iptv_proxy::target::{edit_target, fits_url, Target, HREF_LIMIT, PART_LIMIT};

fn setup() -> AppState {
    AppState {
        proxy_base: "http://192.168.1.3:8080/?url=".to_string(),
        allow_hosts: None,
        allow_private: false,
        default_referer: "https://example.com/".to_string(),
        default_ua: "player".to_string(),
    }
}

fn plan(state: &AppState, query: &str) -> Plan {
    plan_request(state, "GET", "/", query, &HeaderMap::new())
}

fn fetch(state: &AppState, query: &str) -> Fetch {
    match plan(state, query) {
        Plan::Fetch(fetch) => fetch,
        _ => panic!("no request to the origin"),
    }
}

fn answer(plan: Plan) -> Reply {
    match plan {
        Plan::Answer(reply) => reply,
        _ => panic!("no answer"),
    }
}

fn refused(state: &AppState, query: &str) -> (u16, String) {
    let reply = answer(plan(state, query));
    assert_eq!(reply.headers["content-type"], "text/plain; charset=utf-8");
    assert_eq!(reply.headers["connection"], "close");
    assert_eq!(reply.headers.len(), 2);
    (reply.status, reply.body)
}

#[test]
fn health_and_root_are_answered() {
    let state = setup();
    for (path, query) in [("/health", ""), ("/", ""), ("/health", "url=x")] {
        let reply = answer(plan_request(&state, "POST", path, query, &HeaderMap::new()));
        assert_eq!((reply.status, reply.body.as_str()), (200, "OK"));
        assert!(reply.headers.is_empty());
    }
    let reply = answer(plan_request(&state, "GET", "/favicon.ico", "", &HeaderMap::new()));
    assert_eq!((reply.status, reply.body.as_str()), (404, ""));
}

#[test]
fn only_get_is_allowed() {
    let reply = answer(plan_request(&setup(), "POST", "/", "url=x", &HeaderMap::new()));
    assert_eq!((reply.status, reply.body.as_str()), (405, "Method Not Allowed"));
}

#[test]
fn requests_without_url_are_told_how_to_ask() {
    let told = (400, "Use /?url=<encoded_target>".to_string());
    assert_eq!(refused(&setup(), "uri=http://a.b/"), told);
    let reply = answer(plan_request(&setup(), "GET", "/iptv/http://a.b/c", "", &HeaderMap::new()));
    assert_eq!((reply.status, reply.body), told);
}

#[test]
fn bad_urls_are_refused() {
    let bad = (400, "Bad Request".to_string());
    // Not UTF-8, no URL, no host, a host without a dot, one that ends with it.
    for query in [
        "url=%ff",
        "url=segment.ts",
        "url=data:text",
        "url=http%3A%2F%2Flocalhost%2F",
        "url=http%3A%2F%2Fexample.com.%2F",
    ] {
        assert_eq!(refused(&setup(), query), bad, "{query}");
    }
}

#[test]
fn private_addresses_are_refused() {
    let forbidden = (403, "Forbidden".to_string());
    for host in [
        "10.0.0.1", "172.16.0.1", "192.168.1.1", "127.0.0.1", "169.254.169.254", "0.0.0.0",
        "224.0.0.1", "0x7f.1", "240.0.0.1", "100.64.0.1", "192.0.2.1",
    ] {
        let query = format!("url=http%3A%2F%2F{host}%2Fa.ts");
        assert_eq!(refused(&setup(), &query), forbidden, "{host}");
        let open = AppState { allow_private: true, ..setup() };
        assert_eq!(fetch(&open, &query).target.path, "/a.ts");
    }
    assert_eq!(fetch(&setup(), "url=http%3A%2F%2F8.8.8.8%2F").target.host.as_deref(), Some("8.8.8.8"));
}

#[test]
fn listed_hosts_are_asked() {
    let state = AppState { allow_hosts: Some(vec!["surrit.com".to_string()]), ..setup() };
    assert_eq!(fetch(&state, "url=https://SURRIT.com/a").target.authority, "surrit.com");
    assert_eq!(fetch(&state, "url=https://cdn.surrit.com/a").target.authority, "cdn.surrit.com");
    let forbidden = (403, "Forbidden".to_string());
    assert_eq!(refused(&state, "url=https://notsurrit.com/a"), forbidden);
    assert_eq!(refused(&state, "url=https://surrit.com.evil.org/a"), forbidden);
    assert!(host_is_listed("a.surrit.com", state.allow_hosts.as_ref().unwrap()));
    assert!(!host_is_listed("surrit.org", state.allow_hosts.as_ref().unwrap()));
}

#[test]
fn hosts_are_refused_one_by_one() {
    let state = AppState { allow_hosts: Some(vec!["b.c".to_string()]), ..setup() };
    assert_eq!(refuse_host(&state, "", "").unwrap().status, 400);
    assert_eq!(refuse_host(&state, "b", "b").unwrap().status, 400);
    assert_eq!(refuse_host(&state, "127.0.0.1", "b.c").unwrap().status, 403);
    assert_eq!(refuse_host(&state, "B.C", "B.C").unwrap().status, 403);
    assert!(refuse_host(&state, "B.C", "b.c").is_none());
}

#[test]
fn url_parameter_is_the_first_one() {
    assert_eq!(find_url_param("a=1&url=x%26y&url=z").as_deref(), Some("x%26y"));
    assert_eq!(find_url_param("url="), Some(String::new()));
    assert_eq!(find_url_param("curl=x"), None);
    assert_eq!(find_url_param(""), None);
}

#[test]
fn requested_url_is_decoded() {
    assert!(matches!(route("GET", "/", "url=http%3a%2F%2Fa.b%2F%E4%B8%AD+%zz"),
        Ok(text) if text == "http://a.b/\u{4e2d}+%zz"));
    assert!(matches!(route("GET", "/", "url=%C3"), Err(reply) if reply.status == 400));
}

#[test]
fn playlist_request_is_planned() {
    let f = fetch(&setup(), "url=https%3A%2F%2Fu%3Ap%40a.b%3A8443%2Fx%2Fy%2Findex.m3u8%3Ft%3D1");
    assert!(f.playlist);
    assert!(!f.jpeg);
    assert_eq!(f.target.href, "https://u:p@a.b:8443/x/y/index.m3u8?t=1");
    assert_eq!(f.target.host.as_deref(), Some("a.b"));
    assert_eq!(f.origin_base, "https://u:p@a.b:8443");
    assert_eq!(f.base_url, "https://u:p@a.b:8443/x/y/");
    assert_eq!(f.headers["host"], "u:p@a.b:8443");
    assert_eq!(f.headers["user-agent"], "player");
    assert_eq!(f.headers["referer"], "https://example.com/");
    assert_eq!(f.headers["accept"], "*/*");
    assert_eq!(f.headers["accept-encoding"], "identity");
    assert_eq!(f.headers.len(), 5);
}

#[test]
fn client_fields_are_handed_on() {
    let mut client = HeaderMap::new();
    client.insert("user-agent", HeaderValue::from_static("vlc"));
    client.insert("referer", HeaderValue::from_bytes(b"\xff").unwrap());
    client.append("cookie", HeaderValue::from_static("a=1"));
    client.append("cookie", HeaderValue::from_static("b=2"));
    client.insert("authorization", HeaderValue::from_static("Basic x"));
    client.insert("x-secret", HeaderValue::from_static("s"));
    let f = match plan_request(&setup(), "GET", "/", "url=http://a.b/1.ts", &client) {
        Plan::Fetch(fetch) => fetch,
        _ => panic!("no request to the origin"),
    };
    assert!(!f.playlist);
    assert_eq!(f.headers["user-agent"], "vlc");
    assert_eq!(f.headers["referer"], "https://example.com/");
    assert_eq!(f.headers.get_all("cookie").iter().count(), 1);
    assert_eq!(f.headers["cookie"], "a=1");
    assert_eq!(f.headers["authorization"], "Basic x");
    assert!(!f.headers.contains_key("x-secret"));
    assert!(!f.headers.contains_key("accept-encoding"));
    assert_eq!(f.headers.len(), 6);
    assert_eq!(forward_headers(&client, "Cookie"), Some(HeaderValue::from_static("a=1")));
    assert_eq!(forward_headers(&client, "no name"), None);
}

#[test]
fn pictures_are_asked_for_by_their_own_name() {
    let f = fetch(&setup(), "url=http%3A%2F%2Fa.b%2Fv%2F1.ts%3Ft%3D1%26real_ext%3Djpeg%26u%3Da%2520b");
    assert!(f.jpeg);
    assert_eq!(f.target.path, "/v/1.jpeg");
    assert_eq!(f.target.href, "http://a.b/v/1.jpeg?t=1&u=a+b");
    assert_eq!(f.target.pairs, vec![
        ("t".to_string(), "1".to_string()),
        ("u".to_string(), "a b".to_string()),
    ]);
    let g = fetch(&setup(), "url=http%3A%2F%2Fa.b%2F1.ts%3Freal_ext%3Dpng");
    assert!(!g.jpeg);
    assert_eq!(g.target.href, "http://a.b/1.ts?real_ext=png");
    // Whatever stands in the path of the URL stays, and so does the host.
    assert_eq!(
        fetch(&setup(), "url=http://a.b/x%252E,@:+/.c/%257Ed[1]/1.ts%3Freal_ext%3Djpeg").target.path,
        "/x%2E,@:+/.c/%7Ed[1]/1.jpeg"
    );
    let file = fetch(&setup(), "url=file://h.x//C:/a.ts%3Freal_ext%3Djpeg").target;
    assert_eq!(file.host.as_deref(), Some("h.x"));
    assert_eq!(file.path, "/C:/a.jpeg");
    // Nothing is left of the query.
    assert_eq!(fetch(&setup(), "url=http%3A%2F%2Fa.b%2F1.ts%3Freal_ext%3Djpeg").target.path, "/1.jpeg");
}

#[test]
fn long_urls_are_not_edited() {
    let bad = (400, "Bad Request".to_string());
    let long = format!("url=http://a.b/{}?real_ext=jpeg", "a".repeat(HREF_LIMIT));
    assert_eq!(refused(&setup(), &long), bad);
    let grows = format!("url=http://a.b/{}?real_ext=jpeg", ".ts".repeat(HREF_LIMIT / 4));
    assert_eq!(refused(&setup(), &grows), bad);
    assert!(fits_url("t", "p", &vec![]));
    assert!(!fits_url("t", &"p".repeat(PART_LIMIT + 1), &vec![]));
    let pair = ("k".repeat(PART_LIMIT - 2), String::new());
    assert!(fits_url("t", "p", &vec![pair.clone()]));
    assert!(!fits_url("t", "p", &vec![pair, (String::new(), String::new())]));
}

#[test]
fn urls_are_edited() {
    let pairs = vec![
        ("a b".to_string(), "c&d=\u{e9}+".to_string()),
        (String::new(), String::new()),
        ("".to_string(), "x".to_string()),
    ];
    let t = edit_target("https://u@a.b:8/x/y?z=1#f", "/n/m.jpeg", &pairs).unwrap();
    assert_eq!(t.href, "https://u@a.b:8/n/m.jpeg?a+b=c%26d%3D%C3%A9%2B&=&=x#f");
    assert_eq!(t.pairs, pairs);
    assert_eq!(t.path, "/n/m.jpeg");
    assert_eq!(t.authority, "u@a.b:8");
    // A path that is not simple is written as the crate writes it.
    assert_eq!(edit_target("http://a.b/", "/x/../y z?", &vec![]).unwrap().path, "/y%20z%3F");
    assert!(edit_target("no url", "/", &vec![]).is_none());
    assert!(edit_target("http://a.b/", &"p".repeat(PART_LIMIT + 1), &vec![]).is_none());
}

#[test]
fn targets_have_a_directory() {
    let mut target = Target {
        href: String::new(),
        scheme: "http".to_string(),
        authority: "a.b".to_string(),
        host: None,
        path: "/x/y".to_string(),
        pairs: vec![],
    };
    assert_eq!(target.base_url(), "http://a.b/x/");
    target.path = "y".to_string();
    assert_eq!(target.base_url(), "http://a.b/");
    assert!(!target.is_playlist());
    target.path = "/l.m3u".to_string();
    assert!(target.is_playlist());
    assert_eq!(refuse_target(&setup(), &target).unwrap().status, 400);
    assert_eq!(make_fetch(&setup(), target, true, false, &HeaderMap::new()).origin_base, "http://a.b");
}

#[test]
fn addresses_are_read() {
    assert!(matches!(parse_ip("192.168.1.20"), Some(IpAddr::V4(192, 168, 1, 20))));
    assert!(matches!(parse_ip("255.255.255.255"), Some(IpAddr::V4(255, 255, 255, 255))));
    for text in ["", "1.2.3", "1.2.3.4.5", "01.2.3.4", "1.2.3.256", "1.2.3.a", "1..2.3", "[::1]", "a.b"] {
        assert!(parse_ip(text).is_none(), "{text}");
    }
}

#[test]
fn address_ranges() {
    for ip in [(10, 255, 0, 1), (172, 31, 0, 1), (192, 168, 0, 1), (127, 0, 0, 2), (169, 254, 0, 1),
        (0, 0, 0, 0), (239, 0, 0, 1), (0, 0, 0, 1), (100, 64, 0, 1), (100, 127, 255, 255),
        (192, 0, 0, 8), (192, 0, 2, 1), (198, 51, 100, 1), (203, 0, 113, 1), (198, 19, 0, 1),
        (240, 0, 0, 1), (255, 255, 255, 255)] {
        assert!(!is_global_ip(IpAddr::V4(ip.0, ip.1, ip.2, ip.3)));
    }
    for ip in [(172, 32, 0, 1), (1, 0, 0, 1), (223, 255, 255, 255), (100, 128, 0, 1), (192, 0, 0, 9),
        (192, 0, 1, 1), (198, 20, 0, 1), (203, 0, 112, 1)] {
        assert!(is_global_ip(IpAddr::V4(ip.0, ip.1, ip.2, ip.3)));
    }
    assert!(!is_global_ip(IpAddr::V6([0, 0, 0, 0, 0, 0, 0, 1])));
    assert!(!is_global_ip(IpAddr::V6([0, 0, 0, 0, 0, 0, 0, 0])));
    assert!(!is_global_ip(IpAddr::V6([0xff02, 0, 0, 0, 0, 0, 0, 1])));
    assert!(!is_global_ip(IpAddr::V6([0xfe80, 0, 0, 0, 0, 0, 0, 1])));
    assert!(!is_global_ip(IpAddr::V6([0xfebf, 0, 0, 0, 0, 0, 0, 1])));
    assert!(!is_global_ip(IpAddr::V6([0xfd00, 0, 0, 0, 0, 0, 0, 1])));
    assert!(!is_global_ip(IpAddr::V6([0xfc00, 0, 0, 0, 0, 0, 0, 1])));
    assert!(is_global_ip(IpAddr::V6([0xfec0, 0, 0, 0, 0, 0, 0, 1])));
    assert!(is_global_ip(IpAddr::V6([0x2606, 0x4700, 0, 0, 0, 0, 0, 1])));
    assert!(!state_is_private_ok(&setup(), IpAddr::V4(127, 0, 0, 1)));
    assert!(state_is_private_ok(&AppState { allow_private: true, ..setup() }, IpAddr::V4(127, 0, 0, 1)));
}

#[test]
fn header_values_are_made_of_text() {
    assert_eq!(hv("a b"), "a b");
    assert_eq!(hv("a\nb"), "");
    assert_eq!(hv("\u{e9}").as_bytes(), [0xc3, 0xa9]);
    assert_eq!(client_error(418, "no").body, "no");
}

#[test]
fn parsed_urls_lead_to_a_step() {
    let target = |url: &str| fetch(&AppState { allow_private: true, ..setup() }, &format!("url={url}")).target;
    let none = HeaderMap::new();
    let step = |parsed| plan_target(&setup(), parsed, &none);
    assert!(matches!(step(None), Step::Plan(Plan::Answer(reply)) if reply.status == 400));
    assert!(matches!(step(Some(target("http://127.0.0.1/"))),
        Step::Plan(Plan::Answer(reply)) if reply.status == 403));
    assert!(matches!(step(Some(target("http://a.b/c.m3u8"))), Step::Plan(Plan::Fetch(f)) if f.playlist));
    let mut marked = target("http://a.b/c.ts");
    marked.pairs = vec![("real_ext".to_string(), "jpeg".to_string()), ("t".to_string(), "1".to_string())];
    match step(Some(marked)) {
        Step::Edit(path, pairs, playlist) => {
            assert_eq!(path, "/c.jpeg");
            assert_eq!(pairs, vec![("t".to_string(), "1".to_string())]);
            assert!(!playlist);
        }
        _ => panic!("no change"),
    }
}
