use http::{HeaderMap, HeaderValue};
use iptv_proxy::handler::{plan_request, AppState, Fetch, Plan};
use iptv_proxy::headers::{media_headers, playlist_headers, NAME_LIMIT};
use iptv_proxy::reply::{
    find_place, full_err, gateway_error, plan_relay, plan_relay_to, playlist_reply,
    proxied_location, relay_playlist, should_retry, Relay,
};

fn setup() -> AppState {
    AppState {
        proxy_base: "http://192.168.1.3:8080/?url=".to_string(),
        allow_hosts: None,
        allow_private: false,
        default_referer: String::new(),
        default_ua: String::new(),
    }
}

fn fetch(url: &str) -> Fetch {
    let query = format!("url={url}");
    match plan_request(&setup(), "GET", "/", &query, &HeaderMap::new()) {
        Plan::Fetch(fetch) => fetch,
        _ => panic!("no request to the origin"),
    }
}

fn fields(list: &[(&'static str, &'static str)]) -> HeaderMap {
    let mut headers = HeaderMap::new();
    for (name, value) in list {
        headers.append(*name, HeaderValue::from_static(value));
    }
    headers
}

fn location(status: u16, to: &'static str) -> Option<String> {
    match plan_relay(&fetch("http://a.b/x/y.ts"), status, fields(&[("location", to)])) {
        Relay::Answer(reply) => {
            assert_eq!((reply.status, reply.body.as_str()), (status, ""));
            assert_eq!(reply.headers.len(), 1);
            Some(reply.headers["location"].to_str().unwrap().to_string())
        }
        _ => None,
    }
}

#[test]
fn redirects_lead_through_the_proxy() {
    assert_eq!(location(302, "https://c.d/e?f=g").as_deref(), Some("/?url=https%3A%2F%2Fc.d%2Fe%3Ff%3Dg"));
    assert_eq!(location(301, "z.ts").as_deref(), Some("/?url=http%3A%2F%2Fa.b%2Fx%2Fz.ts"));
    assert_eq!(location(307, "/z.ts").as_deref(), Some("/?url=http%3A%2F%2Fa.b%2Fz.ts"));
    assert_eq!(location(308, "//c.d/z.ts").as_deref(), Some("/?url=http%3A%2F%2Fc.d%2Fz.ts"));
    // A reference that cannot be resolved stays what it is.
    assert_eq!(location(302, "http://[").as_deref(), Some("/?url=http%3A%2F%2F%5B"));
    assert!(location(200, "z.ts").is_none());
}

#[test]
fn redirects_come_back() {
    let to = location(302, "https://c.d/e?f=g&h=i j").unwrap();
    let query = to.strip_prefix("/?").unwrap();
    match plan_request(&setup(), "GET", "/", query, &HeaderMap::new()) {
        Plan::Fetch(fetch) => assert_eq!(fetch.target.href, "https://c.d/e?f=g&h=i%20j"),
        _ => panic!("no request to the origin"),
    }
}

#[test]
fn redirects_without_a_place() {
    for headers in [HeaderMap::new(), {
        let mut headers = HeaderMap::new();
        headers.insert("location", HeaderValue::from_bytes(b"\xe9").unwrap());
        headers
    }] {
        match plan_relay(&fetch("http://a.b/x.ts"), 302, headers) {
            Relay::Answer(reply) => {
                assert_eq!((reply.status, reply.body.as_str()), (302, ""));
                assert!(reply.headers.is_empty());
            }
            _ => panic!("no answer"),
        }
    }
    assert!(matches!(plan_relay(&fetch("http://a.b/x.ts"), 304, HeaderMap::new()), Relay::Media(_)));
}

#[test]
fn places_are_resolved_where_they_can_be() {
    assert_eq!(proxied_location("a", true, Some("b".to_string())), "/?url=a");
    assert_eq!(proxied_location("a", false, Some("b".to_string())), "/?url=b");
    assert_eq!(proxied_location("a", false, None), "/?url=a");
}

const ORIGIN_FIELDS: [(&str, &str); 9] = [
    ("connection", "close"),
    ("keep-alive", "timeout=5"),
    ("transfer-encoding", "chunked"),
    ("trailer", "x"),
    ("content-encoding", "identity"),
    ("content-length", "3"),
    ("content-type", "text/plain"),
    ("set-cookie", "a=1"),
    ("set-cookie", "b=2"),
];

#[test]
fn media_fields_pass_but_for_the_connection() {
    let headers = match plan_relay(&fetch("http://a.b/x.ts"), 206, fields(&ORIGIN_FIELDS)) {
        Relay::Media(headers) => headers,
        _ => panic!("no media"),
    };
    assert_eq!(headers.keys_len(), 3);
    assert_eq!(headers["content-length"], "3");
    assert_eq!(headers["content-type"], "text/plain");
    assert_eq!(headers.get_all("set-cookie").iter().count(), 2);
}

#[test]
fn pictures_are_passed_on_as_streams() {
    let mut origin = fields(&ORIGIN_FIELDS);
    origin.insert("content-disposition", HeaderValue::from_static("attachment"));
    let f = fetch("http%3A%2F%2Fa.b%2F1.ts%3Freal_ext%3Djpeg");
    match plan_relay(&f, 200, origin.clone()) {
        Relay::Media(headers) => {
            assert_eq!(headers["content-type"], "video/mp2t");
            assert!(!headers.contains_key("content-disposition"));
            assert_eq!(headers["content-length"], "3");
        }
        _ => panic!("no media"),
    }
    assert_eq!(media_headers(origin, false)["content-disposition"], "attachment");
}

#[test]
fn playlists_are_rewritten_for_the_player() {
    let f = fetch("http://a.b/l/i.m3u8");
    let headers = match plan_relay(&f, 200, fields(&ORIGIN_FIELDS)) {
        Relay::Playlist(headers) => headers,
        _ => panic!("no playlist"),
    };
    let reply = relay_playlist(&setup(), &f, 200, headers, b"#EXTM3U\n1.ts\n/2.ts\n# \xff\n").unwrap();
    assert_eq!(reply.status, 200);
    assert_eq!(
        reply.body,
        "#EXTM3U\n\
http://192.168.1.3:8080/?url=http%3A%2F%2Fa.b%2Fl%2F1.ts\n\
http://192.168.1.3:8080/?url=http%3A%2F%2Fa.b%2F2.ts\n\
# \u{fffd}\n"
    );
    assert_eq!(reply.headers.keys_len(), 2);
    assert_eq!(reply.headers.get_all("content-type").iter().count(), 1);
    assert_eq!(reply.headers["content-type"], "application/vnd.apple.mpegurl");
    assert_eq!(reply.headers.get_all("set-cookie").iter().count(), 2);
    assert_eq!(playlist_reply(&setup(), &f, 404, HeaderMap::new(), "x").body, "x\n");
}

#[test]
fn playlists_that_cannot_be_rewritten() {
    let f = fetch("http://a.b/l/i.m3u8");
    assert!(relay_playlist(&setup(), &f, 200, HeaderMap::new(), b"#X:URI=\"a\",URI=").is_none());
}

#[test]
fn playlist_addresses_come_back() {
    let f = fetch("http://a.b/l/i.m3u8");
    let reply = relay_playlist(&setup(), &f, 200, HeaderMap::new(), b"v%201/1.jpeg\n").unwrap();
    let query = reply.body.trim_end().strip_prefix("http://192.168.1.3:8080/?").unwrap();
    match plan_request(&setup(), "GET", "/", query, &HeaderMap::new()) {
        Plan::Fetch(fetch) => {
            assert!(fetch.jpeg);
            assert_eq!(fetch.target.path, "/l/v%201/1.jpeg");
        }
        _ => panic!("no request to the origin"),
    }
}

#[test]
fn too_many_fields() {
    let mut origin = HeaderMap::new();
    for i in 0..NAME_LIMIT {
        origin.append(
            http::HeaderName::from_bytes(format!("x-{i}").as_bytes()).unwrap(),
            HeaderValue::from_static("1"),
        );
    }
    assert_eq!(playlist_headers(origin.clone()).len(), NAME_LIMIT + 1);
    origin.append("x-more", HeaderValue::from_static("1"));
    assert!(matches!(plan_relay(&fetch("http://a.b/x.ts"), 200, origin.clone()), Relay::Media(_)));
    match plan_relay(&fetch("http://a.b/x.m3u8"), 200, origin) {
        Relay::Answer(reply) => {
            assert_eq!((reply.status, reply.body.as_str()), (502, "Bad Gateway: too many header fields"));
        }
        _ => panic!("no answer"),
    }
}

#[test]
fn errors_are_told_with_their_causes() {
    let sources = vec!["connect".to_string(), "timed out".to_string()];
    assert_eq!(full_err("error sending request", &sources), "error sending request → connect → timed out");
    assert_eq!(full_err("error", &vec![]), "error");
    let reply = gateway_error("error", &sources);
    assert_eq!(reply.status, 502);
    assert_eq!(reply.body, "Bad Gateway: error → connect → timed out");
    assert_eq!(reply.headers["connection"], "close");
}

#[test]
fn a_failed_connection_is_tried_once_more() {
    assert!(should_retry(1, true));
    assert!(!should_retry(2, true));
    assert!(!should_retry(1, false));
}

#[test]
fn other_answers_keep_fields_and_body() {
    let origin = fields(&[("location", "z.ts"), ("location", "w.ts"), ("set-cookie", "a=1")]);
    match plan_relay(&fetch("http://a.b/x/y.ts"), 303, origin.clone()) {
        Relay::Media(headers) => {
            assert_eq!(headers.get_all("location").iter().count(), 1);
            assert_eq!(headers["location"], "/?url=http%3A%2F%2Fa.b%2Fx%2Fz.ts");
            assert_eq!(headers["set-cookie"], "a=1");
        }
        _ => panic!("no media"),
    }
    match plan_relay(&fetch("http://a.b/x/y.m3u8"), 300, origin.clone()) {
        Relay::Playlist(headers) => {
            assert_eq!(headers["location"], "/?url=http%3A%2F%2Fa.b%2Fx%2Fz.ts");
            assert_eq!(headers["content-type"], "application/vnd.apple.mpegurl");
        }
        _ => panic!("no playlist"),
    }
    // The place of a status of another class is passed on.
    match plan_relay(&fetch("http://a.b/x/y.ts"), 201, origin) {
        Relay::Media(headers) => assert_eq!(headers["location"], "z.ts"),
        _ => panic!("no media"),
    }
}

#[test]
fn players_are_sent_on() {
    assert_eq!(find_place("http://a.b/x/", &fields(&[("location", "y")])).as_deref(),
        Some("/?url=http%3A%2F%2Fa.b%2Fx%2Fy"));
    assert_eq!(find_place("http://a.b/x/", &HeaderMap::new()), None);
    match plan_relay_to(&fetch("http://a.b/x.ts"), 307, HeaderMap::new(), Some("/p".to_string())) {
        Relay::Answer(reply) => {
            assert_eq!((reply.status, reply.body.as_str()), (307, ""));
            assert_eq!(reply.headers["location"], "/p");
        }
        _ => panic!("no answer"),
    }
}
