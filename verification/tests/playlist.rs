use iptv_proxy::playlist::{
    has_bare_uri, is_likely_media_resource, is_rewritable, rewrite_m3u8_lines, rewrite_quoted_uri,
    tag_requires_uri,
};

const PROXY: &str = "http://192.168.1.3:8080/?url=";
const ORIGIN: &str = "http://hls.example.com";
const BASE: &str = "http://hls.example.com/live/";

#[test]
fn media_resource_detection() {
    assert!(is_likely_media_resource("12345.ts"));
    assert!(is_likely_media_resource("00000000/12345.ts"));
    assert!(is_likely_media_resource("segment001.ts"));
    assert!(is_likely_media_resource("subdir/file.m4s"));
    assert!(is_likely_media_resource("/abs/path/file.ts"));
    assert!(is_likely_media_resource("file.ts?token=abc"));
    assert!(is_likely_media_resource("key.key"));
    assert!(!is_likely_media_resource("file.txt"));
    assert!(!is_likely_media_resource("notes.txt"));
    assert!(!is_likely_media_resource("README"));
}

#[test]
fn quoted_uri_rewrite() {
    let out = rewrite_quoted_uri(r#"#EXT-X-KEY:METHOD=AES-128,URI="key.key""#, BASE, ORIGIN, PROXY);
    assert!(
        out.contains("URI=\"http://192.168.1.3:8080/?url=http%3A%2F%2Fhls.example.com%2Flive%2Fkey.key\""),
        "got: {out}"
    );
    let out = rewrite_quoted_uri(r#"#EXT-X-MAP:URI="/init.mp4""#, BASE, ORIGIN, PROXY);
    assert!(
        out.contains("URI=\"http://192.168.1.3:8080/?url=http%3A%2F%2Fhls.example.com%2Finit.mp4\""),
        "got: {out}"
    );
    let out = rewrite_quoted_uri(
        r#"#EXT-X-KEY:METHOD=AES-128,URI="https://cdn.example.com/k/abc.key""#,
        BASE,
        ORIGIN,
        PROXY,
    );
    assert!(
        out.contains("URI=\"http://192.168.1.3:8080/?url=https%3A%2F%2Fcdn.example.com%2Fk%2Fabc.key\""),
        "got: {out}"
    );
}

#[test]
fn full_playlist_rewrite() {
    let input = "#EXTM3U\n\
#EXT-X-VERSION:3\n\
#EXT-X-TARGETDURATION:10\n\
#EXTINF:10.0,\n\
12345.ts\n\
#EXTINF:10.0,\n\
segment002.ts\n\
#EXTINF:10.0,\n\
/abs/dir/003.ts\n\
#EXTINF:10.0,\n\
http://cdn.example.com/live/004.ts\n";
    let (out, pending) = rewrite_m3u8_lines(input, BASE, ORIGIN, PROXY, true, None);
    assert!(pending.is_none());
    assert!(
        out.contains("http://192.168.1.3:8080/?url=http%3A%2F%2Fhls.example.com%2Flive%2F12345.ts"),
        "got: {out}"
    );
    assert!(
        out.contains("http://192.168.1.3:8080/?url=http%3A%2F%2Fhls.example.com%2Flive%2Fsegment002.ts"),
        "got: {out}"
    );
    assert!(
        out.contains("http://192.168.1.3:8080/?url=http%3A%2F%2Fhls.example.com%2Fabs%2Fdir%2F003.ts"),
        "got: {out}"
    );
    assert!(
        out.contains("http://192.168.1.3:8080/?url=http%3A%2F%2Fcdn.example.com%2Flive%2F004.ts"),
        "got: {out}"
    );
    assert_eq!(out.matches("#EXTINF:10.0,").count(), 4);
    assert!(out.starts_with("#EXTM3U\n"));
    assert!(out.contains("#EXT-X-VERSION:3\n"));
    assert!(out.contains("#EXT-X-TARGETDURATION:10\n"));
}

fn rewrite(content: &str) -> String {
    let (out, pending) = rewrite_m3u8_lines(content, BASE, ORIGIN, PROXY, true, None);
    assert!(pending.is_none());
    out
}

#[test]
fn playlist_is_exactly_rewritten() {
    assert_eq!(
        rewrite("#EXTM3U\r\n#EXTINF:10,\r\na b.ts?x=1&y=2\r\n\r\nREADME\n"),
        "#EXTM3U\n#EXTINF:10,\n\
http://192.168.1.3:8080/?url=http%3A%2F%2Fhls.example.com%2Flive%2Fa%20b.ts%3Fx%3D1%26y%3D2\n\
\nREADME\n"
    );
}

#[test]
fn last_line_may_go_without_a_line_feed() {
    assert_eq!(rewrite("#EXTM3U"), "#EXTM3U\n");
    assert_eq!(rewrite(""), "");
    assert_eq!(rewrite("\n"), "\n");
}

#[test]
fn pictures_become_streams() {
    assert_eq!(
        rewrite("v/1.jpeg\n"),
        "http://192.168.1.3:8080/?url=http%3A%2F%2Fhls.example.com%2Flive%2Fv%2F1.ts%3Freal_ext%3Djpeg\n"
    );
    assert_eq!(
        rewrite("/1.ts?f=2.jpeg\n"),
        "http://192.168.1.3:8080/?url=http%3A%2F%2Fhls.example.com%2F1.ts%3Ff%3D2.ts%26real_ext%3Djpeg\n"
    );
    // An absolute address stays what it is, and so does a picture with a query.
    assert_eq!(
        rewrite("http://a.b/1.jpeg\n2.jpeg?t=1\n"),
        "http://192.168.1.3:8080/?url=http%3A%2F%2Fa.b%2F1.jpeg\n\
http://192.168.1.3:8080/?url=http%3A%2F%2Fhls.example.com%2Flive%2F2.jpeg%3Ft%3D1\n"
    );
}

#[test]
fn no_line_is_lost() {
    let input = "#EXTM3U\n\n#EXT-X-STREAM-INF:BANDWIDTH=1\nlow\n#EXT-X-KEY:URI=\"k.key\"\n1.ts\n# note\n";
    let out = rewrite(input);
    assert_eq!(out.lines().count(), input.lines().count());
    let lines: Vec<&str> = out.lines().collect();
    assert_eq!(lines[2], "#EXT-X-STREAM-INF:BANDWIDTH=1");
    assert_eq!(lines[3], "low");
    assert_eq!(
        lines[4],
        "#EXT-X-KEY:URI=\"http://192.168.1.3:8080/?url=http%3A%2F%2Fhls.example.com%2Flive%2Fk.key\""
    );
    assert_eq!(lines[6], "# note");
}

#[test]
fn parts_give_what_the_whole_gives() {
    let (a, b) = ("#EXTM3U\n#EXTINF:1,\n", "1.ts\n#EXTINF:2,\n2.ts\n");
    let (first, held) = rewrite_m3u8_lines(a, BASE, ORIGIN, PROXY, false, None);
    assert_eq!(first, "#EXTM3U\n");
    assert_eq!(held.as_deref(), Some("#EXTINF:1,"));
    let (second, last) = rewrite_m3u8_lines(b, BASE, ORIGIN, PROXY, true, held);
    assert!(last.is_none());
    assert_eq!(first + &second, rewrite(&format!("{a}{b}")));
}

#[test]
fn tags_that_belong_to_an_address() {
    assert!(tag_requires_uri("#EXTINF:10,"));
    assert!(tag_requires_uri("#EXT-X-STREAM-INF:BANDWIDTH=1"));
    assert!(tag_requires_uri("#EXT-X-I-FRAME-STREAM-INF:URI=\"a\""));
    assert!(!tag_requires_uri("#EXT-X-KEY:METHOD=NONE"));
}

#[test]
fn addresses_in_stream_tags_are_rewritten() {
    let tag = "#EXT-X-I-FRAME-STREAM-INF:BANDWIDTH=1,URI=\"i.m3u8\"\n";
    let new = "#EXT-X-I-FRAME-STREAM-INF:BANDWIDTH=1,URI=\"P?url=http%3A%2F%2Fh.com%2Fv%2Fi.m3u8\"";
    let rewrite = |content: &str, end: bool, held: Option<String>| {
        rewrite_m3u8_lines(content, "http://h.com/v/", "http://h.com", "P?url=", end, held)
    };
    assert_eq!(rewrite(tag, true, None), (format!("{new}\n"), None));
    // It is rewritten when it is held back, and comes out as it was held.
    let (first, held) = rewrite(tag, false, None);
    assert_eq!((first.as_str(), held.as_deref()), ("", Some(new)));
    assert_eq!(rewrite("\n", true, held), (format!("{new}\n\n"), None));
    // A title is no address.
    assert_eq!(rewrite("#EXTINF:1,URI=\"a\"\n", true, None).0, "#EXTINF:1,URI=\"a\"\n");
    // Nothing is lost behind the address.
    assert_eq!(
        rewrite("#EXT-X-STREAM-INF:URI=\"/a\",URI=\n", true, None).0,
        "#EXT-X-STREAM-INF:URI=\"P?url=http%3A%2F%2Fh.com%2Fa\",URI=\n"
    );
}

#[test]
fn quotes_that_do_not_close() {
    assert_eq!(
        rewrite_quoted_uri("#X:URI=\"a,URI=b", BASE, ORIGIN, PROXY),
        "#X:URI=\"a,URI=b"
    );
    assert_eq!(
        rewrite_quoted_uri("#X:URI=\"a\",URI=\"/b\"", BASE, ORIGIN, PROXY),
        "#X:URI=\"http://192.168.1.3:8080/?url=http%3A%2F%2Fhls.example.com%2Flive%2Fa\",\
URI=\"http://192.168.1.3:8080/?url=http%3A%2F%2Fhls.example.com%2Fb\""
    );
}

#[test]
fn quoted_addresses_may_hold_any_text() {
    assert_eq!(
        rewrite_quoted_uri("#X:URI=\"\u{e9}.key\"", BASE, ORIGIN, PROXY),
        "#X:URI=\"http://192.168.1.3:8080/?url=http%3A%2F%2Fhls.example.com%2Flive%2F%C3%A9.key\""
    );
    // All other text is kept.
    assert_eq!(rewrite_quoted_uri("#\u{e9}", BASE, ORIGIN, PROXY), "#\u{e9}");
    assert_eq!(
        rewrite_quoted_uri(
            "#EXT-X-MEDIA:NAME=\"\u{e9}\",URI=\"a.m3u8\"",
            "http://h.com/v/",
            "http://h.com",
            "P?url=",
        ),
        "#EXT-X-MEDIA:NAME=\"\u{e9}\",URI=\"P?url=http%3A%2F%2Fh.com%2Fv%2Fa.m3u8\""
    );
    assert_eq!(rewrite_quoted_uri("#X:URI=\u{4e2d}\u{6587}", BASE, ORIGIN, PROXY), "#X:URI=\u{4e2d}\u{6587}");
}

#[test]
fn bare_uri_is_found() {
    assert!(has_bare_uri("#X:URI=\"a\",URI="));
    assert!(!has_bare_uri("#X:URI=\"a\""));
    assert!(!has_bare_uri("#X:URI=URI="));
    assert!(!is_rewritable("#X:URI=\"a\",URI=\n"));
    assert!(is_rewritable("#EXTINF:URI=\"a\",URI=\n#X:URI=\n#EXT-X-STREAM-INF:URI=\"a\",URI=\n"));
}
