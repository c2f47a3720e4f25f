//! The proxy that Windows is set up with, as the registry tells it.
use vstd::prelude::*;
use vstd::slice::slice_subrange;

use crate::target::pairs_view;
use crate::text::{
    ascii_lower, chars_of, contains_text, find_char, find_str, has_text, lemma_position, position,
    same_text, split, split_by, split_chars, text_of, to_ascii_lower, trim, trim_chars,
};

verus! {

/// Whether the registry's answer on `ProxyEnable` says that a proxy is used.
pub fn proxy_enabled(output: &str) -> (r: bool)
    ensures
        r == has_text(output@, "0x1"@),
{
    let chars = chars_of(output);
    contains_text(chars.as_slice(), "0x1")
}

/// The piece of a text between the first `pat` and the second one, or the end.
pub open spec fn second_piece(s: Seq<char>, pat: Seq<char>) -> Option<Seq<char>> {
    if split_by(s, pat).len() > 1 {
        Some(split_by(s, pat)[1])
    } else {
        None
    }
}

/// The piece between the first `pat` and the second one, or the end.
fn piece_behind<'a>(s: &'a [char], pat: &str) -> (r: Option<&'a [char]>)
    requires
        pat@.len() > 0,
    ensures
        r is Some <==> second_piece(s@, pat@) is Some,
        r matches Some(piece) ==> Some(piece@) == second_piece(s@, pat@),
{
    let n: usize = s.len();
    let m: usize = chars_of(pat).len();
    let p: usize = find_str(s, pat);
    if m > n - p {
        return None;
    }
    let rest = slice_subrange(s, p + m, n);
    let q: usize = find_str(rest, pat);
    proof {
        assert(rest@ =~= s@.skip(p + m));
        assert(split_by(s@, pat@) =~= seq![s@.take(p as int)] + split_by(rest@, pat@));
        assert(split_by(s@, pat@)[1] == split_by(rest@, pat@)[0]);
    }
    if m > rest.len() - q {
        return Some(rest);
    }
    let piece = slice_subrange(rest, 0, q);
    assert(piece@ =~= rest@.take(q as int));
    Some(piece)
}

/// The value of `ProxyServer` in the registry's answer.
pub open spec fn server_value(output: Seq<char>) -> Seq<char> {
    match second_piece(output, "ProxyServer"@) {
        Some(rest) => match second_piece(rest, "REG_SZ"@) {
            Some(value) => trim(value),
            None => seq![],
        },
        None => seq![],
    }
}

/// The value of `ProxyServer` in the registry's answer; an empty one where it
/// has none.
pub fn proxy_server(output: &str) -> (r: String)
    ensures
        r@ == server_value(output@),
{
    let chars = chars_of(output);
    proof {
        reveal_strlit("ProxyServer");
        reveal_strlit("REG_SZ");
    }
    if let Some(rest) = piece_behind(chars.as_slice(), "ProxyServer") {
        if let Some(value) = piece_behind(rest, "REG_SZ") {
            return text_of(trim_chars(value));
        }
    }
    String::new()
}

/// The part of the setting gives the address for a scheme.
pub open spec fn is_for(part: Seq<char>, scheme: Seq<char>) -> bool {
    let p = position(part, '=');
    p < part.len() && ascii_lower(trim(part.take(p as int))) == scheme
}

/// The address that a part of the setting gives.
pub open spec fn part_value(part: Seq<char>) -> Seq<char> {
    trim(part.skip(position(part, '=') + 1int))
}

/// The address for a scheme: that of the last part for it.
pub open spec fn address_for(parts: Seq<Seq<char>>, scheme: Seq<char>) -> Seq<char>
    decreases parts.len(),
{
    if parts.len() == 0 {
        seq![]
    } else if is_for(parts.last(), scheme) {
        part_value(parts.last())
    } else {
        address_for(parts.drop_last(), scheme)
    }
}

/// The proxies for http and https that the setting gives: one address for
/// both, or one for each scheme, where each stands in for a missing one.
pub open spec fn proxies(server: Seq<char>) -> (Seq<char>, Seq<char>) {
    if !server.contains('=') {
        (server, server)
    } else {
        let parts = split(server, ';');
        let http = address_for(parts, "http"@);
        let https = address_for(parts, "https"@);
        (
            if http.len() == 0 {
                https
            } else {
                http
            },
            if https.len() == 0 {
                http
            } else {
                https
            },
        )
    }
}

/// Reads the proxies for http and https from the value of `ProxyServer`.
pub fn parse_ie_proxy(server: &str) -> (r: (String, String))
    ensures
        (r.0@, r.1@) == proxies(server@),
{
    let chars = chars_of(server);
    let eq: usize = find_char(chars.as_slice(), '=');
    proof {
        lemma_position(server@, '=');
        if eq < server@.len() {
            assert(server@.contains('='));
        }
    }
    if eq >= chars.len() {
        return (server.to_owned(), server.to_owned());
    }
    let parts = split_chars(chars.as_slice(), ';');
    let ghost all = split(server@, ';');
    let n: usize = parts.len();
    let mut http = String::new();
    let mut https = String::new();
    assert(all.take(0) =~= Seq::<Seq<char>>::empty());
    proof {
        reveal_strlit("http");
        reveal_strlit("https");
        assert("http"@.len() != "https"@.len());
    }
    for i in 0..n
        invariant
            n == parts@.len(),
            n == all.len(),
            "http"@.len() != "https"@.len(),
            forall|j: int| 0 <= j < n ==> (#[trigger] parts@[j])@ == all[j],
            http@ == address_for(all.take(i as int), "http"@),
            https@ == address_for(all.take(i as int), "https"@),
    {
        let part = parts[i];
        proof {
            assert(all.take(i + 1).drop_last() =~= all.take(i as int));
            assert(all.take(i + 1).last() == part@);
        }
        let p: usize = find_char(part, '=');
        if p < part.len() {
            let key = slice_subrange(part, 0, p);
            let value = slice_subrange(part, p + 1, part.len());
            assert(key@ =~= part@.take(p as int));
            assert(value@ =~= part@.skip(p + 1));
            let key = to_ascii_lower(trim_chars(key));
            if same_text(key.as_slice(), "http") {
                http = text_of(trim_chars(value));
            } else if same_text(key.as_slice(), "https") {
                https = text_of(trim_chars(value));
            }
        }
    }
    assert(all.take(n as int) =~= all);
    if https.as_str().is_empty() {
        https = http.clone();
    }
    if http.as_str().is_empty() {
        http = https.clone();
    }
    (http, https)
}

/// The variables of the environment that make the proxies known, with their
/// values: none where the setting is empty, and none for an empty address.
pub open spec fn variables(server: Seq<char>) -> Seq<(Seq<char>, Seq<char>)> {
    let (http, https) = proxies(server);
    let first = if http.len() == 0 {
        seq![]
    } else {
        seq![("HTTP_PROXY"@, http)]
    };
    if https.len() == 0 {
        first
    } else {
        first.push(("HTTPS_PROXY"@, https))
    }
}

/// The variables of the environment to set for the value of `ProxyServer`.
pub fn proxy_variables(server: &str) -> (r: Vec<(String, String)>)
    ensures
        pairs_view(r@) == variables(server@),
{
    let mut out: Vec<(String, String)> = Vec::new();
    let (http, https) = parse_ie_proxy(server);
    assert(pairs_view(out@) =~= seq![]);
    if !http.as_str().is_empty() {
        out.push(("HTTP_PROXY".to_owned(), http));
        assert(pairs_view(out@) =~= seq![("HTTP_PROXY"@, http@)]);
    }
    if !https.as_str().is_empty() {
        let ghost before = out@;
        out.push(("HTTPS_PROXY".to_owned(), https));
        assert(pairs_view(out@) =~= pairs_view(before).push(("HTTPS_PROXY"@, https@)));
    }
    out
}

/// The variables to set, from what is known of the system: none where some are
/// set already, where the registry does not say that a proxy is used, or where
/// it has no answer on the proxy.
pub open spec fn planned(
    already_set: bool,
    enable: Option<Seq<char>>,
    server: Option<Seq<char>>,
) -> Seq<(Seq<char>, Seq<char>)> {
    if already_set || enable is None || !has_text(enable->0, "0x1"@) || server is None {
        seq![]
    } else {
        variables(server_value(server->0))
    }
}

/// The view of an optional text.
pub open spec fn opt_str(text: Option<&str>) -> Option<Seq<char>> {
    match text {
        Some(t) => Some(t@),
        None => None,
    }
}

/// Decides which variables of the environment to set: whether some that make
/// a proxy known are set already, and the registry's answers on `ProxyEnable`
/// and `ProxyServer`, decide.
pub fn planned_variables(
    already_set: bool,
    enable: Option<&str>,
    server: Option<&str>,
) -> (r: Vec<(String, String)>)
    ensures
        pairs_view(r@) == planned(already_set, opt_str(enable), opt_str(server)),
{
    let none: Vec<(String, String)> = Vec::new();
    assert(pairs_view(none@) =~= seq![]);
    if already_set {
        return none;
    }
    match (enable, server) {
        (Some(enable), Some(server)) => {
            if proxy_enabled(enable) {
                proxy_variables(proxy_server(server).as_str())
            } else {
                none
            }
        },
        _ => none,
    }
}

/// An address without a scheme is the proxy for both; and where there is a
/// proxy for one of them, there is one for the other.
pub proof fn law_proxies_come_together(server: Seq<char>)
    ensures
        !server.contains('=') ==> proxies(server) == (server, server),
        proxies(server).0.len() == 0 <==> proxies(server).1.len() == 0,
{
}

} // verus!
