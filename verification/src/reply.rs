//! What the proxy does with an answer of the origin.
use vstd::prelude::*;
use vstd::utf8::*;

use crate::handler::{client_error, error_reply, AppState, Fetch, FetchView, Reply, ReplyView};
use crate::headers::{
    empty_headers, find_location, first_value, header_count, header_fields, is_visible,
    lemma_plain_value, location_headers, media_fields, media_headers, no_fields, playlist_fields,
    playlist_headers, replace_location, value_bytes, NAME_LIMIT,
};
use crate::percent::{encode, lemma_percent_bytes_plain, percent_encoded};
use crate::playlist::{is_rewritable, rewritable, rewrite_m3u8_lines, rewritten};
use crate::target::{join_url, joined_url, url_parse, url_parsed};
use crate::text::{lines, opt_text, texts};

verus! {

/// The answer of the origin is a permanent or temporary redirect, which needs
/// no body.
pub open spec fn is_redirect(status: u16) -> bool {
    status == 301 || status == 302 || status == 307 || status == 308
}

/// The status is of the class of those that send the player elsewhere.
pub open spec fn is_elsewhere(status: u16) -> bool {
    300 <= status < 400
}

/// Where a redirect leads: an absolute URL as it is, another one resolved
/// against the URL that was asked for, where it can be.
pub open spec fn resolved(location: Seq<char>, absolute: bool, joined: Option<Seq<char>>) -> Seq<char> {
    if absolute || joined is None {
        location
    } else {
        joined->0
    }
}

/// The way to a URL through the proxy, from the proxy's own root.
pub open spec fn own_path(url: Seq<char>) -> Seq<char> {
    "/?url="@ + percent_encoded(url)
}

/// The way through the proxy to where an answer of the origin to a request for
/// `href` leads, where it leads anywhere.
pub open spec fn place(href: Seq<char>, fields: Map<Seq<char>, Seq<Seq<u8>>>) -> Option<Seq<char>> {
    let location = first_value(fields, "location"@);
    if location is Some && is_visible(location->0) {
        let text = decode_utf8(location->0);
        Some(own_path(resolved(text, url_parsed(text) is Some, joined_url(href, text))))
    } else {
        None
    }
}

/// The fields of the answer to a redirect.
pub open spec fn redirect_fields(to: Option<Seq<char>>) -> Map<Seq<char>, Seq<Seq<u8>>> {
    match to {
        Some(place) => no_fields().insert("location"@, seq![value_bytes(place)]),
        None => no_fields(),
    }
}

/// The fields of the origin, with the place that the player is sent to, where
/// it is sent anywhere, replaced.
pub open spec fn sent_on(
    status: u16,
    fields: Map<Seq<char>, Seq<Seq<u8>>>,
    to: Option<Seq<char>>,
) -> Map<Seq<char>, Seq<Seq<u8>>> {
    if is_elsewhere(status) && to is Some {
        fields.insert("location"@, seq![value_bytes(to->0)])
    } else {
        fields
    }
}

/// What to do with an answer of the origin: answer the player at once, or
/// with the header fields given and the rewritten playlist, or with them and
/// the body as it comes.
pub enum Relay {
    Answer(Reply),
    Playlist(http::HeaderMap<http::HeaderValue>),
    Media(http::HeaderMap<http::HeaderValue>),
}

/// What such a decision says.
pub enum RelayView {
    Answer(ReplyView),
    Playlist(Map<Seq<char>, Seq<Seq<u8>>>),
    Media(Map<Seq<char>, Seq<Seq<u8>>>),
}

impl View for Relay {
    type V = RelayView;

    open spec fn view(&self) -> RelayView {
        match self {
            Relay::Answer(reply) => RelayView::Answer(reply@),
            Relay::Playlist(headers) => RelayView::Playlist(header_fields(*headers)),
            Relay::Media(headers) => RelayView::Media(header_fields(*headers)),
        }
    }
}

/// The relayed fields need a field set: the type of a playlist or of a stream,
/// or the place that the player is sent to.
pub open spec fn sets_field(fetch: FetchView, status: u16, to: Option<Seq<char>>) -> bool {
    fetch.playlist || fetch.jpeg || (is_elsewhere(status) && to is Some)
}

/// What to do with an answer of the origin that leads to a place, if to any. A
/// redirect keeps its status and its place only. Every other answer keeps its
/// fields and its body, and where it has a place to go to, that is replaced. An
/// answer with too many fields to set one is an error.
pub open spec fn relay_to(
    fetch: FetchView,
    status: u16,
    fields: Map<Seq<char>, Seq<Seq<u8>>>,
    to: Option<Seq<char>>,
) -> RelayView {
    if is_redirect(status) {
        RelayView::Answer(ReplyView { status, fields: redirect_fields(to), body: seq![] })
    } else if sets_field(fetch, status, to) && fields.dom().len() >= NAME_LIMIT {
        RelayView::Answer(error_reply(502, "Bad Gateway: too many header fields"@))
    } else if fetch.playlist {
        RelayView::Playlist(playlist_fields(sent_on(status, fields, to)))
    } else {
        RelayView::Media(media_fields(sent_on(status, fields, to), fetch.jpeg))
    }
}

/// What to do with an answer of the origin.
pub open spec fn relay(fetch: FetchView, status: u16, fields: Map<Seq<char>, Seq<Seq<u8>>>) -> RelayView {
    relay_to(fetch, status, fields, place(fetch.target.href, fields))
}

/// The way through the proxy to where a redirect leads.
pub fn proxied_location(location: &str, absolute: bool, joined: Option<String>) -> (r: String)
    ensures
        r@ == own_path(resolved(location@, absolute, opt_text(joined))),
{
    let to = match joined {
        Some(url) => if absolute {
            location.to_owned()
        } else {
            url
        },
        None => location.to_owned(),
    };
    "/?url=".to_owned().concat(encode(to.as_str()).as_str())
}

/// Finds the way through the proxy to where an answer of the origin leads.
pub fn find_place(href: &str, headers: &http::HeaderMap<http::HeaderValue>) -> (r: Option<String>)
    ensures
        opt_text(r) == place(href@, header_fields(*headers)),
{
    if let Some(Some(text)) = find_location(headers) {
        proof {
            encode_utf8_decode_utf8(text@);
        }
        let absolute = url_parse(text.as_str()).is_some();
        let joined = join_url(href, text.as_str());
        return Some(proxied_location(text.as_str(), absolute, joined));
    }
    None
}

/// The way to a URL through the proxy is a header value.
pub proof fn lemma_own_path_plain(url: Seq<char>)
    ensures
        value_bytes(own_path(url)) == encode_utf8(own_path(url)),
{
    reveal_strlit("/?url=");
    lemma_percent_bytes_plain(encode_utf8(url));
    let path = own_path(url);
    assert forall|i: int| 0 <= i < path.len() implies ' ' <= #[trigger] path[i] <= '~' by {
        if i >= 6 {
            assert(path[i] == percent_encoded(url)[i - 6]);
        }
    }
    lemma_plain_value(path);
}

/// Decides what to do with an answer of the origin that leads to a place, if to
/// any.
pub fn plan_relay_to(
    fetch: &Fetch,
    status: u16,
    headers: http::HeaderMap<http::HeaderValue>,
    to: Option<String>,
) -> (r: Relay)
    ensures
        r@ == relay_to(fetch@, status, header_fields(headers), opt_text(to)),
{
    if status == 301 || status == 302 || status == 307 || status == 308 {
        let headers = match to {
            Some(place) => location_headers(place.as_str()),
            None => empty_headers(),
        };
        return Relay::Answer(Reply { status, headers, body: String::new() });
    }
    let elsewhere = 300 <= status && status < 400 && to.is_some();
    if (fetch.playlist || fetch.jpeg || elsewhere) && header_count(&headers) >= NAME_LIMIT {
        return Relay::Answer(client_error(502, "Bad Gateway: too many header fields"));
    }
    let mut headers = headers;
    if elsewhere {
        if let Some(place) = to {
            replace_location(&mut headers, place.as_str());
        }
    }
    if fetch.playlist {
        Relay::Playlist(playlist_headers(headers))
    } else {
        Relay::Media(media_headers(headers, fetch.jpeg))
    }
}

/// Decides what to do with an answer of the origin.
pub fn plan_relay(
    fetch: &Fetch,
    status: u16,
    headers: http::HeaderMap<http::HeaderValue>,
) -> (r: Relay)
    ensures
        r@ == relay(fetch@, status, header_fields(headers)),
{
    let to = find_place(fetch.target.href.as_str(), &headers);
    plan_relay_to(fetch, status, headers, to)
}

/// The text of some bytes, with a mark in place of what is not UTF-8.
pub uninterp spec fn lossy_text(bytes: Seq<u8>) -> Seq<char>;

/// `String::from_utf8_lossy` decodes bytes as UTF-8, and puts a replacement
/// character in place of what is none.
#[verifier::external_body]
fn from_utf8_lossy(bytes: &[u8]) -> (r: String)
    ensures
        r@ == lossy_text(bytes@),
        valid_utf8(bytes@) ==> r@ == decode_utf8(bytes@),
{
    String::from_utf8_lossy(bytes).into_owned()
}

/// The text of a body: what its bytes encode, with a mark in place of what is
/// not UTF-8.
pub open spec fn body_text(bytes: Seq<u8>) -> Seq<char> {
    if valid_utf8(bytes) {
        decode_utf8(bytes)
    } else {
        lossy_text(bytes)
    }
}

/// The answer to the player with the rewritten text of a playlist.
pub open spec fn playlist_answer(
    state: AppState,
    fetch: FetchView,
    status: u16,
    fields: Map<Seq<char>, Seq<Seq<u8>>>,
    text: Seq<char>,
) -> ReplyView {
    ReplyView {
        status,
        fields,
        body: rewritten(
            lines(text),
            fetch.base_url,
            fetch.origin_base,
            state.proxy_base@,
            true,
            None,
        ).0,
    }
}

/// Answers the player with the rewritten text of a playlist.
pub fn playlist_reply(
    state: &AppState,
    fetch: &Fetch,
    status: u16,
    headers: http::HeaderMap<http::HeaderValue>,
    text: &str,
) -> (r: Reply)
    requires
        rewritable(text@),
    ensures
        r@ == playlist_answer(*state, fetch@, status, header_fields(headers), text@),
        r.status == status,
        header_fields(r.headers) == header_fields(headers),
        r.body@ == rewritten(
            lines(text@),
            fetch.base_url@,
            fetch.origin_base@,
            state.proxy_base@,
            true,
            None,
        ).0,
{
    let (body, _) = rewrite_m3u8_lines(
        text,
        fetch.base_url.as_str(),
        fetch.origin_base.as_str(),
        state.proxy_base.as_str(),
        true,
        None,
    );
    Reply { status, headers, body }
}

/// Answers the player with the body of a playlist, rewritten; there is no
/// answer where a tag of it cannot be rewritten.
pub fn relay_playlist(
    state: &AppState,
    fetch: &Fetch,
    status: u16,
    headers: http::HeaderMap<http::HeaderValue>,
    body: &[u8],
) -> (r: Option<Reply>)
    ensures
        r is Some <==> rewritable(body_text(body@)),
        r matches Some(reply) ==> reply@ == playlist_answer(
            *state,
            fetch@,
            status,
            header_fields(headers),
            body_text(body@),
        ),
        r matches Some(reply) ==> reply.status == status && header_fields(reply.headers)
            == header_fields(headers) && reply.body@ == rewritten(
            lines(body_text(body@)),
            fetch.base_url@,
            fetch.origin_base@,
            state.proxy_base@,
            true,
            None,
        ).0,
{
    let text = from_utf8_lossy(body);
    if is_rewritable(text.as_str()) {
        Some(playlist_reply(state, fetch, status, headers, text.as_str()))
    } else {
        None
    }
}

/// An error and those behind it, one after the other.
pub open spec fn error_chain(message: Seq<char>, sources: Seq<Seq<char>>) -> Seq<char>
    decreases sources.len(),
{
    if sources.len() == 0 {
        message
    } else {
        error_chain(message, sources.drop_last()) + " → "@ + sources.last()
    }
}

/// Writes an error and those behind it, from the nearest to the first cause.
pub fn full_err(message: &str, sources: &Vec<String>) -> (r: String)
    ensures
        r@ == error_chain(message@, texts(sources@)),
{
    let n: usize = sources.len();
    let ghost all = texts(sources@);
    let mut out = message.to_owned();
    for i in 0..n
        invariant
            n == sources@.len(),
            all == texts(sources@),
            out@ == error_chain(message@, all.take(i as int)),
    {
        assert(all.take(i + 1).drop_last() =~= all.take(i as int));
        out.append(" → ");
        out.append(sources[i].as_str());
    }
    assert(all.take(n as int) =~= all);
    out
}

/// The answer to the player where the origin could not be asked, or its
/// answer could not be read.
pub open spec fn gateway_reply(message: Seq<char>, sources: Seq<Seq<char>>) -> ReplyView {
    error_reply(502, "Bad Gateway: "@ + error_chain(message, sources))
}

/// The answer to the player where the origin could not be asked, or its
/// answer could not be read.
pub fn gateway_error(message: &str, sources: &Vec<String>) -> (r: Reply)
    ensures
        r@ == error_reply(
            502,
            "Bad Gateway: "@ + error_chain(message@, texts(sources@)),
        ),
        r@ == gateway_reply(message@, texts(sources@)),
{
    let msg = "Bad Gateway: ".to_owned().concat(full_err(message, sources).as_str());
    client_error(502, msg.as_str())
}

/// The origin is asked once more after so many attempts.
pub open spec fn is_retried(attempts: int, connection_failed: bool) -> bool {
    connection_failed && attempts < 2
}

/// Whether to ask the origin once more: where the connection failed the first
/// time.
pub fn should_retry(attempts: u32, connection_failed: bool) -> (r: bool)
    ensures
        r == (connection_failed && attempts < 2),
        r == is_retried(attempts as int, connection_failed),
{
    connection_failed && attempts < 2
}

} // verus!
