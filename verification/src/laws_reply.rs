//! What becomes of each kind of answer of an origin, told from its status and
//! its header fields.
use vstd::prelude::*;
use vstd::utf8::*;

use crate::handler::{AppState, FetchView, ReplyView};
use crate::headers::{connection_names, first_value, is_visible, value_bytes};
use crate::laws_playlist::served;
use crate::laws_request::plain_error;
use crate::percent::percent_encoded;
use crate::reply::{
    body_text, error_chain, gateway_reply, is_retried, lemma_own_path_plain, own_path,
    playlist_answer, relay, resolved, RelayView,
};
use crate::target::{url_joined, url_parsed};

verus! {

/// Where the text of a `Location` leads in an answer to a request for `href`:
/// an absolute URL to itself, another text to the URL that it is joined to, and
/// one that cannot be joined to itself.
pub open spec fn goes_to(href: Seq<char>, text: Seq<char>, url: Seq<char>) -> bool {
    let base = url_parsed(href);
    &&& url_parsed(text) is Some ==> url == text
    &&& url_parsed(text) is None && base is Some && url_joined(base->0, text) is Some ==> url
        == url_joined(base->0, text)->0
    &&& url_parsed(text) is None && (base is None || url_joined(base->0, text) is None) ==> url
        == text
}

/// The text of the `Location` of an answer.
pub open spec fn is_location(fields: Map<Seq<char>, Seq<Seq<u8>>>, text: Seq<char>) -> bool {
    let first = first_value(fields, "location"@);
    first is Some && is_visible(first->0) && decode_utf8(first->0) == text
}

/// The way to a URL through the proxy is sent as it is.
proof fn lemma_way(url: Seq<char>)
    ensures
        value_bytes("/?url="@ + percent_encoded(url)) == encode_utf8("/?url="@ + percent_encoded(url)),
{
    lemma_own_path_plain(url);
}

/// A permanent or temporary redirect is answered with its status, with nothing
/// but the way through the proxy to where it leads, and without a body.
pub proof fn law_redirected(
    fetch: FetchView,
    status: u16,
    fields: Map<Seq<char>, Seq<Seq<u8>>>,
    text: Seq<char>,
    url: Seq<char>,
)
    requires
        status == 301 || status == 302 || status == 307 || status == 308,
        is_location(fields, text),
        goes_to(fetch.target.href, text, url),
    ensures
        relay(fetch, status, fields) == RelayView::Answer(
            ReplyView {
                status,
                fields: Map::<Seq<char>, Seq<Seq<u8>>>::empty().insert(
                    "location"@,
                    seq![encode_utf8("/?url="@ + percent_encoded(url))],
                ),
                body: Seq::<char>::empty(),
            },
        ),
{
    lemma_way(url);
}

/// One without a place that can be read is answered with its status alone.
pub proof fn law_redirected_nowhere(
    fetch: FetchView,
    status: u16,
    fields: Map<Seq<char>, Seq<Seq<u8>>>,
)
    requires
        status == 301 || status == 302 || status == 307 || status == 308,
        first_value(fields, "location"@) matches Some(bytes) ==> !is_visible(bytes),
    ensures
        relay(fetch, status, fields) == RelayView::Answer(
            ReplyView {
                status,
                fields: Map::<Seq<char>, Seq<Seq<u8>>>::empty(),
                body: Seq::<char>::empty(),
            },
        ),
{
}

/// The status is that of no permanent or temporary redirect.
pub open spec fn is_other_status(status: u16) -> bool {
    status != 301 && status != 302 && status != 307 && status != 308
}

/// The field speaks of the connection to the origin, or of how the body was
/// encoded on it.
pub open spec fn is_left_behind(name: Seq<char>) -> bool {
    name == "connection"@ || name == "keep-alive"@ || name == "transfer-encoding"@ || name
        == "trailer"@ || name == "content-encoding"@
}

/// The values under a name are those of the origin.
pub open spec fn is_passed_on(
    fields: Map<Seq<char>, Seq<Seq<u8>>>,
    origin: Map<Seq<char>, Seq<Seq<u8>>>,
    name: Seq<char>,
) -> bool {
    &&& fields.contains_key(name) <==> origin.contains_key(name)
    &&& origin.contains_key(name) ==> fields[name] == origin[name]
}

/// The names of the fields that are left behind are no others.
proof fn lemma_names_apart()
    ensures
        forall|name: Seq<char>| #[trigger] is_left_behind(name) ==> name != "content-type"@ && name
            != "content-length"@ && name != "content-disposition"@ && name != "location"@,
        "content-type"@ != "content-length"@,
        "content-type"@ != "content-disposition"@,
        "content-type"@ != "location"@,
        "content-length"@ != "location"@,
        "content-length"@ != "content-disposition"@,
        "content-disposition"@ != "location"@,
        forall|name: Seq<char>| #[trigger] is_left_behind(name) <==> connection_names().contains(
            name,
        ) || name == "content-encoding"@,
{
    reveal_strlit("connection");
    reveal_strlit("keep-alive");
    reveal_strlit("transfer-encoding");
    reveal_strlit("trailer");
    reveal_strlit("content-encoding");
    reveal_strlit("content-type");
    reveal_strlit("content-length");
    reveal_strlit("content-disposition");
    reveal_strlit("location");
    assert("connection"@.len() == 10 && "keep-alive"@.len() == 10 && "transfer-encoding"@.len() == 17
        && "trailer"@.len() == 7 && "content-encoding"@.len() == 16);
    assert("content-type"@.len() == 12 && "content-length"@.len() == 14
        && "content-disposition"@.len() == 19 && "location"@.len() == 8);
}

/// An answer that is no redirect, to a request that is neither for a playlist
/// nor for a picture in place of a stream, is passed on with every field of the
/// origin, its type, length and disposition too, but for those that are left
/// behind, and for the place of a status that sends the player elsewhere.
pub proof fn law_media_passed_on(
    fetch: FetchView,
    status: u16,
    origin: Map<Seq<char>, Seq<Seq<u8>>>,
    name: Seq<char>,
)
    requires
        is_other_status(status),
        !fetch.playlist,
        !fetch.jpeg,
        origin.dom().len() < 6553 || status < 300 || status >= 400,
    ensures
        ({
            let answer = relay(fetch, status, origin);
            &&& answer is Media
            &&& is_left_behind(name) ==> !answer->Media_0.contains_key(name)
            &&& !is_left_behind(name) && (name != "location"@ || status < 300 || status >= 400)
                ==> is_passed_on(answer->Media_0, origin, name)
        }),
{
    lemma_names_apart();
}

/// The answer to a request for a playlist is passed on in the same way, with
/// the type of a playlist and without the length of the text that it was.
pub proof fn law_playlist_passed_on(
    fetch: FetchView,
    status: u16,
    origin: Map<Seq<char>, Seq<Seq<u8>>>,
    name: Seq<char>,
)
    requires
        is_other_status(status),
        fetch.playlist,
        origin.dom().len() < 6553,
    ensures
        ({
            let answer = relay(fetch, status, origin);
            &&& answer is Playlist
            &&& answer->Playlist_0.contains_key("content-type"@)
            &&& answer->Playlist_0["content-type"@] == seq![
                encode_utf8("application/vnd.apple.mpegurl"@),
            ]
            &&& !answer->Playlist_0.contains_key("content-length"@)
            &&& is_left_behind(name) ==> !answer->Playlist_0.contains_key(name)
            &&& !is_left_behind(name) && name != "content-type"@ && name != "content-length"@ && (
            name != "location"@ || status < 300 || status >= 400) ==> is_passed_on(
                answer->Playlist_0,
                origin,
                name,
            )
        }),
{
    lemma_names_apart();
}

/// The answer to a request for a picture in place of a stream is passed on in
/// the same way, with the type of a stream, and is no attachment.
pub proof fn law_picture_passed_on(
    fetch: FetchView,
    status: u16,
    origin: Map<Seq<char>, Seq<Seq<u8>>>,
    name: Seq<char>,
)
    requires
        is_other_status(status),
        !fetch.playlist,
        fetch.jpeg,
        origin.dom().len() < 6553,
    ensures
        ({
            let answer = relay(fetch, status, origin);
            &&& answer is Media
            &&& answer->Media_0.contains_key("content-type"@)
            &&& answer->Media_0["content-type"@] == seq![encode_utf8("video/mp2t"@)]
            &&& !answer->Media_0.contains_key("content-disposition"@)
            &&& is_left_behind(name) ==> !answer->Media_0.contains_key(name)
            &&& !is_left_behind(name) && name != "content-type"@ && name != "content-disposition"@
                && (name != "location"@ || status < 300 || status >= 400) ==> is_passed_on(
                answer->Media_0,
                origin,
                name,
            )
        }),
{
    lemma_names_apart();
}

/// Where an answer of the class that sends the player elsewhere is passed on,
/// the place becomes the way through the proxy to where it leads; one that
/// cannot be read is passed on.
pub proof fn law_place_passed_on(
    fetch: FetchView,
    status: u16,
    origin: Map<Seq<char>, Seq<Seq<u8>>>,
    text: Seq<char>,
    url: Seq<char>,
)
    requires
        is_other_status(status),
        300 <= status < 400,
        origin.dom().len() < 6553,
    ensures
        ({
            let answer = relay(fetch, status, origin);
            let fields = if fetch.playlist {
                answer->Playlist_0
            } else {
                answer->Media_0
            };
            let place = seq![encode_utf8("/?url="@ + percent_encoded(url))];
            &&& fetch.playlist ==> answer is Playlist
            &&& !fetch.playlist ==> answer is Media
            &&& is_location(origin, text) && goes_to(fetch.target.href, text, url)
                ==> fields.contains_key("location"@) && fields["location"@] == place
            &&& (first_value(origin, "location"@) is None || !is_visible(
                first_value(origin, "location"@)->0,
            )) ==> is_passed_on(fields, origin, "location"@)
        }),
{
    lemma_names_apart();
    lemma_way(url);
    assert(!is_left_behind("location"@));
}

/// An answer whose fields are too many to set the type is told to be a bad
/// gateway's.
pub proof fn law_too_many_fields(
    fetch: FetchView,
    status: u16,
    origin: Map<Seq<char>, Seq<Seq<u8>>>,
)
    requires
        is_other_status(status),
        fetch.playlist || fetch.jpeg,
        origin.dom().len() >= 6553,
    ensures
        relay(fetch, status, origin) == RelayView::Answer(
            plain_error(502, "Bad Gateway: too many header fields"@),
        ),
{
}

/// A playlist is answered with the status and the fields given, and with what
/// becomes of its text: what its names lead to lies in the directory of the
/// URL asked for, what its paths lead to at the origin.
pub proof fn law_playlist_answered(
    state: AppState,
    fetch: FetchView,
    status: u16,
    fields: Map<Seq<char>, Seq<Seq<u8>>>,
    text: Seq<char>,
)
    ensures
        playlist_answer(state, fetch, status, fields, text) == (ReplyView {
            status,
            fields,
            body: served(text, fetch.base_url, fetch.origin_base, state.proxy_base@),
        }),
{
}

/// The text of a body that is UTF-8 is the one that was encoded.
pub proof fn law_body_text(text: Seq<char>)
    ensures
        body_text(encode_utf8(text)) == text,
{
    encode_utf8_valid_utf8(text);
    encode_utf8_decode_utf8(text);
}

/// An error is told with all its causes, from the nearest to the first, with
/// arrows between them, as that of a bad gateway.
pub proof fn law_errors_with_causes(message: Seq<char>, sources: Seq<Seq<char>>, cause: Seq<char>)
    ensures
        error_chain(message, Seq::<Seq<char>>::empty()) == message,
        error_chain(message, sources.push(cause)) == error_chain(message, sources) + " → "@ + cause,
        gateway_reply(message, sources) == plain_error(
            502,
            "Bad Gateway: "@ + error_chain(message, sources),
        ),
{
    assert(sources.push(cause).drop_last() =~= sources);
}

/// The origin is asked once more after a first attempt whose connection failed,
/// and never after another error or a second attempt.
pub proof fn law_one_retry(attempts: int)
    ensures
        is_retried(1, true),
        attempts >= 2 ==> !is_retried(attempts, true),
        !is_retried(attempts, false),
{
}

/// A redirect to an absolute URL leads there, another one to where it is
/// joined, and one that cannot be joined to its own text; the way there is the
/// proxy's own path with the encoded URL behind it.
pub proof fn law_ways(location: Seq<char>, url: Seq<char>)
    ensures
        resolved(location, true, Some(url)) == location,
        resolved(location, true, None) == location,
        resolved(location, false, Some(url)) == url,
        resolved(location, false, None) == location,
        own_path(url) == "/?url="@ + percent_encoded(url),
{
}

} // verus!
