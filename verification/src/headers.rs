//! Header fields: those of the request to the origin, and those of the reply
//! to the player.
use vstd::prelude::*;
use vstd::utf8::*;

use crate::text::ascii_lower;

verus! {

/// The value of a header field, of the crate `http`.
#[verifier::external_type_specification]
#[verifier::external_body]
pub struct ExHeaderValue(http::HeaderValue);

/// A map of header fields, of the crate `http`.
#[verifier::external_type_specification]
#[verifier::external_body]
#[verifier::reject_recursive_types(T)]
pub struct ExHeaderMap<T>(http::HeaderMap<T>);

/// The bytes that a header value holds.
pub uninterp spec fn header_bytes(value: http::HeaderValue) -> Seq<u8>;

/// The fields that a header map holds: under each name, in small letters, its
/// values in their order.
pub uninterp spec fn header_fields(headers: http::HeaderMap<http::HeaderValue>) -> Map<
    Seq<char>,
    Seq<Seq<u8>>,
>;

/// No fields.
pub open spec fn no_fields() -> Map<Seq<char>, Seq<Seq<u8>>> {
    Map::empty()
}

/// Up to so many different names a header map takes one more for certain.
pub const NAME_LIMIT: usize = 6553;

/// The byte may stand in a header value: no control character but the tab.
pub open spec fn is_value_byte(b: u8) -> bool {
    (b >= 32 && b != 127) || b == 9
}

/// The byte is a visible ASCII character, a space or a tab.
pub open spec fn is_visible_byte(b: u8) -> bool {
    (32 <= b < 127) || b == 9
}

/// All bytes may stand in a header value.
pub open spec fn is_value(bytes: Seq<u8>) -> bool {
    forall|i: int| 0 <= i < bytes.len() ==> #[trigger] is_value_byte(bytes[i])
}

/// All bytes are visible.
pub open spec fn is_visible(bytes: Seq<u8>) -> bool {
    forall|i: int| 0 <= i < bytes.len() ==> #[trigger] is_visible_byte(bytes[i])
}

/// The character may stand in the name of a field, in small letters.
pub open spec fn is_name_char(c: char) -> bool {
    ||| 'a' <= c <= 'z'
    ||| '0' <= c <= '9'
    ||| c == '!'
    ||| '#' <= c <= '\''
    ||| c == '*'
    ||| c == '+'
    ||| c == '-'
    ||| c == '.'
    ||| c == '^'
    ||| c == '_'
    ||| c == '`'
    ||| c == '|'
    ||| c == '~'
}

/// The text is the name of a field, in small letters.
pub open spec fn is_field_name(name: Seq<char>) -> bool {
    &&& 0 < name.len() <= 65535
    &&& forall|i: int| 0 <= i < name.len() ==> #[trigger] is_name_char(name[i])
}

/// The first value under a name, whose letters may be capital.
pub open spec fn first_value(fields: Map<Seq<char>, Seq<Seq<u8>>>, name: Seq<char>) -> Option<Seq<u8>> {
    let key = ascii_lower(name);
    if is_field_name(key) && fields.contains_key(key) {
        Some(fields[key][0])
    } else {
        None
    }
}

/// The bytes of an optional header value.
pub open spec fn opt_bytes(value: Option<http::HeaderValue>) -> Option<Seq<u8>> {
    match value {
        Some(v) => Some(header_bytes(v)),
        None => None,
    }
}

/// `http::HeaderMap::new` makes a map without fields.
#[verifier::external_body]
fn new_header_map() -> (headers: http::HeaderMap<http::HeaderValue>)
    ensures
        header_fields(headers) == no_fields(),
{
    http::HeaderMap::new()
}

/// `http::HeaderMap::get` gives the first value under a name, whose letters
/// may be capital; a text that is no name has none.
#[verifier::external_body]
fn header_get(
    headers: &http::HeaderMap<http::HeaderValue>,
    name: &str,
) -> (value: Option<http::HeaderValue>)
    ensures
        opt_bytes(value) == first_value(header_fields(*headers), name@),
{
    headers.get(name).cloned()
}

/// `http::HeaderMap::insert` puts a value under a name in place of all that
/// stood there. It panics where the map cannot grow, which takes more names
/// than `NAME_LIMIT`.
#[verifier::external_body]
fn header_insert(
    headers: &mut http::HeaderMap<http::HeaderValue>,
    name: &'static str,
    value: http::HeaderValue,
)
    requires
        is_field_name(name@),
        header_fields(*old(headers)).dom().finite(),
        header_fields(*old(headers)).dom().len() <= NAME_LIMIT,
    ensures
        header_fields(*final(headers)) == header_fields(*old(headers)).insert(
            name@,
            seq![header_bytes(value)],
        ),
{
    headers.insert(name, value);
}

/// `http::HeaderMap::remove` takes away all values under a name.
#[verifier::external_body]
fn header_remove(headers: &mut http::HeaderMap<http::HeaderValue>, name: &str)
    requires
        is_field_name(name@),
    ensures
        header_fields(*final(headers)) == header_fields(*old(headers)).remove(name@),
        header_fields(*final(headers)).dom().finite(),
{
    headers.remove(name);
}

/// `http::HeaderValue::from_str` makes a value of the UTF-8 bytes of a text,
/// where all of them may stand in one.
#[verifier::external_body]
fn value_from_str(s: &str) -> (value: Option<http::HeaderValue>)
    ensures
        value is Some <==> is_value(encode_utf8(s@)),
        value matches Some(v) ==> header_bytes(v) == encode_utf8(s@),
{
    http::HeaderValue::from_str(s).ok()
}

/// `http::HeaderValue::to_str` gives the text of a value whose bytes are all
/// visible.
#[verifier::external_body]
fn value_to_str(value: &http::HeaderValue) -> (r: Option<String>)
    ensures
        r is Some <==> is_visible(header_bytes(*value)),
        r matches Some(s) ==> encode_utf8(s@) == header_bytes(*value),
{
    value.to_str().ok().map(|s| s.to_string())
}

/// The bytes of a text as a header value: none where it cannot be one.
pub open spec fn value_bytes(s: Seq<char>) -> Seq<u8> {
    if is_value(encode_utf8(s)) {
        encode_utf8(s)
    } else {
        seq![]
    }
}

/// A text as a header value: an empty one where the text cannot be one.
pub fn hv(s: &str) -> (r: http::HeaderValue)
    ensures
        header_bytes(r) == value_bytes(s@),
{
    match value_from_str(s) {
        Some(v) => v,
        None => empty_value(),
    }
}

/// A header value without bytes.
fn empty_value() -> (r: http::HeaderValue)
    ensures
        header_bytes(r) == Seq::<u8>::empty(),
{
    let none = String::new();
    assert(encode_utf8(none@) =~= Seq::<u8>::empty());
    value_from_str(none.as_str()).unwrap()
}

/// The value of a field of the client's request that is handed on as it is.
pub fn forward_headers(
    req: &http::HeaderMap<http::HeaderValue>,
    name: &str,
) -> (r: Option<http::HeaderValue>)
    ensures
        opt_bytes(r) == first_value(header_fields(*req), name@),
{
    header_get(req, name)
}

/// The bytes to send under a name: the client's, where they are visible, else
/// those of a text that stands in for them.
pub open spec fn client_value(
    client: Map<Seq<char>, Seq<Seq<u8>>>,
    name: Seq<char>,
    default: Seq<char>,
) -> Seq<u8> {
    match first_value(client, name) {
        Some(bytes) => if is_visible(bytes) {
            bytes
        } else {
            value_bytes(default)
        },
        None => value_bytes(default),
    }
}

/// The value to send under a name.
fn client_or_default(
    client: &http::HeaderMap<http::HeaderValue>,
    name: &str,
    default: &str,
) -> (r: http::HeaderValue)
    ensures
        header_bytes(r) == client_value(header_fields(*client), name@, default@),
{
    match header_get(client, name) {
        Some(v) => match value_to_str(&v) {
            Some(text) => {
                proof {
                    assert(is_value(header_bytes(v))) by {
                        assert forall|i: int| 0 <= i < header_bytes(v).len() implies #[trigger] is_value_byte(
                            header_bytes(v)[i],
                        ) by {
                            assert(is_visible_byte(header_bytes(v)[i]));
                        }
                    }
                }
                hv(text.as_str())
            },
            None => hv(default),
        },
        None => hv(default),
    }
}

/// Fields with the client's first value under a name added, where it has one.
pub open spec fn with_forwarded(
    fields: Map<Seq<char>, Seq<Seq<u8>>>,
    client: Map<Seq<char>, Seq<Seq<u8>>>,
    name: Seq<char>,
) -> Map<Seq<char>, Seq<Seq<u8>>> {
    match first_value(client, name) {
        Some(bytes) => fields.insert(name, seq![bytes]),
        None => fields,
    }
}

/// The fields of the request to the origin.
pub open spec fn upstream_fields(
    client: Map<Seq<char>, Seq<Seq<u8>>>,
    authority: Seq<char>,
    default_ua: Seq<char>,
    default_referer: Seq<char>,
    playlist: bool,
) -> Map<Seq<char>, Seq<Seq<u8>>> {
    let own = no_fields().insert("host"@, seq![value_bytes(authority)]).insert(
        "user-agent"@,
        seq![client_value(client, "user-agent"@, default_ua)],
    ).insert("referer"@, seq![client_value(client, "referer"@, default_referer)]);
    let f1 = with_forwarded(own, client, "origin"@);
    let f2 = with_forwarded(f1, client, "cookie"@);
    let f3 = with_forwarded(f2, client, "authorization"@);
    let f4 = with_forwarded(f3, client, "x-forwarded-for"@);
    let f5 = f4.insert("accept"@, seq![encode_utf8("*/*"@)]);
    if playlist {
        f5.insert("accept-encoding"@, seq![encode_utf8("identity"@)])
    } else {
        f5
    }
}

/// Puts the client's first value under a name into a request, where it has one.
fn forward(
    headers: &mut http::HeaderMap<http::HeaderValue>,
    client: &http::HeaderMap<http::HeaderValue>,
    name: &'static str,
)
    requires
        is_field_name(name@),
        header_fields(*old(headers)).dom().finite(),
        header_fields(*old(headers)).dom().len() <= NAME_LIMIT,
    ensures
        header_fields(*final(headers)) == with_forwarded(
            header_fields(*old(headers)),
            header_fields(*client),
            name@,
        ),
        header_fields(*final(headers)).dom().finite(),
        header_fields(*final(headers)).dom().len() <= header_fields(*old(headers)).dom().len() + 1,
{
    if let Some(v) = forward_headers(client, name) {
        header_insert(headers, name, v);
    }
}

/// Makes the fields of the request to the origin: its authority, who asks and
/// from where (the client's own values, else the given ones), what the client
/// sends along, and that anything may come back, a playlist uncompressed.
pub fn upstream_headers(
    client: &http::HeaderMap<http::HeaderValue>,
    authority: &str,
    default_ua: &str,
    default_referer: &str,
    playlist: bool,
) -> (r: http::HeaderMap<http::HeaderValue>)
    ensures
        header_fields(r) == upstream_fields(
            header_fields(*client),
            authority@,
            default_ua@,
            default_referer@,
            playlist,
        ),
{
    proof {
        lemma_names();
        reveal_strlit("*/*");
        reveal_strlit("identity");
        lemma_plain_value("*/*"@);
        lemma_plain_value("identity"@);
    }
    let mut headers = new_header_map();
    header_insert(&mut headers, "host", hv(authority));
    header_insert(&mut headers, "user-agent", client_or_default(client, "user-agent", default_ua));
    header_insert(&mut headers, "referer", client_or_default(client, "referer", default_referer));
    forward(&mut headers, client, "origin");
    forward(&mut headers, client, "cookie");
    forward(&mut headers, client, "authorization");
    forward(&mut headers, client, "x-forwarded-for");
    header_insert(&mut headers, "accept", hv("*/*"));
    if playlist {
        header_insert(&mut headers, "accept-encoding", hv("identity"));
    }
    headers
}

/// The characters are visible ASCII characters or spaces.
pub open spec fn is_plain(s: Seq<char>) -> bool {
    forall|i: int| 0 <= i < s.len() ==> ' ' <= #[trigger] s[i] <= '~'
}

/// Plain text is a header value.
pub proof fn lemma_plain_value(s: Seq<char>)
    requires
        is_plain(s),
    ensures
        value_bytes(s) == encode_utf8(s),
{
    assert(is_ascii_chars(s));
    is_ascii_chars_encode_utf8(s);
    assert forall|i: int| 0 <= i < encode_utf8(s).len() implies #[trigger] is_value_byte(
        encode_utf8(s)[i],
    ) by {
        assert(s[i] as u8 == encode_utf8(s)[i]);
    }
}

/// The names of the fields that speak of one connection only.
pub open spec fn connection_names() -> Set<Seq<char>> {
    set!["connection"@, "keep-alive"@, "transfer-encoding"@, "trailer"@]
}

/// The fields of the reply with a rewritten playlist: those of the origin, but
/// for those of the connection, the length and the encoding of its body; the
/// type is that of a playlist.
pub open spec fn playlist_fields(origin: Map<Seq<char>, Seq<Seq<u8>>>) -> Map<
    Seq<char>,
    Seq<Seq<u8>>,
> {
    origin.remove_keys(
        connection_names().insert("content-length"@).insert("content-encoding"@),
    ).insert("content-type"@, seq![encode_utf8("application/vnd.apple.mpegurl"@)])
}

/// The fields of the reply with a body that is passed on: those of the origin,
/// but for those of the connection and the encoding. A stream that the origin
/// offers as a picture gets the type of a stream, and is no attachment.
pub open spec fn media_fields(origin: Map<Seq<char>, Seq<Seq<u8>>>, jpeg: bool) -> Map<
    Seq<char>,
    Seq<Seq<u8>>,
> {
    let passed = origin.remove_keys(connection_names().insert("content-encoding"@));
    if jpeg {
        passed.remove("content-disposition"@).insert(
            "content-type"@,
            seq![encode_utf8("video/mp2t"@)],
        )
    } else {
        passed
    }
}

/// Takes away the fields that speak of the connection to the origin.
fn drop_connection(headers: &mut http::HeaderMap<http::HeaderValue>)
    ensures
        header_fields(*final(headers)) == header_fields(*old(headers)).remove_keys(
            connection_names(),
        ),
        header_fields(*final(headers)).dom().finite(),
        header_fields(*old(headers)).dom().finite(),
{
    proof {
        lemma_names();
    }
    let ghost before = header_fields(*headers);
    header_remove(headers, "connection");
    assert(before.dom() =~= header_fields(*headers).dom().insert("connection"@) || before.dom()
        =~= header_fields(*headers).dom());
    header_remove(headers, "keep-alive");
    header_remove(headers, "transfer-encoding");
    header_remove(headers, "trailer");
    assert(header_fields(*headers) =~= before.remove_keys(connection_names()));
}

/// Makes the fields of the reply with a rewritten playlist from the origin's.
pub fn playlist_headers(origin: http::HeaderMap<http::HeaderValue>) -> (r: http::HeaderMap<http::HeaderValue>)
    requires
        header_fields(origin).dom().len() <= NAME_LIMIT,
    ensures
        header_fields(r) == playlist_fields(header_fields(origin)),
{
    proof {
        lemma_names();
        reveal_strlit("application/vnd.apple.mpegurl");
        lemma_plain_value("application/vnd.apple.mpegurl"@);
    }
    let ghost before = header_fields(origin);
    let mut headers = origin;
    drop_connection(&mut headers);
    header_remove(&mut headers, "content-length");
    header_remove(&mut headers, "content-encoding");
    proof {
        let names = connection_names().insert("content-length"@).insert("content-encoding"@);
        assert(header_fields(headers) =~= before.remove_keys(names));
        lemma_fewer(before, names);
    }
    header_insert(&mut headers, "content-type", hv("application/vnd.apple.mpegurl"));
    headers
}

/// Makes the fields of the reply with a body that is passed on from the
/// origin's.
pub fn media_headers(origin: http::HeaderMap<http::HeaderValue>, jpeg: bool) -> (r: http::HeaderMap<http::HeaderValue>)
    requires
        jpeg ==> header_fields(origin).dom().len() <= NAME_LIMIT,
    ensures
        header_fields(r) == media_fields(header_fields(origin), jpeg),
{
    proof {
        lemma_names();
        reveal_strlit("video/mp2t");
        lemma_plain_value("video/mp2t"@);
    }
    let ghost before = header_fields(origin);
    let mut headers = origin;
    drop_connection(&mut headers);
    header_remove(&mut headers, "content-encoding");
    proof {
        let names = connection_names().insert("content-encoding"@);
        assert(header_fields(headers) =~= before.remove_keys(names));
    }
    if jpeg {
        header_remove(&mut headers, "content-disposition");
        proof {
            let names = connection_names().insert("content-encoding"@).insert("content-disposition"@);
            assert(header_fields(headers) =~= before.remove_keys(names));
            lemma_fewer(before, names);
        }
        header_insert(&mut headers, "content-type", hv("video/mp2t"));
    }
    headers
}

/// Taking fields away leaves no more of them.
proof fn lemma_fewer(fields: Map<Seq<char>, Seq<Seq<u8>>>, names: Set<Seq<char>>)
    requires
        fields.dom().finite(),
    ensures
        fields.remove_keys(names).dom().finite(),
        fields.remove_keys(names).dom().len() <= fields.dom().len(),
{
    assert(fields.remove_keys(names).dom() =~= fields.dom().difference(names));
    vstd::set_lib::lemma_len_difference(fields.dom(), names);
}

/// The fields of an answer that the proxy gives itself: plain text, and the
/// connection ends with it.
pub open spec fn error_fields() -> Map<Seq<char>, Seq<Seq<u8>>> {
    no_fields().insert("content-type"@, seq![encode_utf8("text/plain; charset=utf-8"@)]).insert(
        "connection"@,
        seq![encode_utf8("close"@)],
    )
}

/// Makes the fields of an answer that the proxy gives itself.
pub fn error_headers() -> (r: http::HeaderMap<http::HeaderValue>)
    ensures
        header_fields(r) == error_fields(),
{
    proof {
        lemma_names();
        reveal_strlit("text/plain; charset=utf-8");
        reveal_strlit("close");
        lemma_plain_value("text/plain; charset=utf-8"@);
        lemma_plain_value("close"@);
    }
    let mut headers = new_header_map();
    header_insert(&mut headers, "content-type", hv("text/plain; charset=utf-8"));
    header_insert(&mut headers, "connection", hv("close"));
    headers
}

/// Makes a reply's fields without any.
pub fn empty_headers() -> (r: http::HeaderMap<http::HeaderValue>)
    ensures
        header_fields(r) == no_fields(),
{
    new_header_map()
}

/// Makes the fields of a reply that sends the player elsewhere.
pub fn location_headers(location: &str) -> (r: http::HeaderMap<http::HeaderValue>)
    ensures
        header_fields(r) == no_fields().insert("location"@, seq![value_bytes(location@)]),
{
    proof {
        lemma_names();
    }
    let mut headers = new_header_map();
    header_insert(&mut headers, "location", hv(location));
    headers
}

/// Puts one value under `location` in place of those that stand there.
pub fn replace_location(headers: &mut http::HeaderMap<http::HeaderValue>, location: &str)
    requires
        header_fields(*old(headers)).dom().len() <= NAME_LIMIT,
    ensures
        header_fields(*final(headers)) == header_fields(*old(headers)).insert(
            "location"@,
            seq![value_bytes(location@)],
        ),
        header_fields(*final(headers)).dom().len() <= header_fields(*old(headers)).dom().len() + 1,
{
    proof {
        lemma_names();
    }
    let ghost before = header_fields(*headers);
    header_remove(headers, "location");
    proof {
        let names = set!["location"@];
        assert(before.dom() =~= header_fields(*headers).dom().insert("location"@) || before.dom()
            =~= header_fields(*headers).dom());
        assert(header_fields(*headers) =~= before.remove_keys(names));
        lemma_fewer(before, names);
    }
    header_insert(headers, "location", hv(location));
    assert(header_fields(*headers) =~= before.insert("location"@, seq![value_bytes(location@)]));
}

/// The text of the field `location`, where it has a first value that is
/// visible; whether it has one is told apart.
pub fn find_location(headers: &http::HeaderMap<http::HeaderValue>) -> (r: Option<Option<String>>)
    ensures
        r is Some <==> first_value(header_fields(*headers), "location"@) is Some,
        r matches Some(text) ==> (text is Some <==> is_visible(
            first_value(header_fields(*headers), "location"@)->0,
        )),
        r matches Some(Some(text)) ==> encode_utf8(text@) == first_value(
            header_fields(*headers),
            "location"@,
        )->0,
{
    match header_get(headers, "location") {
        Some(v) => Some(value_to_str(&v)),
        None => None,
    }
}

/// `http::HeaderMap::keys_len` counts the names under which there are values.
#[verifier::external_body]
pub(crate) fn header_count(headers: &http::HeaderMap<http::HeaderValue>) -> (n: usize)
    ensures
        n == header_fields(*headers).dom().len(),
{
    headers.keys_len()
}

/// The names that are used here are names.
proof fn lemma_names()
    ensures
        is_field_name("host"@),
        is_field_name("user-agent"@),
        is_field_name("referer"@),
        is_field_name("origin"@),
        is_field_name("cookie"@),
        is_field_name("authorization"@),
        is_field_name("x-forwarded-for"@),
        is_field_name("accept"@),
        is_field_name("accept-encoding"@),
        is_field_name("connection"@),
        is_field_name("keep-alive"@),
        is_field_name("transfer-encoding"@),
        is_field_name("trailer"@),
        is_field_name("content-length"@),
        is_field_name("content-encoding"@),
        is_field_name("content-type"@),
        is_field_name("content-disposition"@),
        is_field_name("location"@),
{
    reveal_strlit("host");
    reveal_strlit("user-agent");
    reveal_strlit("referer");
    reveal_strlit("origin");
    reveal_strlit("cookie");
    reveal_strlit("authorization");
    reveal_strlit("x-forwarded-for");
    reveal_strlit("accept");
    reveal_strlit("accept-encoding");
    reveal_strlit("connection");
    reveal_strlit("keep-alive");
    reveal_strlit("transfer-encoding");
    reveal_strlit("trailer");
    reveal_strlit("content-length");
    reveal_strlit("content-encoding");
    reveal_strlit("content-type");
    reveal_strlit("content-disposition");
    reveal_strlit("location");
}

} // verus!
