//! What becomes of each kind of request, told from its method, path, query and
//! header fields.
use vstd::prelude::*;
use vstd::utf8::*;

use crate::address::{dotted, is_global, lemma_dotted_host, IpAddr};
use crate::handler::{
    edited_target, error_reply, first_url, is_ip_allowed, is_listed, is_within, listed_hosts,
    refusal, request_plan, target_plan, url_param, AppState, Fetch, PlanView, ReplyView,
};
use crate::headers::{first_value, is_value, is_visible, value_bytes};
use crate::laws::{law_mark_removed, law_request_round_trip, lemma_name_lengths};
use crate::laws_text::law_split;
use crate::percent::{percent_decoded, percent_encoded, unescaped};
use crate::target::{
    edited, pairs_size, up_to_slash, url_parsed, url_pathed, url_queried, without_mark, TargetView,
};
use crate::text::{ascii_lower, decimal, lemma_split_one, lowercased, replace, small, split, texts};

verus! {

/// A version 4 address as a number.
pub open spec fn number_of(a: u8, b: u8, c: u8, d: u8) -> int {
    a * 0x100_0000 + b * 0x1_0000 + c * 0x100 + d
}

/// The number of an address that cannot be reached from everywhere.
pub open spec fn is_closed(n: int) -> bool {
    ||| n < 0x100_0000
    ||| 0x0a00_0000 <= n < 0x0b00_0000
    ||| 0x6440_0000 <= n < 0x6480_0000
    ||| 0x7f00_0000 <= n < 0x8000_0000
    ||| 0xa9fe_0000 <= n < 0xa9ff_0000
    ||| 0xac10_0000 <= n < 0xac20_0000
    ||| 0xc000_0000 <= n < 0xc000_0100 && n != 0xc000_0009 && n != 0xc000_000a
    ||| 0xc000_0200 <= n < 0xc000_0300
    ||| 0xc0a8_0000 <= n < 0xc0a9_0000
    ||| 0xc612_0000 <= n < 0xc614_0000
    ||| 0xc633_6400 <= n < 0xc633_6500
    ||| 0xcb00_7100 <= n < 0xcb00_7200
    ||| n >= 0xe000_0000
}

/// Which version 4 addresses can be reached from everywhere, by their numbers.
pub proof fn law_global_v4(a: u8, b: u8, c: u8, d: u8)
    ensures
        is_global(IpAddr::V4(a, b, c, d)) <==> !is_closed(number_of(a, b, c, d)),
{
}

/// Which version 6 addresses can be reached from everywhere: not the zero
/// address and the one behind it, and none whose first segment is that of
/// private, link-local or multicast ones.
pub proof fn law_global_v6(s: [u16; 8])
    ensures
        is_global(IpAddr::V6(s)) <==> {
            &&& !(s@[0] == 0 && s@[1] == 0 && s@[2] == 0 && s@[3] == 0 && s@[4] == 0 && s@[5] == 0
                && s@[6] == 0 && (s@[7] == 0 || s@[7] == 1))
            &&& s@[0] / 512 != 126
            &&& s@[0] / 64 != 1018
            &&& s@[0] / 256 != 255
        },
{
    if s@[0] == 0 && s@[1] == 0 && s@[2] == 0 && s@[3] == 0 && s@[4] == 0 && s@[5] == 0 && s@[6] == 0 {
        assert forall|i: int| 0 <= i < 7 implies #[trigger] s@[i] == 0 by {}
    }
}

/// An address in decimal numbers.
pub open spec fn written(a: u8, b: u8, c: u8, d: u8) -> Seq<char> {
    decimal(a as nat) + seq!['.'] + decimal(b as nat) + seq!['.'] + decimal(c as nat) + seq!['.']
        + decimal(d as nat)
}

/// An address is written in decimal numbers with dots between them.
pub proof fn law_written(a: u8, b: u8, c: u8, d: u8)
    ensures
        written(a, b, c, d) == dotted(a, b, c, d),
{
    assert(written(a, b, c, d) =~= dotted(a, b, c, d));
}

/// The value of the parameter `url`: that of the first parameter that begins
/// with `url=`, up to the next `&`.
pub proof fn law_url_parameter(value: Seq<char>, other: Seq<char>, rest: Seq<char>)
    requires
        !value.contains('&'),
        !other.contains('&'),
        !"url="@.is_prefix_of(other),
    ensures
        url_param("url="@ + value) == Some(value),
        url_param("url="@ + value + seq!['&'] + rest) == Some(value),
        url_param(other) is None,
        url_param(other + seq!['&'] + rest) == url_param(rest),
{
    reveal_strlit("url=");
    let first = "url="@ + value;
    assert forall|i: int| 0 <= i < first.len() implies first[i] != '&' by {
        if i >= 4 {
            assert(value.contains(value[i - 4]));
        }
    }
    law_split(first, rest, '&');
    law_split(other, rest, '&');
    assert(first.subrange(0, 4) =~= "url="@);
    assert(first.skip(4) =~= value);
    reveal_with_fuel(first_url, 2);
    assert(seq![other].drop_first() =~= Seq::<Seq<char>>::empty());
    assert((seq![other] + split(rest, '&')).drop_first() =~= split(rest, '&'));
}

/// The answer that tells in plain text what is wrong, and ends the connection.
pub open spec fn plain_error(status: u16, msg: Seq<char>) -> ReplyView {
    ReplyView {
        status,
        fields: Map::<Seq<char>, Seq<Seq<u8>>>::empty().insert(
            "content-type"@,
            seq![encode_utf8("text/plain; charset=utf-8"@)],
        ).insert("connection"@, seq![encode_utf8("close"@)]),
        body: msg,
    }
}

/// The answer without fields.
pub open spec fn bare_answer(status: u16, body: Seq<char>) -> ReplyView {
    ReplyView { status, fields: Map::<Seq<char>, Seq<Seq<u8>>>::empty(), body }
}

/// Every error that the proxy answers is told in plain text, and ends the
/// connection.
pub proof fn law_errors_are_plain(status: u16, msg: Seq<char>)
    ensures
        error_reply(status, msg) == plain_error(status, msg),
{
}

/// The proxy answers for its health, has no icon, allows only GET, and tells a
/// request without a readable parameter `url` so, whatever else it holds.
pub proof fn law_own_answers(
    state: AppState,
    method: Seq<char>,
    path: Seq<char>,
    query: Seq<char>,
    client: Map<Seq<char>, Seq<Seq<u8>>>,
)
    ensures
        ({
            let plan = request_plan(state, method, path, query, client);
            let healthy = path == "/health"@ || (path == "/"@ && query.len() == 0);
            let icon = path == "/favicon.ico"@;
            &&& healthy ==> plan == PlanView::Answer(bare_answer(200, "OK"@))
            &&& icon ==> plan == PlanView::Answer(bare_answer(404, Seq::<char>::empty()))
            &&& !healthy && !icon && method != "GET"@ ==> plan == PlanView::Answer(
                plain_error(405, "Method Not Allowed"@),
            )
            &&& !healthy && !icon && method == "GET"@ && url_param(query) is None ==> plan
                == PlanView::Answer(plain_error(400, "Use /?url=<encoded_target>"@))
            &&& !healthy && !icon && method == "GET"@ && url_param(query) is Some && !valid_utf8(
                unescaped(encode_utf8(url_param(query)->0)),
            ) ==> plan == PlanView::Answer(plain_error(400, "Bad Request"@))
        }),
{
    reveal_strlit("/health");
    reveal_strlit("/favicon.ico");
    reveal_strlit("/");
    reveal_strlit("");
    assert("/health"@.len() != "/favicon.ico"@.len());
    assert("/"@.len() != "/favicon.ico"@.len());
    assert(""@ =~= Seq::<char>::empty());
}

/// What to do with a request with a query.
pub open spec fn plan_for(
    state: AppState,
    path: Seq<char>,
    query: Seq<char>,
    client: Map<Seq<char>, Seq<Seq<u8>>>,
) -> PlanView {
    request_plan(state, "GET"@, path, query, client)
}

/// The query asks for a URL: that is what the value of its parameter `url`
/// stands for.
pub open spec fn asks_for(query: Seq<char>, url: Seq<char>) -> bool {
    url_param(query) matches Some(value) && percent_decoded(value) == Some(url)
}

/// Every URL can be asked for.
pub proof fn law_every_url_can_be_asked_for(url: Seq<char>)
    ensures
        asks_for("url="@ + percent_encoded(url), url),
{
    law_request_round_trip(url);
    reveal_strlit("url=");
    reveal_strlit("/");
    reveal_strlit("/health");
    reveal_strlit("/favicon.ico");
    assert("/"@.len() != "/health"@.len() && "/"@.len() != "/favicon.ico"@.len());
}

/// A path that means nothing of its own.
pub open spec fn is_free_path(path: Seq<char>) -> bool {
    path != "/health"@ && path != "/favicon.ico"@
}

/// A request for a URL is planned from that URL.
proof fn lemma_plan_for(
    state: AppState,
    path: Seq<char>,
    query: Seq<char>,
    url: Seq<char>,
    client: Map<Seq<char>, Seq<Seq<u8>>>,
)
    requires
        is_free_path(path),
        asks_for(query, url),
    ensures
        plan_for(state, path, query, client) == target_plan(
            state,
            url_parsed(url),
            edited_target(url),
            client,
        ),
{
    if query.len() == 0 {
        reveal_strlit("url=");
        lemma_split_one(query, '&');
        reveal_with_fuel(first_url, 2);
    }
}

/// What is no URL, and a URL whose host is missing, has no dot, or ends with
/// one, is a bad request.
pub proof fn law_bad_requests(
    state: AppState,
    path: Seq<char>,
    query: Seq<char>,
    url: Seq<char>,
    client: Map<Seq<char>, Seq<Seq<u8>>>,
)
    requires
        is_free_path(path),
        asks_for(query, url),
        url_parsed(url) matches Some(t) ==> (t.host matches Some(h) ==> !h.contains('.') || h.last()
            == '.'),
    ensures
        plan_for(state, path, query, client) == PlanView::Answer(plain_error(400, "Bad Request"@)),
{
    lemma_plan_for(state, path, query, url, client);
}

/// A URL whose host is written as an address that cannot be reached from
/// everywhere is forbidden, unless private ones are allowed.
pub proof fn law_forbidden_addresses(
    state: AppState,
    path: Seq<char>,
    query: Seq<char>,
    url: Seq<char>,
    client: Map<Seq<char>, Seq<Seq<u8>>>,
    a: u8,
    b: u8,
    c: u8,
    d: u8,
)
    requires
        is_free_path(path),
        asks_for(query, url),
        url_parsed(url) is Some,
        url_parsed(url)->0.host == Some(written(a, b, c, d)),
        !state.allow_private,
        is_closed(number_of(a, b, c, d)),
    ensures
        plan_for(state, path, query, client) == PlanView::Answer(plain_error(403, "Forbidden"@)),
{
    lemma_plan_for(state, path, query, url, client);
    law_written(a, b, c, d);
    lemma_dotted_host(a, b, c, d);
    law_global_v4(a, b, c, d);
}

/// A text in small letters: an ASCII text after the rules of ASCII, any other
/// one after those of Unicode.
pub open spec fn in_small_letters(s: Seq<char>) -> Seq<char> {
    if is_ascii_chars(s) {
        ascii_lower(s)
    } else {
        lowercased(s)
    }
}

/// Where hosts are listed, a URL of a host that is none of them and stands
/// below none of them is forbidden; letters may be capital.
pub proof fn law_forbidden_hosts(
    state: AppState,
    path: Seq<char>,
    query: Seq<char>,
    url: Seq<char>,
    client: Map<Seq<char>, Seq<Seq<u8>>>,
    host: Seq<char>,
    list: Seq<String>,
)
    requires
        is_free_path(path),
        asks_for(query, url),
        url_parsed(url) is Some,
        url_parsed(url)->0.host == Some(host),
        host.contains('.') && host.last() != '.',
        state.allow_hosts is Some,
        state.allow_hosts->0@ == list,
        forall|i: int|
            0 <= i < list.len() ==> in_small_letters(host) != (#[trigger] list[i])@ && !(seq!['.']
                + list[i]@).is_suffix_of(in_small_letters(host)),
    ensures
        plan_for(state, path, query, client) == PlanView::Answer(plain_error(403, "Forbidden"@)),
{
    lemma_plan_for(state, path, query, url, client);
    assert(!is_listed(in_small_letters(host), texts(list))) by {
        assert forall|i: int| 0 <= i < texts(list).len() implies !#[trigger] is_within(
            in_small_letters(host),
            texts(list)[i],
        ) by {
            assert(texts(list)[i] == list[i]@);
        }
    }
}

/// The proxy may ask for a host: it has a dot, and not at its end; it is not
/// written as a closed address, unless private ones are allowed; and where
/// hosts are listed, it is one of them or stands below one.
pub open spec fn may_be_asked(state: AppState, host: Seq<char>) -> bool {
    &&& host.contains('.') && host.last() != '.'
    &&& forall|a: u8, b: u8, c: u8, d: u8|
        host == #[trigger] written(a, b, c, d) ==> state.allow_private || !is_closed(
            number_of(a, b, c, d),
        )
    &&& state.allow_hosts matches Some(list) ==> exists|i: int|
        0 <= i < list@.len() && (in_small_letters(host) == (#[trigger] list@[i])@ || (seq!['.']
            + list@[i]@).is_suffix_of(in_small_letters(host)))
}

/// Such a host is not refused.
proof fn lemma_may_be_asked(state: AppState, host: Seq<char>)
    requires
        may_be_asked(state, host),
    ensures
        refusal(state.allow_private, listed_hosts(state), host, small(host)) is None,
{
    assert forall|a: u8, b: u8, c: u8, d: u8|
        host == #[trigger] dotted(a, b, c, d) implies is_ip_allowed(
        state.allow_private,
        IpAddr::V4(a, b, c, d),
    ) by {
        law_written(a, b, c, d);
        law_global_v4(a, b, c, d);
    }
    if let Some(list) = state.allow_hosts {
        let i = choose|i: int|
            0 <= i < list@.len() && (in_small_letters(host) == (#[trigger] list@[i])@ || (seq!['.']
                + list@[i]@).is_suffix_of(in_small_letters(host)));
        assert(texts(list@)[i] == list@[i]@);
        assert(is_within(in_small_letters(host), texts(list@)[i]));
    }
}

/// The request to the origin is for the URL as it was parsed, where it has no
/// mark of a picture. It is one for a playlist where the path ends as that of
/// one does.
pub proof fn law_fetched(
    state: AppState,
    path: Seq<char>,
    query: Seq<char>,
    url: Seq<char>,
    client: Map<Seq<char>, Seq<Seq<u8>>>,
    target: TargetView,
)
    requires
        is_free_path(path),
        asks_for(query, url),
        url_parsed(url) == Some(target),
        target.host is Some,
        may_be_asked(state, target.host->0),
        !target.pairs.contains(("real_ext"@, "jpeg"@)),
    ensures
        ({
            let plan = plan_for(state, path, query, client);
            &&& plan is Fetch
            &&& plan->Fetch_0.target == target
            &&& !plan->Fetch_0.jpeg
            &&& plan->Fetch_0.playlist <==> ".m3u8"@.is_suffix_of(target.path)
                || ".m3u"@.is_suffix_of(target.path)
        }),
{
    lemma_plan_for(state, path, query, url, client);
    lemma_may_be_asked(state, target.host->0);
}

/// A URL with the mark of a picture is asked for with `.jpeg` in place of each
/// `.ts` of its path, and without the marks in its query, as far as it is not
/// too long for that.
pub proof fn law_picture_fetched(
    state: AppState,
    path: Seq<char>,
    query: Seq<char>,
    url: Seq<char>,
    client: Map<Seq<char>, Seq<Seq<u8>>>,
    target: TargetView,
)
    requires
        is_free_path(path),
        asks_for(query, url),
        url_parsed(url) == Some(target),
        target.host is Some,
        may_be_asked(state, target.host->0),
        target.pairs.contains(("real_ext"@, "jpeg"@)),
        target.href.len() <= 0x10_0000,
        replace(target.path, ".ts"@, ".jpeg"@).len() <= 0x100_0000,
        pairs_size(without_mark(target.pairs)) <= 0x100_0000,
        url_pathed(target, replace(target.path, ".ts"@, ".jpeg"@)).href.len() <= 0x10_0000,
    ensures
        ({
            let plan = plan_for(state, path, query, client);
            let kept = target.pairs.filter(|p: (Seq<char>, Seq<char>)| p.0 != "real_ext"@);
            &&& plan is Fetch
            &&& plan->Fetch_0.target == url_queried(
                url_pathed(target, replace(target.path, ".ts"@, ".jpeg"@)),
                kept,
            )
            &&& plan->Fetch_0.jpeg
            &&& plan->Fetch_0.playlist <==> ".m3u8"@.is_suffix_of(target.path)
                || ".m3u"@.is_suffix_of(target.path)
        }),
{
    lemma_plan_for(state, path, query, url, client);
    lemma_may_be_asked(state, target.host->0);
    law_mark_removed(target.pairs);
    let i = choose|i: int|
        0 <= i < target.pairs.len() && target.pairs[i] == ("real_ext"@, "jpeg"@);
    assert(target.pairs[i] == ("real_ext"@, "jpeg"@));
}

/// What stands in a playlist of a URL is resolved against its scheme and its
/// authority, and against the part of its path up to the last slash.
pub proof fn law_fetch_bases(
    state: AppState,
    path: Seq<char>,
    query: Seq<char>,
    url: Seq<char>,
    client: Map<Seq<char>, Seq<Seq<u8>>>,
    dir: Seq<char>,
    name: Seq<char>,
)
    requires
        is_free_path(path),
        asks_for(query, url),
        plan_for(state, path, query, client) is Fetch,
        !name.contains('/'),
    ensures
        ({
            let fetch = plan_for(state, path, query, client)->Fetch_0;
            let origin = fetch.target.scheme + "://"@ + fetch.target.authority;
            &&& fetch.origin_base == origin
            &&& fetch.target.path == dir + seq!['/'] + name ==> fetch.base_url == origin + dir
                + seq!['/']
            &&& fetch.target.path == name ==> fetch.base_url == origin + seq!['/']
        }),
{
    lemma_plan_for(state, path, query, url, client);
    let fetch = plan_for(state, path, query, client)->Fetch_0;
    let origin = fetch.target.scheme + "://"@ + fetch.target.authority;
    reveal_strlit("/");
    lemma_up_to_slash(dir + seq!['/'], name);
    lemma_up_to_slash(Seq::<char>::empty(), name);
    assert(Seq::<char>::empty() + name =~= name);
    assert(origin + (dir + seq!['/']) =~= origin + dir + seq!['/']);
    assert("/"@ =~= seq!['/']);
}

/// A name behind the last slash is left out.
proof fn lemma_up_to_slash(dir: Seq<char>, name: Seq<char>)
    requires
        dir.len() > 0 ==> dir.last() == '/',
        !name.contains('/'),
    ensures
        up_to_slash(dir + name) == dir,
    decreases name.len(),
{
    if name.len() == 0 {
        assert(dir + name =~= dir);
    } else {
        let rest = name.drop_last();
        assert(name.contains(name.last()));
        assert((dir + name).last() == name.last());
        assert((dir + name).drop_last() =~= dir + rest);
        assert forall|i: int| 0 <= i < rest.len() implies rest[i] != '/' by {
            assert(name.contains(name[i]));
        }
        lemma_up_to_slash(dir, rest);
    }
}

/// The one value that a text is sent as: its bytes, where they may stand in a
/// header, else none.
pub open spec fn is_sent_as(values: Seq<Seq<u8>>, text: Seq<char>) -> bool {
    &&& is_value(encode_utf8(text)) ==> values == seq![encode_utf8(text)]
    &&& !is_value(encode_utf8(text)) ==> values == seq![Seq::<u8>::empty()]
}

/// The one value under a name that the client speaks for itself: its first
/// value, where that is visible, else the one that stands in for it.
pub open spec fn is_clients_own(
    values: Seq<Seq<u8>>,
    client: Map<Seq<char>, Seq<Seq<u8>>>,
    name: Seq<char>,
    default: Seq<char>,
) -> bool {
    let first = first_value(client, name);
    &&& first is Some && is_visible(first->0) ==> values == seq![first->0]
    &&& first is None || !is_visible(first->0) ==> is_sent_as(values, default)
}

/// The client's first value under a name is sent along, where it has one.
pub open spec fn is_sent_along(
    fields: Map<Seq<char>, Seq<Seq<u8>>>,
    client: Map<Seq<char>, Seq<Seq<u8>>>,
    name: Seq<char>,
) -> bool {
    let first = first_value(client, name);
    &&& first is Some ==> fields.contains_key(name) && fields[name] == seq![first->0]
    &&& first is None ==> !fields.contains_key(name)
}

/// The fields of the request to the origin: the authority of the URL; the
/// client's user agent and referer, else the usual ones; what the client sends
/// along; that anything is accepted, a playlist as it is; and nothing else.
pub proof fn law_fetch_fields(
    state: AppState,
    path: Seq<char>,
    query: Seq<char>,
    url: Seq<char>,
    client: Map<Seq<char>, Seq<Seq<u8>>>,
    name: Seq<char>,
)
    requires
        is_free_path(path),
        asks_for(query, url),
        plan_for(state, path, query, client) is Fetch,
    ensures
        ({
            let fetch = plan_for(state, path, query, client)->Fetch_0;
            let fields = fetch.fields;
            &&& fields.contains_key("host"@) && is_sent_as(
                fields["host"@],
                fetch.target.authority,
            )
            &&& fields.contains_key("user-agent"@) && is_clients_own(
                fields["user-agent"@],
                client,
                "user-agent"@,
                state.default_ua@,
            )
            &&& fields.contains_key("referer"@) && is_clients_own(
                fields["referer"@],
                client,
                "referer"@,
                state.default_referer@,
            )
            &&& is_sent_along(fields, client, "origin"@)
            &&& is_sent_along(fields, client, "cookie"@)
            &&& is_sent_along(fields, client, "authorization"@)
            &&& is_sent_along(fields, client, "x-forwarded-for"@)
            &&& fields.contains_key("accept"@) && fields["accept"@] == seq![encode_utf8("*/*"@)]
            &&& fetch.playlist ==> fields.contains_key("accept-encoding"@)
                && fields["accept-encoding"@] == seq![encode_utf8("identity"@)]
            &&& !fetch.playlist ==> !fields.contains_key("accept-encoding"@)
            &&& fields.contains_key(name) ==> name == "host"@ || name == "user-agent"@ || name
                == "referer"@ || name == "origin"@ || name == "cookie"@ || name == "authorization"@
                || name == "x-forwarded-for"@ || name == "accept"@ || name == "accept-encoding"@
        }),
{
    lemma_plan_for(state, path, query, url, client);
    lemma_name_lengths();
    reveal_strlit("origin");
    reveal_strlit("cookie");
    reveal_strlit("accept");
    reveal_strlit("x-forwarded-for");
    reveal_strlit("accept-encoding");
    assert("origin"@[0] == 'o' && "cookie"@[0] == 'c' && "accept"@[0] == 'a');
    assert("x-forwarded-for"@[0] == 'x' && "accept-encoding"@[0] == 'a');
}

/// An address may be asked for where private ones are allowed, or where it can
/// be reached from everywhere.
pub proof fn law_allowed_addresses(allow_private: bool, ip: IpAddr)
    ensures
        is_ip_allowed(allow_private, ip) <==> allow_private || is_global(ip),
{
}

/// A text is sent as its bytes, where they may stand in a header, else as none.
pub proof fn law_header_text(text: Seq<char>)
    ensures
        is_sent_as(seq![value_bytes(text)], text),
{
}

/// A URL with the mark of a picture that is too long to be edited is a bad
/// request.
pub proof fn law_too_long(
    state: AppState,
    path: Seq<char>,
    query: Seq<char>,
    url: Seq<char>,
    client: Map<Seq<char>, Seq<Seq<u8>>>,
    target: TargetView,
)
    requires
        is_free_path(path),
        asks_for(query, url),
        url_parsed(url) == Some(target),
        target.host is Some,
        may_be_asked(state, target.host->0),
        target.pairs.contains(("real_ext"@, "jpeg"@)),
        target.href.len() > 0x10_0000,
    ensures
        plan_for(state, path, query, client) == PlanView::Answer(plain_error(400, "Bad Request"@)),
{
    lemma_plan_for(state, path, query, url, client);
    lemma_may_be_asked(state, target.host->0);
    let i = choose|i: int|
        0 <= i < target.pairs.len() && target.pairs[i] == ("real_ext"@, "jpeg"@);
    assert(target.pairs[i] == ("real_ext"@, "jpeg"@));
}

/// A URL that is edited gets the path and then the query, where it and they are
/// not too long.
pub proof fn law_edited(
    text: Seq<char>,
    path: Seq<char>,
    pairs: Seq<(Seq<char>, Seq<char>)>,
    target: TargetView,
)
    requires
        url_parsed(text) == Some(target),
        target.href.len() <= 0x10_0000,
        path.len() <= 0x100_0000,
        pairs_size(pairs) <= 0x100_0000,
        url_pathed(target, path).href.len() <= 0x10_0000,
    ensures
        edited(text, path, pairs) == Some(url_queried(url_pathed(target, path), pairs)),
{
}

} // verus!
