//! What the proxy does with a request.
use vstd::prelude::*;

use crate::address::{dotted, is_global, is_global_ip, parse_ip, IpAddr};
use crate::headers::{
    empty_headers, error_fields, error_headers, header_fields, no_fields, upstream_fields,
    upstream_headers,
};
use crate::percent::{decode, percent_decoded};
use crate::target::{
    asks_for_jpeg, base_url, edit_target, edited, is_playlist_path, is_web, jpeg_path,
    lemma_jpeg_clean, opt_target, origin_base, pairs_view, same_origin, url_parse, url_parsed,
    without_mark, Target, TargetView,
};
use crate::text::{
    chars_of, ends_with, find_char, lemma_position, opt_text, same_text, small, split, split_chars,
    starts_with, text_of, texts, to_small,
};

verus! {

/// How the proxy is set up.
#[derive(Clone)]
pub struct AppState {
    /// The address of the proxy, up to the address of the resource.
    pub proxy_base: String,
    /// The hosts that may be asked for; all of them where there is no list.
    pub allow_hosts: Option<Vec<String>>,
    /// Whether private addresses may be asked for.
    pub allow_private: bool,
    pub default_referer: String,
    pub default_ua: String,
}

/// An answer to a player.
pub struct Reply {
    pub status: u16,
    pub headers: http::HeaderMap<http::HeaderValue>,
    pub body: String,
}

/// What an answer to a player says.
pub struct ReplyView {
    pub status: u16,
    pub fields: Map<Seq<char>, Seq<Seq<u8>>>,
    pub body: Seq<char>,
}

impl View for Reply {
    type V = ReplyView;

    open spec fn view(&self) -> ReplyView {
        ReplyView { status: self.status, fields: header_fields(self.headers), body: self.body@ }
    }
}

/// The answer that tells what is wrong with a request.
pub open spec fn error_reply(status: u16, msg: Seq<char>) -> ReplyView {
    ReplyView { status, fields: error_fields(), body: msg }
}

/// The answer that tells what is wrong with a request.
pub fn client_error(status: u16, msg: &str) -> (r: Reply)
    requires
        100 <= status <= 999,
    ensures
        r@ == error_reply(status, msg@),
        r.status == status,
        r.body@ == msg@,
{
    Reply { status, headers: error_headers(), body: msg.to_owned() }
}

/// An answer without header fields of its own.
fn bare_reply(status: u16, msg: &str) -> (r: Reply)
    ensures
        r@ == (ReplyView { status, fields: no_fields(), body: msg@ }),
{
    Reply { status, headers: empty_headers(), body: msg.to_owned() }
}

/// An address may be asked for.
pub open spec fn is_ip_allowed(allow_private: bool, ip: IpAddr) -> bool {
    allow_private || is_global(ip)
}

/// Whether an address may be asked for.
pub fn state_is_private_ok(state: &AppState, ip: IpAddr) -> (r: bool)
    ensures
        r == is_ip_allowed(state.allow_private, ip),
{
    state.allow_private || is_global_ip(ip)
}

/// The value of the first parameter `url` of a query, still encoded.
pub open spec fn url_param(query: Seq<char>) -> Option<Seq<char>> {
    first_url(split(query, '&'))
}

/// What follows `url=` in the first of some parameters that begins with it.
pub open spec fn first_url(params: Seq<Seq<char>>) -> Option<Seq<char>>
    decreases params.len(),
{
    if params.len() == 0 {
        None
    } else if "url="@.is_prefix_of(params[0]) {
        Some(params[0].skip(4))
    } else {
        first_url(params.drop_first())
    }
}

/// Finds the value of the first parameter `url` of a query, still encoded.
pub fn find_url_param(query: &str) -> (r: Option<String>)
    ensures
        opt_text(r) == url_param(query@),
{
    let chars = chars_of(query);
    let params = split_chars(chars.as_slice(), '&');
    let ghost all = split(query@, '&');
    let n: usize = params.len();
    proof {
        reveal_strlit("url=");
        assert(all.skip(0) =~= all);
    }
    for i in 0..n
        invariant
            n == params@.len(),
            all == split(query@, '&'),
            n == all.len(),
            "url="@.len() == 4,
            forall|j: int| 0 <= j < n ==> (#[trigger] params@[j])@ == all[j],
            url_param(query@) == first_url(all.skip(i as int)),
    {
        let param = params[i];
        let ghost rest = all.skip(i as int);
        assert(rest[0] == param@);
        assert(rest.drop_first() =~= all.skip(i + 1));
        if starts_with(param, "url=") {
            let value = vstd::slice::slice_subrange(param, 4, param.len());
            assert(value@ =~= param@.skip(4));
            return Some(text_of(value));
        }
    }
    assert(all.skip(n as int) =~= Seq::<Seq<char>>::empty());
    None
}

/// A host with a dot in it, and not at its end.
pub open spec fn is_host_name(host: Seq<char>) -> bool {
    host.len() > 0 && host.contains('.') && host.last() != '.'
}

/// A host that is written as an address is one that may be asked for.
pub open spec fn is_literal_allowed(allow_private: bool, host: Seq<char>) -> bool {
    forall|a: u8, b: u8, c: u8, d: u8|
        host == #[trigger] dotted(a, b, c, d) ==> is_ip_allowed(allow_private, IpAddr::V4(a, b, c, d))
}

/// A host, in small letters, is one of a list or a host below one of them.
pub open spec fn is_listed(host: Seq<char>, list: Seq<Seq<char>>) -> bool {
    exists|i: int| 0 <= i < list.len() && #[trigger] is_within(host, list[i])
}

/// A host is another one or stands below it.
pub open spec fn is_within(host: Seq<char>, domain: Seq<char>) -> bool {
    host == domain || (seq!['.'] + domain).is_suffix_of(host)
}

/// Whether a host, in small letters, is one of a list or below one of them.
pub fn host_is_listed(host: &str, list: &Vec<String>) -> (r: bool)
    ensures
        r == is_listed(host@, texts(list@)),
{
    let chars = chars_of(host);
    let n: usize = list.len();
    for i in 0..n
        invariant
            n == list@.len(),
            chars@ == host@,
            forall|j: int| 0 <= j < i ==> !#[trigger] is_within(host@, texts(list@)[j]),
    {
        let domain = list[i].as_str();
        assert(texts(list@)[i as int] == domain@);
        let mut below = String::new();
        below.push('.');
        below.append(domain);
        assert(below@ =~= seq!['.'] + domain@);
        let below = chars_of(below.as_str());
        if same_text(chars.as_slice(), domain) || ends_with(chars.as_slice(), below.as_slice()) {
            assert(is_within(host@, texts(list@)[i as int]));
            return true;
        }
    }
    false
}

/// The host of a URL; none is an empty text.
pub open spec fn host_text(target: TargetView) -> Seq<char> {
    match target.host {
        Some(h) => h,
        None => seq![],
    }
}

/// The list of a setup.
pub open spec fn listed_hosts(state: AppState) -> Option<Seq<Seq<char>>> {
    match state.allow_hosts {
        Some(list) => Some(texts(list@)),
        None => None,
    }
}

/// The answer to a request for a URL that the proxy does not ask for; none
/// where it does. The host is also given in small letters.
pub open spec fn refusal(
    allow_private: bool,
    allow_hosts: Option<Seq<Seq<char>>>,
    host: Seq<char>,
    lower: Seq<char>,
) -> Option<ReplyView> {
    if !is_host_name(host) {
        Some(error_reply(400, "Bad Request"@))
    } else if !is_literal_allowed(allow_private, host) {
        Some(error_reply(403, "Forbidden"@))
    } else if allow_hosts is Some && !is_listed(lower, allow_hosts->0) {
        Some(error_reply(403, "Forbidden"@))
    } else {
        None
    }
}

/// The proxy asks for a URL of this host.
pub open spec fn is_admitted(state: AppState, target: TargetView) -> bool {
    refusal(
        state.allow_private,
        listed_hosts(state),
        host_text(target),
        small(host_text(target)),
    ) is None
}

/// The view of an optional answer.
pub open spec fn opt_reply(reply: Option<Reply>) -> Option<ReplyView> {
    match reply {
        Some(r) => Some(r@),
        None => None,
    }
}

/// The answer to a request for a host that the proxy does not ask, if it is
/// one; the host is also given in small letters.
pub fn refuse_host(state: &AppState, host: &str, lower: &str) -> (r: Option<Reply>)
    ensures
        opt_reply(r) == refusal(state.allow_private, listed_hosts(*state), host@, lower@),
{
    let chars = chars_of(host);
    let dot: usize = find_char(chars.as_slice(), '.');
    proof {
        lemma_position(host@, '.');
        if dot < host@.len() {
            assert(host@.contains('.'));
        }
    }
    let n: usize = chars.len();
    if n == 0 || dot >= n || chars[n - 1] == '.' {
        return Some(client_error(400, "Bad Request"));
    }
    if let Some(ip) = parse_ip(host) {
        if !state_is_private_ok(state, ip) {
            return Some(client_error(403, "Forbidden"));
        }
    }
    if let Some(list) = &state.allow_hosts {
        if !host_is_listed(lower, list) {
            return Some(client_error(403, "Forbidden"));
        }
    }
    None
}

/// The answer to a request for a URL that the proxy does not ask for.
pub fn refuse_target(state: &AppState, target: &Target) -> (r: Option<Reply>)
    ensures
        opt_reply(r) == refusal(
            state.allow_private,
            listed_hosts(*state),
            host_text(target@),
            small(host_text(target@)),
        ),
{
    let host = match &target.host {
        Some(h) => h.clone(),
        None => String::new(),
    };
    assert(host@ =~= host_text(target@));
    let lower = to_small(host.as_str());
    refuse_host(state, host.as_str(), lower.as_str())
}

/// A request to the origin.
pub struct Fetch {
    pub target: Target,
    pub headers: http::HeaderMap<http::HeaderValue>,
    /// The answer is a playlist.
    pub playlist: bool,
    /// The answer is a stream that the origin offers as a picture.
    pub jpeg: bool,
    /// What paths in the playlist are resolved against.
    pub origin_base: String,
    /// What names in the playlist are resolved against.
    pub base_url: String,
}

/// What a request to the origin says.
pub struct FetchView {
    pub target: TargetView,
    pub fields: Map<Seq<char>, Seq<Seq<u8>>>,
    pub playlist: bool,
    pub jpeg: bool,
    pub origin_base: Seq<char>,
    pub base_url: Seq<char>,
}

impl View for Fetch {
    type V = FetchView;

    open spec fn view(&self) -> FetchView {
        FetchView {
            target: self.target@,
            fields: header_fields(self.headers),
            playlist: self.playlist,
            jpeg: self.jpeg,
            origin_base: self.origin_base@,
            base_url: self.base_url@,
        }
    }
}

/// The request to the origin for a URL.
pub open spec fn fetch_for(
    state: AppState,
    target: TargetView,
    playlist: bool,
    jpeg: bool,
    client: Map<Seq<char>, Seq<Seq<u8>>>,
) -> FetchView {
    FetchView {
        target,
        fields: upstream_fields(
            client,
            target.authority,
            state.default_ua@,
            state.default_referer@,
            playlist,
        ),
        playlist,
        jpeg,
        origin_base: origin_base(target),
        base_url: base_url(target),
    }
}

/// Makes the request to the origin for a URL.
pub fn make_fetch(
    state: &AppState,
    target: Target,
    playlist: bool,
    jpeg: bool,
    client: &http::HeaderMap<http::HeaderValue>,
) -> (r: Fetch)
    ensures
        r@ == fetch_for(*state, target@, playlist, jpeg, header_fields(*client)),
{
    let headers = upstream_headers(
        client,
        target.authority.as_str(),
        state.default_ua.as_str(),
        state.default_referer.as_str(),
        playlist,
    );
    let origin_base = target.origin_base();
    let base_url = target.base_url();
    Fetch { target, headers, playlist, jpeg, origin_base, base_url }
}

/// What to do with a request: answer it, or ask the origin.
pub enum Plan {
    Answer(Reply),
    Fetch(Fetch),
}

/// What a plan says.
pub enum PlanView {
    Answer(ReplyView),
    Fetch(FetchView),
}

impl View for Plan {
    type V = PlanView;

    open spec fn view(&self) -> PlanView {
        match self {
            Plan::Answer(reply) => PlanView::Answer(reply@),
            Plan::Fetch(fetch) => PlanView::Fetch(fetch@),
        }
    }
}

/// What a URL leads to: a plan, or a change of the URL with which it is asked
/// for.
pub enum Step {
    Plan(Plan),
    /// The origin offers a stream as a picture: it is asked with this path and
    /// this query, and the answer may be a playlist.
    Edit(String, Vec<(String, String)>, bool),
}

/// What such a step says.
pub enum StepView {
    Plan(PlanView),
    Edit(Seq<char>, Seq<(Seq<char>, Seq<char>)>, bool),
}

impl View for Step {
    type V = StepView;

    open spec fn view(&self) -> StepView {
        match self {
            Step::Plan(plan) => StepView::Plan(plan@),
            Step::Edit(path, pairs, playlist) => StepView::Edit(
                path@,
                pairs_view(pairs@),
                *playlist,
            ),
        }
    }
}

/// What the URL of a request leads to; there may be none.
pub open spec fn target_step(
    state: AppState,
    parsed: Option<TargetView>,
    client: Map<Seq<char>, Seq<Seq<u8>>>,
) -> StepView {
    match parsed {
        None => StepView::Plan(PlanView::Answer(error_reply(400, "Bad Request"@))),
        Some(target) => {
            let host = host_text(target);
            let playlist = is_playlist_path(target.path);
            match refusal(state.allow_private, listed_hosts(state), host, small(host)) {
                Some(reply) => StepView::Plan(PlanView::Answer(reply)),
                None => if !asks_for_jpeg(target) {
                    StepView::Plan(
                        PlanView::Fetch(fetch_for(state, target, playlist, false, client)),
                    )
                } else {
                    StepView::Edit(jpeg_path(target.path), without_mark(target.pairs), playlist)
                },
            }
        },
    }
}

/// What to do with a request for a URL; there may be none. Where the URL asks
/// for the picture that stands for a stream, `edited` is what the origin is
/// asked for; there is none where the URL is too long to be edited.
pub open spec fn target_plan(
    state: AppState,
    parsed: Option<TargetView>,
    edited: Option<TargetView>,
    client: Map<Seq<char>, Seq<Seq<u8>>>,
) -> PlanView {
    match target_step(state, parsed, client) {
        StepView::Plan(plan) => plan,
        StepView::Edit(_, _, playlist) => match edited {
            Some(target) => PlanView::Fetch(fetch_for(state, target, playlist, true, client)),
            None => PlanView::Answer(error_reply(400, "Bad Request"@)),
        },
    }
}

/// The URL that the origin is asked for in place of one that asks for the
/// picture that stands for a stream.
pub open spec fn edited_target(text: Seq<char>) -> Option<TargetView> {
    match url_parsed(text) {
        Some(target) => edited(text, jpeg_path(target.path), without_mark(target.pairs)),
        None => None,
    }
}

/// What the proxy answers a request without asking an origin, from its method,
/// its path and its query alone.
pub open spec fn own_answer(method: Seq<char>, path: Seq<char>, query: Seq<char>) -> Option<ReplyView> {
    if path == "/health"@ || (path == "/"@ && query.len() == 0) {
        Some(ReplyView { status: 200, fields: no_fields(), body: "OK"@ })
    } else if path == "/favicon.ico"@ {
        Some(ReplyView { status: 404, fields: no_fields(), body: ""@ })
    } else if method != "GET"@ {
        Some(error_reply(405, "Method Not Allowed"@))
    } else if url_param(query) is None {
        Some(error_reply(400, "Use /?url=<encoded_target>"@))
    } else if percent_decoded(url_param(query)->0) is None {
        Some(error_reply(400, "Bad Request"@))
    } else {
        None
    }
}

/// The text that a request names as its URL.
pub open spec fn requested(query: Seq<char>) -> Seq<char> {
    percent_decoded(url_param(query)->0)->0
}

/// What to do with a request.
pub open spec fn request_plan(
    state: AppState,
    method: Seq<char>,
    path: Seq<char>,
    query: Seq<char>,
    client: Map<Seq<char>, Seq<Seq<u8>>>,
) -> PlanView {
    match own_answer(method, path, query) {
        Some(reply) => PlanView::Answer(reply),
        None => target_plan(
            state,
            url_parsed(requested(query)),
            edited_target(requested(query)),
            client,
        ),
    }
}

/// The answer to a request that needs no origin, or else the text that it
/// names as its URL.
pub fn route(method: &str, path: &str, query: &str) -> (r: Result<String, Reply>)
    ensures
        r is Err <==> own_answer(method@, path@, query@) is Some,
        r matches Err(reply) ==> Some(reply@) == own_answer(method@, path@, query@),
        r matches Ok(text) ==> text@ == requested(query@),
{
    let path = chars_of(path);
    if same_text(path.as_slice(), "/health") || (same_text(path.as_slice(), "/")
        && query.is_empty()) {
        return Err(bare_reply(200, "OK"));
    }
    if same_text(path.as_slice(), "/favicon.ico") {
        return Err(bare_reply(404, ""));
    }
    let method = chars_of(method);
    if !same_text(method.as_slice(), "GET") {
        return Err(client_error(405, "Method Not Allowed"));
    }
    match find_url_param(query) {
        None => Err(client_error(400, "Use /?url=<encoded_target>")),
        Some(encoded) => match decode(encoded.as_str()) {
            None => Err(client_error(400, "Bad Request")),
            Some(text) => Ok(text),
        },
    }
}

/// Decides what the URL of a request leads to.
pub fn plan_target(
    state: &AppState,
    parsed: Option<Target>,
    client: &http::HeaderMap<http::HeaderValue>,
) -> (r: Step)
    ensures
        r@ == target_step(*state, opt_target(parsed), header_fields(*client)),
{
    let target = match parsed {
        None => {
            return Step::Plan(Plan::Answer(client_error(400, "Bad Request")));
        },
        Some(target) => target,
    };
    if let Some(reply) = refuse_target(state, &target) {
        return Step::Plan(Plan::Answer(reply));
    }
    let playlist = target.is_playlist();
    if !target.wants_jpeg() {
        return Step::Plan(Plan::Fetch(make_fetch(state, target, playlist, false, client)));
    }
    let (path, pairs) = target.jpeg_parts();
    Step::Edit(path, pairs, playlist)
}

/// The URL that is asked for is that of a request, or, where the origin offers
/// a stream as a picture, one of the same origin with the query without the
/// mark; of http or https, with exactly the path of the picture.
pub open spec fn is_asked_for(target: TargetView, parsed: TargetView, jpeg: bool) -> bool {
    if jpeg {
        &&& same_origin(target, parsed)
        &&& target.pairs == without_mark(parsed.pairs)
        &&& is_web(parsed) ==> target.path == jpeg_path(parsed.path)
    } else {
        target == parsed
    }
}

/// Decides what to do with a request. The host of a URL that is asked for is
/// admitted, and is no version 6 address, which has colons in it.
pub fn plan_request(
    state: &AppState,
    method: &str,
    path: &str,
    query: &str,
    client: &http::HeaderMap<http::HeaderValue>,
) -> (r: Plan)
    ensures
        r@ == request_plan(*state, method@, path@, query@, header_fields(*client)),
        r@ matches PlanView::Fetch(fetch) ==> {
            let parsed = url_parsed(requested(query@));
            &&& is_admitted(*state, fetch.target)
            &&& !host_text(fetch.target).contains(':')
            &&& parsed is Some
            &&& same_origin(fetch.target, parsed->0)
            &&& is_asked_for(fetch.target, parsed->0, fetch.jpeg)
        },
{
    let text = match route(method, path, query) {
        Err(reply) => {
            return Plan::Answer(reply);
        },
        Ok(text) => text,
    };
    let parsed = url_parse(text.as_str());
    proof {
        let target = url_parsed(text@);
        if target is Some && is_web(target->0) {
            lemma_jpeg_clean(target->0.path);
        }
    }
    match plan_target(state, parsed, client) {
        Step::Plan(plan) => plan,
        Step::Edit(path, pairs, playlist) => match edit_target(
            text.as_str(),
            path.as_str(),
            &pairs,
        ) {
            Some(target) => Plan::Fetch(make_fetch(state, target, playlist, true, client)),
            None => Plan::Answer(client_error(400, "Bad Request")),
        },
    }
}

} // verus!
