//! The resource that a request asks for, as a URL.
use vstd::prelude::*;

use crate::text::{
    ascii_lower, chars_of, ends_with_text, lemma_position, lemma_split_head, lemma_split_one,
    opt_text, position, replace, replace_text, same_text, split, text_of,
};

verus! {

/// The parts of a URL.
pub struct Target {
    /// The whole URL.
    pub href: String,
    pub scheme: String,
    /// User, host and port.
    pub authority: String,
    pub host: Option<String>,
    pub path: String,
    /// The names and values of the query, decoded.
    pub pairs: Vec<(String, String)>,
}

/// The texts of the parts of a URL.
pub struct TargetView {
    pub href: Seq<char>,
    pub scheme: Seq<char>,
    pub authority: Seq<char>,
    pub host: Option<Seq<char>>,
    pub path: Seq<char>,
    pub pairs: Seq<(Seq<char>, Seq<char>)>,
}

/// The texts of names and values.
pub open spec fn pairs_view(pairs: Seq<(String, String)>) -> Seq<(Seq<char>, Seq<char>)> {
    pairs.map_values(|p: (String, String)| (p.0@, p.1@))
}

impl View for Target {
    type V = TargetView;

    open spec fn view(&self) -> TargetView {
        TargetView {
            href: self.href@,
            scheme: self.scheme@,
            authority: self.authority@,
            host: opt_text(self.host),
            path: self.path@,
            pairs: pairs_view(self.pairs@),
        }
    }
}

/// The view of an optional URL.
pub open spec fn opt_target(target: Option<Target>) -> Option<TargetView> {
    match target {
        Some(t) => Some(t@),
        None => None,
    }
}

/// A URL, of the crate `url`.
#[verifier::external_type_specification]
#[verifier::external_body]
pub struct ExUrl(url::Url);

/// The parts that a URL holds.
pub uninterp spec fn url_parts(url: url::Url) -> TargetView;

/// The parts of the URL that a text is parsed as.
pub uninterp spec fn url_parsed(text: Seq<char>) -> Option<TargetView>;

/// The parts of a URL with another path.
pub uninterp spec fn url_pathed(target: TargetView, path: Seq<char>) -> TargetView;

/// The parts of a URL with a query of the given names and values in place of
/// its own.
pub uninterp spec fn url_queried(
    target: TargetView,
    pairs: Seq<(Seq<char>, Seq<char>)>,
) -> TargetView;

/// The URL that a reference in a document at a URL refers to.
pub uninterp spec fn url_joined(base: TargetView, reference: Seq<char>) -> Option<Seq<char>>;

/// A host with a colon has no dot.
pub open spec fn host_shape(host: Option<Seq<char>>) -> bool {
    host matches Some(h) ==> (h.contains(':') ==> !h.contains('.'))
}

/// The URL is one of http or https.
pub open spec fn is_web(target: TargetView) -> bool {
    target.scheme == "http"@ || target.scheme == "https"@
}

/// The character stands in a path as it is: a visible ASCII character that
/// neither ends a path nor is escaped in one nor stands for a slash.
pub open spec fn is_path_char(c: char) -> bool {
    &&& '!' <= c <= '~'
    &&& c != '"' && c != '#' && c != '<' && c != '>' && c != '?'
    &&& c != '\\' && c != '`' && c != '{' && c != '}'
}

/// A name in a path that stands for the directory itself or the one above it,
/// its dots escaped or not.
pub open spec fn is_dots(name: Seq<char>) -> bool {
    let n = ascii_lower(name);
    ||| n == "."@
    ||| n == "%2e"@
    ||| n == ".."@
    ||| n == ".%2e"@
    ||| n == "%2e."@
    ||| n == "%2e%2e"@
}

/// A path as it stands in a URL of the web: it begins with a slash, its
/// characters stand for themselves, and no name in it is dots.
pub open spec fn is_clean_path(path: Seq<char>) -> bool {
    &&& path.len() > 0 && path[0] == '/'
    &&& forall|i: int| 0 <= i < path.len() ==> #[trigger] is_path_char(path[i])
    &&& forall|i: int| 0 <= i < split(path, '/').len() ==> !is_dots(#[trigger] split(path, '/')[i])
}

/// A URL of the web has a clean path.
pub open spec fn path_shape(target: TargetView) -> bool {
    is_web(target) ==> is_clean_path(target.path)
}

/// The view of an optional URL of the crate `url`.
pub open spec fn opt_parts(url: Option<url::Url>) -> Option<TargetView> {
    match url {
        Some(u) => Some(url_parts(u)),
        None => None,
    }
}

/// `url::Url::parse` parses a text as a URL. A colon stands in a host only
/// where it is a version 6 address in square brackets, which is written without
/// dots; and the path of a URL of http or https is escaped and without dots
/// for names.
#[verifier::external_body]
fn url_open(text: &str) -> (r: Option<url::Url>)
    ensures
        opt_parts(r) == url_parsed(text@),
        r matches Some(url) ==> host_shape(url_parts(url).host),
        r matches Some(url) ==> path_shape(url_parts(url)),
{
    url::Url::parse(text).ok()
}

/// `url::Url` gives the parts that it holds through its accessors.
#[verifier::external_body]
fn url_read(url: &url::Url) -> (r: Target)
    ensures
        r@ == url_parts(*url),
{
    Target {
        href: url.to_string(),
        scheme: url.scheme().to_string(),
        authority: url.authority().to_string(),
        host: url.host_str().map(|h| h.to_string()),
        path: url.path().to_string(),
        pairs: url.query_pairs().into_owned().collect(),
    }
}

/// Parses a text as a URL.
pub fn url_parse(text: &str) -> (r: Option<Target>)
    ensures
        opt_target(r) == url_parsed(text@),
        r matches Some(t) ==> host_shape(t@.host) && path_shape(t@),
{
    match url_open(text) {
        Some(url) => Some(url_read(&url)),
        None => None,
    }
}

/// The most characters of a URL that is edited.
pub const HREF_LIMIT: usize = 0x10_0000;

/// The most characters of a path or a query that is put into a URL.
pub const PART_LIMIT: usize = 0x100_0000;

/// How many characters a query of some names and values takes at least.
pub open spec fn pairs_size(pairs: Seq<(Seq<char>, Seq<char>)>) -> nat
    decreases pairs.len(),
{
    if pairs.len() == 0 {
        0
    } else {
        pairs_size(pairs.drop_last()) + pairs.last().0.len() + pairs.last().1.len() + 2
    }
}

/// A URL and its new parts are small enough.
pub open spec fn fits(
    href: Seq<char>,
    path: Seq<char>,
    pairs: Seq<(Seq<char>, Seq<char>)>,
) -> bool {
    &&& href.len() <= HREF_LIMIT
    &&& path.len() <= PART_LIMIT
    &&& pairs_size(pairs) <= PART_LIMIT
}

/// The scheme, the authority and the host of two URLs are the same.
pub open spec fn same_origin(a: TargetView, b: TargetView) -> bool {
    a.scheme == b.scheme && a.authority == b.authority && a.host == b.host
}

/// What a new path leaves of a URL: the query, and where it has a host, what
/// stands before the path. A URL of the web takes a clean path as it is.
pub open spec fn is_pathed(new: TargetView, old: TargetView, path: Seq<char>) -> bool {
    &&& new.pairs == old.pairs
    &&& old.host is Some ==> same_origin(new, old)
    &&& is_web(old) && is_clean_path(path) ==> new.path == path
}

/// `url::Url::set_path` puts another path into a URL. It leaves the query, and
/// of a URL with a host what stands before the path; a URL of http or https
/// takes a clean path as it is. How any other path is written is left to the
/// crate. It panics where the URL grows beyond 4 GiB, which takes more than is
/// admitted here.
#[verifier::external_body]
fn url_set_path(url: &mut url::Url, path: &str)
    requires
        url_parts(*old(url)).href.len() <= HREF_LIMIT,
        path@.len() <= PART_LIMIT,
    ensures
        url_parts(*final(url)) == url_pathed(url_parts(*old(url)), path@),
        is_pathed(url_parts(*final(url)), url_parts(*old(url)), path@),
{
    url.set_path(path);
}

/// What a new query leaves of a URL: where it has a host, what stands before
/// the query. The names and values are the new ones.
pub open spec fn is_queried(
    new: TargetView,
    old: TargetView,
    pairs: Seq<(Seq<char>, Seq<char>)>,
) -> bool {
    &&& new.pairs == pairs
    &&& old.host is Some ==> same_origin(new, old) && new.path == old.path
}

/// The serializer of `url::Url::query_pairs_mut`, cleared and filled, puts a
/// query of the given names and values into a URL, which gives them back. Of a
/// URL with a host it leaves what stands before the query. It panics where the
/// URL grows beyond 4 GiB, which takes more than is admitted here.
#[verifier::external_body]
fn url_set_pairs(url: &mut url::Url, pairs: &Vec<(String, String)>)
    requires
        url_parts(*old(url)).href.len() <= HREF_LIMIT,
        pairs_size(pairs_view(pairs@)) <= PART_LIMIT,
    ensures
        url_parts(*final(url)) == url_queried(url_parts(*old(url)), pairs_view(pairs@)),
        is_queried(url_parts(*final(url)), url_parts(*old(url)), pairs_view(pairs@)),
{
    url.query_pairs_mut().clear().extend_pairs(pairs);
}

/// The URL that a text is parsed as, with another path and a query of the
/// given names and values; none where there is no URL, or where it is too long.
pub open spec fn edited(
    text: Seq<char>,
    path: Seq<char>,
    pairs: Seq<(Seq<char>, Seq<char>)>,
) -> Option<TargetView> {
    match url_parsed(text) {
        Some(target) => {
            let pathed = url_pathed(target, path);
            if fits(target.href, path, pairs) && pathed.href.len() <= HREF_LIMIT {
                Some(url_queried(pathed, pairs))
            } else {
                None
            }
        },
        None => None,
    }
}

/// A URL is another one with a new path and a new query: where that one has a
/// host, it is of the same origin; and where it is of the web, it has the path
/// as it is, if that is clean.
pub open spec fn is_edit_of(
    new: TargetView,
    old: TargetView,
    path: Seq<char>,
    pairs: Seq<(Seq<char>, Seq<char>)>,
) -> bool {
    &&& new.pairs == pairs
    &&& old.host is Some ==> same_origin(new, old)
    &&& old.host is Some && is_web(old) && is_clean_path(path) ==> new.path == path
}

/// Puts another path and another query into the URL that a text is parsed as.
pub fn edit_target(text: &str, path: &str, pairs: &Vec<(String, String)>) -> (r: Option<Target>)
    ensures
        opt_target(r) == edited(text@, path@, pairs_view(pairs@)),
        r matches Some(t) ==> is_edit_of(t@, url_parsed(text@)->0, path@, pairs_view(pairs@)),
{
    let mut url = match url_open(text) {
        Some(url) => url,
        None => {
            return None;
        },
    };
    if !fits_url(url_read(&url).href.as_str(), path, pairs) {
        return None;
    }
    url_set_path(&mut url, path);
    if chars_of(url_read(&url).href.as_str()).len() > HREF_LIMIT {
        return None;
    }
    url_set_pairs(&mut url, pairs);
    Some(url_read(&url))
}

/// `url::Url::join` resolves a reference against a URL.
#[verifier::external_body]
fn url_join(base: &url::Url, reference: &str) -> (r: Option<String>)
    ensures
        opt_text(r) == url_joined(url_parts(*base), reference@),
{
    base.join(reference).ok().map(|u| u.to_string())
}

/// The URL that a reference in a document at `href` refers to.
pub open spec fn joined_url(href: Seq<char>, reference: Seq<char>) -> Option<Seq<char>> {
    match url_parsed(href) {
        Some(base) => url_joined(base, reference),
        None => None,
    }
}

/// Resolves a reference in a document at `href`.
pub fn join_url(href: &str, reference: &str) -> (r: Option<String>)
    ensures
        opt_text(r) == joined_url(href@, reference@),
{
    match url_open(href) {
        Some(base) => url_join(&base, reference),
        None => None,
    }
}

/// The query asks for the picture that stands for a stream.
pub open spec fn asks_for_jpeg(target: TargetView) -> bool {
    exists|i: int|
        0 <= i < target.pairs.len() && #[trigger] target.pairs[i] == ("real_ext"@, "jpeg"@)
}

/// The names and values without those that tell the origin's extension.
pub open spec fn without_mark(pairs: Seq<(Seq<char>, Seq<char>)>) -> Seq<(Seq<char>, Seq<char>)>
    decreases pairs.len(),
{
    if pairs.len() == 0 {
        seq![]
    } else {
        let rest = without_mark(pairs.drop_last());
        if pairs.last().0 == "real_ext"@ {
            rest
        } else {
            rest.push(pairs.last())
        }
    }
}

/// The path of the picture that stands for a stream.
pub open spec fn jpeg_path(path: Seq<char>) -> Seq<char> {
    replace(path, ".ts"@, ".jpeg"@)
}

/// The longest beginning of a path that ends with a slash.
pub open spec fn up_to_slash(path: Seq<char>) -> Seq<char>
    decreases path.len(),
{
    if path.len() == 0 || path.last() == '/' {
        path
    } else {
        up_to_slash(path.drop_last())
    }
}

/// The directory of a path.
pub open spec fn directory(path: Seq<char>) -> Seq<char> {
    if up_to_slash(path).len() == 0 {
        "/"@
    } else {
        up_to_slash(path)
    }
}

/// The scheme and the authority of a URL.
pub open spec fn origin_base(target: TargetView) -> Seq<char> {
    target.scheme + "://"@ + target.authority
}

/// The URL of the directory of a URL.
pub open spec fn base_url(target: TargetView) -> Seq<char> {
    origin_base(target) + directory(target.path)
}

/// The path is that of a playlist.
pub open spec fn is_playlist_path(path: Seq<char>) -> bool {
    ".m3u8"@.is_suffix_of(path) || ".m3u"@.is_suffix_of(path)
}

impl Target {
    /// Whether the query asks for the picture that stands for a stream.
    pub fn wants_jpeg(&self) -> (r: bool)
        ensures
            r == asks_for_jpeg(self@),
    {
        let n: usize = self.pairs.len();
        for i in 0..n
            invariant
                n == self.pairs@.len(),
                forall|j: int| 0 <= j < i ==> #[trigger] self@.pairs[j] != ("real_ext"@, "jpeg"@),
        {
            let key = chars_of(self.pairs[i].0.as_str());
            let value = chars_of(self.pairs[i].1.as_str());
            assert(self@.pairs[i as int] == (key@, value@));
            if same_text(key.as_slice(), "real_ext") && same_text(value.as_slice(), "jpeg") {
                return true;
            }
        }
        false
    }

    /// The path and the query to ask the origin for in place of the URL's own.
    pub fn jpeg_parts(&self) -> (r: (String, Vec<(String, String)>))
        ensures
            r.0@ == jpeg_path(self@.path),
            pairs_view(r.1@) == without_mark(self@.pairs),
    {
        let chars = chars_of(self.path.as_str());
        proof {
            reveal_strlit(".ts");
        }
        let path = replace_text(chars.as_slice(), ".ts", ".jpeg");
        let n: usize = self.pairs.len();
        let mut kept: Vec<(String, String)> = Vec::new();
        for i in 0..n
            invariant
                n == self.pairs@.len(),
                pairs_view(kept@) == without_mark(self@.pairs.take(i as int)),
        {
            let key = chars_of(self.pairs[i].0.as_str());
            let ghost before = kept@;
            proof {
                assert(self@.pairs.take(i + 1).drop_last() =~= self@.pairs.take(i as int));
                assert(self@.pairs.take(i + 1).last() == self@.pairs[i as int]);
                assert(self@.pairs[i as int].0 == key@);
            }
            if !same_text(key.as_slice(), "real_ext") {
                let pair = (self.pairs[i].0.clone(), self.pairs[i].1.clone());
                kept.push(pair);
                assert(pairs_view(kept@) =~= pairs_view(before).push(self@.pairs[i as int]));
            }
        }
        assert(self@.pairs.take(n as int) =~= self@.pairs);
        (path, kept)
    }

    /// The scheme and the authority.
    pub fn origin_base(&self) -> (r: String)
        ensures
            r@ == origin_base(self@),
    {
        self.scheme.clone().concat("://").concat(self.authority.as_str())
    }

    /// The URL of the directory.
    pub fn base_url(&self) -> (r: String)
        ensures
            r@ == base_url(self@),
    {
        let path = chars_of(self.path.as_str());
        let mut end: usize = path.len();
        proof {
            assert(path@.take(end as int) =~= path@);
        }
        while end > 0 && path[end - 1] != '/'
            invariant
                end <= path@.len(),
                up_to_slash(path@) == up_to_slash(path@.take(end as int)),
            decreases end,
        {
            assert(path@.take(end as int).drop_last() =~= path@.take(end - 1));
            end = end - 1;
        }
        let mut out = self.origin_base();
        if end == 0 {
            out.append("/");
        } else {
            let dir = vstd::slice::slice_subrange(path.as_slice(), 0, end);
            assert(dir@ =~= path@.take(end as int));
            out.append(text_of(dir).as_str());
        }
        out
    }

    /// Whether the path is that of a playlist.
    pub fn is_playlist(&self) -> (r: bool)
        ensures
            r == is_playlist_path(self@.path),
    {
        let path = chars_of(self.path.as_str());
        ends_with_text(path.as_slice(), ".m3u8") || ends_with_text(path.as_slice(), ".m3u")
    }
}

/// Whether a URL and the parts to put into it are small enough.
pub fn fits_url(href: &str, path: &str, pairs: &Vec<(String, String)>) -> (r: bool)
    ensures
        r == fits(href@, path@, pairs_view(pairs@)),
{
    if chars_of(href).len() > HREF_LIMIT || chars_of(path).len() > PART_LIMIT {
        return false;
    }
    let n: usize = pairs.len();
    let ghost view = pairs_view(pairs@);
    let mut size: usize = 0;
    for i in 0..n
        invariant
            n == pairs@.len(),
            view == pairs_view(pairs@),
            size == pairs_size(view.take(i as int)),
            size <= PART_LIMIT,
    {
        let k: usize = chars_of(pairs[i].0.as_str()).len();
        let v: usize = chars_of(pairs[i].1.as_str()).len();
        proof {
            assert(view.take(i + 1).drop_last() =~= view.take(i as int));
            assert(view[i as int] == (pairs@[i as int].0@, pairs@[i as int].1@));
            lemma_size_grows(view, i + 1, n as int);
            assert(view.take(n as int) =~= view);
        }
        if k > PART_LIMIT || v > PART_LIMIT || size + k + v + 2 > PART_LIMIT {
            return false;
        }
        size = size + k + v + 2;
    }
    assert(view.take(n as int) =~= view);
    true
}

/// More names and values take more characters.
proof fn lemma_size_grows(pairs: Seq<(Seq<char>, Seq<char>)>, i: int, j: int)
    requires
        0 <= i <= j <= pairs.len(),
    ensures
        pairs_size(pairs.take(i)) <= pairs_size(pairs.take(j)),
    decreases j,
{
    if i < j {
        assert(pairs.take(j).drop_last() =~= pairs.take(j - 1));
        lemma_size_grows(pairs, i, j - 1);
    }
}

/// Renaming streams to pictures works name by name.
proof fn lemma_jpeg_names(path: Seq<char>)
    ensures
        split(jpeg_path(path), '/').len() == split(path, '/').len(),
        forall|i: int|
            0 <= i < split(path, '/').len() ==> #[trigger] split(jpeg_path(path), '/')[i]
                == jpeg_path(split(path, '/')[i]),
    decreases path.len(),
{
    lemma_position(path, '/');
    let p = position(path, '/') as int;
    let head = path.take(p);
    assert forall|i: int| 0 <= i < head.len() implies head[i] != '/' by {
        assert(path[i] != '/');
    }
    lemma_jpeg_no_slash(head);
    if p >= path.len() {
        assert(head =~= path);
        lemma_split_one(path, '/');
        lemma_split_one(jpeg_path(path), '/');
    } else {
        let rest = path.skip(p + 1);
        assert(path =~= head.push('/') + rest);
        lemma_jpeg_append(head, rest);
        lemma_split_head(head, rest, '/');
        lemma_split_head(jpeg_path(head), jpeg_path(rest), '/');
        lemma_jpeg_names(rest);
        assert forall|i: int| 0 <= i < split(path, '/').len() implies #[trigger] split(
            jpeg_path(path),
            '/',
        )[i] == jpeg_path(split(path, '/')[i]) by {
            if i > 0 {
                assert(split(jpeg_path(rest), '/')[i - 1] == jpeg_path(split(rest, '/')[i - 1]));
            }
        }
    }
}

/// A name stays without a slash.
proof fn lemma_jpeg_no_slash(name: Seq<char>)
    requires
        !name.contains('/'),
    ensures
        !jpeg_path(name).contains('/'),
    decreases name.len(),
{
    reveal_strlit(".ts");
    reveal_strlit(".jpeg");
    if name.len() > 0 {
        let n = if ".ts"@.is_prefix_of(name) {
            3int
        } else {
            1int
        };
        let rest = name.skip(n);
        assert(name.drop_first() =~= name.skip(1));
        assert forall|i: int| 0 <= i < rest.len() implies rest[i] != '/' by {
            assert(name.contains(name[i + n]));
        }
        lemma_jpeg_no_slash(rest);
        assert(name.contains(name[0]));
        let new = jpeg_path(name);
        let tail = jpeg_path(rest);
        let k = new.len() - tail.len();
        assert forall|i: int| 0 <= i < new.len() implies new[i] != '/' by {
            if i >= k {
                assert(new[i] == tail[i - k]);
                assert(tail.contains(tail[i - k]));
            }
        }
    }
}

/// A name in front of a slash is renamed on its own.
proof fn lemma_jpeg_append(name: Seq<char>, rest: Seq<char>)
    ensures
        jpeg_path(name.push('/') + rest) == jpeg_path(name).push('/') + jpeg_path(rest),
    decreases name.len(),
{
    reveal_strlit(".ts");
    reveal_strlit(".jpeg");
    let ts = ".ts"@;
    let all = name.push('/') + rest;
    if ts.is_prefix_of(all) {
        assert(all.subrange(0, 3)[0] == '.' && all.subrange(0, 3)[1] == 't' && all.subrange(0, 3)[2]
            == 's');
        assert(all[name.len() as int] == '/');
        assert(name.len() >= 3);
        assert(name.subrange(0, 3) =~= all.subrange(0, 3));
        let tail = name.skip(3);
        lemma_jpeg_append(tail, rest);
        assert(all.skip(3) =~= tail.push('/') + rest);
        assert(jpeg_path(all) =~= jpeg_path(name).push('/') + jpeg_path(rest));
    } else if name.len() == 0 {
        assert(all.drop_first() =~= rest);
        assert(jpeg_path(all) =~= jpeg_path(name).push('/') + jpeg_path(rest));
    } else {
        if ts.is_prefix_of(name) {
            assert(all.subrange(0, 3) =~= name.subrange(0, 3));
        }
        let tail = name.drop_first();
        lemma_jpeg_append(tail, rest);
        assert(all.drop_first() =~= tail.push('/') + rest);
        assert(jpeg_path(all) =~= jpeg_path(name).push('/') + jpeg_path(rest));
    }
}

/// Renaming leaves a text or puts a `j` into it, and puts no other character
/// into it than those that stand in a path as they are.
proof fn lemma_jpeg_chars(s: Seq<char>)
    requires
        forall|i: int| 0 <= i < s.len() ==> #[trigger] is_path_char(s[i]),
    ensures
        jpeg_path(s) == s || jpeg_path(s).contains('j'),
        forall|i: int| 0 <= i < jpeg_path(s).len() ==> #[trigger] is_path_char(jpeg_path(s)[i]),
    decreases s.len(),
{
    reveal_strlit(".ts");
    reveal_strlit(".jpeg");
    if s.len() > 0 {
        let new = jpeg_path(s);
        if ".ts"@.is_prefix_of(s) {
            lemma_jpeg_chars(s.skip(3));
            assert(new[1] == 'j');
        } else {
            let tail = jpeg_path(s.drop_first());
            lemma_jpeg_chars(s.drop_first());
            assert(seq![s[0]] + s.drop_first() =~= s);
            if tail.contains('j') {
                let k = choose|k: int| 0 <= k < tail.len() && tail[k] == 'j';
                assert(new[k + 1] == 'j');
            }
        }
    }
}

/// A clean path stays one where streams are renamed to pictures.
pub proof fn lemma_jpeg_clean(path: Seq<char>)
    requires
        is_clean_path(path),
    ensures
        is_clean_path(jpeg_path(path)),
{
    let names = split(path, '/');
    lemma_jpeg_names(path);
    lemma_jpeg_chars(path);
    lemma_split_chars(path, '/');
    assert forall|i: int| 0 <= i < split(jpeg_path(path), '/').len() implies !is_dots(
        #[trigger] split(jpeg_path(path), '/')[i],
    ) by {
        let name = names[i];
        assert forall|k: int| 0 <= k < name.len() implies #[trigger] is_path_char(name[k]) by {
            assert(path.contains(name[k]));
            let m = choose|m: int| 0 <= m < path.len() && path[m] == name[k];
            assert(is_path_char(path[m]));
        }
        lemma_jpeg_chars(name);
        assert(!is_dots(name));
        if jpeg_path(name) != name {
            lemma_dots_plain(jpeg_path(name));
        }
    }
    reveal_strlit(".ts");
    if ".ts"@.is_prefix_of(path) {
        assert(path.subrange(0, 3)[0] == '.');
    }
}

/// Dots hold no letter `j`.
proof fn lemma_dots_plain(name: Seq<char>)
    requires
        name.contains('j'),
    ensures
        !is_dots(name),
{
    reveal_strlit(".");
    reveal_strlit("%2e");
    reveal_strlit("..");
    reveal_strlit(".%2e");
    reveal_strlit("%2e.");
    reveal_strlit("%2e%2e");
    let k = choose|k: int| 0 <= k < name.len() && name[k] == 'j';
    assert(ascii_lower(name)[k] == 'j');
    assert(!"."@.contains('j') && !"%2e"@.contains('j') && !".."@.contains('j'));
    assert(!".%2e"@.contains('j') && !"%2e."@.contains('j') && !"%2e%2e"@.contains('j'));
    assert(ascii_lower(name).contains('j'));
}

/// The pieces of a text hold no characters but those of the text.
proof fn lemma_split_chars(s: Seq<char>, c: char)
    ensures
        forall|i: int, k: int|
            0 <= i < split(s, c).len() && 0 <= k < split(s, c)[i].len() ==> s.contains(
                #[trigger] split(s, c)[i][k],
            ),
    decreases s.len(),
{
    lemma_position(s, c);
    let p = position(s, c) as int;
    if p >= s.len() {
        assert forall|i: int, k: int|
            0 <= i < split(s, c).len() && 0 <= k < split(s, c)[i].len() implies s.contains(
            #[trigger] split(s, c)[i][k],
        ) by {
            assert(split(s, c)[i][k] == s[k]);
        }
    } else {
        let rest = s.skip(p + 1);
        lemma_split_chars(rest, c);
        assert forall|i: int, k: int|
            0 <= i < split(s, c).len() && 0 <= k < split(s, c)[i].len() implies s.contains(
            #[trigger] split(s, c)[i][k],
        ) by {
            if i == 0 {
                assert(split(s, c)[i][k] == s[k]);
            } else {
                let d = split(rest, c)[i - 1][k];
                assert(rest.contains(d));
                let m = choose|m: int| 0 <= m < rest.len() && rest[m] == d;
                assert(s[m + p + 1] == d);
            }
        }
    }
}

} // verus!
