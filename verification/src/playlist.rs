//! Rewriting of m3u8 playlists, so that a player fetches everything that a
//! playlist refers to through the proxy.
use vstd::prelude::*;
use vstd::slice::slice_subrange;

use crate::percent::{encode, percent_encoded};
use crate::text::{
    chars_of, contains_text, ends_with_text, find_char, has_text, lemma_position, lines, opt_text,
    position, replace, replace_text, starts_with, text_of,
};

verus! {

/// The part of an address before its query.
pub open spec fn before_query(s: Seq<char>) -> Seq<char> {
    s.take(position(s, '?') as int)
}

/// `path` ends as the name of a media file, a playlist, a subtitle, a picture
/// or a key does.
pub open spec fn has_media_extension(path: Seq<char>) -> bool {
    ||| ".ts"@.is_suffix_of(path)
    ||| ".m3u8"@.is_suffix_of(path)
    ||| ".m3u"@.is_suffix_of(path)
    ||| ".mp4"@.is_suffix_of(path)
    ||| ".m4s"@.is_suffix_of(path)
    ||| ".m4a"@.is_suffix_of(path)
    ||| ".aac"@.is_suffix_of(path)
    ||| ".mp3"@.is_suffix_of(path)
    ||| ".ogg"@.is_suffix_of(path)
    ||| ".opus"@.is_suffix_of(path)
    ||| ".vtt"@.is_suffix_of(path)
    ||| ".srt"@.is_suffix_of(path)
    ||| ".jpeg"@.is_suffix_of(path)
    ||| ".jpg"@.is_suffix_of(path)
    ||| ".png"@.is_suffix_of(path)
    ||| ".key"@.is_suffix_of(path)
}

/// `line` is a path, or names a media resource by its extension.
pub open spec fn is_media_line(line: Seq<char>) -> bool {
    (line.len() > 0 && line[0] == '/') || has_media_extension(before_query(line))
}

/// `line` is a tag that belongs to the address on the line after it.
pub open spec fn is_uri_tag(line: Seq<char>) -> bool {
    ||| "#EXTINF:"@.is_prefix_of(line)
    ||| "#EXT-X-STREAM-INF:"@.is_prefix_of(line)
    ||| "#EXT-X-I-FRAME-STREAM-INF:"@.is_prefix_of(line)
}

/// `s` is an address with the scheme http or https.
pub open spec fn is_absolute(s: Seq<char>) -> bool {
    "http://"@.is_prefix_of(s) || "https://"@.is_prefix_of(s)
}

/// The absolute address of `uri` in a playlist whose directory is `base` and
/// whose scheme and authority are `origin_base`.
pub open spec fn absolute(uri: Seq<char>, base: Seq<char>, origin_base: Seq<char>) -> Seq<char> {
    if is_absolute(uri) {
        uri
    } else if uri.len() > 0 && uri[0] == '/' {
        origin_base + uri
    } else {
        base + uri
    }
}

/// Whether a line of a playlist names a media resource.
pub fn is_likely_media_resource(line: &str) -> (r: bool)
    ensures
        r == is_media_line(line@),
{
    let line = chars_of(line);
    if line.len() > 0 && line[0] == '/' {
        return true;
    }
    let end: usize = find_char(line.as_slice(), '?');
    let path = slice_subrange(line.as_slice(), 0, end);
    assert(path@ =~= before_query(line@));
    ends_with_text(path, ".ts") || ends_with_text(path, ".m3u8") || ends_with_text(path, ".m3u")
        || ends_with_text(path, ".mp4") || ends_with_text(path, ".m4s")
        || ends_with_text(path, ".m4a") || ends_with_text(path, ".aac")
        || ends_with_text(path, ".mp3") || ends_with_text(path, ".ogg")
        || ends_with_text(path, ".opus") || ends_with_text(path, ".vtt")
        || ends_with_text(path, ".srt") || ends_with_text(path, ".jpeg")
        || ends_with_text(path, ".jpg") || ends_with_text(path, ".png")
        || ends_with_text(path, ".key")
}

/// Whether a line of a playlist is a tag that belongs to the next address.
pub fn tag_requires_uri(line: &str) -> (r: bool)
    ensures
        r == is_uri_tag(line@),
{
    let line = chars_of(line);
    starts_with(line.as_slice(), "#EXTINF:") || starts_with(line.as_slice(), "#EXT-X-STREAM-INF:")
        || starts_with(line.as_slice(), "#EXT-X-I-FRAME-STREAM-INF:")
}

/// Whether an address has the scheme http or https.
fn has_http_scheme(s: &[char]) -> (r: bool)
    ensures
        r == is_absolute(s@),
{
    starts_with(s, "http://") || starts_with(s, "https://")
}

/// The absolute address of `uri`.
fn resolve_uri(uri: &str, base: &str, origin_base: &str) -> (r: String)
    ensures
        r@ == absolute(uri@, base@, origin_base@),
{
    let chars = chars_of(uri);
    if has_http_scheme(chars.as_slice()) {
        uri.to_owned()
    } else if chars.len() > 0 && chars[0] == '/' {
        origin_base.to_owned().concat(uri)
    } else {
        base.to_owned().concat(uri)
    }
}

/// A piece of a tag line.
pub enum Piece {
    /// A character of its own.
    Plain(char),
    /// `URI=` with an address in double quotes behind it.
    Uri(Seq<char>),
    /// `URI=` with something else behind it, of which this is the first character.
    Open(char),
    /// `URI=` at the end of the line.
    Bare,
}

/// The first piece of a line, and how many characters it takes.
pub open spec fn first_piece(line: Seq<char>) -> (Piece, nat)
    recommends
        line.len() > 0,
{
    if !seq!['U', 'R', 'I', '='].is_prefix_of(line) {
        (Piece::Plain(line[0]), 1)
    } else if line.len() == 4 {
        (Piece::Bare, 4)
    } else {
        let value = line.skip(5);
        let end = position(value, '"');
        if line[4] == '"' && end < value.len() {
            (Piece::Uri(value.take(end as int)), 6 + end)
        } else {
            (Piece::Open(line[4]), 5)
        }
    }
}

/// The pieces of a line.
pub open spec fn pieces(line: Seq<char>) -> Seq<Piece>
    decreases line.len(),
{
    if line.len() == 0 {
        seq![]
    } else {
        let (piece, n) = first_piece(line);
        seq![piece] + pieces(line.skip(n as int))
    }
}

/// `URI=` with an address in double quotes behind it.
pub open spec fn quoted(uri: Seq<char>) -> Seq<char> {
    "URI=\""@ + uri + "\""@
}

/// What stands for a piece in the rewritten line: an address in quotes is
/// replaced by the address at which the proxy offers it, and all other text is
/// kept.
pub open spec fn rewritten_piece(
    piece: Piece,
    base: Seq<char>,
    origin_base: Seq<char>,
    proxy_base: Seq<char>,
) -> Seq<char> {
    match piece {
        Piece::Plain(c) => seq![c],
        Piece::Uri(uri) => quoted(proxied(absolute(uri, base, origin_base), proxy_base)),
        Piece::Open(c) => "URI="@.push(c),
        Piece::Bare => "URI="@,
    }
}

/// The pieces of a line rewritten, one after the other.
pub open spec fn rewritten_pieces(
    ps: Seq<Piece>,
    base: Seq<char>,
    origin_base: Seq<char>,
    proxy_base: Seq<char>,
) -> Seq<char>
    decreases ps.len(),
{
    if ps.len() == 0 {
        seq![]
    } else {
        rewritten_piece(ps[0], base, origin_base, proxy_base) + rewritten_pieces(
            ps.drop_first(),
            base,
            origin_base,
            proxy_base,
        )
    }
}

/// The address at which the proxy offers the resource at `url`.
pub open spec fn proxied(url: Seq<char>, proxy_base: Seq<char>) -> Seq<char> {
    proxy_base + percent_encoded(url)
}

/// A tag line with its quoted addresses rewritten.
pub open spec fn rewritten_tag(
    line: Seq<char>,
    base: Seq<char>,
    origin_base: Seq<char>,
    proxy_base: Seq<char>,
) -> Seq<char> {
    rewritten_pieces(pieces(line), base, origin_base, proxy_base)
}

/// The line ends with a `URI=` that nothing follows.
pub open spec fn ends_in_bare_uri(line: Seq<char>) -> bool {
    pieces(line).contains(Piece::Bare)
}

/// How a piece of a tag line begins.
enum Mark {
    Plain,
    Open,
    Bare,
    /// The number of characters between the quotes.
    Uri(usize),
}

/// How the piece that begins at `i` begins.
fn mark_at(line: &[char], i: usize) -> (mark: Mark)
    requires
        i < line@.len(),
    ensures
        match mark {
            Mark::Plain => first_piece(line@.skip(i as int)) == (Piece::Plain(line@[i as int]), 1nat),
            Mark::Open => i + 5 <= line@.len() && first_piece(line@.skip(i as int)) == (
                Piece::Open(line@[i + 4]),
                5nat,
            ),
            Mark::Bare => i + 4 == line@.len() && first_piece(line@.skip(i as int)) == (
                Piece::Bare,
                4nat,
            ),
            Mark::Uri(end) => i + 6 + end <= line@.len() && first_piece(line@.skip(i as int)) == (
                Piece::Uri(line@.subrange(i + 5, i + 5 + end)),
                (6 + end) as nat,
            ),
        },
{
    let n: usize = line.len();
    let ghost rest = line@.skip(i as int);
    let ghost uri = seq!['U', 'R', 'I', '='];
    assert(uri.is_prefix_of(rest) <==> (rest.len() >= 4 && rest[0] == 'U' && rest[1] == 'R'
        && rest[2] == 'I' && rest[3] == '=')) by {
        if rest.len() >= 4 && rest[0] == 'U' && rest[1] == 'R' && rest[2] == 'I' && rest[3] == '=' {
            assert(uri =~= rest.subrange(0, 4));
        }
        if uri.is_prefix_of(rest) {
            assert(rest.subrange(0, 4)[0] == 'U');
            assert(rest.subrange(0, 4)[1] == 'R');
            assert(rest.subrange(0, 4)[2] == 'I');
            assert(rest.subrange(0, 4)[3] == '=');
        }
    }
    if n - i < 4 || line[i] != 'U' || line[i + 1] != 'R' || line[i + 2] != 'I' || line[i + 3] != '=' {
        return Mark::Plain;
    }
    if n - i == 4 {
        return Mark::Bare;
    }
    let value = slice_subrange(line, i + 5, n);
    assert(value@ =~= rest.skip(5));
    let end: usize = find_char(value, '"');
    if line[i + 4] == '"' && end < value.len() {
        assert(rest.skip(5).take(end as int) =~= line@.subrange(i + 5, i + 5 + end));
        return Mark::Uri(end);
    }
    Mark::Open
}

/// What the pieces of a line are, told from the first one.
proof fn lemma_pieces_step(line: Seq<char>, i: int)
    requires
        0 <= i < line.len(),
    ensures
        ({
            let (piece, len) = first_piece(line.skip(i));
            let all = pieces(line.skip(i));
            let rest = pieces(line.skip(i + len));
            &&& all[0] == piece
            &&& all.drop_first() == rest
            &&& all.contains(Piece::Bare) <==> (piece == Piece::Bare || rest.contains(Piece::Bare))
        }),
{
    let (piece, len) = first_piece(line.skip(i));
    let all = pieces(line.skip(i));
    let rest = pieces(line.skip(i + len));
    lemma_position(line.skip(i).skip(5), '"');
    assert(line.skip(i).skip(len as int) =~= line.skip(i + len));
    assert(all == seq![piece] + rest);
    assert(all.drop_first() =~= rest);
    if rest.contains(Piece::Bare) {
        let k = choose|k: int| 0 <= k < rest.len() && rest[k] == Piece::Bare;
        assert(all[k + 1] == Piece::Bare);
    }
    if all.contains(Piece::Bare) {
        let k = choose|k: int| 0 <= k < all.len() && all[k] == Piece::Bare;
        if k > 0 {
            assert(rest[k - 1] == Piece::Bare);
        }
    }
}

/// Whether a tag line ends with a `URI=` that nothing follows.
pub fn has_bare_uri(line: &str) -> (r: bool)
    ensures
        r == ends_in_bare_uri(line@),
{
    let chars = chars_of(line);
    let n: usize = chars.len();
    let mut i: usize = 0;
    assert(chars@.skip(0) =~= chars@);
    while i < n
        invariant
            n == chars@.len(),
            i <= n,
            ends_in_bare_uri(line@) == pieces(chars@.skip(i as int)).contains(Piece::Bare),
        decreases n - i,
    {
        proof {
            lemma_pieces_step(chars@, i as int);
        }
        match mark_at(chars.as_slice(), i) {
            Mark::Plain => {
                i = i + 1;
            },
            Mark::Open => {
                i = i + 5;
            },
            Mark::Bare => {
                return true;
            },
            Mark::Uri(end) => {
                i = i + 6 + end;
            },
        }
    }
    assert(chars@.skip(i as int) =~= Seq::<char>::empty());
    false
}

/// Rewrites each `URI="..."` of a tag line (keys, initialisation segments,
/// renditions), so that the resource is fetched through the proxy.
pub fn rewrite_quoted_uri(line: &str, base: &str, origin_base: &str, proxy_base: &str) -> (r: String)
    requires
        !ends_in_bare_uri(line@),
    ensures
        r@ == rewritten_tag(line@, base@, origin_base@, proxy_base@),
{
    rewrite_tag(line, base, origin_base, proxy_base)
}

/// Rewrites each `URI="..."` of a tag line, which may end with a bare `URI=`.
fn rewrite_tag(line: &str, base: &str, origin_base: &str, proxy_base: &str) -> (r: String)
    ensures
        r@ == rewritten_tag(line@, base@, origin_base@, proxy_base@),
{
    let chars = chars_of(line);
    let n: usize = chars.len();
    let mut out = String::new();
    let mut i: usize = 0;
    let ghost all = line@;
    let ghost whole = rewritten_tag(line@, base@, origin_base@, proxy_base@);
    proof {
        assert(all.skip(0) =~= all);
    }
    while i < n
        invariant
            n == chars@.len(),
            chars@ == all,
            i <= n,
            out@ + rewritten_pieces(pieces(all.skip(i as int)), base@, origin_base@, proxy_base@)
                == whole,
        decreases n - i,
    {
        let ghost before = out@;
        let ghost piece = first_piece(all.skip(i as int)).0;
        proof {
            lemma_pieces_step(all, i as int);
        }
        match mark_at(chars.as_slice(), i) {
            Mark::Plain => {
                out.push(chars[i]);
                i = i + 1;
            },
            Mark::Open => {
                out.append("URI=");
                out.push(chars[i + 4]);
                i = i + 5;
            },
            Mark::Bare => {
                out.append("URI=");
                i = i + 4;
            },
            Mark::Uri(end) => {
                let uri = text_of(slice_subrange(chars.as_slice(), i + 5, i + 5 + end));
                let full = resolve_uri(uri.as_str(), base, origin_base);
                out.append("URI=\"");
                out.append(proxy_base);
                out.append(encode(full.as_str()).as_str());
                out.append("\"");
                i = i + 6 + end;
            },
        }
        proof {
            let this = rewritten_piece(piece, base@, origin_base@, proxy_base@);
            let tail = rewritten_pieces(pieces(all.skip(i as int)), base@, origin_base@, proxy_base@);
            assert(out@ =~= before + this);
            assert(before + (this + tail) =~= out@ + tail);
        }
    }
    assert(all.skip(i as int) =~= Seq::<char>::empty());
    assert(out@ + Seq::<char>::empty() =~= out@);
    out
}

/// `line` is a tag that carries an address of its own, in quotes. A segment's
/// tag ends with a title, which is no address.
pub open spec fn is_quoting_tag(line: Seq<char>) -> bool {
    &&& line.len() > 0 && line[0] == '#'
    &&& !"#EXTINF:"@.is_prefix_of(line)
    &&& has_text(line, "URI=\""@)
}

/// `line` is an address: absolute, a path, or the name of a media resource.
pub open spec fn is_address_line(line: Seq<char>) -> bool {
    &&& line.len() > 0 && line[0] != '#'
    &&& is_absolute(line) || is_media_line(line)
}

/// The address to ask for in place of `url`: where it names a picture, the
/// same name as a transport stream, with a mark that asks for the picture.
pub open spec fn as_stream(url: Seq<char>) -> Seq<char> {
    if ".jpeg"@.is_suffix_of(url) {
        let ts = replace(url, ".jpeg"@, ".ts"@);
        let sep = if ts.contains('?') {
            "&"@
        } else {
            "?"@
        };
        ts + sep + "real_ext=jpeg"@
    } else {
        url
    }
}

/// The absolute address that an address line of a playlist asks for.
pub open spec fn line_target(line: Seq<char>, base: Seq<char>, origin_base: Seq<char>) -> Seq<char> {
    if is_absolute(line) {
        line
    } else {
        as_stream(absolute(line, base, origin_base))
    }
}

/// A line of a playlist rewritten: an address is replaced by the one at which
/// the proxy offers it, a tag has its quoted addresses replaced, and every
/// other line stays.
pub open spec fn rewritten_line(
    line: Seq<char>,
    base: Seq<char>,
    origin_base: Seq<char>,
    proxy_base: Seq<char>,
) -> Seq<char> {
    if is_quoting_tag(line) {
        rewritten_tag(line, base, origin_base, proxy_base)
    } else if is_address_line(line) {
        proxied(line_target(line, base, origin_base), proxy_base)
    } else {
        line
    }
}

/// The lines rewritten, each with a line feed behind it.
pub open spec fn rewritten_lines(
    ls: Seq<Seq<char>>,
    base: Seq<char>,
    origin_base: Seq<char>,
    proxy_base: Seq<char>,
) -> Seq<char>
    decreases ls.len(),
{
    if ls.len() == 0 {
        seq![]
    } else {
        rewritten_lines(ls.drop_last(), base, origin_base, proxy_base) + rewritten_line(
            ls.last(),
            base,
            origin_base,
            proxy_base,
        ).push('\n')
    }
}

/// A tag that was held back, as a line.
pub open spec fn held_line(pending: Option<Seq<char>>) -> Seq<char> {
    match pending {
        Some(tag) => tag.push('\n'),
        None => seq![],
    }
}

/// The rewriting of some lines behind a tag that was held back: what comes
/// out, and the tag that is held back in turn. A tag that belongs to the next
/// address is held back where it is the last line and more text may follow. It
/// is rewritten when it is held back, and comes out as it was held.
pub open spec fn rewritten(
    ls: Seq<Seq<char>>,
    base: Seq<char>,
    origin_base: Seq<char>,
    proxy_base: Seq<char>,
    end_of_stream: bool,
    pending: Option<Seq<char>>,
) -> (Seq<char>, Option<Seq<char>>) {
    if !end_of_stream && ls.len() == 0 {
        (seq![], pending)
    } else if !end_of_stream && is_uri_tag(ls.last()) {
        (
            held_line(pending) + rewritten_lines(ls.drop_last(), base, origin_base, proxy_base),
            Some(rewritten_line(ls.last(), base, origin_base, proxy_base)),
        )
    } else {
        (held_line(pending) + rewritten_lines(ls, base, origin_base, proxy_base), None)
    }
}

/// The line is a tag that quotes an address and belongs to no next one, and it
/// ends with a bare `URI=`.
pub open spec fn is_broken_tag(line: Seq<char>) -> bool {
    is_quoting_tag(line) && !is_uri_tag(line) && ends_in_bare_uri(line)
}

/// No line of the playlist is a broken tag.
pub open spec fn rewritable(content: Seq<char>) -> bool {
    forall|i: int| 0 <= i < lines(content).len() ==> !is_broken_tag(#[trigger] lines(content)[i])
}

/// The end of the line that begins at `start`: where its text ends, and where
/// the next line begins.
fn line_end(text: &[char], start: usize) -> (r: (usize, usize))
    requires
        start < text@.len(),
    ensures
        start <= r.0 <= r.1 <= text@.len(),
        start < r.1,
        lines(text@.skip(start as int)) == seq![text@.subrange(start as int, r.0 as int)]
            + lines(text@.skip(r.1 as int)),
{
    let n: usize = text.len();
    let rest = slice_subrange(text, start, n);
    let ghost tail = text@.skip(start as int);
    assert(rest@ =~= tail);
    let p: usize = find_char(rest, '\n');
    if p >= n - start {
        proof {
            assert(text@.subrange(start as int, n as int) =~= tail);
            assert(text@.skip(n as int) =~= Seq::<char>::empty());
            assert(lines(tail) =~= seq![tail] + lines(
                text@.skip(n as int),
            ));
        }
        return (n, n);
    }
    let ghost line = tail.take(p as int);
    proof {
        assert(tail.skip(p + 1) =~= text@.skip(start + p + 1));
        assert(text@.subrange(start as int, start + p) =~= line);
    }
    if p > 0 && text[start + p - 1] == '\r' {
        assert(text@.subrange(start as int, start + p - 1) =~= line.drop_last());
        assert(line.last() == '\r');
        (start + p - 1, start + p + 1)
    } else {
        (start + p, start + p + 1)
    }
}

/// Whether `line` is a tag that carries an address of its own, in quotes.
fn is_quoting(line: &[char], text: &str) -> (r: bool)
    requires
        line@ == text@,
    ensures
        r == is_quoting_tag(text@),
{
    line.len() > 0 && line[0] == '#' && !starts_with(line, "#EXTINF:") && contains_text(
        line,
        "URI=\"",
    )
}

/// Whether every tag of the playlist can be rewritten.
pub fn is_rewritable(content: &str) -> (r: bool)
    ensures
        r == rewritable(content@),
{
    let text = chars_of(content);
    let n: usize = text.len();
    let mut start: usize = 0;
    let ghost mut done: Seq<Seq<char>> = seq![];
    proof {
        assert(text@.skip(0) =~= text@);
        assert(done + lines(text@) =~= lines(text@));
    }
    while start < n
        invariant
            n == text@.len(),
            text@ == content@,
            start <= n,
            lines(content@) == done + lines(text@.skip(start as int)),
            forall|i: int| 0 <= i < done.len() ==> !is_broken_tag(#[trigger] done[i]),
        decreases n - start,
    {
        let (end, next) = line_end(text.as_slice(), start);
        let line = slice_subrange(text.as_slice(), start, end);
        let line_text = text_of(line);
        let ghost all = lines(content@);
        proof {
            assert(line@ =~= text@.subrange(start as int, end as int));
            assert(all =~= done.push(line@) + lines(text@.skip(next as int)));
            assert(all[done.len() as int] == line@);
        }
        if is_quoting(line, line_text.as_str()) && !tag_requires_uri(line_text.as_str())
            && has_bare_uri(line_text.as_str()) {
            return false;
        }
        proof {
            done = done.push(line@);
        }
        start = next;
    }
    proof {
        assert(text@.skip(start as int) =~= Seq::<char>::empty());
        assert(lines(content@) =~= done);
    }
    true
}

/// Puts a tag that was held back behind the rewritten text.
fn release(out: &mut String, pending: &mut Option<String>)
    ensures
        final(out)@ == old(out)@ + held_line(opt_text(*old(pending))),
        *final(pending) is None,
{
    match pending.take() {
        Some(tag) => {
            let ghost before = out@;
            out.append(tag.as_str());
            out.push('\n');
            assert(out@ =~= before + tag@.push('\n'));
        },
        None => {
            assert(out@ + Seq::<char>::empty() =~= out@);
        },
    }
}

/// Rewrites a line.
fn rewrite_line(
    line: &[char],
    text: &str,
    base: &str,
    origin_base: &str,
    proxy_base: &str,
) -> (r: String)
    requires
        line@ == text@,
    ensures
        r@ == rewritten_line(text@, base@, origin_base@, proxy_base@),
{
    if is_quoting(line, text) {
        rewrite_tag(text, base, origin_base, proxy_base)
    } else if line.len() == 0 || line[0] == '#' {
        text.to_owned()
    } else if has_http_scheme(line) {
        proxy_base.to_owned().concat(encode(text).as_str())
    } else if is_likely_media_resource(text) {
        let full = resolve_uri(text, base, origin_base);
        let target = to_stream(full);
        proxy_base.to_owned().concat(encode(target.as_str()).as_str())
    } else {
        text.to_owned()
    }
}

/// The address to ask for in place of that of a picture.
fn to_stream(url: String) -> (r: String)
    ensures
        r@ == as_stream(url@),
{
    let chars = chars_of(url.as_str());
    if !ends_with_text(chars.as_slice(), ".jpeg") {
        return url;
    }
    proof {
        reveal_strlit(".jpeg");
    }
    let mut ts = replace_text(chars.as_slice(), ".jpeg", ".ts");
    let ts_chars = chars_of(ts.as_str());
    let q: usize = find_char(ts_chars.as_slice(), '?');
    proof {
        lemma_position(ts@, '?');
        if q < ts@.len() {
            assert(ts@.contains('?'));
        }
    }
    if q < ts_chars.len() {
        ts.append("&");
    } else {
        ts.append("?");
    }
    ts.append("real_ext=jpeg");
    ts
}

/// Rewrites the lines of a playlist. The result is the rewritten text and the
/// tag that is held back, already rewritten, until more text comes: one that
/// belongs to the next address, where it is the last line and the stream does
/// not end with it.
pub fn rewrite_m3u8_lines(
    content: &str,
    base: &str,
    origin_base: &str,
    proxy_base: &str,
    end_of_stream: bool,
    pending_tag: Option<String>,
) -> (r: (String, Option<String>))
    requires
        rewritable(content@),
    ensures
        (r.0@, opt_text(r.1)) == rewritten(
            lines(content@),
            base@,
            origin_base@,
            proxy_base@,
            end_of_stream,
            opt_text(pending_tag),
        ),
{
    let text = chars_of(content);
    let n: usize = text.len();
    let mut out = String::new();
    let ghost held = opt_text(pending_tag);
    let mut pending = pending_tag;
    let mut start: usize = 0;
    let ghost mut done: Seq<Seq<char>> = seq![];
    proof {
        assert(text@.skip(0) =~= text@);
        assert(done + lines(text@) =~= lines(text@));
    }
    while start < n
        invariant
            n == text@.len(),
            text@ == content@,
            start <= n,
            rewritable(content@),
            lines(content@) == done + lines(text@.skip(start as int)),
            (out@, opt_text(pending)) == rewritten(
                done,
                base@,
                origin_base@,
                proxy_base@,
                false,
                held,
            ),
        decreases n - start,
    {
        let (end, next) = line_end(text.as_slice(), start);
        let line = slice_subrange(text.as_slice(), start, end);
        let line_text = text_of(line);
        let ghost all = lines(content@);
        let ghost more = done.push(line@);
        proof {
            assert(line@ =~= text@.subrange(start as int, end as int));
            assert(all =~= more + lines(text@.skip(next as int)));
            assert(all[done.len() as int] == line@);
            lemma_released(done, base@, origin_base@, proxy_base@, held);
            assert(more.drop_last() =~= done);
        }
        release(&mut out, &mut pending);
        let new_line = rewrite_line(line, line_text.as_str(), base, origin_base, proxy_base);
        if tag_requires_uri(line_text.as_str()) {
            pending = Some(new_line);
        } else {
            let ghost before = out@;
            out.append(new_line.as_str());
            out.push('\n');
            proof {
                let this = new_line@.push('\n');
                let past = rewritten_lines(done, base@, origin_base@, proxy_base@);
                assert(out@ =~= before + this);
                assert((held_line(held) + past) + this =~= held_line(held) + (past + this));
            }
        }
        proof {
            done = more;
        }
        start = next;
    }
    proof {
        assert(text@.skip(start as int) =~= Seq::<char>::empty());
        assert(lines(content@) =~= done);
        lemma_released(done, base@, origin_base@, proxy_base@, held);
    }
    if end_of_stream {
        release(&mut out, &mut pending);
    }
    (out, pending)
}

/// What was rewritten, with the tag that is held back behind it, is the whole
/// rewriting.
pub proof fn lemma_released(
    ls: Seq<Seq<char>>,
    base: Seq<char>,
    origin_base: Seq<char>,
    proxy_base: Seq<char>,
    pending: Option<Seq<char>>,
)
    ensures
        ({
            let (out, tag) = rewritten(ls, base, origin_base, proxy_base, false, pending);
            out + held_line(tag) == held_line(pending) + rewritten_lines(
                ls,
                base,
                origin_base,
                proxy_base,
            )
        }),
{
    let (out, tag) = rewritten(ls, base, origin_base, proxy_base, false, pending);
    let whole = held_line(pending) + rewritten_lines(ls, base, origin_base, proxy_base);
    assert(out + held_line(tag) =~= whole);
}

} // verus!
