//! What becomes of each kind of line of a playlist, told from its text.
use vstd::prelude::*;

use crate::laws::{lemma_lines_append, lemma_rewritten_lines_append};
use crate::laws_text::{lacks, law_first_line, law_has_text, law_last_line, law_replace_first};
use crate::percent::percent_encoded;
use crate::playlist::{
    ends_in_bare_uri, first_piece, is_absolute, is_broken_tag, is_media_line, is_uri_tag, pieces,
    rewritable, rewritten, rewritten_line, rewritten_lines, rewritten_pieces, rewritten_tag, Piece,
};
use crate::text::{lemma_position, lemma_position_is, lines, position, replace};

verus! {

/// The playlist that a player gets in place of a playlist.
pub open spec fn served(
    content: Seq<char>,
    base: Seq<char>,
    origin_base: Seq<char>,
    proxy_base: Seq<char>,
) -> Seq<char> {
    rewritten(lines(content), base, origin_base, proxy_base, true, None).0
}

/// A text is whole lines, then one line, then more text. The line ends with a
/// line feed, with a carriage return and a line feed, or with the text.
pub open spec fn is_line_of(
    content: Seq<char>,
    before: Seq<char>,
    line: Seq<char>,
    after: Seq<char>,
) -> bool {
    &&& before.len() > 0 ==> before.last() == '\n'
    &&& !line.contains('\n')
    &&& {
        ||| content == before + line + seq!['\n'] + after && (line.len() == 0 || line.last()
            != '\r')
        ||| content == before + line + seq!['\r', '\n'] + after
        ||| content == before + line && line.len() > 0 && after.len() == 0
    }
}

/// In the playlist that the player gets, a text stands in place of a line, and
/// what stands before and behind it is what becomes of the rest.
pub open spec fn becomes(
    content: Seq<char>,
    before: Seq<char>,
    new_line: Seq<char>,
    after: Seq<char>,
    base: Seq<char>,
    origin_base: Seq<char>,
    proxy_base: Seq<char>,
) -> bool {
    served(content, base, origin_base, proxy_base) == served(before, base, origin_base, proxy_base)
        + new_line + seq!['\n'] + served(after, base, origin_base, proxy_base)
}

/// The line is one of the lines of the text.
proof fn lemma_lines_of(
    content: Seq<char>,
    before: Seq<char>,
    line: Seq<char>,
    after: Seq<char>,
)
    requires
        is_line_of(content, before, line, after),
    ensures
        lines(content) == lines(before) + (seq![line] + lines(after)),
{
    let rest = if content == before + line + seq!['\n'] + after && (line.len() == 0 || line.last()
        != '\r') {
        line + seq!['\n'] + after
    } else if content == before + line + seq!['\r', '\n'] + after {
        line + seq!['\r', '\n'] + after
    } else {
        line
    };
    assert(content =~= before + rest);
    law_first_line(line, after);
    law_last_line(line);
    law_last_line(Seq::<char>::empty());
    lemma_lines_append(before, rest);
    assert(lines(rest) =~= seq![line] + lines(after)) by {
        if rest == line && line.len() > 0 && after.len() == 0 {
            assert(after =~= Seq::<char>::empty());
        }
    }
}

/// Each line is rewritten at its place.
proof fn lemma_line_of(
    content: Seq<char>,
    before: Seq<char>,
    line: Seq<char>,
    after: Seq<char>,
    base: Seq<char>,
    origin_base: Seq<char>,
    proxy_base: Seq<char>,
)
    requires
        is_line_of(content, before, line, after),
    ensures
        becomes(
            content,
            before,
            rewritten_line(line, base, origin_base, proxy_base),
            after,
            base,
            origin_base,
            proxy_base,
        ),
{
    lemma_lines_of(content, before, line, after);
    let (la, lb) = (lines(before), lines(after));
    lemma_rewritten_lines_append(la, seq![line] + lb, base, origin_base, proxy_base);
    lemma_rewritten_lines_append(seq![line], lb, base, origin_base, proxy_base);
    reveal_with_fuel(rewritten_lines, 2);
    assert(seq![line].drop_last() =~= Seq::<Seq<char>>::empty());
    let this = rewritten_line(line, base, origin_base, proxy_base);
    assert(rewritten_lines(seq![line], base, origin_base, proxy_base) =~= this.push('\n'));
    lemma_served(content, base, origin_base, proxy_base);
    lemma_served(before, base, origin_base, proxy_base);
    lemma_served(after, base, origin_base, proxy_base);
    assert(served(content, base, origin_base, proxy_base) =~= served(
        before,
        base,
        origin_base,
        proxy_base,
    ) + this + seq!['\n'] + served(after, base, origin_base, proxy_base));
}

/// What the player gets is all lines rewritten.
proof fn lemma_served(
    content: Seq<char>,
    base: Seq<char>,
    origin_base: Seq<char>,
    proxy_base: Seq<char>,
)
    ensures
        served(content, base, origin_base, proxy_base) == rewritten_lines(
            lines(content),
            base,
            origin_base,
            proxy_base,
        ),
{
    let all = rewritten_lines(lines(content), base, origin_base, proxy_base);
    assert(Seq::<char>::empty() + all =~= all);
}

/// An empty playlist stays empty.
pub proof fn law_empty_playlist(base: Seq<char>, origin_base: Seq<char>, proxy_base: Seq<char>)
    ensures
        served(Seq::<char>::empty(), base, origin_base, proxy_base) == Seq::<char>::empty(),
{
    law_last_line(Seq::<char>::empty());
    lemma_served(Seq::<char>::empty(), base, origin_base, proxy_base);
}

/// A line that is an http or https URL is asked for through the proxy as it is.
pub proof fn law_absolute_line(
    content: Seq<char>,
    before: Seq<char>,
    line: Seq<char>,
    after: Seq<char>,
    base: Seq<char>,
    origin_base: Seq<char>,
    proxy_base: Seq<char>,
)
    requires
        is_line_of(content, before, line, after),
        "http://"@.is_prefix_of(line) || "https://"@.is_prefix_of(line),
    ensures
        becomes(
            content,
            before,
            proxy_base + percent_encoded(line),
            after,
            base,
            origin_base,
            proxy_base,
        ),
{
    lemma_line_of(content, before, line, after, base, origin_base, proxy_base);
    lemma_absolute_start(line);
}

/// A URL begins with a letter.
proof fn lemma_absolute_start(line: Seq<char>)
    requires
        "http://"@.is_prefix_of(line) || "https://"@.is_prefix_of(line),
    ensures
        line.len() > 0,
        line[0] == 'h',
{
    reveal_strlit("http://");
    reveal_strlit("https://");
    if "http://"@.is_prefix_of(line) {
        assert(line.subrange(0, "http://"@.len() as int)[0] == 'h');
    } else {
        assert(line.subrange(0, "https://"@.len() as int)[0] == 'h');
    }
}

/// A line that begins with a slash is asked for at the origin of the playlist,
/// unless it is a picture.
pub proof fn law_path_line(
    content: Seq<char>,
    before: Seq<char>,
    line: Seq<char>,
    after: Seq<char>,
    base: Seq<char>,
    origin_base: Seq<char>,
    proxy_base: Seq<char>,
)
    requires
        is_line_of(content, before, line, after),
        line.len() > 0 && line[0] == '/',
        !".jpeg"@.is_suffix_of(origin_base + line),
    ensures
        becomes(
            content,
            before,
            proxy_base + percent_encoded(origin_base + line),
            after,
            base,
            origin_base,
            proxy_base,
        ),
{
    lemma_line_of(content, before, line, after, base, origin_base, proxy_base);
    if is_absolute(line) {
        lemma_absolute_start(line);
    }
}

/// One of the extensions by which media, playlists, subtitles, pictures and
/// keys are known.
pub open spec fn is_extension(e: Seq<char>) -> bool {
    e == ".ts"@ || e == ".m3u8"@ || e == ".m3u"@ || e == ".mp4"@ || e == ".m4s"@ || e == ".m4a"@
        || e == ".aac"@ || e == ".mp3"@ || e == ".ogg"@ || e == ".opus"@ || e == ".vtt"@ || e
        == ".srt"@ || e == ".jpeg"@ || e == ".jpg"@ || e == ".png"@ || e == ".key"@
}

/// A name with an extension, with a query behind it or without.
pub open spec fn is_named(line: Seq<char>, name: Seq<char>, e: Seq<char>, query: Seq<char>) -> bool {
    &&& is_extension(e)
    &&& !name.contains('?')
    &&& line == name + e || line == name + e + seq!['?'] + query
}

/// No extension holds a question mark.
proof fn lemma_extension(e: Seq<char>)
    requires
        is_extension(e),
    ensures
        !e.contains('?'),
        e.len() > 0,
{
    reveal_strlit(".ts");
    reveal_strlit(".m3u8");
    reveal_strlit(".m3u");
    reveal_strlit(".mp4");
    reveal_strlit(".m4s");
    reveal_strlit(".m4a");
    reveal_strlit(".aac");
    reveal_strlit(".mp3");
    reveal_strlit(".ogg");
    reveal_strlit(".opus");
    reveal_strlit(".vtt");
    reveal_strlit(".srt");
    reveal_strlit(".jpeg");
    reveal_strlit(".jpg");
    reveal_strlit(".png");
    reveal_strlit(".key");
}

/// A name with one of the extensions, and every path, is a media resource.
pub proof fn law_media_resources(line: Seq<char>, name: Seq<char>, e: Seq<char>, query: Seq<char>)
    requires
        is_named(line, name, e, query) || (line.len() > 0 && line[0] == '/'),
    ensures
        is_media_line(line),
{
    if is_named(line, name, e, query) {
        lemma_extension(e);
        let path = name + e;
        assert forall|i: int| 0 <= i < path.len() implies line[i] != '?' by {
            assert(line[i] == path[i]);
            if i < name.len() {
                assert(name.contains(name[i]));
            } else {
                assert(e.contains(e[i - name.len()]));
            }
        }
        lemma_position_is(line, '?', path.len() as int);
        assert(line.take(path.len() as int) =~= path);
        assert(path.subrange(path.len() - e.len(), path.len() as int) =~= e);
        assert(e.is_suffix_of(path));
    }
}

/// Nothing else is a media resource: a text that begins with no slash, and of
/// which the part before the first question mark ends with no extension.
pub proof fn law_no_media_resource(line: Seq<char>, path: Seq<char>, query: Seq<char>)
    requires
        !path.contains('?'),
        line == path || line == path + seq!['?'] + query,
        line.len() > 0 ==> line[0] != '/',
        forall|e: Seq<char>| #[trigger] is_extension(e) ==> !e.is_suffix_of(path),
    ensures
        !is_media_line(line),
{
    assert forall|i: int| 0 <= i < path.len() implies line[i] != '?' by {
        assert(path.contains(path[i]));
    }
    lemma_position_is(line, '?', path.len() as int);
    assert(line.take(path.len() as int) =~= path);
    assert(is_extension(".ts"@) && is_extension(".m3u8"@) && is_extension(".m3u"@) && is_extension(
        ".mp4"@,
    ) && is_extension(".m4s"@) && is_extension(".m4a"@) && is_extension(".aac"@) && is_extension(
        ".mp3"@,
    ) && is_extension(".ogg"@) && is_extension(".opus"@) && is_extension(".vtt"@) && is_extension(
        ".srt"@,
    ) && is_extension(".jpeg"@) && is_extension(".jpg"@) && is_extension(".png"@) && is_extension(
        ".key"@,
    ));
}

/// A line that names a media resource by its extension is asked for in the
/// directory of the playlist, unless it is a picture.
pub proof fn law_relative_line(
    content: Seq<char>,
    before: Seq<char>,
    line: Seq<char>,
    after: Seq<char>,
    base: Seq<char>,
    origin_base: Seq<char>,
    proxy_base: Seq<char>,
    name: Seq<char>,
    e: Seq<char>,
    query: Seq<char>,
)
    requires
        is_line_of(content, before, line, after),
        is_named(line, name, e, query),
        line[0] != '#',
        line[0] != '/',
        !"http://"@.is_prefix_of(line) && !"https://"@.is_prefix_of(line),
        !".jpeg"@.is_suffix_of(base + line),
    ensures
        becomes(
            content,
            before,
            proxy_base + percent_encoded(base + line),
            after,
            base,
            origin_base,
            proxy_base,
        ),
{
    lemma_extension(e);
    law_media_resources(line, name, e, query);
    lemma_line_of(content, before, line, after, base, origin_base, proxy_base);
}

/// The address of a picture that a path or a name of a playlist leads to.
pub open spec fn is_picture_at(
    url: Seq<char>,
    line: Seq<char>,
    base: Seq<char>,
    origin_base: Seq<char>,
) -> bool {
    &&& ".jpeg"@.is_suffix_of(url)
    &&& line.len() > 0 && line[0] != '#'
    &&& !"http://"@.is_prefix_of(line) && !"https://"@.is_prefix_of(line)
    &&& line[0] == '/' ==> url == origin_base + line
    &&& line[0] != '/' ==> url == base + line
}

/// A line that is a path or a media resource and whose address ends with
/// `.jpeg` is asked for with each `.jpeg` replaced by `.ts`, and with the mark
/// `real_ext=jpeg` in its query.
pub proof fn law_picture_line(
    content: Seq<char>,
    before: Seq<char>,
    line: Seq<char>,
    after: Seq<char>,
    base: Seq<char>,
    origin_base: Seq<char>,
    proxy_base: Seq<char>,
    url: Seq<char>,
)
    requires
        is_line_of(content, before, line, after),
        is_picture_at(url, line, base, origin_base),
        is_media_line(line),
    ensures
        ({
            let ts = replace(url, ".jpeg"@, ".ts"@);
            &&& ts.contains('?') ==> becomes(
                content,
                before,
                proxy_base + percent_encoded(ts + "&real_ext=jpeg"@),
                after,
                base,
                origin_base,
                proxy_base,
            )
            &&& !ts.contains('?') ==> becomes(
                content,
                before,
                proxy_base + percent_encoded(ts + "?real_ext=jpeg"@),
                after,
                base,
                origin_base,
                proxy_base,
            )
        }),
{
    lemma_line_of(content, before, line, after, base, origin_base, proxy_base);
    let ts = replace(url, ".jpeg"@, ".ts"@);
    reveal_strlit("&");
    reveal_strlit("?");
    reveal_strlit("real_ext=jpeg");
    reveal_strlit("&real_ext=jpeg");
    reveal_strlit("?real_ext=jpeg");
    assert("&"@ + "real_ext=jpeg"@ =~= "&real_ext=jpeg"@);
    assert("?"@ + "real_ext=jpeg"@ =~= "?real_ext=jpeg"@);
    assert(ts + "&"@ + "real_ext=jpeg"@ =~= ts + "&real_ext=jpeg"@);
    assert(ts + "?"@ + "real_ext=jpeg"@ =~= ts + "?real_ext=jpeg"@);
}

/// A name that ends with its only `.jpeg` and has no question mark is asked for
/// with `.ts?real_ext=jpeg` in its place.
pub proof fn law_plain_picture_line(
    content: Seq<char>,
    before: Seq<char>,
    line: Seq<char>,
    after: Seq<char>,
    base: Seq<char>,
    origin_base: Seq<char>,
    proxy_base: Seq<char>,
    url: Seq<char>,
    name: Seq<char>,
)
    requires
        is_line_of(content, before, line, after),
        is_picture_at(url, line, base, origin_base),
        is_media_line(line),
        url == name + ".jpeg"@,
        lacks(name, ".jpeg"@),
        !name.contains('?'),
    ensures
        becomes(
            content,
            before,
            proxy_base + percent_encoded(name + ".ts?real_ext=jpeg"@),
            after,
            base,
            origin_base,
            proxy_base,
        ),
{
    reveal_strlit(".jpeg");
    reveal_strlit(".ts");
    reveal_strlit("?real_ext=jpeg");
    reveal_strlit(".ts?real_ext=jpeg");
    let jpeg = ".jpeg"@;
    let all = name + jpeg.drop_last();
    assert forall|i: int| 0 <= i && i + jpeg.len() <= all.len() implies #[trigger] all.subrange(
        i,
        i + jpeg.len(),
    ) != jpeg by {
        let part = all.subrange(i, i + jpeg.len());
        if part == jpeg {
            if i + 5 <= name.len() {
                assert(part =~= name.subrange(i, i + jpeg.len()));
            } else {
                assert(part[name.len() - i] == '.');
                assert(jpeg[name.len() - i] != '.');
            }
        }
    }
    let none = Seq::<char>::empty();
    law_replace_first(name, none, jpeg, ".ts"@);
    assert(name + jpeg + none =~= url);
    let ts = replace(url, jpeg, ".ts"@);
    assert(ts =~= name + ".ts"@);
    assert forall|i: int| 0 <= i < ts.len() implies ts[i] != '?' by {
        if i < name.len() {
            assert(name.contains(name[i]));
        }
    }
    law_picture_line(content, before, line, after, base, origin_base, proxy_base, url);
    assert(ts + "?real_ext=jpeg"@ =~= name + ".ts?real_ext=jpeg"@);
}

/// A line of another kind stays as it is: an empty one, a segment's tag, a tag
/// without a quoted address, and a text that is neither a URL nor a media
/// resource.
pub proof fn law_kept_line(
    content: Seq<char>,
    before: Seq<char>,
    line: Seq<char>,
    after: Seq<char>,
    base: Seq<char>,
    origin_base: Seq<char>,
    proxy_base: Seq<char>,
)
    requires
        is_line_of(content, before, line, after),
        ({
            ||| line.len() == 0
            ||| "#EXTINF:"@.is_prefix_of(line)
            ||| line[0] == '#' && lacks(line, "URI=\""@)
            ||| line[0] != '#' && !"http://"@.is_prefix_of(line) && !"https://"@.is_prefix_of(line)
                && !is_media_line(line)
        }),
    ensures
        becomes(content, before, line, after, base, origin_base, proxy_base),
{
    lemma_line_of(content, before, line, after, base, origin_base, proxy_base);
    reveal_strlit("#EXTINF:");
    if "#EXTINF:"@.is_prefix_of(line) {
        assert(line.subrange(0, 8)[0] == '#');
    }
    law_has_text(line, "URI=\""@, line, line);
}

/// The tags that belong to the address on the next line are those of a
/// segment, of a variant, and of a variant's single pictures.
pub proof fn law_tags_of_addresses(line: Seq<char>)
    ensures
        is_uri_tag(line) <==> "#EXTINF:"@.is_prefix_of(line) || "#EXT-X-STREAM-INF:"@.is_prefix_of(
            line,
        ) || "#EXT-X-I-FRAME-STREAM-INF:"@.is_prefix_of(line),
{
}

/// The absolute address of an address in a playlist: a URL is its own, a path
/// is one of the origin, and every other text is one of the directory.
pub open spec fn leads_to(
    uri: Seq<char>,
    target: Seq<char>,
    base: Seq<char>,
    origin_base: Seq<char>,
) -> bool {
    let is_url = "http://"@.is_prefix_of(uri) || "https://"@.is_prefix_of(uri);
    let is_path = uri.len() > 0 && uri[0] == '/';
    &&& is_url ==> target == uri
    &&& !is_url && is_path ==> target == origin_base + uri
    &&& !is_url && !is_path ==> target == base + uri
}

/// A text with quoted addresses: before each of them stands another text, and
/// behind the last one the tail.
pub open spec fn tag_of(
    texts: Seq<Seq<char>>,
    uris: Seq<Seq<char>>,
    tail: Seq<char>,
) -> Seq<char>
    decreases uris.len(),
{
    if uris.len() == 0 {
        tail
    } else {
        texts[0] + "URI=\""@ + uris[0] + "\""@ + tag_of(
            texts.drop_first(),
            uris.drop_first(),
            tail,
        )
    }
}

/// The addresses through the proxy of some addresses.
pub open spec fn through(targets: Seq<Seq<char>>, proxy_base: Seq<char>) -> Seq<Seq<char>> {
    targets.map_values(|t: Seq<char>| proxy_base + percent_encoded(t))
}

/// In a tag the first quoted address is replaced at its place; what stands
/// before it is kept, and what stands behind it is told on its own.
pub proof fn law_tag_step(
    text: Seq<char>,
    uri: Seq<char>,
    target: Seq<char>,
    rest: Seq<char>,
    base: Seq<char>,
    origin_base: Seq<char>,
    proxy_base: Seq<char>,
)
    requires
        lacks(text, "URI="@),
        !uri.contains('"'),
        leads_to(uri, target, base, origin_base),
    ensures
        rewritten_tag(text + "URI=\""@ + uri + "\""@ + rest, base, origin_base, proxy_base) == text
            + "URI=\""@ + (proxy_base + percent_encoded(target)) + "\""@ + rewritten_tag(
            rest,
            base,
            origin_base,
            proxy_base,
        ),
        ends_in_bare_uri(text + "URI=\""@ + uri + "\""@ + rest) <==> ends_in_bare_uri(rest),
    decreases text.len(),
{
    reveal_strlit("URI=");
    reveal_strlit("URI=\"");
    reveal_strlit("\"");
    let line = text + "URI=\""@ + uri + "\""@ + rest;
    let mark = seq!['U', 'R', 'I', '='];
    assert("URI="@ =~= mark);
    if text.len() == 0 {
        assert(line.subrange(0, 4) =~= mark);
        let value = line.skip(5);
        assert(value =~= uri + "\""@ + rest);
        assert forall|i: int| 0 <= i < uri.len() implies value[i] != '"' by {
            assert(uri.contains(uri[i]));
        }
        lemma_position_is(value, '"', uri.len() as int);
        assert(value.take(uri.len() as int) =~= uri);
        assert(first_piece(line) == (Piece::Uri(uri), (6 + uri.len()) as nat));
        assert(line.skip(6 + uri.len() as int) =~= rest);
        assert(pieces(line).drop_first() =~= pieces(rest));
        lemma_bare_rest(line, rest);
        assert(rewritten_tag(line, base, origin_base, proxy_base) =~= text + "URI=\""@ + (proxy_base
            + percent_encoded(target)) + "\""@ + rewritten_tag(rest, base, origin_base, proxy_base));
    } else {
        lemma_no_mark(text, line);
        let tail = text.drop_first();
        lemma_lacks_tail(text, "URI="@);
        law_tag_step(tail, uri, target, rest, base, origin_base, proxy_base);
        let next = tail + "URI=\""@ + uri + "\""@ + rest;
        assert(line.skip(1) =~= next);
        assert(pieces(line).drop_first() =~= pieces(next));
        lemma_bare_rest(line, next);
        assert(rewritten_tag(line, base, origin_base, proxy_base) =~= text + "URI=\""@ + (proxy_base
            + percent_encoded(target)) + "\""@ + rewritten_tag(rest, base, origin_base, proxy_base));
    }
}

/// Where the first piece of a line is no bare mark, the line ends in one
/// exactly where the rest does.
proof fn lemma_bare_rest(line: Seq<char>, rest: Seq<char>)
    requires
        pieces(line).len() > 0,
        pieces(line)[0] != Piece::Bare,
        pieces(line).drop_first() == pieces(rest),
    ensures
        ends_in_bare_uri(line) <==> ends_in_bare_uri(rest),
{
    if ends_in_bare_uri(line) {
        let k = choose|k: int| 0 <= k < pieces(line).len() && pieces(line)[k] == Piece::Bare;
        assert(pieces(line).drop_first()[k - 1] == Piece::Bare);
    }
    if ends_in_bare_uri(rest) {
        let k = choose|k: int| 0 <= k < pieces(rest).len() && pieces(rest)[k] == Piece::Bare;
        assert(pieces(line)[k + 1] == Piece::Bare);
    }
}

/// A part of a text holds no more than the text.
proof fn lemma_lacks_tail(text: Seq<char>, pat: Seq<char>)
    requires
        text.len() > 0,
        lacks(text, pat),
    ensures
        lacks(text.drop_first(), pat),
{
    let tail = text.drop_first();
    assert forall|i: int| 0 <= i && i + pat.len() <= tail.len() implies #[trigger] tail.subrange(
        i,
        i + pat.len(),
    ) != pat by {
        assert(tail.subrange(i, i + pat.len()) =~= text.subrange(i + 1, i + 1 + pat.len()));
    }
}

/// A text without the mark of an address, with one behind it, begins with a
/// character of its own.
proof fn lemma_no_mark(text: Seq<char>, line: Seq<char>)
    requires
        text.len() > 0,
        lacks(text, "URI="@),
        text.is_prefix_of(line),
        line.len() > text.len() ==> line[text.len() as int] == 'U',
        line.len() <= text.len() || line.len() >= text.len() + 4,
    ensures
        first_piece(line) == (Piece::Plain(text[0]), 1nat),
{
    reveal_strlit("URI=");
    let mark = seq!['U', 'R', 'I', '='];
    assert("URI="@ =~= mark);
    assert(line.subrange(0, text.len() as int)[0] == line[0]);
    if mark.is_prefix_of(line) {
        assert(line.subrange(0, 4) == mark);
        if text.len() >= 4 {
            assert(text =~= line.subrange(0, text.len() as int));
            assert(text.subrange(0, 0 + "URI="@.len() as int) =~= line.subrange(0, 4));
        } else if line.len() > text.len() {
            assert(line.subrange(0, 4)[text.len() as int] == 'U');
            assert(mark[text.len() as int] != 'U');
        }
    }
}

/// A tag line, whatever its name, has each of its quoted addresses replaced, at
/// its place, by the proxy's address for it, and all other text is kept.
pub proof fn law_tag_addresses(
    parts: Seq<Seq<char>>,
    uris: Seq<Seq<char>>,
    targets: Seq<Seq<char>>,
    tail: Seq<char>,
    base: Seq<char>,
    origin_base: Seq<char>,
    proxy_base: Seq<char>,
)
    requires
        parts.len() == uris.len(),
        targets.len() == uris.len(),
        forall|i: int| 0 <= i < parts.len() ==> lacks(#[trigger] parts[i], "URI="@),
        forall|i: int| 0 <= i < uris.len() ==> !(#[trigger] uris[i]).contains('"'),
        forall|i: int|
            0 <= i < uris.len() ==> leads_to(#[trigger] uris[i], targets[i], base, origin_base),
        lacks(tail, "URI="@),
    ensures
        rewritten_tag(tag_of(parts, uris, tail), base, origin_base, proxy_base) == tag_of(
            parts,
            through(targets, proxy_base),
            tail,
        ),
    decreases uris.len(),
{
    let line = tag_of(parts, uris, tail);
    if uris.len() == 0 {
        lemma_tag_without(tail, base, origin_base, proxy_base);
    } else {
        let (p, u, t) = (parts.drop_first(), uris.drop_first(), targets.drop_first());
        assert forall|i: int| 0 <= i < p.len() implies lacks(#[trigger] p[i], "URI="@) by {
            assert(p[i] == parts[i + 1]);
        }
        assert forall|i: int| 0 <= i < u.len() implies !(#[trigger] u[i]).contains('"') by {
            assert(u[i] == uris[i + 1]);
        }
        assert forall|i: int| 0 <= i < u.len() implies leads_to(
            #[trigger] u[i],
            t[i],
            base,
            origin_base,
        ) by {
            assert(u[i] == uris[i + 1]);
        }
        law_tag_addresses(p, u, t, tail, base, origin_base, proxy_base);
        assert(lacks(parts[0], "URI="@));
        assert(!uris[0].contains('"'));
        assert(leads_to(uris[0], targets[0], base, origin_base));
        law_tag_step(
            parts[0],
            uris[0],
            targets[0],
            tag_of(p, u, tail),
            base,
            origin_base,
            proxy_base,
        );
        assert(through(targets, proxy_base).drop_first() =~= through(t, proxy_base));
        assert(through(targets, proxy_base)[0] == proxy_base + percent_encoded(targets[0]));
    }
}

/// A text without the mark of an address is kept.
proof fn lemma_tag_without(
    text: Seq<char>,
    base: Seq<char>,
    origin_base: Seq<char>,
    proxy_base: Seq<char>,
)
    requires
        lacks(text, "URI="@),
    ensures
        rewritten_tag(text, base, origin_base, proxy_base) == text,
    decreases text.len(),
{
    if text.len() > 0 {
        assert(text.subrange(0, text.len() as int) =~= text);
        lemma_no_mark(text, text);
        lemma_lacks_tail(text, "URI="@);
        lemma_tag_without(text.drop_first(), base, origin_base, proxy_base);
        assert(text.skip(1) =~= text.drop_first());
        assert(pieces(text).drop_first() =~= pieces(text.drop_first()));
        assert(rewritten_tag(text, base, origin_base, proxy_base) =~= text);
    }
}

/// So it is in a playlist: every line that begins with `#`, is no segment's
/// tag and quotes addresses has each of them replaced at its place.
pub proof fn law_tag_line(
    content: Seq<char>,
    before: Seq<char>,
    line: Seq<char>,
    after: Seq<char>,
    base: Seq<char>,
    origin_base: Seq<char>,
    proxy_base: Seq<char>,
    parts: Seq<Seq<char>>,
    uris: Seq<Seq<char>>,
    targets: Seq<Seq<char>>,
    tail: Seq<char>,
)
    requires
        is_line_of(content, before, line, after),
        line.len() > 0 && line[0] == '#',
        !"#EXTINF:"@.is_prefix_of(line),
        line == tag_of(parts, uris, tail),
        uris.len() > 0,
        parts.len() == uris.len(),
        targets.len() == uris.len(),
        forall|i: int| 0 <= i < parts.len() ==> lacks(#[trigger] parts[i], "URI="@),
        forall|i: int| 0 <= i < uris.len() ==> !(#[trigger] uris[i]).contains('"'),
        forall|i: int|
            0 <= i < uris.len() ==> leads_to(#[trigger] uris[i], targets[i], base, origin_base),
        lacks(tail, "URI="@),
    ensures
        becomes(
            content,
            before,
            tag_of(parts, through(targets, proxy_base), tail),
            after,
            base,
            origin_base,
            proxy_base,
        ),
{
    lemma_line_of(content, before, line, after, base, origin_base, proxy_base);
    law_tag_addresses(parts, uris, targets, tail, base, origin_base, proxy_base);
    let rest = uris[0] + "\""@ + tag_of(parts.drop_first(), uris.drop_first(), tail);
    assert(line =~= parts[0] + "URI=\""@ + rest);
    law_has_text(line, "URI=\""@, parts[0], rest);
}

/// The first quoted address of a line that begins with `#` and is no segment's
/// tag is replaced at its place, whatever stands behind it, and what stands
/// before it is kept.
pub proof fn law_first_tag_address(
    content: Seq<char>,
    before: Seq<char>,
    line: Seq<char>,
    after: Seq<char>,
    base: Seq<char>,
    origin_base: Seq<char>,
    proxy_base: Seq<char>,
    text: Seq<char>,
    uri: Seq<char>,
    target: Seq<char>,
    rest: Seq<char>,
)
    requires
        is_line_of(content, before, line, after),
        line.len() > 0 && line[0] == '#',
        !"#EXTINF:"@.is_prefix_of(line),
        line == text + "URI=\""@ + uri + "\""@ + rest,
        lacks(text, "URI="@),
        !uri.contains('"'),
        leads_to(uri, target, base, origin_base),
    ensures
        becomes(
            content,
            before,
            text + "URI=\""@ + (proxy_base + percent_encoded(target)) + "\""@ + rewritten_tag(
                rest,
                base,
                origin_base,
                proxy_base,
            ),
            after,
            base,
            origin_base,
            proxy_base,
        ),
{
    lemma_line_of(content, before, line, after, base, origin_base, proxy_base);
    law_tag_step(text, uri, target, rest, base, origin_base, proxy_base);
    let tail = uri + "\""@ + rest;
    assert(line =~= text + "URI=\""@ + tail);
    law_has_text(line, "URI=\""@, text, tail);
}

/// A line that begins with `#`, is no segment's tag and holds `URI="` is
/// rewritten as a tag, whatever its name.
pub proof fn law_quoting_line(
    content: Seq<char>,
    before: Seq<char>,
    line: Seq<char>,
    after: Seq<char>,
    base: Seq<char>,
    origin_base: Seq<char>,
    proxy_base: Seq<char>,
)
    requires
        is_line_of(content, before, line, after),
        line.len() > 0 && line[0] == '#',
        !"#EXTINF:"@.is_prefix_of(line),
        !lacks(line, "URI=\""@),
    ensures
        becomes(
            content,
            before,
            rewritten_tag(line, base, origin_base, proxy_base),
            after,
            base,
            origin_base,
            proxy_base,
        ),
{
    lemma_line_of(content, before, line, after, base, origin_base, proxy_base);
    law_has_text(line, "URI=\""@, line, line);
}

/// `URI=` with something else behind it is no address: it is kept with the
/// character behind it, and what follows is told on its own.
pub proof fn law_open_mark(
    text: Seq<char>,
    c: char,
    rest: Seq<char>,
    base: Seq<char>,
    origin_base: Seq<char>,
    proxy_base: Seq<char>,
)
    requires
        lacks(text, "URI="@),
        c != '"' || !rest.contains('"'),
    ensures
        rewritten_tag(text + "URI="@ + seq![c] + rest, base, origin_base, proxy_base) == text
            + "URI="@ + seq![c] + rewritten_tag(rest, base, origin_base, proxy_base),
        ends_in_bare_uri(text + "URI="@ + seq![c] + rest) <==> ends_in_bare_uri(rest),
    decreases text.len(),
{
    reveal_strlit("URI=");
    let line = text + "URI="@ + seq![c] + rest;
    let mark = seq!['U', 'R', 'I', '='];
    assert("URI="@ =~= mark);
    let next = if text.len() == 0 {
        rest
    } else {
        text.drop_first() + "URI="@ + seq![c] + rest
    };
    if text.len() == 0 {
        assert(line.subrange(0, 4) =~= mark);
        assert(line[4] == c);
        let value = line.skip(5);
        assert(value =~= rest);
        lemma_position(rest, '"');
        assert(position(rest, '"') < rest.len() ==> rest.contains('"'));
        assert(first_piece(line) == (Piece::Open(c), 5nat));
        assert(line.skip(5) =~= next);
    } else {
        lemma_no_mark(text, line);
        lemma_lacks_tail(text, "URI="@);
        law_open_mark(text.drop_first(), c, rest, base, origin_base, proxy_base);
        assert(line.skip(1) =~= next);
    }
    assert(pieces(line).drop_first() =~= pieces(next));
    assert(rewritten_tag(line, base, origin_base, proxy_base) =~= text + "URI="@ + seq![c]
        + rewritten_tag(rest, base, origin_base, proxy_base));
    lemma_bare_rest(line, next);
}

/// A text without the mark of an address ends in none, and with a bare mark
/// behind it, it does; both are kept.
pub proof fn law_bare_mark(
    text: Seq<char>,
    base: Seq<char>,
    origin_base: Seq<char>,
    proxy_base: Seq<char>,
)
    requires
        lacks(text, "URI="@),
    ensures
        !ends_in_bare_uri(text),
        ends_in_bare_uri(text + "URI="@),
        rewritten_tag(text, base, origin_base, proxy_base) == text,
        rewritten_tag(text + "URI="@, base, origin_base, proxy_base) == text + "URI="@,
    decreases text.len(),
{
    reveal_strlit("URI=");
    let line = text + "URI="@;
    let mark = seq!['U', 'R', 'I', '='];
    assert("URI="@ =~= mark);
    if text.len() == 0 {
        assert(line.subrange(0, 4) =~= mark);
        assert(pieces(line)[0] == Piece::Bare);
        assert(line.skip(4) =~= Seq::<char>::empty());
        reveal_with_fuel(pieces, 2);
        assert(pieces(line).drop_first() =~= Seq::<Piece>::empty());
        reveal_with_fuel(rewritten_pieces, 2);
        assert(rewritten_tag(line, base, origin_base, proxy_base) =~= line);
    } else {
        lemma_tag_without(text, base, origin_base, proxy_base);
        assert(text.subrange(0, text.len() as int) =~= text);
        lemma_no_mark(text, text);
        lemma_no_mark(text, line);
        lemma_lacks_tail(text, "URI="@);
        let tail = text.drop_first();
        law_bare_mark(tail, base, origin_base, proxy_base);
        assert(text.skip(1) =~= tail);
        assert(line.skip(1) =~= tail + "URI="@);
        let k = choose|k: int|
            0 <= k < pieces(tail + "URI="@).len() && pieces(tail + "URI="@)[k] == Piece::Bare;
        assert(pieces(line)[k + 1] == Piece::Bare);
        assert(pieces(line).drop_first() =~= pieces(tail + "URI="@));
        assert(rewritten_tag(line, base, origin_base, proxy_base) =~= line);
        if ends_in_bare_uri(text) {
            let m = choose|m: int| 0 <= m < pieces(text).len() && pieces(text)[m] == Piece::Bare;
            if m > 0 {
                assert(pieces(tail)[m - 1] == Piece::Bare);
            }
        }
    }
}

/// While more text may come, a last line that is a tag of the next address is
/// held back as it becomes, and every other last line comes out; a tag that
/// was held back comes out first, on a line of its own.
pub proof fn law_held_back(
    content: Seq<char>,
    before: Seq<char>,
    line: Seq<char>,
    base: Seq<char>,
    origin_base: Seq<char>,
    proxy_base: Seq<char>,
    tag: Seq<char>,
)
    requires
        is_line_of(content, before, line, Seq::<char>::empty()),
    ensures
        ({
            let held = rewritten(lines(content), base, origin_base, proxy_base, false, None);
            let behind = rewritten(lines(content), base, origin_base, proxy_base, false, Some(tag));
            let is_tag = "#EXTINF:"@.is_prefix_of(line) || "#EXT-X-STREAM-INF:"@.is_prefix_of(line)
                || "#EXT-X-I-FRAME-STREAM-INF:"@.is_prefix_of(line);
            &&& is_tag ==> held.0 == served(before, base, origin_base, proxy_base)
            &&& is_tag ==> held.1 is Some && held.0 + held.1->0 + seq!['\n'] == served(
                content,
                base,
                origin_base,
                proxy_base,
            )
            &&& !is_tag ==> held == (served(content, base, origin_base, proxy_base), None::<Seq<char>>)
            &&& behind == (tag + seq!['\n'] + held.0, held.1)
        }),
{
    let none = Seq::<char>::empty();
    law_last_line(none);
    lemma_lines_of(content, before, line, none);
    assert(lines(content) =~= lines(before).push(line));
    assert(lines(content).drop_last() =~= lines(before));
    lemma_served(content, base, origin_base, proxy_base);
    lemma_served(before, base, origin_base, proxy_base);
    let held = rewritten(lines(content), base, origin_base, proxy_base, false, None);
    let behind = rewritten(lines(content), base, origin_base, proxy_base, false, Some(tag));
    assert(none + served(before, base, origin_base, proxy_base) =~= served(
        before,
        base,
        origin_base,
        proxy_base,
    ));
    assert(none + served(content, base, origin_base, proxy_base) =~= served(
        content,
        base,
        origin_base,
        proxy_base,
    ));
    assert(tag.push('\n') =~= tag + seq!['\n']);
    if is_uri_tag(line) {
        let this = rewritten_line(line, base, origin_base, proxy_base);
        assert(held.0 + this + seq!['\n'] =~= held.0 + this.push('\n'));
    }
    assert(behind.0 =~= tag + seq!['\n'] + held.0);
}

/// A tag that was held back comes out at the end of the stream, in front of
/// what is left, and is held on where nothing comes.
pub proof fn law_released(
    content: Seq<char>,
    base: Seq<char>,
    origin_base: Seq<char>,
    proxy_base: Seq<char>,
    tag: Seq<char>,
    pending: Option<Seq<char>>,
)
    ensures
        rewritten(lines(content), base, origin_base, proxy_base, true, Some(tag)) == (
            tag + seq!['\n'] + served(content, base, origin_base, proxy_base),
            None::<Seq<char>>,
        ),
        rewritten(lines(Seq::<char>::empty()), base, origin_base, proxy_base, false, pending) == (
            Seq::<char>::empty(),
            pending,
        ),
{
    law_last_line(Seq::<char>::empty());
    lemma_served(content, base, origin_base, proxy_base);
    assert(tag.push('\n') =~= tag + seq!['\n']);
}

/// A playlist no line of which ends with `URI=` can be rewritten, and so can
/// one all of whose tags belong to an address.
pub proof fn law_rewritable(content: Seq<char>)
    requires
        forall|i: int|
            0 <= i < lines(content).len() ==> {
                ||| !"URI="@.is_suffix_of(#[trigger] lines(content)[i])
                ||| lines(content)[i].len() == 0
                ||| lines(content)[i][0] != '#'
                ||| lacks(lines(content)[i], "URI=\""@)
                ||| is_uri_tag(lines(content)[i])
            },
    ensures
        rewritable(content),
{
    assert forall|i: int| 0 <= i < lines(content).len() implies !is_broken_tag(
        #[trigger] lines(content)[i],
    ) by {
        let line = lines(content)[i];
        law_has_text(line, "URI=\""@, line, line);
        if ends_in_bare_uri(line) {
            lemma_bare_ends(line);
        }
    }
}

/// A playlist with a tag that quotes an address, belongs to no other one and
/// ends with a bare `URI=` cannot be rewritten.
pub proof fn law_not_rewritable(
    content: Seq<char>,
    before: Seq<char>,
    line: Seq<char>,
    after: Seq<char>,
)
    requires
        is_line_of(content, before, line, after),
        line.len() > 0 && line[0] == '#',
        !"#EXTINF:"@.is_prefix_of(line),
        !"#EXT-X-STREAM-INF:"@.is_prefix_of(line),
        !"#EXT-X-I-FRAME-STREAM-INF:"@.is_prefix_of(line),
        !lacks(line, "URI=\""@),
        ends_in_bare_uri(line),
    ensures
        !rewritable(content),
{
    lemma_lines_of(content, before, line, after);
    law_has_text(line, "URI=\""@, line, line);
    assert(lines(content)[lines(before).len() as int] == line);
    assert(is_broken_tag(line));
}

/// A line that ends in a bare mark ends with the mark.
proof fn lemma_bare_ends(line: Seq<char>)
    requires
        ends_in_bare_uri(line),
    ensures
        "URI="@.is_suffix_of(line),
    decreases line.len(),
{
    reveal_strlit("URI=");
    let mark = seq!['U', 'R', 'I', '='];
    assert("URI="@ =~= mark);
    if line.len() > 0 {
        let (piece, n) = first_piece(line);
        lemma_position(line.skip(5), '"');
        let rest = line.skip(n as int);
        let k = choose|k: int| 0 <= k < pieces(line).len() && pieces(line)[k] == Piece::Bare;
        if k == 0 {
            assert(piece == Piece::Bare);
            assert(line.subrange(0, 4) =~= line);
            assert(line.subrange(line.len() - 4, line.len() as int) =~= mark);
        } else {
            assert(pieces(rest)[k - 1] == Piece::Bare);
            lemma_bare_ends(rest);
            assert(rest.subrange(rest.len() - 4, rest.len() as int) =~= line.subrange(
                line.len() - 4,
                line.len() as int,
            ));
        }
    }
}

} // verus!
