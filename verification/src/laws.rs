//! What holds of the proxy as a whole.
use vstd::prelude::*;
use vstd::utf8::*;

use crate::address::{dotted, is_global, lemma_dotted_host, IpAddr};
use crate::config::{host_list, local_base};
use crate::handler::{
    error_reply, first_url, host_text, is_admitted, is_host_name, is_listed, is_literal_allowed,
    is_within, listed_hosts, own_answer, requested, target_plan, url_param, AppState, FetchView,
    PlanView,
};
use crate::headers::{
    client_value, connection_names, first_value, is_visible, media_fields, playlist_fields,
    upstream_fields, value_bytes, NAME_LIMIT,
};
use crate::percent::{law_decode_encode, lemma_percent_bytes_plain, percent_encoded};
use crate::playlist::{
    absolute, first_piece, held_line, is_address_line, is_quoting_tag, is_uri_tag, lemma_released,
    line_target, pieces, proxied, quoted, rewritten, rewritten_line, rewritten_lines,
    rewritten_piece, rewritten_pieces, rewritten_tag, Piece,
};
use crate::reply::{
    is_elsewhere, is_redirect, lemma_own_path_plain, own_path, relay, resolved, RelayView,
};
use crate::target::{joined_url, jpeg_path, url_parsed, without_mark, TargetView};
use crate::text::{
    decimal, has_text, lemma_position, lemma_position_is, lemma_split_one, lines, occurs_at,
    position, replace, small, strip_cr,
};

verus! {

/// Where a text ends with a line feed, its lines and those of what follows are
/// the lines of both.
pub proof fn lemma_lines_append(a: Seq<char>, b: Seq<char>)
    requires
        a.len() > 0 ==> a.last() == '\n',
    ensures
        lines(a + b) == lines(a) + lines(b),
    decreases a.len(),
{
    if a.len() == 0 {
        assert(a + b =~= b);
        assert(lines(a) + lines(b) =~= lines(b));
    } else {
        lemma_position(a, '\n');
        let p = position(a, '\n') as int;
        if p >= a.len() {
            assert(a[a.len() - 1] == '\n');
        }
        assert forall|i: int| 0 <= i < p implies (a + b)[i] != '\n' by {
            assert(a[i] != '\n');
        }
        lemma_position_is(a + b, '\n', p);
        let rest = a.skip(p + 1);
        assert((a + b).take(p) =~= a.take(p));
        assert((a + b).skip(p + 1) =~= rest + b);
        if rest.len() > 0 {
            assert(rest.last() == a.last());
        }
        lemma_lines_append(rest, b);
        assert(seq![strip_cr(a.take(p))] + (lines(rest) + lines(b)) =~= lines(a) + lines(b));
    }
}

/// A text without a line feed is, with one behind it, one line.
proof fn lemma_one_line(s: Seq<char>)
    requires
        !s.contains('\n'),
    ensures
        lines(s.push('\n')) == seq![strip_cr(s)],
{
    let t = s.push('\n');
    assert forall|i: int| 0 <= i < s.len() implies t[i] != '\n' by {
        assert(s.contains(s[i]));
    }
    lemma_position_is(t, '\n', s.len() as int);
    assert(t.take(s.len() as int) =~= s);
    assert(t.skip(s.len() + 1int) =~= Seq::<char>::empty());
    reveal_with_fuel(lines, 2);
    assert(lines(t) =~= seq![strip_cr(s)]);
}

/// No line of a text holds a line feed.
proof fn lemma_lines_whole(s: Seq<char>)
    ensures
        forall|i: int| 0 <= i < lines(s).len() ==> !(#[trigger] lines(s)[i]).contains('\n'),
    decreases s.len(),
{
    if s.len() > 0 {
        lemma_position(s, '\n');
        let p = position(s, '\n') as int;
        let head = s.take(p);
        assert forall|j: int| 0 <= j < p implies head[j] != '\n' by {
            assert(s[j] != '\n');
        }
        if p < s.len() {
            lemma_lines_whole(s.skip(p + 1));
            assert forall|i: int| 0 <= i < lines(s).len() implies !(#[trigger] lines(s)[i]).contains(
                '\n',
            ) by {
                if i > 0 {
                    assert(lines(s)[i] == lines(s.skip(p + 1))[i - 1]);
                }
            }
        } else {
            assert(s =~= head);
        }
    }
}

/// The address at which the proxy offers a resource holds no line feed where
/// the proxy's own address holds none.
proof fn lemma_proxied_whole(url: Seq<char>, proxy_base: Seq<char>)
    requires
        !proxy_base.contains('\n'),
    ensures
        !proxied(url, proxy_base).contains('\n'),
{
    lemma_percent_bytes_plain(encode_utf8(url));
    let all = proxied(url, proxy_base);
    assert forall|i: int| 0 <= i < all.len() implies all[i] != '\n' by {
        if i < proxy_base.len() {
            assert(proxy_base.contains(proxy_base[i]));
        } else {
            assert(all[i] == percent_encoded(url)[i - proxy_base.len()]);
        }
    }
}

/// A rewritten tag holds no line feed where neither the tag nor the proxy's
/// address holds one.
proof fn lemma_tag_whole(
    line: Seq<char>,
    base: Seq<char>,
    origin_base: Seq<char>,
    proxy_base: Seq<char>,
)
    requires
        !line.contains('\n'),
        !proxy_base.contains('\n'),
    ensures
        !rewritten_tag(line, base, origin_base, proxy_base).contains('\n'),
    decreases line.len(),
{
    if line.len() > 0 {
        let (piece, n) = first_piece(line);
        lemma_position(line.skip(5), '"');
        let rest = line.skip(n as int);
        assert forall|i: int| 0 <= i < rest.len() implies rest[i] != '\n' by {
            assert(line.contains(line[i + n]));
        }
        lemma_tag_whole(rest, base, origin_base, proxy_base);
        let head = rewritten_piece(piece, base, origin_base, proxy_base);
        reveal_strlit("URI=");
        reveal_strlit("URI=\"");
        reveal_strlit("\"");
        assert(!head.contains('\n')) by {
            match piece {
                Piece::Plain(_) => {
                    assert(line.contains(line[0]));
                },
                Piece::Uri(uri) => {
                    let target = absolute(uri, base, origin_base);
                    lemma_proxied_whole(target, proxy_base);
                    let url = proxied(target, proxy_base);
                    assert forall|i: int| 0 <= i < head.len() implies head[i] != '\n' by {
                        if 5 <= i < 5 + url.len() {
                            assert(head[i] == url[i - 5]);
                            assert(url.contains(url[i - 5]));
                        }
                    }
                },
                Piece::Open(_) => {
                    assert(line.contains(line[4]));
                },
                Piece::Bare => {},
            }
        }
        assert(pieces(line).drop_first() =~= pieces(rest));
        let tail = rewritten_tag(rest, base, origin_base, proxy_base);
        assert forall|i: int| 0 <= i < (head + tail).len() implies (head + tail)[i] != '\n' by {
            if i < head.len() {
                assert(head.contains(head[i]));
            } else {
                assert(tail.contains(tail[i - head.len()]));
            }
        }
    }
}

/// A rewritten line is one line.
proof fn lemma_rewritten_line_whole(
    line: Seq<char>,
    base: Seq<char>,
    origin_base: Seq<char>,
    proxy_base: Seq<char>,
)
    requires
        !line.contains('\n'),
        !proxy_base.contains('\n'),
    ensures
        !rewritten_line(line, base, origin_base, proxy_base).contains('\n'),
{
    if is_quoting_tag(line) {
        lemma_tag_whole(line, base, origin_base, proxy_base);
    } else if is_address_line(line) {
        lemma_proxied_whole(line_target(line, base, origin_base), proxy_base);
    }
}

/// The lines of rewritten lines are those lines, rewritten.
proof fn lemma_rewritten_lines_split(
    ls: Seq<Seq<char>>,
    base: Seq<char>,
    origin_base: Seq<char>,
    proxy_base: Seq<char>,
)
    requires
        !proxy_base.contains('\n'),
        forall|i: int| 0 <= i < ls.len() ==> !(#[trigger] ls[i]).contains('\n'),
    ensures
        ({
            let out = rewritten_lines(ls, base, origin_base, proxy_base);
            &&& out.len() > 0 ==> out.last() == '\n'
            &&& lines(out).len() == ls.len()
            &&& forall|i: int|
                0 <= i < ls.len() ==> #[trigger] lines(out)[i] == strip_cr(
                    rewritten_line(ls[i], base, origin_base, proxy_base),
                )
        }),
    decreases ls.len(),
{
    if ls.len() > 0 {
        let init = ls.drop_last();
        assert forall|i: int| 0 <= i < init.len() implies !(#[trigger] init[i]).contains('\n') by {
            assert(init[i] == ls[i]);
        }
        lemma_rewritten_lines_split(init, base, origin_base, proxy_base);
        let before = rewritten_lines(init, base, origin_base, proxy_base);
        let this = rewritten_line(ls.last(), base, origin_base, proxy_base);
        assert(!ls[ls.len() - 1].contains('\n'));
        lemma_rewritten_line_whole(ls.last(), base, origin_base, proxy_base);
        lemma_one_line(this);
        lemma_lines_append(before, this.push('\n'));
        let out = rewritten_lines(ls, base, origin_base, proxy_base);
        assert(out.last() == '\n');
        assert forall|i: int| 0 <= i < ls.len() implies #[trigger] lines(out)[i] == strip_cr(
            rewritten_line(ls[i], base, origin_base, proxy_base),
        ) by {
            if i < init.len() {
                assert(lines(out)[i] == lines(before)[i]);
                assert(init[i] == ls[i]);
            }
        }
    }
}

/// No line of a playlist is lost and none is added: where the proxy's address
/// is one line, the rewritten playlist has the same number of lines, and each
/// is what the line at its place becomes.
pub proof fn law_line_by_line(
    content: Seq<char>,
    base: Seq<char>,
    origin_base: Seq<char>,
    proxy_base: Seq<char>,
)
    requires
        !proxy_base.contains('\n'),
    ensures
        ({
            let out = rewritten(lines(content), base, origin_base, proxy_base, true, None).0;
            &&& lines(out).len() == lines(content).len()
            &&& forall|i: int|
                0 <= i < lines(content).len() ==> #[trigger] lines(out)[i] == strip_cr(
                    rewritten_line(lines(content)[i], base, origin_base, proxy_base),
                )
        }),
{
    lemma_lines_whole(content);
    lemma_rewritten_lines_split(lines(content), base, origin_base, proxy_base);
    let all = rewritten_lines(lines(content), base, origin_base, proxy_base);
    assert(Seq::<char>::empty() + all =~= all);
}

/// The rewriting of lines and more lines is that of the ones and the others.
pub proof fn lemma_rewritten_lines_append(
    a: Seq<Seq<char>>,
    b: Seq<Seq<char>>,
    base: Seq<char>,
    origin_base: Seq<char>,
    proxy_base: Seq<char>,
)
    ensures
        rewritten_lines(a + b, base, origin_base, proxy_base) == rewritten_lines(
            a,
            base,
            origin_base,
            proxy_base,
        ) + rewritten_lines(b, base, origin_base, proxy_base),
    decreases b.len(),
{
    let ra = rewritten_lines(a, base, origin_base, proxy_base);
    if b.len() == 0 {
        assert(a + b =~= a);
        assert(ra + Seq::<char>::empty() =~= ra);
    } else {
        lemma_rewritten_lines_append(a, b.drop_last(), base, origin_base, proxy_base);
        assert((a + b).drop_last() =~= a + b.drop_last());
        let rb = rewritten_lines(b.drop_last(), base, origin_base, proxy_base);
        let this = rewritten_line(b.last(), base, origin_base, proxy_base).push('\n');
        assert((ra + rb) + this =~= ra + (rb + this));
    }
}

/// A playlist may be rewritten in parts: where the first part ends with a line
/// feed, the tag that is held back from it and the second part give what the
/// whole gives.
pub proof fn law_parts(
    a: Seq<char>,
    b: Seq<char>,
    base: Seq<char>,
    origin_base: Seq<char>,
    proxy_base: Seq<char>,
    end_of_stream: bool,
    pending: Option<Seq<char>>,
)
    requires
        a.len() > 0 ==> a.last() == '\n',
    ensures
        ({
            let (first, held) = rewritten(lines(a), base, origin_base, proxy_base, false, pending);
            let (second, last) = rewritten(
                lines(b),
                base,
                origin_base,
                proxy_base,
                end_of_stream,
                held,
            );
            (first + second, last) == rewritten(
                lines(a + b),
                base,
                origin_base,
                proxy_base,
                end_of_stream,
                pending,
            )
        }),
{
    lemma_lines_append(a, b);
    let (la, lb) = (lines(a), lines(b));
    let (first, held) = rewritten(la, base, origin_base, proxy_base, false, pending);
    let (second, last) = rewritten(lb, base, origin_base, proxy_base, end_of_stream, held);
    lemma_released(la, base, origin_base, proxy_base, pending);
    let ra = rewritten_lines(la, base, origin_base, proxy_base);
    if lb.len() == 0 {
        assert(la + lb =~= la);
        assert(first + second =~= rewritten(la, base, origin_base, proxy_base, end_of_stream, pending).0);
    } else {
        assert((la + lb).last() == lb.last());
        assert((la + lb).drop_last() =~= la + lb.drop_last());
        lemma_rewritten_lines_append(la, lb, base, origin_base, proxy_base);
        lemma_rewritten_lines_append(la, lb.drop_last(), base, origin_base, proxy_base);
        let rb = if !end_of_stream && is_uri_tag(lb.last()) {
            rewritten_lines(lb.drop_last(), base, origin_base, proxy_base)
        } else {
            rewritten_lines(lb, base, origin_base, proxy_base)
        };
        assert(first + (held_line(held) + rb) =~= (first + held_line(held)) + rb);
        assert(held_line(pending) + (ra + rb) =~= (held_line(pending) + ra) + rb);
    }
}

/// At the end of the stream no tag is held back.
pub proof fn law_nothing_held_at_end(
    ls: Seq<Seq<char>>,
    base: Seq<char>,
    origin_base: Seq<char>,
    proxy_base: Seq<char>,
    pending: Option<Seq<char>>,
)
    ensures
        rewritten(ls, base, origin_base, proxy_base, true, pending).1 is None,
{
}

/// An empty line, a segment's tag with its title, and every other line that
/// names no resource stay as they are.
pub proof fn law_other_lines_stay(
    line: Seq<char>,
    base: Seq<char>,
    origin_base: Seq<char>,
    proxy_base: Seq<char>,
)
    requires
        line.len() == 0 || "#EXTINF:"@.is_prefix_of(line) || (!is_quoting_tag(line)
            && !is_address_line(line)),
    ensures
        rewritten_line(line, base, origin_base, proxy_base) == line,
{
    if "#EXTINF:"@.is_prefix_of(line) {
        reveal_strlit("#EXTINF:");
        assert(line.subrange(0, 8)[0] == '#');
    }
}

/// The query that asks the proxy for a resource.
pub open spec fn query_for(url: Seq<char>) -> Seq<char> {
    "url="@ + percent_encoded(url)
}

/// A request for a resource that is encoded in the parameter `url` names
/// exactly that resource, and is not answered by the proxy itself.
pub proof fn law_request_round_trip(url: Seq<char>)
    ensures
        own_answer("GET"@, "/"@, query_for(url)) is None,
        requested(query_for(url)) == url,
{
    let query = query_for(url);
    reveal_strlit("url=");
    reveal_strlit("/");
    reveal_strlit("/health");
    reveal_strlit("/favicon.ico");
    lemma_percent_bytes_plain(encode_utf8(url));
    assert forall|i: int| 0 <= i < query.len() implies query[i] != '&' by {
        if i >= 4 {
            assert(query[i] == percent_encoded(url)[i - 4]);
        }
    }
    lemma_split_one(query, '&');
    assert(query.subrange(0, 4) =~= "url="@);
    assert(query.skip(4) =~= percent_encoded(url));
    law_decode_encode(url);
    assert("/"@.len() != "/health"@.len());
    assert("/"@.len() != "/favicon.ico"@.len());
}

/// The address that stands for an address line of a playlist is the proxy's
/// own with a query value that leads back to exactly what the line asks for.
pub proof fn law_address_leads_back(
    line: Seq<char>,
    base: Seq<char>,
    origin_base: Seq<char>,
    proxy_base: Seq<char>,
)
    requires
        is_address_line(line),
    ensures
        ({
            let target = line_target(line, base, origin_base);
            &&& rewritten_line(line, base, origin_base, proxy_base) == proxy_base + percent_encoded(
                target,
            )
            &&& own_answer("GET"@, "/"@, query_for(target)) is None
            &&& requested(query_for(target)) == target
        }),
{
    law_request_round_trip(line_target(line, base, origin_base));
}

/// In a rewritten playlist every address line of the origin's is, at its
/// place, the proxy's own address with a query value that leads back to
/// exactly what the line asks for.
pub proof fn law_playlist_leads_through_proxy(
    content: Seq<char>,
    base: Seq<char>,
    origin_base: Seq<char>,
    proxy_base: Seq<char>,
    i: int,
)
    requires
        !proxy_base.contains('\n'),
        0 <= i < lines(content).len(),
        is_address_line(lines(content)[i]),
    ensures
        ({
            let out = rewritten(lines(content), base, origin_base, proxy_base, true, None).0;
            let target = line_target(lines(content)[i], base, origin_base);
            &&& lines(out)[i] == proxy_base + percent_encoded(target)
            &&& own_answer("GET"@, "/"@, query_for(target)) is None
            &&& requested(query_for(target)) == target
        }),
{
    let line = lines(content)[i];
    let target = line_target(line, base, origin_base);
    law_line_by_line(content, base, origin_base, proxy_base);
    law_address_leads_back(line, base, origin_base, proxy_base);
    reveal_strlit("real_ext=jpeg");
    assert(target.len() > 0);
    assert(encode_utf8(target).len() > 0) by {
        assert(encode_scalar(target[0] as u32).len() > 0);
    }
    assert(percent_encoded(target).len() > 0);
    lemma_percent_bytes_plain(encode_utf8(target));
    let all = proxy_base + percent_encoded(target);
    assert(all.last() == percent_encoded(target)[percent_encoded(target).len() - 1]);
}

/// The text of a piece of a tag line.
pub open spec fn piece_text(piece: Piece) -> Seq<char> {
    match piece {
        Piece::Plain(c) => seq![c],
        Piece::Uri(uri) => quoted(uri),
        Piece::Open(c) => "URI="@.push(c),
        Piece::Bare => "URI="@,
    }
}

/// The text of some pieces, one after the other.
pub open spec fn pieces_text(ps: Seq<Piece>) -> Seq<char>
    decreases ps.len(),
{
    if ps.len() == 0 {
        seq![]
    } else {
        piece_text(ps[0]) + pieces_text(ps.drop_first())
    }
}

/// The pieces of a tag line are the whole line.
proof fn lemma_pieces_whole(line: Seq<char>)
    ensures
        pieces_text(pieces(line)) == line,
    decreases line.len(),
{
    if line.len() > 0 {
        let (piece, n) = first_piece(line);
        lemma_position(line.skip(5), '"');
        let rest = line.skip(n as int);
        lemma_pieces_whole(rest);
        assert(pieces(line).drop_first() =~= pieces(rest));
        reveal_strlit("URI=");
        reveal_strlit("URI=\"");
        reveal_strlit("\"");
        let mark = seq!['U', 'R', 'I', '='];
        if mark.is_prefix_of(line) {
            assert(line.subrange(0, 4) == mark);
            assert(line[0] == mark[0] && line[1] == mark[1] && line[2] == mark[2] && line[3]
                == mark[3]) by {
                assert(line.subrange(0, 4)[0] == line[0]);
                assert(line.subrange(0, 4)[1] == line[1]);
                assert(line.subrange(0, 4)[2] == line[2]);
                assert(line.subrange(0, 4)[3] == line[3]);
            }
        }
        assert(piece_text(piece) =~= line.take(n as int));
        assert(line =~= line.take(n as int) + rest);
    }
}

/// The text and the rewriting of pieces and more pieces are those of the ones
/// and the others.
proof fn lemma_pieces_append(
    a: Seq<Piece>,
    b: Seq<Piece>,
    base: Seq<char>,
    origin_base: Seq<char>,
    proxy_base: Seq<char>,
)
    ensures
        pieces_text(a + b) == pieces_text(a) + pieces_text(b),
        rewritten_pieces(a + b, base, origin_base, proxy_base) == rewritten_pieces(
            a,
            base,
            origin_base,
            proxy_base,
        ) + rewritten_pieces(b, base, origin_base, proxy_base),
    decreases a.len(),
{
    let rb = rewritten_pieces(b, base, origin_base, proxy_base);
    if a.len() == 0 {
        assert(a + b =~= b);
        assert(Seq::<char>::empty() + pieces_text(b) =~= pieces_text(b));
        assert(Seq::<char>::empty() + rb =~= rb);
    } else {
        let rest = a.drop_first();
        lemma_pieces_append(rest, b, base, origin_base, proxy_base);
        assert((a + b).drop_first() =~= rest + b);
        let this = rewritten_piece(a[0], base, origin_base, proxy_base);
        let ra = rewritten_pieces(rest, base, origin_base, proxy_base);
        assert(this + (ra + rb) =~= (this + ra) + rb);
        assert(piece_text(a[0]) + (pieces_text(rest) + pieces_text(b)) =~= (piece_text(a[0])
            + pieces_text(rest)) + pieces_text(b));
    }
}

/// A tag line is its pieces, and of each piece but a quoted address the text
/// is kept.
pub proof fn law_tag_text_kept(
    line: Seq<char>,
    base: Seq<char>,
    origin_base: Seq<char>,
    proxy_base: Seq<char>,
    k: int,
)
    requires
        0 <= k < pieces(line).len(),
    ensures
        pieces_text(pieces(line)) == line,
        !(pieces(line)[k] is Uri) ==> rewritten_piece(
            pieces(line)[k],
            base,
            origin_base,
            proxy_base,
        ) == piece_text(pieces(line)[k]),
{
    lemma_pieces_whole(line);
}

/// A tag line without a quoted address stays as it is.
pub proof fn law_tag_without_address_stays(
    line: Seq<char>,
    base: Seq<char>,
    origin_base: Seq<char>,
    proxy_base: Seq<char>,
)
    requires
        forall|k: int| 0 <= k < pieces(line).len() ==> !(#[trigger] pieces(line)[k] is Uri),
    ensures
        rewritten_tag(line, base, origin_base, proxy_base) == line,
{
    lemma_pieces_whole(line);
    lemma_pieces_kept(pieces(line), base, origin_base, proxy_base);
}

/// Pieces without a quoted address are rewritten to their text.
proof fn lemma_pieces_kept(
    ps: Seq<Piece>,
    base: Seq<char>,
    origin_base: Seq<char>,
    proxy_base: Seq<char>,
)
    requires
        forall|k: int| 0 <= k < ps.len() ==> !(#[trigger] ps[k] is Uri),
    ensures
        rewritten_pieces(ps, base, origin_base, proxy_base) == pieces_text(ps),
    decreases ps.len(),
{
    if ps.len() > 0 {
        let rest = ps.drop_first();
        assert forall|k: int| 0 <= k < rest.len() implies !(#[trigger] rest[k] is Uri) by {
            assert(rest[k] == ps[k + 1]);
        }
        lemma_pieces_kept(rest, base, origin_base, proxy_base);
    }
}

/// In a tag line the address that stands for one in quotes is, at its place,
/// the proxy's own with a query value that leads back to exactly that one.
pub proof fn law_tag_leads_back(
    line: Seq<char>,
    base: Seq<char>,
    origin_base: Seq<char>,
    proxy_base: Seq<char>,
    k: int,
)
    requires
        0 <= k < pieces(line).len(),
        pieces(line)[k] is Uri,
    ensures
        ({
            let uri = pieces(line)[k]->Uri_0;
            let before = pieces(line).take(k);
            let after = pieces(line).skip(k + 1);
            let target = absolute(uri, base, origin_base);
            &&& line == pieces_text(before) + quoted(uri) + pieces_text(after)
            &&& rewritten_tag(line, base, origin_base, proxy_base) == rewritten_pieces(
                before,
                base,
                origin_base,
                proxy_base,
            ) + quoted(proxy_base + percent_encoded(target)) + rewritten_pieces(
                after,
                base,
                origin_base,
                proxy_base,
            )
            &&& own_answer("GET"@, "/"@, query_for(target)) is None
            &&& requested(query_for(target)) == target
        }),
{
    let ps = pieces(line);
    let uri = ps[k]->Uri_0;
    let before = ps.take(k);
    let after = ps.skip(k + 1);
    law_request_round_trip(absolute(uri, base, origin_base));
    lemma_pieces_whole(line);
    let this = seq![ps[k]];
    assert(this.drop_first() =~= seq![]);
    reveal_with_fuel(pieces_text, 2);
    reveal_with_fuel(rewritten_pieces, 2);
    assert(pieces_text(this) =~= quoted(uri));
    assert(rewritten_pieces(this, base, origin_base, proxy_base) =~= rewritten_piece(
        ps[k],
        base,
        origin_base,
        proxy_base,
    ));
    lemma_pieces_append(before, this, base, origin_base, proxy_base);
    lemma_pieces_append(before + this, after, base, origin_base, proxy_base);
    assert(ps =~= before + this + after);
}

/// In a rewritten playlist every quoted address of a tag is, at its place, the
/// proxy's own with a query value that leads back to exactly that address.
pub proof fn law_playlist_tags_lead_through_proxy(
    content: Seq<char>,
    base: Seq<char>,
    origin_base: Seq<char>,
    proxy_base: Seq<char>,
    i: int,
    k: int,
)
    requires
        !proxy_base.contains('\n'),
        0 <= i < lines(content).len(),
        is_quoting_tag(lines(content)[i]),
        0 <= k < pieces(lines(content)[i]).len(),
        pieces(lines(content)[i])[k] is Uri,
    ensures
        ({
            let out = rewritten(lines(content), base, origin_base, proxy_base, true, None).0;
            let ps = pieces(lines(content)[i]);
            let target = absolute(ps[k]->Uri_0, base, origin_base);
            &&& lines(out)[i] == strip_cr(
                rewritten_pieces(ps.take(k), base, origin_base, proxy_base) + quoted(
                    proxy_base + percent_encoded(target),
                ) + rewritten_pieces(ps.skip(k + 1), base, origin_base, proxy_base),
            )
            &&& own_answer("GET"@, "/"@, query_for(target)) is None
            &&& requested(query_for(target)) == target
        }),
{
    law_line_by_line(content, base, origin_base, proxy_base);
    law_tag_leads_back(lines(content)[i], base, origin_base, proxy_base, k);
}

/// A tag that belongs to the next address and quotes one of its own has that
/// rewritten, whether it is held back or not.
pub proof fn law_held_tags_are_rewritten(
    ls: Seq<Seq<char>>,
    base: Seq<char>,
    origin_base: Seq<char>,
    proxy_base: Seq<char>,
    pending: Option<Seq<char>>,
)
    requires
        ls.len() > 0,
        is_uri_tag(ls.last()),
        is_quoting_tag(ls.last()),
    ensures
        rewritten(ls, base, origin_base, proxy_base, false, pending).1 == Some(
            rewritten_tag(ls.last(), base, origin_base, proxy_base),
        ),
        rewritten(ls, base, origin_base, proxy_base, true, pending).0 == rewritten(
            ls,
            base,
            origin_base,
            proxy_base,
            false,
            pending,
        ).0 + rewritten_tag(ls.last(), base, origin_base, proxy_base).push('\n'),
{
    lemma_released(ls, base, origin_base, proxy_base, pending);
}

/// The fields of the answer that the player gets.
pub open spec fn answered_fields(answer: RelayView) -> Map<Seq<char>, Seq<Seq<u8>>> {
    match answer {
        RelayView::Answer(reply) => reply.fields,
        RelayView::Playlist(fields) => fields,
        RelayView::Media(fields) => fields,
    }
}

/// The place that the proxy sends a player to in place of the origin's leads,
/// through the proxy, to exactly where the origin sends it, whatever the status
/// of that class is.
pub proof fn law_redirect_leads_back(
    fetch: FetchView,
    status: u16,
    fields: Map<Seq<char>, Seq<Seq<u8>>>,
)
    requires
        is_elsewhere(status),
        first_value(fields, "location"@) is Some,
        is_visible(first_value(fields, "location"@)->0),
        is_redirect(status) || fields.dom().len() < NAME_LIMIT,
    ensures
        ({
            let text = decode_utf8(first_value(fields, "location"@)->0);
            let target = resolved(
                text,
                url_parsed(text) is Some,
                joined_url(fetch.target.href, text),
            );
            let answer = answered_fields(relay(fetch, status, fields));
            &&& answer.contains_key("location"@)
            &&& answer["location"@] == seq![encode_utf8("/?"@ + query_for(target))]
            &&& own_answer("GET"@, "/"@, query_for(target)) is None
            &&& requested(query_for(target)) == target
        }),
{
    let text = decode_utf8(first_value(fields, "location"@)->0);
    let target = resolved(text, url_parsed(text) is Some, joined_url(fetch.target.href, text));
    law_request_round_trip(target);
    lemma_own_path_plain(target);
    lemma_location_differs();
    reveal_strlit("/?");
    reveal_strlit("url=");
    reveal_strlit("/?url=");
    assert("/?"@ + query_for(target) =~= own_path(target));
}

/// The name `location` is none of those that are set or left behind.
proof fn lemma_location_differs()
    ensures
        !connection_names().contains("location"@),
        "location"@ != "content-type"@,
        "location"@ != "content-length"@,
        "location"@ != "content-encoding"@,
        "location"@ != "content-disposition"@,
{
    reveal_strlit("location");
    reveal_strlit("connection");
    reveal_strlit("keep-alive");
    reveal_strlit("transfer-encoding");
    reveal_strlit("trailer");
    reveal_strlit("content-type");
    reveal_strlit("content-length");
    reveal_strlit("content-encoding");
    reveal_strlit("content-disposition");
    assert("location"@.len() == 8);
    assert("connection"@.len() == 10 && "keep-alive"@.len() == 10 && "transfer-encoding"@.len() == 17
        && "trailer"@.len() == 7);
    assert("content-type"@.len() == 12 && "content-length"@.len() == 14 && "content-encoding"@.len()
        == 16 && "content-disposition"@.len() == 19);
}

/// An answer that is no permanent or temporary redirect keeps its other fields
/// on the way to the player, also where it sends the player elsewhere.
pub proof fn law_answer_keeps_fields(
    fetch: FetchView,
    status: u16,
    fields: Map<Seq<char>, Seq<Seq<u8>>>,
    name: Seq<char>,
)
    requires
        !is_redirect(status),
        fields.dom().len() < NAME_LIMIT,
        fields.contains_key(name),
        !connection_names().contains(name),
        name != "content-encoding"@,
        name != "content-type"@,
        name != "content-length"@,
        name != "content-disposition"@,
        name != "location"@,
    ensures
        !(relay(fetch, status, fields) is Answer),
        answered_fields(relay(fetch, status, fields)).contains_key(name),
        answered_fields(relay(fetch, status, fields))[name] == fields[name],
{
}

/// Without an address of its own set, the proxy offers a resource at the
/// machine's address and port, on the same path that it sends players to.
pub proof fn law_local_address(url: Seq<char>, local_ip: Seq<char>, port: u16)
    ensures
        proxied(url, local_base(local_ip, port)) == "http://"@ + local_ip + ":"@ + decimal(
            port as nat,
        ) + own_path(url),
{
    assert(proxied(url, local_base(local_ip, port)) =~= "http://"@ + local_ip + ":"@ + decimal(
        port as nat,
    ) + own_path(url));
}

/// A request on any path but those of the proxy itself that has no parameter
/// `url`, or no query at all, is told how to ask.
pub proof fn law_other_requests_are_told(path: Seq<char>, query: Seq<char>)
    requires
        path != "/health"@,
        path != "/favicon.ico"@,
        path == "/"@ ==> query.len() > 0,
        query.len() == 0 || url_param(query) is None,
    ensures
        own_answer("GET"@, path, query) == Some(error_reply(400, "Use /?url=<encoded_target>"@)),
{
    if query.len() == 0 {
        reveal_strlit("url=");
        lemma_split_one(query, '&');
        reveal_with_fuel(first_url, 2);
    }
}

/// Where a text with each `.jpeg` replaced by `.ts` begins with another
/// character than a dot, the text itself begins with it.
proof fn lemma_replaced_head(s: Seq<char>, c: char)
    requires
        c != '.',
        replace(s, ".jpeg"@, ".ts"@).len() > 0,
        replace(s, ".jpeg"@, ".ts"@)[0] == c,
    ensures
        s.len() > 0,
        s[0] == c,
        replace(s, ".jpeg"@, ".ts"@).drop_first() == replace(s.drop_first(), ".jpeg"@, ".ts"@),
{
    reveal_strlit(".jpeg");
    reveal_strlit(".ts");
    let r = replace(s, ".jpeg"@, ".ts"@);
    if s.len() > 0 {
        if ".jpeg"@.is_prefix_of(s) {
            assert(r[0] == '.');
        } else {
            let rest = replace(s.drop_first(), ".jpeg"@, ".ts"@);
            assert((seq![s[0]] + rest).drop_first() =~= rest);
        }
    }
}

/// Asking for the picture undoes the renaming to a stream: a text without
/// `.ts` in which each `.jpeg` became `.ts` is given back.
pub proof fn law_jpeg_restored(s: Seq<char>)
    requires
        !has_text(s, ".ts"@),
    ensures
        jpeg_path(replace(s, ".jpeg"@, ".ts"@)) == s,
    decreases s.len(),
{
    reveal_strlit(".jpeg");
    reveal_strlit(".ts");
    let ts = ".ts"@;
    let jpeg = ".jpeg"@;
    let r = replace(s, jpeg, ts);
    if s.len() == 0 {
    } else if jpeg.is_prefix_of(s) {
        let rest = s.skip(5);
        assert(!has_text(rest, ts)) by {
            assert forall|i: int| !#[trigger] occurs_at(rest, ts, i) by {
                if occurs_at(rest, ts, i) {
                    assert(s.subrange(i + 5, i + 8) =~= rest.subrange(i, i + 3));
                    assert(occurs_at(s, ts, i + 5));
                }
            }
        }
        law_jpeg_restored(rest);
        let tail = replace(rest, jpeg, ts);
        assert(r == ts + tail);
        assert(r.subrange(0, 3) =~= ts);
        assert(r.skip(3) =~= tail);
        assert(jpeg + rest =~= s);
    } else {
        let rest = s.drop_first();
        assert(!has_text(rest, ts)) by {
            assert forall|i: int| !#[trigger] occurs_at(rest, ts, i) by {
                if occurs_at(rest, ts, i) {
                    assert(s.subrange(i + 1, i + 4) =~= rest.subrange(i, i + 3));
                    assert(occurs_at(s, ts, i + 1));
                }
            }
        }
        law_jpeg_restored(rest);
        let tail = replace(rest, jpeg, ts);
        assert(r == seq![s[0]] + tail);
        assert(r.drop_first() =~= tail);
        if ts.is_prefix_of(r) {
            assert(r.subrange(0, 3)[0] == '.' && r.subrange(0, 3)[1] == 't' && r.subrange(0, 3)[2]
                == 's');
            lemma_replaced_head(rest, 't');
            assert(tail.drop_first()[0] == 's');
            lemma_replaced_head(rest.drop_first(), 's');
            assert(s[0] == '.' && s[1] == 't' && s[2] == 's');
            assert(s.subrange(0, 3) =~= ts);
            assert(occurs_at(s, ts, 0));
        }
        assert(seq![s[0]] + rest =~= s);
    }
}

/// The query that the origin gets is that of the request without the marks of
/// the origin's extension, everything else in its order.
pub proof fn law_mark_removed(pairs: Seq<(Seq<char>, Seq<char>)>)
    ensures
        without_mark(pairs) == pairs.filter(|p: (Seq<char>, Seq<char>)| p.0 != "real_ext"@),
    decreases pairs.len(),
{
    reveal(Seq::filter);
    if pairs.len() > 0 {
        law_mark_removed(pairs.drop_last());
    }
}

/// The fields that speak of the connection to the origin, and the encoding of
/// its body, never reach the player.
pub proof fn law_connection_stays_behind(
    origin: Map<Seq<char>, Seq<Seq<u8>>>,
    jpeg: bool,
    name: Seq<char>,
)
    requires
        connection_names().contains(name) || name == "content-encoding"@,
    ensures
        !playlist_fields(origin).contains_key(name),
        !media_fields(origin, jpeg).contains_key(name),
{
    lemma_names_differ();
}

/// Every other field of the origin reaches the player as it is, but for the
/// type, the length of a playlist, and what makes a stream an attachment.
pub proof fn law_other_fields_pass(
    origin: Map<Seq<char>, Seq<Seq<u8>>>,
    jpeg: bool,
    name: Seq<char>,
)
    requires
        origin.contains_key(name),
        !connection_names().contains(name),
        name != "content-encoding"@,
    ensures
        name != "content-type"@ && name != "content-length"@ ==> playlist_fields(
            origin,
        ).contains_key(name) && playlist_fields(origin)[name] == origin[name],
        !jpeg || (name != "content-type"@ && name != "content-disposition"@) ==> media_fields(
            origin,
            jpeg,
        ).contains_key(name) && media_fields(origin, jpeg)[name] == origin[name],
{
}

/// A rewritten playlist has one type, that of a playlist, and no length of the
/// text that it was.
pub proof fn law_playlist_type(origin: Map<Seq<char>, Seq<Seq<u8>>>)
    ensures
        playlist_fields(origin)["content-type"@] == seq![
            encode_utf8("application/vnd.apple.mpegurl"@),
        ],
        !playlist_fields(origin).contains_key("content-length"@),
{
    lemma_names_differ();
}

/// Names that have to be told apart.
proof fn lemma_names_differ()
    ensures
        "content-type"@ != "connection"@,
        "content-type"@ != "keep-alive"@,
        "content-type"@ != "transfer-encoding"@,
        "content-type"@ != "trailer"@,
        "content-type"@ != "content-encoding"@,
        "content-type"@ != "content-length"@,
{
    reveal_strlit("content-type");
    reveal_strlit("connection");
    reveal_strlit("keep-alive");
    reveal_strlit("transfer-encoding");
    reveal_strlit("trailer");
    reveal_strlit("content-encoding");
    reveal_strlit("content-length");
    assert("content-type"@.len() == 12);
    assert("connection"@.len() == 10 && "keep-alive"@.len() == 10);
    assert("transfer-encoding"@.len() == 17 && "trailer"@.len() == 7);
    assert("content-encoding"@.len() == 16 && "content-length"@.len() == 14);
}

/// The origin gets exactly one host, that of the URL, one user agent and one
/// referer, and of the client's other fields only those that are forwarded.
pub proof fn law_upstream_fields(
    client: Map<Seq<char>, Seq<Seq<u8>>>,
    authority: Seq<char>,
    default_ua: Seq<char>,
    default_referer: Seq<char>,
    playlist: bool,
)
    ensures
        ({
            let fields = upstream_fields(client, authority, default_ua, default_referer, playlist);
            &&& fields.contains_key("host"@) && fields["host"@] == seq![value_bytes(authority)]
            &&& fields.contains_key("user-agent"@) && fields["user-agent"@] == seq![
                client_value(client, "user-agent"@, default_ua),
            ]
            &&& fields.contains_key("referer"@) && fields["referer"@] == seq![
                client_value(client, "referer"@, default_referer),
            ]
            &&& fields.dom().subset_of(
                set![
                    "host"@,
                    "user-agent"@,
                    "referer"@,
                    "origin"@,
                    "cookie"@,
                    "authorization"@,
                    "x-forwarded-for"@,
                    "accept"@,
                    "accept-encoding"@,
                ],
            )
        }),
{
    lemma_name_lengths();
}

/// How long the names of the request's fields are.
pub proof fn lemma_name_lengths()
    ensures
        "host"@.len() == 4,
        "user-agent"@.len() == 10,
        "referer"@.len() == 7,
        "origin"@.len() == 6,
        "cookie"@.len() == 6,
        "authorization"@.len() == 13,
        "x-forwarded-for"@.len() == 15,
        "accept"@.len() == 6,
        "accept-encoding"@.len() == 15,
{
    reveal_strlit("host");
    reveal_strlit("user-agent");
    reveal_strlit("referer");
    reveal_strlit("origin");
    reveal_strlit("cookie");
    reveal_strlit("authorization");
    reveal_strlit("x-forwarded-for");
    reveal_strlit("accept");
    reveal_strlit("accept-encoding");
}

/// A URL whose host is written as an address that cannot be reached from
/// everywhere (private, loopback, link-local, unspecified, multicast, reserved)
/// is refused, unless private addresses are allowed.
pub proof fn law_private_address_refused(
    state: AppState,
    target: TargetView,
    edited: Option<TargetView>,
    client: Map<Seq<char>, Seq<Seq<u8>>>,
    a: u8,
    b: u8,
    c: u8,
    d: u8,
)
    requires
        !state.allow_private,
        !is_global(IpAddr::V4(a, b, c, d)),
        target.host == Some(dotted(a, b, c, d)),
    ensures
        target_plan(state, Some(target), edited, client) == PlanView::Answer(
            error_reply(403, "Forbidden"@),
        ),
{
    lemma_dotted_host(a, b, c, d);
}

/// Where a list of hosts is set, a URL of any other host is refused.
pub proof fn law_unlisted_host_refused(
    state: AppState,
    target: TargetView,
    edited: Option<TargetView>,
    client: Map<Seq<char>, Seq<Seq<u8>>>,
)
    requires
        is_host_name(host_text(target)),
        listed_hosts(state) is Some,
        !is_listed(small(host_text(target)), listed_hosts(state)->0),
    ensures
        target_plan(state, Some(target), edited, client) == PlanView::Answer(
            error_reply(403, "Forbidden"@),
        ),
{
}

/// A URL of a host without a dot, or with one at its end, is a bad request.
pub proof fn law_bare_host_refused(
    state: AppState,
    target: TargetView,
    edited: Option<TargetView>,
    client: Map<Seq<char>, Seq<Seq<u8>>>,
)
    requires
        !is_host_name(host_text(target)),
    ensures
        target_plan(state, Some(target), edited, client) == PlanView::Answer(
            error_reply(400, "Bad Request"@),
        ),
{
}

/// Where no list is set, every named host is asked, and every address that can
/// be reached from everywhere.
pub proof fn law_open_without_list(state: AppState, target: TargetView)
    requires
        listed_hosts(state) is None,
        is_host_name(host_text(target)),
        is_literal_allowed(state.allow_private, host_text(target)),
    ensures
        is_admitted(state, target),
{
}

/// What the proxy asks for is a named host; one that is written as an address
/// can be reached from everywhere, unless private ones are allowed; and where
/// a list is set, the host is on it.
pub proof fn law_admitted_is_safe(state: AppState, target: TargetView)
    requires
        is_admitted(state, target),
    ensures
        is_host_name(host_text(target)),
        forall|a: u8, b: u8, c: u8, d: u8|
            host_text(target) == #[trigger] dotted(a, b, c, d) ==> state.allow_private || is_global(
                IpAddr::V4(a, b, c, d),
            ),
        listed_hosts(state) matches Some(list) ==> is_listed(small(host_text(target)), list),
{
}

/// A host on the list is listed, and so is every host below it.
pub proof fn law_hosts_below_are_listed(list: Seq<Seq<char>>, i: int, sub: Seq<char>)
    requires
        0 <= i < list.len(),
    ensures
        is_listed(list[i], list),
        is_listed(sub + seq!['.'] + list[i], list),
{
    let host = sub + seq!['.'] + list[i];
    let below = seq!['.'] + list[i];
    assert(is_within(list[i], list[i]));
    assert(host.subrange(host.len() - below.len(), host.len() as int) =~= below);
    assert(is_within(host, list[i]));
}

/// The host that always may be asked for is on every list.
pub proof fn law_usual_host_listed(value: Seq<char>)
    ensures
        host_list(Some(value)) matches Some(list) && is_listed("surrit.com"@, list),
{
    let list = host_list(Some(value))->0;
    assert(list[0] == "surrit.com"@);
    assert(is_within("surrit.com"@, list[0]));
}

} // verus!
