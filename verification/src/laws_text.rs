//! What the operations on text do, told from the parts of a text.
use vstd::prelude::*;
use vstd::utf8::*;

use crate::text::{
    ascii_lower, decimal, find_text, has_text, is_white, lemma_position_is, lemma_split_head,
    lemma_split_one, lines, lowercased, occurs_at, position, replace, small, split, split_by, trim,
    trim_end, trim_start,
};

verus! {

/// No part of `s` is `pat`.
pub open spec fn lacks(s: Seq<char>, pat: Seq<char>) -> bool {
    forall|i: int|
        0 <= i && i + pat.len() <= s.len() ==> #[trigger] s.subrange(i, i + pat.len()) != pat
}

/// A text holds another one exactly where it is that one with something before
/// and something behind it.
pub proof fn law_has_text(s: Seq<char>, pat: Seq<char>, x: Seq<char>, y: Seq<char>)
    ensures
        has_text(x + pat + y, pat),
        has_text(s, pat) <==> !lacks(s, pat),
{
    let t = x + pat + y;
    assert(t.subrange(x.len() as int, x.len() as int + pat.len()) =~= pat);
    assert(occurs_at(t, pat, x.len() as int));
    if has_text(s, pat) {
        let i = choose|i: int| #[trigger] occurs_at(s, pat, i);
        assert(s.subrange(i, i + pat.len()) == pat);
    }
    if !lacks(s, pat) {
        let i = choose|i: int|
            0 <= i && i + pat.len() <= s.len() && #[trigger] s.subrange(i, i + pat.len()) == pat;
        assert(occurs_at(s, pat, i));
    }
}

/// A text stands at a place of another one where it is the part that begins
/// there.
pub proof fn law_occurs_at(s: Seq<char>, pat: Seq<char>, i: int)
    ensures
        occurs_at(s, pat, i) <==> 0 <= i && i + pat.len() <= s.len() && s.subrange(
            i,
            i + pat.len(),
        ) == pat,
{
}

/// The first place of something is behind all that is something else; where it
/// does not occur, that is the end.
pub proof fn law_position<T>(before: Seq<T>, c: T, after: Seq<T>)
    requires
        !before.contains(c),
    ensures
        position(before, c) == before.len(),
        position(before + seq![c] + after, c) == before.len(),
{
    assert forall|i: int| 0 <= i < before.len() implies before[i] != c by {
        assert(before.contains(before[i]));
    }
    lemma_position_is(before, c, before.len() as int);
    let all = before + seq![c] + after;
    assert forall|i: int| 0 <= i < before.len() implies all[i] != c by {
        assert(before.contains(before[i]));
    }
    lemma_position_is(all, c, before.len() as int);
}

/// A text without line feeds is its only line, and an empty one has none.
pub proof fn law_last_line(s: Seq<char>)
    requires
        !s.contains('\n'),
    ensures
        s.len() > 0 ==> lines(s) == seq![s],
        s.len() == 0 ==> lines(s) == Seq::<Seq<char>>::empty(),
{
    assert forall|i: int| 0 <= i < s.len() implies s[i] != '\n' by {
        assert(s.contains(s[i]));
    }
    lemma_position_is(s, '\n', s.len() as int);
}

/// Up to the first line feed a text is its first line, without a carriage
/// return that stands before the line feed; the other lines are those of the
/// rest.
pub proof fn law_first_line(s: Seq<char>, rest: Seq<char>)
    requires
        !s.contains('\n'),
    ensures
        lines(s + seq!['\r', '\n'] + rest) == seq![s] + lines(rest),
        s.len() == 0 || s.last() != '\r' ==> lines(s + seq!['\n'] + rest) == seq![s] + lines(rest),
{
    assert forall|i: int| 0 <= i < s.len() implies s[i] != '\n' by {
        assert(s.contains(s[i]));
    }
    let n = s.len() as int;
    let t = s + seq!['\r', '\n'] + rest;
    lemma_position_is(t, '\n', n + 1);
    assert(t.take(n + 1) =~= s.push('\r'));
    assert(t.take(n + 1).drop_last() =~= s);
    assert(t.skip(n + 2) =~= rest);
    let u = s + seq!['\n'] + rest;
    lemma_position_is(u, '\n', n);
    assert(u.take(n) =~= s);
    assert(u.skip(n + 1) =~= rest);
}

/// A text without `c` is its only piece; up to the first `c` it is its first
/// piece, and the others are those of the rest.
pub proof fn law_split(s: Seq<char>, rest: Seq<char>, c: char)
    requires
        !s.contains(c),
    ensures
        split(s, c) == seq![s],
        split(s + seq![c] + rest, c) == seq![s] + split(rest, c),
{
    lemma_split_one(s, c);
    lemma_split_head(s, rest, c);
    assert(s + seq![c] + rest =~= s.push(c) + rest);
}

/// Replacing leaves a text that does not hold what is replaced.
pub proof fn law_replace_nothing(s: Seq<char>, from: Seq<char>, to: Seq<char>)
    requires
        lacks(s, from),
        from.len() > 0,
    ensures
        replace(s, from, to) == s,
    decreases s.len(),
{
    if s.len() > 0 {
        if from.is_prefix_of(s) {
            assert(s.subrange(0, 0 + from.len() as int) == from);
        }
        let rest = s.drop_first();
        assert forall|i: int| 0 <= i && i + from.len() <= rest.len() implies #[trigger] rest.subrange(
            i,
            i + from.len(),
        ) != from by {
            assert(rest.subrange(i, i + from.len()) =~= s.subrange(i + 1, i + 1 + from.len()));
        }
        law_replace_nothing(rest, from, to);
        assert(seq![s[0]] + rest =~= s);
    }
}

/// The first place of what is replaced gets the new text, and the rest is
/// replaced on its own.
pub proof fn law_replace_first(s: Seq<char>, rest: Seq<char>, from: Seq<char>, to: Seq<char>)
    requires
        from.len() > 0,
        lacks(s + from.drop_last(), from),
    ensures
        replace(s + from + rest, from, to) == s + to + replace(rest, from, to),
    decreases s.len(),
{
    let all = s + from + rest;
    let short = s + from.drop_last();
    if s.len() == 0 {
        assert(all.subrange(0, from.len() as int) =~= from);
        assert(all.skip(from.len() as int) =~= rest);
        assert(s + to + replace(rest, from, to) =~= to + replace(rest, from, to));
    } else {
        if from.is_prefix_of(all) {
            assert(short.subrange(0, 0 + from.len() as int) =~= all.subrange(0, from.len() as int));
        }
        let tail = s.drop_first();
        let next = tail + from.drop_last();
        assert(all.drop_first() =~= tail + from + rest);
        assert forall|i: int| 0 <= i && i + from.len() <= next.len() implies #[trigger] next.subrange(
            i,
            i + from.len(),
        ) != from by {
            assert(next.subrange(i, i + from.len()) =~= short.subrange(i + 1, i + 1 + from.len()));
        }
        law_replace_first(tail, rest, from, to);
        assert(seq![s[0]] + (tail + to + replace(rest, from, to)) =~= s + to + replace(
            rest,
            from,
            to,
        ));
    }
}

/// Of a text in which `pat` first stands behind `s`, the pieces between the
/// texts `pat` are `s` and those of the rest; one without `pat` is its only
/// piece.
pub proof fn law_split_by(s: Seq<char>, rest: Seq<char>, pat: Seq<char>)
    requires
        pat.len() > 0,
        lacks(s + pat.drop_last(), pat),
    ensures
        split_by(s, pat) == seq![s],
        split_by(s + pat + rest, pat) == seq![s] + split_by(rest, pat),
{
    let all = s + pat + rest;
    law_find_text(s, rest, pat);
    lemma_find_none(s, pat.drop_last(), pat);
    assert(all.take(s.len() as int) =~= s);
    assert(all.skip(s.len() + pat.len() as int) =~= rest);
}

/// A text is found behind all that does not hold it.
pub proof fn law_find_text(s: Seq<char>, rest: Seq<char>, pat: Seq<char>)
    requires
        pat.len() > 0,
        lacks(s + pat.drop_last(), pat),
    ensures
        find_text(s + pat + rest, pat) == s.len(),
    decreases s.len(),
{
    let all = s + pat + rest;
    let short = s + pat.drop_last();
    if s.len() == 0 {
        assert(all.subrange(0, pat.len() as int) =~= pat);
    } else {
        if pat.is_prefix_of(all) {
            assert(short.subrange(0, 0 + pat.len() as int) =~= all.subrange(0, pat.len() as int));
        }
        let tail = s.drop_first();
        let next = tail + pat.drop_last();
        assert forall|i: int| 0 <= i && i + pat.len() <= next.len() implies #[trigger] next.subrange(
            i,
            i + pat.len(),
        ) != pat by {
            assert(next.subrange(i, i + pat.len()) =~= short.subrange(i + 1, i + 1 + pat.len()));
        }
        law_find_text(tail, rest, pat);
        assert(all.drop_first() =~= tail + pat + rest);
    }
}

/// A text that `pat` does not stand in has no place of it.
proof fn lemma_find_none(s: Seq<char>, more: Seq<char>, pat: Seq<char>)
    requires
        pat.len() > 0,
        lacks(s + more, pat),
    ensures
        find_text(s, pat) == s.len(),
    decreases s.len(),
{
    if s.len() > 0 {
        let all = s + more;
        if pat.is_prefix_of(s) {
            assert(all.subrange(0, 0 + pat.len() as int) =~= s.subrange(0, pat.len() as int));
        }
        let tail = s.drop_first();
        let next = tail + more;
        assert forall|i: int| 0 <= i && i + pat.len() <= next.len() implies #[trigger] next.subrange(
            i,
            i + pat.len(),
        ) != pat by {
            assert(next.subrange(i, i + pat.len()) =~= all.subrange(i + 1, i + 1 + pat.len()));
        }
        lemma_find_none(tail, more, pat);
    }
}

/// The character is white space: a control character from tab to carriage
/// return, a space, or one of the others of Unicode.
pub proof fn law_white_space(c: char)
    ensures
        is_white(c) <==> {
            let n = c as u32;
            9 <= n <= 13 || n == 32 || n == 133 || n == 160 || n == 5760 || 8192 <= n <= 8202 || n
                == 8232 || n == 8233 || n == 8239 || n == 8287 || n == 12288
        },
{
}

/// A text between white space is what trimming leaves.
pub proof fn law_trim(before: Seq<char>, s: Seq<char>, after: Seq<char>)
    requires
        forall|i: int| 0 <= i < before.len() ==> is_white(#[trigger] before[i]),
        forall|i: int| 0 <= i < after.len() ==> is_white(#[trigger] after[i]),
        s.len() > 0 ==> !is_white(s[0]) && !is_white(s.last()),
    ensures
        trim(before + s + after) == s,
{
    lemma_trim_start(before, s + after);
    assert(before + s + after =~= before + (s + after));
    if s.len() == 0 {
        assert(s + after =~= after + Seq::<char>::empty());
        lemma_trim_start(after, Seq::<char>::empty());
        assert(trim_start(s + after) =~= s);
    } else {
        assert((s + after)[0] == s[0]);
        lemma_trim_end(s, after);
    }
}

/// White space at the beginning goes.
proof fn lemma_trim_start(before: Seq<char>, s: Seq<char>)
    requires
        forall|i: int| 0 <= i < before.len() ==> is_white(#[trigger] before[i]),
    ensures
        trim_start(before + s) == trim_start(s),
    decreases before.len(),
{
    if before.len() == 0 {
        assert(before + s =~= s);
    } else {
        let rest = before.drop_first();
        assert((before + s)[0] == before[0]);
        assert((before + s).drop_first() =~= rest + s);
        assert forall|i: int| 0 <= i < rest.len() implies is_white(#[trigger] rest[i]) by {
            assert(rest[i] == before[i + 1]);
        }
        lemma_trim_start(rest, s);
    }
}

/// White space at the end goes.
proof fn lemma_trim_end(s: Seq<char>, after: Seq<char>)
    requires
        s.len() > 0,
        !is_white(s.last()),
        forall|i: int| 0 <= i < after.len() ==> is_white(#[trigger] after[i]),
    ensures
        trim_end(s + after) == s,
    decreases after.len(),
{
    if after.len() == 0 {
        assert(s + after =~= s);
    } else {
        let rest = after.drop_last();
        assert((s + after).last() == after[after.len() - 1]);
        assert((s + after).drop_last() =~= s + rest);
        lemma_trim_end(s, rest);
    }
}

/// Small letters: each capital ASCII letter becomes the small one, thirty-two
/// further on, and every other character stays.
pub proof fn law_ascii_lower(s: Seq<char>, i: int)
    requires
        0 <= i < s.len(),
    ensures
        ascii_lower(s).len() == s.len(),
        65 <= s[i] as u32 <= 90 ==> ascii_lower(s)[i] as u32 == s[i] as u32 + 32,
        !(65 <= s[i] as u32 <= 90) ==> ascii_lower(s)[i] == s[i],
        is_ascii_chars(s) ==> small(s) == ascii_lower(s),
        !is_ascii_chars(s) ==> small(s) == lowercased(s),
{
}

/// The last decimal digit of a number is its remainder by ten, and the others
/// are those of its tenth.
pub proof fn law_decimal(n: nat)
    ensures
        n < 10 ==> decimal(n) == seq![((48 + n) as u8) as char],
        n >= 10 ==> decimal(n) == decimal(n / 10) + seq![((48 + n % 10) as u8) as char],
{
    assert(n >= 10 ==> decimal(n) =~= decimal(n / 10) + seq![((48 + n % 10) as u8) as char]);
}

} // verus!
