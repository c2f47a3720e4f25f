//! Text operations on characters.
//!
//! The text of a `&str` or a `String` is its sequence of characters. The
//! functions here read a text as a slice of characters.
use vstd::prelude::*;
use vstd::slice::slice_subrange;

verus! {

/// `String::push` puts one character behind the text.
pub assume_specification[ String::push ](text: &mut String, c: char)
    ensures
        final(text)@ == old(text)@.push(c),
;

/// The view of an optional text.
pub open spec fn opt_text(t: Option<String>) -> Option<Seq<char>> {
    match t {
        Some(s) => Some(s@),
        None => None,
    }
}

/// The texts of a list.
pub open spec fn texts(list: Seq<String>) -> Seq<Seq<char>> {
    list.map_values(|s: String| s@)
}

/// `pat` stands in `s` at position `i`.
pub open spec fn occurs_at(s: Seq<char>, pat: Seq<char>, i: int) -> bool {
    0 <= i && i + pat.len() <= s.len() && s.subrange(i, i + pat.len()) == pat
}

/// `pat` stands somewhere in `s`.
pub open spec fn has_text(s: Seq<char>, pat: Seq<char>) -> bool {
    exists|i: int| #[trigger] occurs_at(s, pat, i)
}

/// The position of the first `c` in `s`, or the length of `s` where it holds none.
pub open spec fn position<T>(s: Seq<T>, c: T) -> nat
    decreases s.len(),
{
    if s.len() == 0 || s[0] == c {
        0
    } else {
        1 + position(s.drop_first(), c)
    }
}

/// The pieces of `s` between the characters `c`.
pub open spec fn split(s: Seq<char>, c: char) -> Seq<Seq<char>>
    decreases s.len(),
{
    let p = position(s, c) as int;
    if p >= s.len() {
        seq![s]
    } else {
        seq![s.take(p)] + split(s.skip(p + 1), c)
    }
}

/// `s` without one carriage return at its end.
pub open spec fn strip_cr(s: Seq<char>) -> Seq<char> {
    if s.len() > 0 && s.last() == '\r' {
        s.drop_last()
    } else {
        s
    }
}

/// The lines of `s`: each ends with a line feed, which may follow a carriage
/// return, and the last one may go without.
pub open spec fn lines(s: Seq<char>) -> Seq<Seq<char>>
    decreases s.len(),
{
    let p = position(s, '\n') as int;
    if s.len() == 0 {
        seq![]
    } else if p >= s.len() {
        seq![s]
    } else {
        seq![strip_cr(s.take(p))] + lines(s.skip(p + 1))
    }
}

/// `s` with `to` in place of each `from`, searched from the left.
pub open spec fn replace(s: Seq<char>, from: Seq<char>, to: Seq<char>) -> Seq<char>
    decreases s.len(),
{
    if from.len() == 0 || s.len() == 0 {
        s
    } else if from.is_prefix_of(s) {
        to + replace(s.skip(from.len() as int), from, to)
    } else {
        seq![s[0]] + replace(s.drop_first(), from, to)
    }
}

/// The character is white space, after Unicode.
pub open spec fn is_white(c: char) -> bool {
    ||| '\u{9}' <= c <= '\u{d}'
    ||| c == ' '
    ||| c == '\u{85}'
    ||| c == '\u{a0}'
    ||| c == '\u{1680}'
    ||| '\u{2000}' <= c <= '\u{200a}'
    ||| c == '\u{2028}'
    ||| c == '\u{2029}'
    ||| c == '\u{202f}'
    ||| c == '\u{205f}'
    ||| c == '\u{3000}'
}

/// `s` without the white space at its beginning.
pub open spec fn trim_start(s: Seq<char>) -> Seq<char>
    decreases s.len(),
{
    if s.len() > 0 && is_white(s[0]) {
        trim_start(s.drop_first())
    } else {
        s
    }
}

/// `s` without the white space at its end.
pub open spec fn trim_end(s: Seq<char>) -> Seq<char>
    decreases s.len(),
{
    if s.len() > 0 && is_white(s.last()) {
        trim_end(s.drop_last())
    } else {
        s
    }
}

/// `s` without the white space at both its ends.
pub open spec fn trim(s: Seq<char>) -> Seq<char> {
    trim_end(trim_start(s))
}

/// The pieces of `s` between the texts `pat`, searched from the left.
pub open spec fn split_by(s: Seq<char>, pat: Seq<char>) -> Seq<Seq<char>>
    decreases s.len(),
{
    let p = find_text(s, pat) as int;
    if pat.len() == 0 || p + pat.len() > s.len() {
        seq![s]
    } else {
        seq![s.take(p)] + split_by(s.skip(p + pat.len()), pat)
    }
}

/// The first position at which `pat` stands in `s`, or the length of `s`.
pub open spec fn find_text(s: Seq<char>, pat: Seq<char>) -> nat
    decreases s.len(),
{
    if s.len() == 0 || pat.is_prefix_of(s) {
        0
    } else {
        1 + find_text(s.drop_first(), pat)
    }
}

/// The small ASCII letter of a capital one; every other character itself.
pub open spec fn lower_char(c: char) -> char {
    if 'A' <= c <= 'Z' {
        ((c as u8) + 32) as char
    } else {
        c
    }
}

/// `s` with its ASCII letters small.
pub open spec fn ascii_lower(s: Seq<char>) -> Seq<char> {
    s.map_values(|c: char| lower_char(c))
}

/// `s` with its letters small, after the rules of Unicode.
pub uninterp spec fn lowercased(s: Seq<char>) -> Seq<char>;

/// `str::to_lowercase` makes the letters of a text small; of an ASCII text,
/// the ASCII letters.
#[verifier::external_body]
fn to_lowercase(s: &str) -> (r: String)
    ensures
        r@ == lowercased(s@),
        vstd::utf8::is_ascii_chars(s@) ==> r@ == ascii_lower(s@),
{
    s.to_lowercase()
}

/// `s` with its letters small: the ASCII letters of an ASCII text, else after
/// the rules of Unicode.
pub open spec fn small(s: Seq<char>) -> Seq<char> {
    if vstd::utf8::is_ascii_chars(s) {
        ascii_lower(s)
    } else {
        lowercased(s)
    }
}

/// The decimal digits of `n`.
pub open spec fn decimal(n: nat) -> Seq<char>
    decreases n,
{
    if n < 10 {
        seq![digit_char(n)]
    } else {
        decimal(n / 10).push(digit_char(n % 10))
    }
}

/// The digit character of `d`.
pub open spec fn digit_char(d: nat) -> char {
    (('0' as u8) + d) as char
}

/// The position of the first `c` is within `s`, nothing before it is `c`, and
/// it is the only position of that kind.
pub proof fn lemma_position<T>(s: Seq<T>, c: T)
    ensures
        position(s, c) <= s.len(),
        position(s, c) < s.len() ==> s[position(s, c) as int] == c,
        forall|i: int| 0 <= i < position(s, c) ==> s[i] != c,
    decreases s.len(),
{
    if s.len() > 0 && s[0] != c {
        lemma_position(s.drop_first(), c);
        assert forall|i: int| 0 <= i < position(s, c) implies s[i] != c by {
            if i > 0 {
                assert(s[i] == s.drop_first()[i - 1]);
            }
        }
    }
}

/// A position before which nothing is `c`, and where `c` or the end stands, is
/// the first position of `c`.
pub proof fn lemma_position_is<T>(s: Seq<T>, c: T, k: int)
    requires
        0 <= k <= s.len(),
        k < s.len() ==> s[k] == c,
        forall|i: int| 0 <= i < k ==> s[i] != c,
    ensures
        position(s, c) == k,
{
    lemma_position(s, c);
    let p = position(s, c) as int;
    if p < k {
        assert(s[p] != c);
    } else if k < p {
        assert(s[k] != c);
    }
}

/// A text in front of the first `c` is the first piece, and what follows `c`
/// gives the other pieces.
pub proof fn lemma_split_head(head: Seq<char>, rest: Seq<char>, c: char)
    requires
        !head.contains(c),
    ensures
        split(head.push(c) + rest, c) == seq![head] + split(rest, c),
{
    let s = head.push(c) + rest;
    assert forall|i: int| 0 <= i < head.len() implies s[i] != c by {
        assert(s[i] == head[i]);
        assert(head.contains(head[i]));
    }
    assert(s[head.len() as int] == c);
    lemma_position_is(s, c, head.len() as int);
    assert(s.take(head.len() as int) =~= head);
    assert(s.skip(head.len() + 1int) =~= rest);
}

/// A text without `c` is its only piece.
pub proof fn lemma_split_one(s: Seq<char>, c: char)
    requires
        !s.contains(c),
    ensures
        split(s, c) == seq![s],
{
    assert forall|i: int| 0 <= i < s.len() implies s[i] != c by {
        assert(s.contains(s[i]));
    }
    lemma_position_is(s, c, s.len() as int);
}

/// The characters of a text.
pub fn chars_of(s: &str) -> (r: Vec<char>)
    ensures
        r@ == s@,
{
    let mut out: Vec<char> = Vec::new();
    for c in it: s.chars()
        invariant
            out@ == s@.take(it.index() as int),
            it.seq() == s@,
    {
        out.push(c);
    }
    out
}

/// Puts characters behind a text.
pub fn push_chars(out: &mut String, s: &[char])
    ensures
        final(out)@ == old(out)@ + s@,
{
    let ghost before = out@;
    let n: usize = s.len();
    for i in 0..n
        invariant
            n == s@.len(),
            out@ == before + s@.take(i as int),
    {
        out.push(s[i]);
        assert(s@.take(i as int).push(s@[i as int]) =~= s@.take(i + 1));
    }
    assert(s@.take(n as int) =~= s@);
}

/// The text of a slice of characters.
pub fn text_of(s: &[char]) -> (r: String)
    ensures
        r@ == s@,
{
    let mut out = String::new();
    push_chars(&mut out, s);
    out
}

/// Whether `pat` stands in `s` at `at`.
pub fn stands_at(s: &[char], pat: &str, at: usize) -> (r: bool)
    requires
        at <= s@.len(),
    ensures
        r == occurs_at(s@, pat@, at as int),
{
    let n: usize = s.len();
    let mut i: usize = at;
    for c in it: pat.chars()
        invariant
            n == s@.len(),
            it.seq() == pat@,
            at <= i <= n,
            i == at + it.index(),
            s@.subrange(at as int, i as int) == pat@.take(it.index() as int),
    {
        let ghost k = it.index() as int;
        if i == n {
            return false;
        }
        if s[i] != c {
            proof {
                if occurs_at(s@, pat@, at as int) {
                    assert(s@.subrange(at as int, at + pat@.len())[k] == pat@[k]);
                }
            }
            return false;
        }
        i = i + 1;
        assert(s@.subrange(at as int, i as int) =~= s@.subrange(at as int, i - 1).push(s@[i - 1]));
        assert(pat@.take(k + 1) =~= pat@.take(k).push(pat@[k]));
    }
    assert(pat@.take(pat@.len() as int) =~= pat@);
    true
}

/// Whether `s` begins with `pat`.
pub fn starts_with(s: &[char], pat: &str) -> (r: bool)
    ensures
        r == pat@.is_prefix_of(s@),
{
    stands_at(s, pat, 0)
}

/// Whether `s` ends with `pat`.
pub fn ends_with(s: &[char], pat: &[char]) -> (r: bool)
    ensures
        r == pat@.is_suffix_of(s@),
{
    let n: usize = s.len();
    let m: usize = pat.len();
    if m > n {
        return false;
    }
    let k: usize = n - m;
    for i in 0..m
        invariant
            n == s@.len(),
            m == pat@.len(),
            k + m == n,
            forall|j: int| 0 <= j < i ==> s@[k + j] == pat@[j],
    {
        if s[k + i] != pat[i] {
            assert(s@.subrange(s@.len() - pat@.len(), s@.len() as int)[i as int] != pat@[i as int]);
            return false;
        }
    }
    assert(pat@ =~= s@.subrange(s@.len() - pat@.len(), s@.len() as int));
    true
}

/// Whether `s` ends with the text `pat`.
pub fn ends_with_text(s: &[char], pat: &str) -> (r: bool)
    ensures
        r == pat@.is_suffix_of(s@),
{
    let pat = chars_of(pat);
    ends_with(s, pat.as_slice())
}

/// Whether two texts are the same.
pub fn same_text(s: &[char], t: &str) -> (r: bool)
    ensures
        r == (s@ == t@),
{
    let t = chars_of(t);
    if s.len() != t.len() {
        return false;
    }
    let r = ends_with(s, t.as_slice());
    assert(s@.subrange(0, s@.len() as int) =~= s@);
    r
}

/// Whether `pat` stands somewhere in `s`.
pub fn contains_text(s: &[char], pat: &str) -> (r: bool)
    ensures
        r == has_text(s@, pat@),
{
    let n: usize = s.len();
    let mut i: usize = 0;
    while i < n
        invariant
            n == s@.len(),
            i <= n,
            forall|j: int| 0 <= j < i ==> !#[trigger] occurs_at(s@, pat@, j),
        decreases n - i,
    {
        if stands_at(s, pat, i) {
            return true;
        }
        i = i + 1;
    }
    stands_at(s, pat, n)
}

/// The position of the first `c`, or the length of `s`.
pub fn find_char(s: &[char], c: char) -> (p: usize)
    ensures
        p == position(s@, c),
        p <= s@.len(),
{
    let n: usize = s.len();
    let mut i: usize = 0;
    while i < n && s[i] != c
        invariant
            n == s@.len(),
            i <= n,
            forall|j: int| 0 <= j < i ==> s@[j] != c,
        decreases n - i,
    {
        i = i + 1;
    }
    proof {
        lemma_position_is(s@, c, i as int);
    }
    i
}

/// The pieces of `s` between the characters `c`.
pub fn split_chars<'a>(s: &'a [char], c: char) -> (pieces: Vec<&'a [char]>)
    ensures
        pieces@.len() == split(s@, c).len(),
        forall|i: int| 0 <= i < pieces@.len() ==> (#[trigger] pieces@[i])@ == split(s@, c)[i],
{
    let n: usize = s.len();
    let mut pieces: Vec<&'a [char]> = Vec::new();
    let mut start: usize = 0;
    assert(s@.skip(0) =~= s@);
    loop
        invariant
            n == s@.len(),
            start <= n,
            pieces@.len() + split(s@.skip(start as int), c).len() == split(s@, c).len(),
            forall|i: int| 0 <= i < pieces@.len() ==> (#[trigger] pieces@[i])@ == split(s@, c)[i],
            forall|i: int|
                0 <= i < split(s@.skip(start as int), c).len() ==> #[trigger] split(
                    s@.skip(start as int),
                    c,
                )[i] == split(s@, c)[pieces@.len() + i],
        decreases n - start,
    {
        let rest = slice_subrange(s, start, n);
        let ghost tail = s@.skip(start as int);
        assert(rest@ =~= tail);
        proof {
            lemma_position(tail, c);
        }
        let p: usize = find_char(rest, c);
        if p >= n - start {
            let ghost before = pieces@;
            pieces.push(rest);
            proof {
                assert(split(tail, c) =~= seq![tail]);
                assert(split(tail, c)[0] == split(s@, c)[before.len() + 0int]);
            }
            return pieces;
        }
        let piece = slice_subrange(s, start, start + p);
        let ghost before = pieces@;
        assert(piece@ =~= tail.take(p as int));
        pieces.push(piece);
        start = start + p + 1;
        proof {
            let next = s@.skip(start as int);
            assert(tail.skip(p + 1) =~= next);
            assert(split(tail, c) == seq![tail.take(p as int)] + split(next, c));
            assert(split(tail, c)[0] == split(s@, c)[before.len() + 0int]);
            assert forall|i: int| 0 <= i < split(next, c).len() implies #[trigger] split(next, c)[i]
                == split(s@, c)[pieces@.len() + i] by {
                assert(split(tail, c)[i + 1] == split(s@, c)[before.len() + (i + 1)]);
            }
        }
    }
}

/// `s` with `to` in place of each `from`, searched from the left.
pub fn replace_text(s: &[char], from: &str, to: &str) -> (r: String)
    requires
        from@.len() > 0,
    ensures
        r@ == replace(s@, from@, to@),
{
    let n: usize = s.len();
    let m: usize = chars_of(from).len();
    let mut out = String::new();
    let mut i: usize = 0;
    assert(s@.skip(0) =~= s@);
    while i < n
        invariant
            n == s@.len(),
            m == from@.len(),
            m > 0,
            i <= n,
            out@ + replace(s@.skip(i as int), from@, to@) == replace(s@, from@, to@),
        decreases n - i,
    {
        let ghost rest = s@.skip(i as int);
        let ghost before = out@;
        if stands_at(s, from, i) {
            proof {
                assert(rest.subrange(0, from@.len() as int) =~= s@.subrange(
                    i as int,
                    i + from@.len(),
                ));
                assert(rest.skip(m as int) =~= s@.skip(i + m));
            }
            out.append(to);
            i = i + m;
            assert(before + (to@ + replace(s@.skip(i as int), from@, to@)) =~= out@ + replace(
                s@.skip(i as int),
                from@,
                to@,
            ));
        } else {
            proof {
                if from@.is_prefix_of(rest) {
                    assert(s@.subrange(i as int, i + from@.len()) =~= rest.subrange(
                        0,
                        from@.len() as int,
                    ));
                }
                assert(rest.drop_first() =~= s@.skip(i + 1));
            }
            out.push(s[i]);
            i = i + 1;
            assert(before + (seq![rest[0]] + replace(s@.skip(i as int), from@, to@)) =~= out@
                + replace(s@.skip(i as int), from@, to@));
        }
    }
    assert(s@.skip(i as int) =~= Seq::<char>::empty());
    assert(out@ + Seq::<char>::empty() =~= out@);
    out
}

/// `s` with its ASCII letters small.
pub fn to_ascii_lower(s: &[char]) -> (r: Vec<char>)
    ensures
        r@ == ascii_lower(s@),
{
    let n: usize = s.len();
    let mut out: Vec<char> = Vec::new();
    for i in 0..n
        invariant
            n == s@.len(),
            out@ == ascii_lower(s@.take(i as int)),
    {
        let c = s[i];
        let low = if 'A' <= c && c <= 'Z' {
            ((c as u8) + 32) as char
        } else {
            c
        };
        out.push(low);
        assert(ascii_lower(s@.take(i + 1)) =~= ascii_lower(s@.take(i as int)).push(lower_char(c)));
    }
    assert(s@.take(n as int) =~= s@);
    out
}

/// `s` with its letters small.
pub fn to_small(s: &str) -> (r: String)
    ensures
        r@ == small(s@),
{
    to_lowercase(s)
}

/// Whether a character is white space.
fn is_white_char(c: char) -> (r: bool)
    ensures
        r == is_white(c),
{
    ('\u{9}' <= c && c <= '\u{d}') || c == ' ' || c == '\u{85}' || c == '\u{a0}' || c == '\u{1680}'
        || ('\u{2000}' <= c && c <= '\u{200a}') || c == '\u{2028}' || c == '\u{2029}' || c
        == '\u{202f}' || c == '\u{205f}' || c == '\u{3000}'
}

/// `s` without the white space at both its ends.
pub fn trim_chars<'a>(s: &'a [char]) -> (r: &'a [char])
    ensures
        r@ == trim(s@),
{
    let n: usize = s.len();
    let mut i: usize = 0;
    assert(s@.skip(0) =~= s@);
    while i < n && is_white_char(s[i])
        invariant
            n == s@.len(),
            i <= n,
            trim_start(s@) == trim_start(s@.skip(i as int)),
        decreases n - i,
    {
        assert(s@.skip(i as int).drop_first() =~= s@.skip(i + 1));
        i = i + 1;
    }
    let ghost rest = s@.skip(i as int);
    let mut j: usize = n;
    assert(s@.subrange(i as int, n as int) =~= rest);
    while j > i && is_white_char(s[j - 1])
        invariant
            n == s@.len(),
            i <= j <= n,
            trim_end(rest) == trim_end(s@.subrange(i as int, j as int)),
        decreases j,
    {
        assert(s@.subrange(i as int, j as int).drop_last() =~= s@.subrange(i as int, j - 1));
        j = j - 1;
    }
    slice_subrange(s, i, j)
}

/// The first position at which `pat` stands in `s`, or the length of `s`.
pub fn find_str(s: &[char], pat: &str) -> (p: usize)
    ensures
        p == find_text(s@, pat@),
        p <= s@.len(),
{
    let n: usize = s.len();
    let mut i: usize = 0;
    assert(s@.skip(0) =~= s@);
    while i < n
        invariant
            n == s@.len(),
            i <= n,
            find_text(s@, pat@) == i + find_text(s@.skip(i as int), pat@),
        decreases n - i,
    {
        let ghost rest = s@.skip(i as int);
        let here = stands_at(s, pat, i);
        proof {
            if here {
                assert(rest.subrange(0, pat@.len() as int) =~= s@.subrange(i as int, i + pat@.len()));
            } else if pat@.is_prefix_of(rest) {
                assert(s@.subrange(i as int, i + pat@.len()) =~= rest.subrange(0, pat@.len() as int));
            }
            assert(rest.drop_first() =~= s@.skip(i + 1));
        }
        if here {
            return i;
        }
        i = i + 1;
    }
    n
}

/// Puts the decimal digits of `n` behind a text.
pub fn push_decimal(out: &mut String, n: u16)
    ensures
        final(out)@ == old(out)@ + decimal(n as nat),
    decreases n,
{
    if n >= 10 {
        push_decimal(out, n / 10);
    }
    let ghost before = out@;
    let d: u8 = (n % 10) as u8;
    out.push((48u8 + d) as char);
    proof {
        if n >= 10 {
            assert(old(out)@ + decimal((n / 10) as nat).push(digit_char((n % 10) as nat)) =~= out@);
        } else {
            assert(old(out)@ + seq![digit_char(n as nat)] =~= out@);
        }
    }
}

} // verus!
