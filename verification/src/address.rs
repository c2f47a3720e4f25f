//! Network addresses: which of them lie in the open Internet, and which hosts
//! are written as one.
use vstd::prelude::*;

use crate::text::{
    chars_of, decimal, lemma_position, lemma_split_head, lemma_split_one, position, split,
    split_chars,
};

verus! {

/// An IP address: the four numbers of a version 4 address, or the eight
/// segments of a version 6 address.
#[derive(Clone, Copy, Debug)]
pub enum IpAddr {
    V4(u8, u8, u8, u8),
    V6([u16; 8]),
}

/// The address lies in one of the ranges for private networks.
pub open spec fn is_private(a: u8, b: u8, c: u8, d: u8) -> bool {
    ||| a == 10
    ||| a == 172 && 16 <= b <= 31
    ||| a == 192 && b == 168
}

/// The address lies in a range that is reserved: for this network, for the
/// networks of providers, for protocols (but for two addresses that are used
/// everywhere), for documentation, for measurements, or for later use.
pub open spec fn is_reserved(a: u8, b: u8, c: u8, d: u8) -> bool {
    ||| a == 0
    ||| a == 100 && 64 <= b <= 127
    ||| a == 192 && b == 0 && c == 0 && d != 9 && d != 10
    ||| a == 192 && b == 0 && c == 2
    ||| a == 198 && b == 51 && c == 100
    ||| a == 203 && b == 0 && c == 113
    ||| a == 198 && 18 <= b <= 19
    ||| a >= 240
}

/// The address can be reached from everywhere: it is not private, loopback,
/// link-local, unspecified, multicast or reserved; of a version 6 address, it
/// is not private, loopback, link-local, unspecified or multicast.
pub open spec fn is_global(ip: IpAddr) -> bool {
    match ip {
        IpAddr::V4(a, b, c, d) => {
            &&& !is_private(a, b, c, d)
            &&& a != 127
            &&& !(a == 169 && b == 254)
            &&& !(224 <= a <= 239)
            &&& !is_reserved(a, b, c, d)
        },
        IpAddr::V6(s) => {
            let zeros = forall|i: int| 0 <= i < 7 ==> #[trigger] s@[i] == 0;
            &&& !(zeros && s@[7] <= 1)
            &&& !(0xfc00 <= s@[0] <= 0xfdff)
            &&& !(0xfe80 <= s@[0] <= 0xfebf)
            &&& s@[0] < 0xff00
        },
    }
}

/// Whether an address can be reached from everywhere.
pub fn is_global_ip(ip: IpAddr) -> (r: bool)
    ensures
        r == is_global(ip),
{
    match ip {
        IpAddr::V4(a, b, c, d) => {
            let private = a == 10 || (a == 172 && 16 <= b && b <= 31) || (a == 192 && b == 168);
            let loopback = a == 127;
            let link_local = a == 169 && b == 254;
            let multicast = 224 <= a && a <= 239;
            let shared = a == 100 && 64 <= b && b <= 127;
            let protocols = a == 192 && b == 0 && c == 0 && d != 9 && d != 10;
            let documentation = (a == 192 && b == 0 && c == 2) || (a == 198 && b == 51 && c == 100)
                || (a == 203 && b == 0 && c == 113);
            let benchmarks = a == 198 && 18 <= b && b <= 19;
            let reserved = a == 0 || shared || protocols || documentation || benchmarks || a >= 240;
            !private && !loopback && !link_local && !multicast && !reserved
        },
        IpAddr::V6(s) => {
            let zeros = s[0] == 0 && s[1] == 0 && s[2] == 0 && s[3] == 0 && s[4] == 0 && s[5] == 0
                && s[6] == 0;
            let loopback = zeros && s[7] == 1;
            let unspecified = zeros && s[7] == 0;
            let private = 0xfc00 <= s[0] && s[0] <= 0xfdff;
            let link_local = 0xfe80 <= s[0] && s[0] <= 0xfebf;
            let multicast = s[0] >= 0xff00;
            !loopback && !unspecified && !private && !link_local && !multicast
        },
    }
}

/// A version 4 address in decimal numbers with dots between them.
pub open spec fn dotted(a: u8, b: u8, c: u8, d: u8) -> Seq<char> {
    decimal(a as nat).push('.') + decimal(b as nat).push('.')
        + decimal(c as nat).push('.') + decimal(d as nat)
}

/// What the decimal digits of a number up to 255 are.
proof fn lemma_octet(n: u8)
    ensures
        n < 10 ==> decimal(n as nat) == seq![(48 + n) as char],
        10 <= n < 100 ==> decimal(n as nat) == seq![
            (48 + n / 10) as char,
            (48 + n % 10) as char,
        ],
        100 <= n ==> decimal(n as nat) == seq![
            (48 + n / 100) as char,
            (48 + n / 10 % 10) as char,
            (48 + n % 10) as char,
        ],
        !decimal(n as nat).contains('.'),
{
    reveal_with_fuel(decimal, 3);
}

/// `t` is one to three digits, without a zero in front, that make the number `n`.
spec fn octet_shape(t: Seq<char>, n: u8) -> bool {
    &&& 1 <= t.len() <= 3
    &&& forall|i: int| 0 <= i < t.len() ==> '0' <= #[trigger] t[i] <= '9'
    &&& t.len() > 1 ==> t[0] != '0'
    &&& t.len() == 1 ==> n == t[0] as u8 - 48
    &&& t.len() == 2 ==> n == (t[0] as u8 - 48) * 10 + (t[1] as u8 - 48)
    &&& t.len() == 3 ==> n == (t[0] as u8 - 48) * 100 + (t[1] as u8 - 48) * 10 + (t[2] as u8 - 48)
}

/// The number up to 255 that a text writes in decimal digits, without a zero
/// in front.
fn parse_octet(s: &[char]) -> (r: Option<u8>)
    ensures
        r matches Some(n) ==> s@ == decimal(n as nat),
        r is None ==> forall|n: u8| s@ != #[trigger] decimal(n as nat),
{
    proof {
        assert forall|n: u8| octet_shape(#[trigger] decimal(n as nat), n) by {
            lemma_octet(n);
        }
    }
    let len: usize = s.len();
    if len == 0 || len > 3 || (len > 1 && s[0] == '0') {
        return None;
    }
    let mut value: u16 = 0;
    for i in 0..len
        invariant
            len == s@.len(),
            len <= 3,
            forall|n: u8| octet_shape(#[trigger] decimal(n as nat), n),
            forall|j: int| 0 <= j < i ==> '0' <= #[trigger] s@[j] <= '9',
            i == 0 ==> value == 0,
            i == 1 ==> value == s@[0] as u8 - 48,
            i == 2 ==> value == (s@[0] as u8 - 48) * 10 + (s@[1] as u8 - 48),
            i == 3 ==> value == (s@[0] as u8 - 48) * 100 + (s@[1] as u8 - 48) * 10 + (s@[2] as u8
                - 48),
            value <= 999,
    {
        let c = s[i];
        if c < '0' || '9' < c {
            return None;
        }
        assert(value <= 99);
        value = value * 10 + ((c as u8) - 48) as u16;
    }
    if value > 255 {
        return None;
    }
    let n: u8 = value as u8;
    proof {
        lemma_octet(n);
        assert(s@ =~= decimal(n as nat));
    }
    Some(n)
}

/// The pieces of an address in decimal numbers are those numbers.
proof fn lemma_dotted_split(a: u8, b: u8, c: u8, d: u8)
    ensures
        split(dotted(a, b, c, d), '.') == seq![
            decimal(a as nat),
            decimal(b as nat),
            decimal(c as nat),
            decimal(d as nat),
        ],
{
    lemma_octet(a);
    lemma_octet(b);
    lemma_octet(c);
    lemma_octet(d);
    let (ta, tb, tc, td) = (
        decimal(a as nat),
        decimal(b as nat),
        decimal(c as nat),
        decimal(d as nat),
    );
    let r3 = tc.push('.') + td;
    let r2 = tb.push('.') + r3;
    assert(dotted(a, b, c, d) =~= ta.push('.') + r2);
    lemma_split_one(td, '.');
    lemma_split_head(tc, td, '.');
    lemma_split_head(tb, r3, '.');
    lemma_split_head(ta, r2, '.');
    assert(split(dotted(a, b, c, d), '.') =~= seq![ta, tb, tc, td]);
}

/// An address in decimal numbers has a dot in it, and not at its end.
pub proof fn lemma_dotted_host(a: u8, b: u8, c: u8, d: u8)
    ensures
        dotted(a, b, c, d).contains('.'),
        dotted(a, b, c, d).last() != '.',
{
    lemma_octet(a);
    lemma_octet(d);
    let s = dotted(a, b, c, d);
    let first = decimal(a as nat);
    let last = decimal(d as nat);
    assert(s[first.len() as int] == '.');
    assert(s.last() == last.last());
    assert(last.contains(last.last()));
}

/// A text is its pieces with dots between them.
proof fn lemma_four_pieces(s: Seq<char>)
    requires
        split(s, '.').len() == 4,
    ensures
        ({
            let p = split(s, '.');
            s == p[0].push('.') + p[1].push('.') + p[2].push('.') + p[3]
        }),
{
    reveal_with_fuel(split, 5);
    let s0 = s;
    lemma_position(s0, '.');
    let p0 = position(s0, '.') as int;
    let s1 = s0.skip(p0 + 1);
    lemma_position(s1, '.');
    let p1 = position(s1, '.') as int;
    let s2 = s1.skip(p1 + 1);
    lemma_position(s2, '.');
    let p2 = position(s2, '.') as int;
    let s3 = s2.skip(p2 + 1);
    lemma_position(s3, '.');
    let p = split(s, '.');
    assert(p == seq![s0.take(p0)] + split(s1, '.'));
    assert(split(s1, '.') == seq![s1.take(p1)] + split(s2, '.'));
    assert(split(s2, '.') == seq![s2.take(p2)] + split(s3, '.'));
    assert(split(s3, '.').len() == 1);
    assert(split(s3, '.')[0] == s3);
    assert(p[0] == s0.take(p0) && p[1] == s1.take(p1) && p[2] == s2.take(p2) && p[3] == s3);
    assert(s2 =~= p[2].push('.') + p[3]);
    assert(s1 =~= p[1].push('.') + s2);
    assert(s0 =~= p[0].push('.') + s1);
    assert(s =~= p[0].push('.') + p[1].push('.') + p[2].push('.') + p[3]);
}

/// The version 4 address that a host is written as. A version 6 address
/// stands in a host of a URL in square brackets, which no text of an address
/// begins with.
pub fn parse_ip(host: &str) -> (r: Option<IpAddr>)
    ensures
        r matches Some(ip) ==> ip matches IpAddr::V4(a, b, c, d) && host@ == dotted(a, b, c, d)
            && forall|a2: u8, b2: u8, c2: u8, d2: u8|
            host@ == #[trigger] dotted(a2, b2, c2, d2) ==> (a, b, c, d) == (a2, b2, c2, d2),
        r is None ==> forall|a: u8, b: u8, c: u8, d: u8| host@ != #[trigger] dotted(a, b, c, d),
{
    let chars = chars_of(host);
    let parts = split_chars(chars.as_slice(), '.');
    proof {
        assert forall|a: u8, b: u8, c: u8, d: u8|
            host@ == #[trigger] dotted(a, b, c, d) implies parts@.len() == 4 && parts@[0]@
            == decimal(a as nat) && parts@[1]@ == decimal(b as nat)
            && parts@[2]@ == decimal(c as nat) && parts@[3]@ == decimal(
            d as nat,
        ) by {
            lemma_dotted_split(a, b, c, d);
        }
    }
    if parts.len() != 4 {
        return None;
    }
    proof {
        lemma_four_pieces(host@);
    }
    match (parse_octet(parts[0]), parse_octet(parts[1]), parse_octet(parts[2]), parse_octet(parts[3])) {
        (Some(a), Some(b), Some(c), Some(d)) => {
            assert(host@ == dotted(a, b, c, d));
            proof {
                assert forall|a2: u8, b2: u8, c2: u8, d2: u8|
                    host@ == #[trigger] dotted(a2, b2, c2, d2) implies (a, b, c, d) == (
                    a2,
                    b2,
                    c2,
                    d2,
                ) by {
                    lemma_decimal_injective(a, a2);
                    lemma_decimal_injective(b, b2);
                    lemma_decimal_injective(c, c2);
                    lemma_decimal_injective(d, d2);
                }
            }
            Some(IpAddr::V4(a, b, c, d))
        },
        _ => None,
    }
}

/// Two numbers with the same digits are the same.
proof fn lemma_decimal_injective(a: u8, b: u8)
    requires
        decimal(a as nat) == decimal(b as nat),
    ensures
        a == b,
{
    lemma_octet(a);
    lemma_octet(b);
    assert(octet_shape(decimal(a as nat), a));
    assert(octet_shape(decimal(b as nat), b));
}

} // verus!
