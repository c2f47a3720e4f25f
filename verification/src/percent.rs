//! Percent-encoding of addresses.
use vstd::prelude::*;
use vstd::utf8::*;

verus! {

/// The bytes that stand for themselves in a percent-encoded text: the ASCII
/// letters and digits, `-`, `_`, `.` and `~`.
pub open spec fn is_unreserved(b: u8) -> bool {
    ||| 48 <= b <= 57
    ||| 65 <= b <= 90
    ||| 97 <= b <= 122
    ||| b == 45
    ||| b == 95
    ||| b == 46
    ||| b == 126
}

/// The capital hexadecimal digit of a number below sixteen.
pub open spec fn hex_char(n: u8) -> char {
    if n < 10 {
        (48 + n) as char
    } else {
        (55 + n) as char
    }
}

/// The number that a hexadecimal digit stands for, capital or small.
pub open spec fn hex_value(b: u8) -> Option<u8> {
    if 48 <= b <= 57 {
        Some((b - 48) as u8)
    } else if 65 <= b <= 70 {
        Some((b - 55) as u8)
    } else if 97 <= b <= 102 {
        Some((b - 87) as u8)
    } else {
        None
    }
}

/// One byte, percent-encoded.
pub open spec fn percent_byte(b: u8) -> Seq<char> {
    if is_unreserved(b) {
        seq![b as char]
    } else {
        seq!['%', hex_char(b / 16), hex_char(b % 16)]
    }
}

/// Each byte percent-encoded, one after the other.
pub open spec fn percent_bytes(bytes: Seq<u8>) -> Seq<char>
    decreases bytes.len(),
{
    if bytes.len() == 0 {
        seq![]
    } else {
        percent_byte(bytes[0]) + percent_bytes(bytes.drop_first())
    }
}

/// The percent-encoding of the UTF-8 bytes of a text.
pub open spec fn percent_encoded(s: Seq<char>) -> Seq<char> {
    percent_bytes(encode_utf8(s))
}

/// `bytes` begins with a percent sign and two hexadecimal digits.
pub open spec fn begins_with_escape(bytes: Seq<u8>) -> bool {
    bytes.len() >= 3 && bytes[0] == 37 && hex_value(bytes[1]) is Some && hex_value(bytes[2]) is Some
}

/// The bytes with each escape replaced by the byte that it stands for; a
/// percent sign that begins no escape stands for itself.
pub open spec fn unescaped(bytes: Seq<u8>) -> Seq<u8>
    decreases bytes.len(),
{
    if bytes.len() == 0 {
        seq![]
    } else if begins_with_escape(bytes) {
        seq![(hex_value(bytes[1])->0 * 16 + hex_value(bytes[2])->0) as u8] + unescaped(
            bytes.skip(3),
        )
    } else {
        seq![bytes[0]] + unescaped(bytes.drop_first())
    }
}

/// The text that a percent-encoded text stands for, where its bytes are UTF-8.
pub open spec fn percent_decoded(s: Seq<char>) -> Option<Seq<char>> {
    let bytes = unescaped(encode_utf8(s));
    if valid_utf8(bytes) {
        Some(decode_utf8(bytes))
    } else {
        None
    }
}

/// `urlencoding::encode` percent-encodes every byte of the UTF-8 text but the
/// ASCII letters and digits, `-`, `_`, `.` and `~`, with capital digits.
#[verifier::external_body]
pub(crate) fn encode(s: &str) -> (r: String)
    ensures
        r@ == percent_encoded(s@),
{
    urlencoding::encode(s).into_owned()
}

/// `urlencoding::decode` replaces each escape by its byte, leaves everything
/// else (a `+` too), and fails where what comes out is not UTF-8.
#[verifier::external_body]
pub(crate) fn decode(s: &str) -> (r: Option<String>)
    ensures
        r is Some <==> percent_decoded(s@) is Some,
        r matches Some(t) ==> t@ == percent_decoded(s@)->0,
{
    urlencoding::decode(s).ok().map(|t| t.into_owned())
}

/// Encoded bytes are visible ASCII, and no `&` is among them.
pub proof fn lemma_percent_bytes_plain(bytes: Seq<u8>)
    ensures
        is_ascii_chars(percent_bytes(bytes)),
        forall|i: int|
            0 <= i < percent_bytes(bytes).len() ==> 33 <= #[trigger] percent_bytes(bytes)[i] as u32
                && percent_bytes(bytes)[i] as u32 <= 126 && percent_bytes(bytes)[i] != '&',
    decreases bytes.len(),
{
    if bytes.len() > 0 {
        lemma_percent_bytes_plain(bytes.drop_first());
    }
}

/// Replacing the escapes of encoded bytes gives the bytes back.
proof fn lemma_unescape_escaped(bytes: Seq<u8>)
    ensures
        unescaped(encode_utf8(percent_bytes(bytes))) == bytes,
    decreases bytes.len(),
{
    lemma_percent_bytes_plain(bytes);
    let enc = percent_bytes(bytes);
    let raw = encode_utf8(enc);
    is_ascii_chars_encode_utf8(enc);
    if bytes.len() == 0 {
        assert(raw =~= Seq::<u8>::empty());
        assert(unescaped(raw) =~= bytes);
    } else {
        let b = bytes[0];
        let rest = bytes.drop_first();
        let tail = percent_bytes(rest);
        lemma_unescape_escaped(rest);
        lemma_percent_bytes_plain(rest);
        is_ascii_chars_encode_utf8(tail);
        let head = percent_byte(b);
        assert(raw.skip(head.len() as int) =~= encode_utf8(tail)) by {
            assert forall|i: int| 0 <= i < tail.len() implies raw[head.len() + i] == encode_utf8(
                tail,
            )[i] by {
                assert(enc[head.len() + i] == tail[i]);
            }
        }
        if is_unreserved(b) {
            assert(enc[0] == b as char);
            assert(raw[0] == b);
            assert(raw.drop_first() =~= raw.skip(1));
            assert(unescaped(raw) =~= bytes);
        } else {
            assert(enc[0] == '%' && enc[1] == hex_char(b / 16) && enc[2] == hex_char(b % 16));
            assert(raw[0] == 37);
            assert(raw[1] == hex_char(b / 16) as u8);
            assert(raw[2] == hex_char(b % 16) as u8);
            assert(begins_with_escape(raw));
            assert((b / 16) * 16 + b % 16 == b);
            assert(unescaped(raw) =~= bytes);
        }
    }
}

/// Decoding gives back every text that was encoded.
pub proof fn law_decode_encode(s: Seq<char>)
    ensures
        percent_decoded(percent_encoded(s)) == Some(s),
{
    lemma_unescape_escaped(encode_utf8(s));
    encode_utf8_valid_utf8(s);
    encode_utf8_decode_utf8(s);
}

} // verus!
