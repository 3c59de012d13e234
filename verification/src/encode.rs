//! Percent-encoding of query text (RFC 3986 unreserved bytes kept as they are).

use vstd::prelude::*;
use vstd::string::StringSliceAdditionalSpecFns;
use crate::text::is_ws;

verus! {

/// Bytes that pass through unencoded: `A-Z a-z 0-9 - _ . ~`.
pub open spec fn is_unreserved(b: u8) -> bool {
    (0x41 <= b && b <= 0x5A) || (0x61 <= b && b <= 0x7A) || (0x30 <= b && b <= 0x39) || b == 0x2D
        || b == 0x5F || b == 0x2E || b == 0x7E
}

/// Upper-case hexadecimal digit for `n < 16`.
pub open spec fn hex_digit(n: u8) -> char {
    if n < 10 {
        ((0x30 + n) as u8) as char
    } else {
        ((0x41 + n - 10) as u8) as char
    }
}

/// Value of a hexadecimal digit (either case).
pub open spec fn hex_value(c: char) -> int {
    if '0' <= c && c <= '9' {
        (c as int) - 0x30
    } else if 'A' <= c && c <= 'F' {
        (c as int) - 0x41 + 10
    } else if 'a' <= c && c <= 'f' {
        (c as int) - 0x61 + 10
    } else {
        -1
    }
}

/// The text one byte becomes.
pub open spec fn encode_byte(b: u8) -> Seq<char> {
    if is_unreserved(b) {
        seq![b as char]
    } else {
        seq!['%', hex_digit(b / 16), hex_digit(b % 16)]
    }
}

/// Percent-encoding of a byte string.
pub open spec fn percent_encode(bs: Seq<u8>) -> Seq<char>
    decreases bs.len(),
{
    if bs.len() == 0 {
        Seq::empty()
    } else {
        encode_byte(bs[0]) + percent_encode(bs.drop_first())
    }
}

/// Percent-decoding: `%XY` with two hex digits becomes one byte, any other
/// character stands for its own (low) byte.
pub open spec fn percent_decode(s: Seq<char>) -> Seq<u8>
    decreases s.len(),
{
    if s.len() == 0 {
        Seq::empty()
    } else if s[0] == '%' && s.len() >= 3 && hex_value(s[1]) >= 0 && hex_value(s[2]) >= 0 {
        seq![(hex_value(s[1]) * 16 + hex_value(s[2])) as u8] + percent_decode(s.skip(3))
    } else {
        seq![s[0] as u8] + percent_decode(s.drop_first())
    }
}

proof fn lemma_hex_digit(n: u8)
    requires
        n < 16,
    ensures
        hex_value(hex_digit(n)) == n,
{
}

/// Decoding what one byte became gives the byte back.
proof fn lemma_decode_byte(b: u8, rest: Seq<char>)
    ensures
        percent_decode(encode_byte(b) + rest) == seq![b] + percent_decode(rest),
{
    let s = encode_byte(b) + rest;
    if is_unreserved(b) {
        assert(s.drop_first() =~= rest);
        assert(s[0] == b as char);
    } else {
        lemma_hex_digit(b / 16);
        lemma_hex_digit(b % 16);
        assert(s.skip(3) =~= rest);
        assert((b / 16) * 16 + b % 16 == b) by (nonlinear_arith);
    }
}

/// Percent-encoding loses nothing: decoding gives back the original bytes.
pub proof fn law_percent_roundtrip(bs: Seq<u8>)
    ensures
        percent_decode(percent_encode(bs)) == bs,
    decreases bs.len(),
{
    if bs.len() > 0 {
        law_percent_roundtrip(bs.drop_first());
        lemma_decode_byte(bs[0], percent_encode(bs.drop_first()));
        assert(bs =~= seq![bs[0]] + bs.drop_first());
    }
}

/// Every character of an encoding is unreserved ASCII, `%` or a hex digit.
pub proof fn law_percent_alphabet(bs: Seq<u8>)
    ensures
        forall|i: int|
            0 <= i < percent_encode(bs).len() ==> {
                let c = #[trigger] percent_encode(bs)[i];
                (c as u32) < 128 && (is_unreserved(c as u8) || c == '%')
            },
    decreases bs.len(),
{
    if bs.len() > 0 {
        law_percent_alphabet(bs.drop_first());
        let e = encode_byte(bs[0]);
        let r = percent_encode(bs.drop_first());
        assert forall|i: int| 0 <= i < (e + r).len() implies {
            let c = #[trigger] (e + r)[i];
            (c as u32) < 128 && (is_unreserved(c as u8) || c == '%')
        } by {
            if i >= e.len() {
                assert((e + r)[i] == r[i - e.len()]);
            }
        }
    }
}

proof fn lemma_encode_byte_no_ws(b: u8)
    ensures
        forall|i: int| 0 <= i < encode_byte(b).len() ==> !is_ws(#[trigger] encode_byte(b)[i]),
{
    if is_unreserved(b) {
        assert((b as char) as u32 == b as u32);
    } else {
        let hi = b / 16;
        let lo = b % 16;
        assert(hex_digit(hi) as u32 >= 0x30 && hex_digit(hi) as u32 <= 0x46);
        assert(hex_digit(lo) as u32 >= 0x30 && hex_digit(lo) as u32 <= 0x46);
        assert(encode_byte(b)[1] == hex_digit(hi));
        assert(encode_byte(b)[2] == hex_digit(lo));
    }
}

/// No character of an encoding is whitespace.
pub proof fn lemma_encoding_no_ws(bs: Seq<u8>)
    ensures
        forall|i: int| 0 <= i < percent_encode(bs).len() ==> !is_ws(#[trigger] percent_encode(bs)[i]),
    decreases bs.len(),
{
    if bs.len() > 0 {
        lemma_encoding_no_ws(bs.drop_first());
        lemma_encode_byte_no_ws(bs[0]);
        let e = encode_byte(bs[0]);
        let r = percent_encode(bs.drop_first());
        assert forall|i: int| 0 <= i < (e + r).len() implies !is_ws(#[trigger] (e + r)[i]) by {
            if i >= e.len() {
                assert((e + r)[i] == r[i - e.len()]);
            } else {
                assert((e + r)[i] == e[i]);
            }
        }
    }
}

/// Percent-encodes the UTF-8 bytes of `s`: unreserved bytes are kept, every
/// other byte (space included) becomes `%XY` with upper-case hex digits.
pub fn urlencoding_lite(s: &str) -> (out: String)
    ensures
        out@ == percent_encode(s.spec_bytes()),
{
    let bytes = s.as_bytes();
    let mut out: Vec<char> = Vec::new();
    let mut i: usize = 0;
    assert(bytes@.skip(0) =~= bytes@);
    while i < bytes.len()
        invariant
            i <= bytes@.len(),
            bytes@ == s.spec_bytes(),
            percent_encode(bytes@) == out@ + percent_encode(bytes@.skip(i as int)),
        decreases bytes@.len() - i,
    {
        let b = bytes[i];
        assert(bytes@.skip(i as int).drop_first() =~= bytes@.skip(i + 1));
        let ghost before = out@;
        if (0x41 <= b && b <= 0x5A) || (0x61 <= b && b <= 0x7A) || (0x30 <= b && b <= 0x39) || b
            == 0x2D || b == 0x5F || b == 0x2E || b == 0x7E {
            out.push(b as char);
        } else {
            let hi = b / 16;
            let lo = b % 16;
            out.push('%');
            out.push(if hi < 10 { (0x30 + hi) as char } else { (0x41 + hi - 10) as char });
            out.push(if lo < 10 { (0x30 + lo) as char } else { (0x41 + lo - 10) as char });
        }
        assert(out@ =~= before + encode_byte(b));
        assert(before + encode_byte(b) + percent_encode(bytes@.skip(i + 1)) =~= before + (
        encode_byte(b) + percent_encode(bytes@.skip(i + 1))));
        i = i + 1;
    }
    assert(out@ + percent_encode(bytes@.skip(i as int)) =~= out@);
    crate::text::string_of(&out)
}

} // verus!
