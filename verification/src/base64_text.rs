//! Bytes as base64 text.
use vstd::prelude::*;

verus! {

/// The character that stands for six bits in the standard alphabet of RFC 4648.
pub open spec fn base64_char(v: int) -> char
    recommends
        0 <= v < 64,
{
    if v < 26 {
        ('A' as int + v) as char
    } else if v < 52 {
        ('a' as int + v - 26) as char
    } else if v < 62 {
        ('0' as int + v - 52) as char
    } else if v == 62 {
        '+'
    } else {
        '/'
    }
}

/// Bytes in standard base64 with padding: every three bytes are four characters of six
/// bits each, high bits first; what is left at the end is filled up with zero bits and
/// padded with `=` to four characters.
pub open spec fn base64_of(bytes: Seq<u8>) -> Seq<char>
    decreases bytes.len(),
{
    let a = bytes[0] as int;
    let b = bytes[1] as int;
    let c = bytes[2] as int;
    if bytes.len() == 0 {
        Seq::empty()
    } else if bytes.len() == 1 {
        seq![base64_char(a / 4), base64_char(a % 4 * 16), '=', '=']
    } else if bytes.len() == 2 {
        seq![
            base64_char(a / 4),
            base64_char(a % 4 * 16 + b / 16),
            base64_char(b % 16 * 4),
            '=',
        ]
    } else {
        seq![
            base64_char(a / 4),
            base64_char(a % 4 * 16 + b / 16),
            base64_char(b % 16 * 4 + c / 64),
            base64_char(c % 64),
        ] + base64_of(bytes.skip(3))
    }
}

/// `base64::Engine::encode` with the engine `STANDARD` (the standard alphabet, with
/// padding) gives the bytes in base64. That it does is taken from the crate: the engine
/// looks up each six bits of its input in the alphabet, and pads the end.
#[verifier::external_body]
pub(crate) fn encode_base64(bytes: &[u8]) -> (r: String)
    ensures
        r@ == base64_of(bytes@),
{
    base64::Engine::encode(&base64::engine::general_purpose::STANDARD, bytes)
}

// ---------------------------------------------------------------------------
// Reading it back
// ---------------------------------------------------------------------------

/// The six bits that a character of the alphabet stands for.
pub open spec fn base64_value(c: char) -> int {
    if 'A' <= c <= 'Z' {
        c as int - 'A' as int
    } else if 'a' <= c <= 'z' {
        c as int - 'a' as int + 26
    } else if '0' <= c <= '9' {
        c as int - '0' as int + 52
    } else if c == '+' {
        62
    } else {
        63
    }
}

/// The bytes that a base64 text stands for.
pub open spec fn base64_decoded(s: Seq<char>) -> Seq<u8>
    decreases s.len(),
{
    let p = base64_value(s[0]);
    let q = base64_value(s[1]);
    let r = base64_value(s[2]);
    let t = base64_value(s[3]);
    if s.len() < 4 {
        Seq::empty()
    } else if s[2] == '=' {
        seq![(p * 4 + q / 16) as u8]
    } else if s[3] == '=' {
        seq![(p * 4 + q / 16) as u8, (q % 16 * 16 + r / 4) as u8]
    } else {
        seq![
            (p * 4 + q / 16) as u8,
            (q % 16 * 16 + r / 4) as u8,
            (r % 4 * 64 + t) as u8,
        ] + base64_decoded(s.skip(4))
    }
}

proof fn value_of_char(v: int)
    requires
        0 <= v < 64,
    ensures
        base64_value(base64_char(v)) == v,
        base64_char(v) != '=',
        base64_char(v) != '\'',
        base64_char(v) != '<',
{
}

/// Decoding a base64 text gives back the bytes that were encoded.
pub proof fn base64_loses_nothing(bytes: Seq<u8>)
    ensures
        base64_decoded(base64_of(bytes)) == bytes,
    decreases bytes.len(),
{
    let a = bytes[0] as int;
    let b = bytes[1] as int;
    let c = bytes[2] as int;
    let s = base64_of(bytes);
    value_of_char(a / 4);
    value_of_char(a % 4 * 16);
    value_of_char(a % 4 * 16 + b / 16);
    value_of_char(b % 16 * 4);
    value_of_char(b % 16 * 4 + c / 64);
    value_of_char(c % 64);
    if bytes.len() >= 3 {
        let rest = base64_of(bytes.skip(3));
        base64_loses_nothing(bytes.skip(3));
        assert(s.skip(4) =~= rest);
        assert(s[0] == base64_char(a / 4));
        assert(s[1] == base64_char(a % 4 * 16 + b / 16));
        assert(s[2] == base64_char(b % 16 * 4 + c / 64));
        assert(s[3] == base64_char(c % 64));
        assert(bytes =~= seq![bytes[0], bytes[1], bytes[2]] + bytes.skip(3));
    } else if bytes.len() == 2 {
        assert(base64_decoded(s) =~= bytes);
    } else if bytes.len() == 1 {
        assert(base64_decoded(s) =~= bytes);
    }
}

/// A base64 text holds neither a quote nor a tag: it stays inside a quoted attribute.
pub proof fn base64_stays_quoted(bytes: Seq<u8>)
    ensures
        forall|i: int|
            0 <= i < base64_of(bytes).len() ==> #[trigger] base64_of(bytes)[i] != '\''
                && base64_of(bytes)[i] != '<',
    decreases bytes.len(),
{
    let a = bytes[0] as int;
    let b = bytes[1] as int;
    let c = bytes[2] as int;
    value_of_char(a / 4);
    value_of_char(a % 4 * 16);
    value_of_char(a % 4 * 16 + b / 16);
    value_of_char(b % 16 * 4);
    value_of_char(b % 16 * 4 + c / 64);
    value_of_char(c % 64);
    if bytes.len() >= 3 {
        base64_stays_quoted(bytes.skip(3));
        let rest = base64_of(bytes.skip(3));
        assert forall|i: int| 0 <= i < base64_of(bytes).len() implies #[trigger] base64_of(bytes)[i]
            != '\'' && base64_of(bytes)[i] != '<' by {
            if i >= 4 {
                assert(base64_of(bytes)[i] == rest[i - 4]);
            }
        }
    }
}

} // verus!
