//! The header field that names a downloaded file.
use crate::names::{last_index_of, last_index_of_is_last};
use crate::text::chars_of;
use vstd::prelude::*;
#[allow(unused_imports)]
use vstd::string::*;
#[allow(unused_imports)]
use vstd::utf8::*;

verus! {

/// Whether a character can stand inside the quoted ASCII form of a name.
pub open spec fn quotable(c: char) -> bool {
    ' ' <= c <= '~' && c != '"' && c != '\\'
}

/// The ASCII form of a name: each character that cannot be quoted becomes `_`.
pub open spec fn ascii_form(name: Seq<char>) -> Seq<char> {
    name.map_values(
        |c: char|
            if quotable(c) {
                c
            } else {
                '_'
            },
    )
}

/// Whether a byte stands for itself in a percent-encoded text.
pub open spec fn unreserved(b: u8) -> bool {
    ||| 'a' as u8 <= b <= 'z' as u8
    ||| 'A' as u8 <= b <= 'Z' as u8
    ||| '0' as u8 <= b <= '9' as u8
    ||| b == '-' as u8
    ||| b == '.' as u8
    ||| b == '_' as u8
    ||| b == '~' as u8
}

/// The upper-case hexadecimal digit that stands for `d`.
pub open spec fn hex_digit(d: int) -> char
    recommends
        0 <= d < 16,
{
    if d < 10 {
        ('0' as int + d) as char
    } else {
        ('A' as int + d - 10) as char
    }
}

/// What stands for one byte in a percent-encoded text.
pub open spec fn percent_byte(b: u8) -> Seq<char> {
    if unreserved(b) {
        seq![b as char]
    } else {
        seq!['%', hex_digit(b as int / 16), hex_digit(b as int % 16)]
    }
}

/// Bytes in percent encoding.
pub open spec fn percent_encoded(bytes: Seq<u8>) -> Seq<char>
    decreases bytes.len(),
{
    if bytes.len() == 0 {
        Seq::empty()
    } else {
        percent_byte(bytes[0]) + percent_encoded(bytes.skip(1))
    }
}

/// The whole field: the name in its ASCII form, and the UTF-8 bytes of the name in
/// percent encoding.
pub open spec fn disposition_of(name: Seq<char>) -> Seq<char> {
    "attachment; filename=\""@ + ascii_form(name) + "\"; filename*=UTF-8''"@ + percent_encoded(
        encode_utf8(name),
    )
}

fn ascii_form_text(chars: &Vec<char>) -> (r: String)
    ensures
        r@ == ascii_form(chars@),
{
    let mut out = String::new();
    for i in 0..chars.len()
        invariant
            out@ == ascii_form(chars@).take(i as int),
    {
        let c = chars[i];
        if ' ' <= c && c <= '~' && c != '"' && c != '\\' {
            out.push(c);
        } else {
            out.push('_');
        }
        proof {
            assert(out@ =~= ascii_form(chars@).take(i + 1));
        }
    }
    proof {
        assert(ascii_form(chars@).take(chars@.len() as int) =~= ascii_form(chars@));
    }
    out
}

fn hex_char(d: u8) -> (c: char)
    requires
        d < 16,
    ensures
        c == hex_digit(d as int),
{
    if d < 10 {
        ('0' as u8 + d) as char
    } else {
        ('A' as u8 + (d - 10)) as char
    }
}

fn is_unreserved(b: u8) -> (r: bool)
    ensures
        r == unreserved(b),
{
    ('a' as u8 <= b && b <= 'z' as u8) || ('A' as u8 <= b && b <= 'Z' as u8) || ('0' as u8 <= b && b
        <= '9' as u8) || b == '-' as u8 || b == '.' as u8 || b == '_' as u8 || b == '~' as u8
}

fn percent_text(bytes: &[u8]) -> (r: String)
    ensures
        r@ == percent_encoded(bytes@),
{
    let mut out = String::new();
    proof {
        assert(bytes@.skip(0) =~= bytes@);
    }
    for i in 0..bytes.len()
        invariant
            percent_encoded(bytes@) == out@ + percent_encoded(bytes@.skip(i as int)),
    {
        let b = bytes[i];
        let ghost before = out@;
        if is_unreserved(b) {
            out.push(b as char);
        } else {
            out.push('%');
            out.push(hex_char(b / 16));
            out.push(hex_char(b % 16));
        }
        proof {
            assert(out@ =~= before + percent_byte(b));
            assert(bytes@.skip(i as int).skip(1) =~= bytes@.skip(i + 1));
            assert(before + (percent_byte(b) + percent_encoded(bytes@.skip(i + 1))) =~= out@
                + percent_encoded(bytes@.skip(i + 1)));
        }
    }
    proof {
        assert(bytes@.skip(bytes@.len() as int) =~= Seq::<u8>::empty());
        assert(out@ + Seq::<char>::empty() =~= out@);
    }
    out
}

/// The `Content-Disposition` field for a download under the given name.
pub fn content_disposition(filename: &str) -> (r: String)
    ensures
        r@ == disposition_of(filename@),
{
    let mut out = "attachment; filename=\"".to_owned();
    out.append(ascii_form_text(&chars_of(filename)).as_str());
    out.append("\"; filename*=UTF-8''");
    out.append(percent_text(filename.as_bytes()).as_str());
    out
}

// ---------------------------------------------------------------------------
// What the field guarantees
// ---------------------------------------------------------------------------

/// The value of a hexadecimal digit.
pub open spec fn hex_value(c: char) -> int {
    if '0' <= c <= '9' {
        c as int - '0' as int
    } else {
        c as int - 'A' as int + 10
    }
}

/// The bytes that a percent-encoded text stands for.
pub open spec fn percent_decoded(s: Seq<char>) -> Seq<u8>
    decreases s.len(),
{
    if s.len() == 0 {
        Seq::empty()
    } else if s[0] == '%' && s.len() >= 3 {
        seq![(hex_value(s[1]) * 16 + hex_value(s[2])) as u8] + percent_decoded(s.skip(3))
    } else {
        seq![s[0] as u8] + percent_decoded(s.skip(1))
    }
}

/// Decoding a percent-encoded text gives back the bytes that were encoded.
pub proof fn percent_encoding_loses_nothing(bytes: Seq<u8>)
    ensures
        percent_decoded(percent_encoded(bytes)) == bytes,
    decreases bytes.len(),
{
    if bytes.len() > 0 {
        let b = bytes[0];
        let head = percent_byte(b);
        let rest = percent_encoded(bytes.skip(1));
        let all = head + rest;
        percent_encoding_loses_nothing(bytes.skip(1));
        if unreserved(b) {
            assert(all[0] == b as char);
            assert((b as char) as u8 == b);
            assert(all.skip(1) =~= rest);
        } else {
            assert(all[0] == '%' && all[1] == head[1] && all[2] == head[2]);
            assert(hex_value(all[1]) == b as int / 16);
            assert(hex_value(all[2]) == b as int % 16);
            assert(all.skip(3) =~= rest);
        }
        assert(seq![b] + bytes.skip(1) =~= bytes);
    }
}

/// The ASCII form is as long as the name, holds printable ASCII only, and neither a quote
/// nor a backslash: it cannot end the quoted string it stands in.
pub proof fn ascii_form_stays_quoted(name: Seq<char>)
    ensures
        ascii_form(name).len() == name.len(),
        forall|i: int| 0 <= i < name.len() ==> quotable(#[trigger] ascii_form(name)[i]),
        forall|i: int|
            0 <= i < name.len() && quotable(name[i]) ==> #[trigger] ascii_form(name)[i] == name[i],
{
}

/// Whether a character is an ASCII letter, a digit or one of `-._~%`.
pub open spec fn percent_alphabet(c: char) -> bool {
    ||| 'a' <= c <= 'z'
    ||| 'A' <= c <= 'Z'
    ||| '0' <= c <= '9'
    ||| c == '-'
    ||| c == '.'
    ||| c == '_'
    ||| c == '~'
    ||| c == '%'
}

/// Every character of percent-encoded bytes is a letter, a digit or one of `-._~%`.
pub proof fn percent_encoding_is_plain(bytes: Seq<u8>)
    ensures
        forall|i: int|
            0 <= i < percent_encoded(bytes).len() ==> percent_alphabet(
                #[trigger] percent_encoded(bytes)[i],
            ),
    decreases bytes.len(),
{
    if bytes.len() > 0 {
        percent_encoding_is_plain(bytes.skip(1));
        let head = percent_byte(bytes[0]);
        let rest = percent_encoded(bytes.skip(1));
        assert forall|i: int| 0 <= i < percent_encoded(bytes).len() implies percent_alphabet(
            #[trigger] percent_encoded(bytes)[i],
        ) by {
            if i < head.len() {
                assert(percent_encoded(bytes)[i] == head[i]);
            } else {
                assert(percent_encoded(bytes)[i] == rest[i - head.len()]);
            }
        }
    }
}

/// The field is printable ASCII from end to end, for every name: it is a valid header
/// value, and no name can break it over two lines.
pub proof fn field_is_printable_ascii(name: Seq<char>)
    ensures
        forall|i: int|
            0 <= i < disposition_of(name).len() ==> ' ' <= #[trigger] disposition_of(name)[i]
                <= '~',
{
    reveal_strlit("attachment; filename=\"");
    reveal_strlit("\"; filename*=UTF-8''");
    let a = "attachment; filename=\""@;
    let b = ascii_form(name);
    let c = "\"; filename*=UTF-8''"@;
    let d = percent_encoded(encode_utf8(name));
    percent_encoding_is_plain(encode_utf8(name));
    assert forall|i: int| 0 <= i < a.len() implies ' ' <= #[trigger] a[i] <= '~' by {}
    assert forall|i: int| 0 <= i < c.len() implies ' ' <= #[trigger] c[i] <= '~' by {}
    assert forall|i: int| 0 <= i < disposition_of(name).len() implies ' '
        <= #[trigger] disposition_of(name)[i] <= '~' by {
        if i < a.len() {
            assert(disposition_of(name)[i] == a[i]);
        } else if i < a.len() + b.len() {
            assert(disposition_of(name)[i] == b[i - a.len()]);
            assert(quotable(b[i - a.len()]));
        } else if i < a.len() + b.len() + c.len() {
            assert(disposition_of(name)[i] == c[i - a.len() - b.len()]);
        } else {
            let x = d[i - a.len() - b.len() - c.len()];
            assert(disposition_of(name)[i] == x);
            assert(percent_alphabet(x));
        }
    }
}

/// The part of a field behind its last apostrophe.
pub open spec fn encoded_part(field: Seq<char>) -> Seq<char> {
    field.skip(last_index_of(field, '\'') + 1)
}

/// The name comes back from its field, whatever characters it holds: take what stands behind
/// the last `''`, decode the percent encoding, then the UTF-8.
pub proof fn name_reads_back_from_its_field(name: Seq<char>)
    ensures
        ({
            let field = disposition_of(name);
            let last = last_index_of(field, '\'');
            &&& last >= 1 && field[last - 1] == '\'' && field[last] == '\''
            &&& decode_utf8(percent_decoded(encoded_part(field))) == name
        }),
{
    reveal_strlit("attachment; filename=\"");
    reveal_strlit("\"; filename*=UTF-8''");
    let field = disposition_of(name);
    let encoded = percent_encoded(encode_utf8(name));
    let at = field.len() - encoded.len();
    let last = last_index_of(field, '\'');
    last_index_of_is_last(field, '\'');
    percent_encoding_is_plain(encode_utf8(name));
    assert(field[at - 1] == '\'' && field[at - 2] == '\'');
    if last >= at {
        assert(field[last] == encoded[last - at]);
        assert(percent_alphabet(encoded[last - at]));
    }
    assert(last == at - 1);
    assert(encoded_part(field) =~= encoded);
    percent_encoding_loses_nothing(encode_utf8(name));
    encode_utf8_decode_utf8(name);
}

/// No two names share a field.
pub proof fn fields_are_distinct(a: Seq<char>, b: Seq<char>)
    requires
        disposition_of(a) == disposition_of(b),
    ensures
        a == b,
{
    name_reads_back_from_its_field(a);
    name_reads_back_from_its_field(b);
}

/// A field holds exactly two quotes, around the ASCII form of the name, and no backslash: no
/// name can end the quoted string early or go on behind it.
pub proof fn field_holds_two_quotes(name: Seq<char>)
    ensures
        ({
            let field = disposition_of(name);
            let open = "attachment; filename=\""@.len() - 1;
            let close = open + 1 + name.len();
            &&& forall|i: int|
                0 <= i < field.len() ==> (#[trigger] field[i] == '"' <==> i == open || i == close)
            &&& forall|i: int| 0 <= i < field.len() ==> #[trigger] field[i] != '\\'
            &&& field.subrange(open + 1, close) == ascii_form(name)
        }),
{
    reveal_strlit("attachment; filename=\"");
    reveal_strlit("\"; filename*=UTF-8''");
    let field = disposition_of(name);
    let a = "attachment; filename=\""@;
    let b = ascii_form(name);
    let c = "\"; filename*=UTF-8''"@;
    let d = percent_encoded(encode_utf8(name));
    let open = a.len() - 1;
    let close = open + 1 + name.len();
    percent_encoding_is_plain(encode_utf8(name));
    assert forall|i: int| 0 <= i < field.len() implies (#[trigger] field[i] == '"' <==> i == open
        || i == close) && field[i] != '\\' by {
        if i < a.len() {
            assert(field[i] == a[i]);
        } else if i < a.len() + b.len() {
            assert(field[i] == b[i - a.len()]);
            assert(quotable(b[i - a.len()]));
        } else if i < a.len() + b.len() + c.len() {
            assert(field[i] == c[i - a.len() - b.len()]);
        } else {
            let x = d[i - a.len() - b.len() - c.len()];
            assert(field[i] == x);
            assert(percent_alphabet(x));
        }
    }
    assert(field.subrange(open + 1, close) =~= b);
}

/// Percent encoding deals with each part of the bytes by itself.
pub proof fn percent_encoding_distributes(a: Seq<u8>, b: Seq<u8>)
    ensures
        percent_encoded(a + b) == percent_encoded(a) + percent_encoded(b),
    decreases a.len(),
{
    if a.len() == 0 {
        assert(a + b =~= b);
        assert(percent_encoded(a) + percent_encoded(b) =~= percent_encoded(b));
    } else {
        assert((a + b).skip(1) =~= a.skip(1) + b);
        percent_encoding_distributes(a.skip(1), b);
        assert(percent_byte(a[0]) + (percent_encoded(a.skip(1)) + percent_encoded(b))
            =~= percent_encoded(a) + percent_encoded(b));
    }
}

/// A byte that is the code of a letter, a digit or one of `-._~` stands for itself; any other
/// is a percent sign and two digits, upper case, whose value is the byte.
pub proof fn bytes_are_encoded_by_their_kind(b: u8)
    ensures
        ({
            let plain = 97 <= b <= 122 || 65 <= b <= 90 || 48 <= b <= 57 || b == 45 || b == 46 || b
                == 95 || b == 126;
            let code = percent_encoded(seq![b]);
            &&& plain ==> code.len() == 1 && code[0] as int == b
            &&& !plain ==> {
                &&& code.len() == 3
                &&& code[0] == '%'
                &&& forall|i: int|
                    1 <= i < 3 ==> '0' <= #[trigger] code[i] <= '9' || 'A' <= code[i] <= 'F'
                &&& hex_value(code[1]) * 16 + hex_value(code[2]) == b
            }
        }),
{
    assert(seq![b].skip(1) =~= Seq::<u8>::empty());
    assert(percent_encoded(seq![b].skip(1)) =~= Seq::<char>::empty());
    assert(percent_encoded(seq![b]) =~= percent_byte(b));
}

/// The field is made up of the name twice: once quoted, character by character, with `_` for
/// every character that is not printable ASCII or would end the quoted string; and once as
/// the UTF-8 bytes of the name in percent encoding.
pub proof fn field_holds_the_name_twice(name: &str, r: String)
    requires
        call_ensures(content_disposition, (name,), r),
    ensures
        ({
            let open = "attachment; filename=\""@;
            let middle = "\"; filename*=UTF-8''"@;
            let from = open.len() as int;
            let to = from + name@.len();
            let ascii = r@.subrange(from, to);
            let encoded = r@.skip(to + middle.len());
            &&& r@ == open + ascii + middle + encoded
            &&& forall|i: int|
                0 <= i < name@.len() ==> #[trigger] ascii[i] == if 32 <= name@[i] as int <= 126
                    && name@[i] != '"' && name@[i] != '\\' {
                    name@[i]
                } else {
                    '_'
                }
            &&& encoded == percent_encoded(encode_utf8(name@))
            &&& decode_utf8(percent_decoded(encoded)) == name@
        }),
{
    let open = "attachment; filename=\""@;
    let middle = "\"; filename*=UTF-8''"@;
    let ascii = ascii_form(name@);
    let encoded = percent_encoded(encode_utf8(name@));
    percent_encoding_loses_nothing(encode_utf8(name@));
    encode_utf8_decode_utf8(name@);
    assert(ascii.len() == name@.len());
    assert(r@.subrange(open.len() as int, (open.len() + name@.len()) as int) =~= ascii);
    assert(r@.skip((open.len() + name@.len() + middle.len()) as int) =~= encoded);
}

} // verus!
