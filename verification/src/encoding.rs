//! Text as bytes and bytes as text: UTF-8, percent escapes, hexadecimal and Base64.
use vstd::prelude::*;
use vstd::utf8::*;

use crate::numbers;
use crate::text;

verus! {

// ---------------------------------------------------------------------------
// UTF-8
// ---------------------------------------------------------------------------

/// `String::from_utf8` of std: succeeds exactly on valid UTF-8 and gives the text that the
/// bytes encode.
#[verifier::external_body]
pub(crate) fn utf8_text(bytes: Vec<u8>) -> (r: Option<String>)
    ensures
        match r {
            Some(s) => valid_utf8(bytes@) && s@ == decode_utf8(bytes@),
            None => !valid_utf8(bytes@),
        },
{
    String::from_utf8(bytes).ok()
}

/// `String::from_utf8_lossy` of std, named: the text of bytes in which each invalid part is
/// replaced by a replacement character.
pub uninterp spec fn lossy_text(bytes: Seq<u8>) -> Seq<char>;

/// `String::from_utf8_lossy` of std: a function of the bytes alone, and on valid UTF-8 the
/// text that the bytes encode. Where the replacement characters stand is not restated.
#[verifier::external_body]
pub(crate) fn utf8_text_lossy(bytes: &[u8]) -> (r: String)
    ensures
        r@ == lossy_text(bytes@),
        valid_utf8(bytes@) ==> r@ == decode_utf8(bytes@),
{
    String::from_utf8_lossy(bytes).into_owned()
}

/// The bytes `from..to` of `bytes`.
pub fn byte_range(bytes: &[u8], from: usize, to: usize) -> (r: Vec<u8>)
    requires
        from <= to <= bytes@.len(),
    ensures
        r@ == bytes@.subrange(from as int, to as int),
{
    let mut r: Vec<u8> = Vec::new();
    let mut i: usize = from;
    while i < to
        invariant
            from <= i <= to <= bytes@.len(),
            r@ == bytes@.subrange(from as int, i as int),
        decreases to - i,
    {
        r.push(bytes[i]);
        i += 1;
    }
    r
}

// ---------------------------------------------------------------------------
// Percent escapes
// ---------------------------------------------------------------------------

/// The bytes that stand for themselves in a percent-encoded component.
pub open spec fn unreserved(b: u8) -> bool {
    ||| 65 <= b <= 90
    ||| 97 <= b <= 122
    ||| 48 <= b <= 57
    ||| b == 45
    ||| b == 95
    ||| b == 46
    ||| b == 126
}

/// One byte, percent-encoded.
pub open spec fn escaped_byte(b: u8) -> Seq<char> {
    if unreserved(b) {
        seq![b as char]
    } else {
        seq!['%', numbers::upper_digit_char((b / 16) as int), numbers::upper_digit_char((b % 16) as int)]
    }
}

/// The bytes, percent-encoded one by one.
pub open spec fn escaped_bytes(bytes: Seq<u8>) -> Seq<char>
    decreases bytes.len(),
{
    if bytes.len() == 0 {
        Seq::empty()
    } else {
        escaped_byte(bytes[0]) + escaped_bytes(bytes.skip(1))
    }
}

/// The text, percent-encoded byte by byte of its UTF-8 encoding.
pub open spec fn percent_encoded(s: Seq<char>) -> Seq<char> {
    escaped_bytes(encode_utf8(s))
}

/// `value` as one component of a path or an identifier: letters, digits and `-_.~` stand for
/// themselves, every other byte is written as `%XX`.
pub fn percent_encode_component(value: &str) -> (r: String)
    ensures
        r@ == percent_encoded(value@),
{
    let bytes = value.as_bytes();
    let mut r = String::new();
    let mut i: usize = 0;
    proof {
        assert(bytes@.skip(0) =~= bytes@);
        assert(r@ + escaped_bytes(bytes@) =~= escaped_bytes(bytes@));
    }
    while i < bytes.len()
        invariant
            i <= bytes@.len(),
            r@ + escaped_bytes(bytes@.skip(i as int)) == escaped_bytes(bytes@),
        decreases bytes@.len() - i,
    {
        let b = bytes[i];
        let ghost before = r@;
        let ghost rest = bytes@.skip(i as int);
        if (65 <= b && b <= 90) || (97 <= b && b <= 122) || (48 <= b && b <= 57) || b == 45 || b
            == 95 || b == 46 || b == 126 {
            r.push(b as char);
        } else {
            r.push('%');
            r.push(numbers::upper_digit(b / 16));
            r.push(numbers::upper_digit(b % 16));
        }
        proof {
            assert(rest[0] == b);
            assert(rest.skip(1) =~= bytes@.skip(i + 1));
            assert(r@ =~= before + escaped_byte(b));
            assert(before + (escaped_byte(b) + escaped_bytes(rest.skip(1))) =~= r@ + escaped_bytes(
                bytes@.skip(i + 1),
            ));
        }
        i += 1;
    }
    proof {
        assert(bytes@.skip(i as int) =~= Seq::<u8>::empty());
        assert(r@ + Seq::<char>::empty() =~= r@);
    }
    r
}

/// The value of a hexadecimal digit.
pub open spec fn nibble(b: u8) -> Option<u8> {
    if numbers::digit_value(b as char) < 16 {
        Some(numbers::digit_value(b as char) as u8)
    } else {
        None
    }
}

/// The value of a hexadecimal digit of either case.
pub fn hex_value(value: u8) -> (r: Option<u8>)
    ensures
        r == nibble(value),
{
    if 48 <= value && value <= 57 {
        Some((value - 48) as u8)
    } else if 97 <= value && value <= 102 {
        Some((value - 87) as u8)
    } else if 65 <= value && value <= 70 {
        Some((value - 55) as u8)
    } else {
        None
    }
}

/// The bytes with each `%XX` of two hexadecimal digits replaced by the byte that it stands for.
pub open spec fn unescaped(bytes: Seq<u8>) -> Seq<u8>
    decreases bytes.len(),
{
    if bytes.len() == 0 {
        Seq::empty()
    } else if bytes.len() >= 3 && bytes[0] == 37 && nibble(bytes[1]) is Some && nibble(
        bytes[2],
    ) is Some {
        seq![(nibble(bytes[1])->0 * 16 + nibble(bytes[2])->0) as u8] + unescaped(bytes.skip(3))
    } else {
        seq![bytes[0]] + unescaped(bytes.skip(1))
    }
}

/// The text with its percent escapes resolved, or the text itself where what they spell is not
/// valid UTF-8.
pub open spec fn percent_decoded(s: Seq<char>) -> Seq<char> {
    let bytes = unescaped(encode_utf8(s));
    if valid_utf8(bytes) {
        decode_utf8(bytes)
    } else {
        s
    }
}

/// Resolves the percent escapes of `value`. A `%` that two hexadecimal digits do not follow
/// stands for itself, and a text whose escapes do not spell UTF-8 is returned as it is.
pub fn percent_decode_path(value: &str) -> (r: String)
    ensures
        r@ == percent_decoded(value@),
{
    let bytes = value.as_bytes();
    let mut decoded: Vec<u8> = Vec::new();
    let mut i: usize = 0;
    proof {
        assert(bytes@.skip(0) =~= bytes@);
        assert(decoded@ + unescaped(bytes@) =~= unescaped(bytes@));
    }
    while i < bytes.len()
        invariant
            i <= bytes@.len(),
            decoded@ + unescaped(bytes@.skip(i as int)) == unescaped(bytes@),
        decreases bytes@.len() - i,
    {
        let ghost before = decoded@;
        let ghost rest = bytes@.skip(i as int);
        if bytes[i] == 37 && bytes.len() - i > 2 {
            let high = hex_value(bytes[i + 1]);
            let low = hex_value(bytes[i + 2]);
            if let (Some(h), Some(l)) = (high, low) {
                decoded.push(h * 16 + l);
                proof {
                    assert(rest[0] == 37 && rest[1] == bytes@[i + 1] && rest[2] == bytes@[i + 2]);
                    assert(rest.skip(3) =~= bytes@.skip(i + 3));
                    assert(before + (seq![(h * 16 + l) as u8] + unescaped(rest.skip(3)))
                        =~= decoded@ + unescaped(bytes@.skip(i + 3)));
                }
                i += 3;
                continue ;
            }
        }
        decoded.push(bytes[i]);
        proof {
            assert(rest[0] == bytes@[i as int]);
            if rest.len() >= 3 {
                assert(rest[1] == bytes@[i + 1] && rest[2] == bytes@[i + 2]);
            }
            assert(rest.skip(1) =~= bytes@.skip(i + 1));
            assert(before + (seq![rest[0]] + unescaped(rest.skip(1))) =~= decoded@ + unescaped(
                bytes@.skip(i + 1),
            ));
        }
        i += 1;
    }
    proof {
        assert(bytes@.skip(i as int) =~= Seq::<u8>::empty());
        assert(decoded@ + Seq::<u8>::empty() =~= decoded@);
    }
    match utf8_text(decoded) {
        Some(s) => s,
        None => value.to_string(),
    }
}

/// The byte that two characters behind a `%` spell in a query: two hexadecimal digits, or a plus
/// sign and one.
pub open spec fn query_escape(a: u8, b: u8) -> Option<u8> {
    match (nibble(a), nibble(b)) {
        (Some(h), Some(l)) => Some((h * 16 + l) as u8),
        (None, Some(l)) if a == 43 => Some(l),
        _ => None,
    }
}

/// The bytes of a query value as text, one character for each byte: escapes are resolved and a
/// plus sign is a space.
pub open spec fn query_decoded(bytes: Seq<u8>) -> Seq<char>
    decreases bytes.len(),
{
    if bytes.len() == 0 {
        Seq::empty()
    } else if bytes.len() >= 3 && bytes[0] == 37 && query_escape(bytes[1], bytes[2]) is Some {
        seq![query_escape(bytes[1], bytes[2])->0 as char] + query_decoded(bytes.skip(3))
    } else if bytes[0] == 43 {
        seq![' '] + query_decoded(bytes.skip(1))
    } else {
        seq![bytes[0] as char] + query_decoded(bytes.skip(1))
    }
}

/// Resolves the escapes of a query value, byte by byte, without reading UTF-8: each byte of the
/// result is one character of the first 256.
pub fn percent_decode_minimal(input: &str) -> (r: String)
    ensures
        r@ == query_decoded(encode_utf8(input@)),
{
    let bytes = input.as_bytes();
    let mut out = String::new();
    let mut i: usize = 0;
    proof {
        assert(bytes@.skip(0) =~= bytes@);
        assert(out@ + query_decoded(bytes@) =~= query_decoded(bytes@));
    }
    while i < bytes.len()
        invariant
            i <= bytes@.len(),
            out@ + query_decoded(bytes@.skip(i as int)) == query_decoded(bytes@),
        decreases bytes@.len() - i,
    {
        let ghost before = out@;
        let ghost rest = bytes@.skip(i as int);
        let mut escape: Option<u8> = None;
        if bytes[i] == 37 && bytes.len() - i > 2 {
            escape = match (hex_value(bytes[i + 1]), hex_value(bytes[i + 2])) {
                (Some(h), Some(l)) => Some(h * 16 + l),
                (None, Some(l)) => if bytes[i + 1] == 43 {
                    Some(l)
                } else {
                    None
                },
                _ => None,
            };
        }
        proof {
            assert(rest[0] == bytes@[i as int]);
            if rest.len() >= 3 {
                assert(rest[1] == bytes@[i + 1] && rest[2] == bytes@[i + 2]);
                assert(rest[0] == 37 ==> escape == query_escape(rest[1], rest[2]));
            }
        }
        match escape {
            Some(v) => {
                out.push(v as char);
                proof {
                    assert(rest.skip(3) =~= bytes@.skip(i + 3));
                    assert(before + (seq![v as char] + query_decoded(rest.skip(3))) =~= out@
                        + query_decoded(bytes@.skip(i + 3)));
                }
                i += 3;
            },
            None => {
                let c = if bytes[i] == 43 {
                    ' '
                } else {
                    bytes[i] as char
                };
                out.push(c);
                proof {
                    assert(rest.skip(1) =~= bytes@.skip(i + 1));
                    assert(before + (seq![c] + query_decoded(rest.skip(1))) =~= out@
                        + query_decoded(bytes@.skip(i + 1)));
                }
                i += 1;
            },
        }
    }
    proof {
        assert(bytes@.skip(i as int) =~= Seq::<u8>::empty());
        assert(out@ + Seq::<char>::empty() =~= out@);
    }
    out
}

// ---------------------------------------------------------------------------
// Hexadecimal and Base64
// ---------------------------------------------------------------------------

/// Each byte as two lower case hexadecimal digits.
pub open spec fn hex_bytes(bytes: Seq<u8>) -> Seq<char>
    decreases bytes.len(),
{
    if bytes.len() == 0 {
        Seq::empty()
    } else {
        hex_bytes(bytes.drop_last()) + hex_pair(bytes.last())
    }
}

/// One byte as two lower case hexadecimal digits.
pub open spec fn hex_pair(b: u8) -> Seq<char> {
    seq![
        numbers::digit_char((b / 16) as int),
        numbers::digit_char((b % 16) as int),
    ]
}

/// Each byte as two lower case hexadecimal digits.
pub fn hex_lower(bytes: &[u8]) -> (r: String)
    ensures
        r@ == hex_bytes(bytes@),
{
    let mut r = String::new();
    let mut i: usize = 0;
    while i < bytes.len()
        invariant
            i <= bytes@.len(),
            r@ == hex_bytes(bytes@.take(i as int)),
        decreases bytes@.len() - i,
    {
        let ghost before = r@;
        let b = bytes[i];
        r.push(hex_digit(b / 16));
        r.push(hex_digit(b % 16));
        proof {
            assert(bytes@.take(i + 1).drop_last() =~= bytes@.take(i as int));
            assert(r@ =~= before + hex_pair(b));
        }
        i += 1;
    }
    proof {
        assert(bytes@.take(i as int) =~= bytes@);
    }
    r
}

/// The lower case hexadecimal digit `d`.
fn hex_digit(d: u8) -> (r: char)
    requires
        d < 16,
    ensures
        r == numbers::digit_char(d as int),
{
    if d < 10 {
        (48 + d) as char
    } else {
        (87 + d) as char
    }
}

/// The Base64 digit of a six-bit value.
pub open spec fn base64_digit(v: int) -> char {
    if v < 26 {
        (65 + v) as char
    } else if v < 52 {
        (71 + v) as char
    } else if v < 62 {
        (v - 4) as char
    } else if v == 62 {
        '+'
    } else {
        '/'
    }
}

/// The Base64 encoding with padding (RFC 4648): three bytes to four digits, the last group
/// filled up with `=`.
pub open spec fn base64(bytes: Seq<u8>) -> Seq<char>
    decreases bytes.len(),
{
    if bytes.len() == 0 {
        Seq::empty()
    } else {
        base64_group(bytes.take(if bytes.len() < 3 { bytes.len() as int } else { 3 })) + base64(
            bytes.skip(if bytes.len() < 3 { bytes.len() as int } else { 3 }),
        )
    }
}

/// One group of one to three bytes as four characters.
pub open spec fn base64_group(g: Seq<u8>) -> Seq<char> {
    let b0 = g[0] as int;
    let b1 = if g.len() > 1 {
        g[1] as int
    } else {
        0
    };
    let b2 = if g.len() > 2 {
        g[2] as int
    } else {
        0
    };
    seq![
        base64_digit(b0 / 4),
        base64_digit((b0 % 4) * 16 + b1 / 16),
        if g.len() > 1 {
            base64_digit((b1 % 16) * 4 + b2 / 64)
        } else {
            '='
        },
        if g.len() > 2 {
            base64_digit(b2 % 64)
        } else {
            '='
        },
    ]
}

/// The Base64 digit of a six-bit value.
fn base64_char(v: u8) -> (r: char)
    requires
        v < 64,
    ensures
        r == base64_digit(v as int),
{
    if v < 26 {
        (65 + v) as char
    } else if v < 52 {
        (71 + v) as char
    } else if v < 62 {
        (v - 4) as char
    } else if v == 62 {
        '+'
    } else {
        '/'
    }
}

/// The Base64 encoding of `value`, with padding.
pub fn base64_encode(value: &[u8]) -> (r: String)
    ensures
        r@ == base64(value@),
{
    let mut r = String::new();
    let mut i: usize = 0;
    proof {
        assert(value@.skip(0) =~= value@);
        assert(r@ + base64(value@) =~= base64(value@));
    }
    while i < value.len()
        invariant
            i <= value@.len(),
            r@ + base64(value@.skip(i as int)) == base64(value@),
        decreases value@.len() - i,
    {
        let ghost before = r@;
        let ghost rest = value@.skip(i as int);
        let n: usize = if value.len() - i < 3 {
            value.len() - i
        } else {
            3
        };
        let b0: u8 = value[i];
        let b1: u8 = if n > 1 {
            value[i + 1]
        } else {
            0
        };
        let b2: u8 = if n > 2 {
            value[i + 2]
        } else {
            0
        };
        r.push(base64_char(b0 / 4));
        r.push(base64_char((b0 % 4) * 16 + b1 / 16));
        if n > 1 {
            r.push(base64_char((b1 % 16) * 4 + b2 / 64));
        } else {
            r.push('=');
        }
        if n > 2 {
            r.push(base64_char(b2 % 64));
        } else {
            r.push('=');
        }
        proof {
            let g = rest.take(n as int);
            assert(g[0] == b0);
            assert(n > 1 ==> g[1] == b1);
            assert(n > 2 ==> g[2] == b2);
            assert(r@ =~= before + base64_group(g));
            assert(rest.skip(n as int) =~= value@.skip(i + n));
            assert(before + (base64_group(g) + base64(rest.skip(n as int))) =~= r@ + base64(
                value@.skip(i + n),
            ));
        }
        i += n;
    }
    proof {
        assert(value@.skip(i as int) =~= Seq::<u8>::empty());
        assert(r@ + Seq::<char>::empty() =~= r@);
    }
    r
}

// ---------------------------------------------------------------------------
// Laws
// ---------------------------------------------------------------------------

/// A percent-encoded text holds only unreserved characters and escapes: no slash, no colon,
/// no white space, nothing outside ASCII.
pub open spec fn component_char(c: char) -> bool {
    (c as int) < 128 && (c == '%' || unreserved(c as u8))
}

/// Every character of an encoded component is an unreserved character or part of an escape.
pub proof fn law_encoded_component_chars(s: Seq<char>)
    ensures
        forall|i: int|
            0 <= i < percent_encoded(s).len() ==> component_char(#[trigger] percent_encoded(s)[i]),
{
    lemma_escaped_chars(encode_utf8(s));
}

proof fn lemma_escaped_chars(bytes: Seq<u8>)
    ensures
        forall|i: int|
            0 <= i < escaped_bytes(bytes).len() ==> component_char(#[trigger] escaped_bytes(bytes)[i]),
    decreases bytes.len(),
{
    if bytes.len() > 0 {
        lemma_escaped_chars(bytes.skip(1));
        let e = escaped_byte(bytes[0]);
        let t = escaped_bytes(bytes.skip(1));
        assert forall|i: int| 0 <= i < (e + t).len() implies component_char(#[trigger] (e + t)[i]) by {
            if i >= e.len() {
                assert((e + t)[i] == t[i - e.len()]);
            }
        }
    }
}

/// The characters of an ASCII text as bytes.
pub open spec fn ascii_bytes(s: Seq<char>) -> Seq<u8> {
    s.map_values(|c: char| c as u8)
}

/// ASCII text encodes to one byte for each character.
pub proof fn lemma_ascii_utf8(s: Seq<char>)
    requires
        forall|i: int| 0 <= i < s.len() ==> (#[trigger] s[i] as int) < 128,
    ensures
        encode_utf8(s) == ascii_bytes(s),
{
    assert forall|i: int| 0 <= i < s.len() implies '\0' <= #[trigger] s[i] <= '\u{7f}' by {
        text::lemma_char_range(s[i]);
        assert((s[i] as int) < 128);
    }
    assert(is_ascii_chars(s));
    is_ascii_chars_encode_utf8(s);
    assert(encode_utf8(s) =~= ascii_bytes(s));
}

proof fn lemma_unescape_escaped(bytes: Seq<u8>)
    ensures
        unescaped(ascii_bytes(escaped_bytes(bytes))) == bytes,
    decreases bytes.len(),
{
    if bytes.len() > 0 {
        let b = bytes[0];
        let e = ascii_bytes(escaped_byte(b));
        let t = ascii_bytes(escaped_bytes(bytes.skip(1)));
        let all = ascii_bytes(escaped_bytes(bytes));
        assert(all =~= e + t);
        lemma_unescape_escaped(bytes.skip(1));
        assert(bytes =~= seq![b] + bytes.skip(1));
        if unreserved(b) {
            assert(all[0] == b);
            assert(all.skip(1) =~= t);
        } else {
            let h = (b / 16) as int;
            let l = (b % 16) as int;
            assert(all[0] == 37);
            assert(all[1] == numbers::upper_digit_char(h) as u8);
            assert(all[2] == numbers::upper_digit_char(l) as u8);
            assert(nibble(all[1]) == Some(h as u8));
            assert(nibble(all[2]) == Some(l as u8));
            assert(all.skip(3) =~= t);
            assert(h * 16 + l == b);
        }
    } else {
        assert(ascii_bytes(escaped_bytes(bytes)) =~= Seq::<u8>::empty());
        assert(bytes =~= Seq::<u8>::empty());
    }
}

/// Decoding gives back what encoding was given.
pub proof fn law_percent_round_trip(s: Seq<char>)
    ensures
        percent_decoded(percent_encoded(s)) == s,
{
    law_encoded_component_chars(s);
    lemma_ascii_utf8(percent_encoded(s));
    lemma_unescape_escaped(encode_utf8(s));
    encode_utf8_valid_utf8(s);
    encode_utf8_decode_utf8(s);
}

/// A text without a percent sign decodes to itself.
pub proof fn law_decode_without_escapes(s: Seq<char>)
    requires
        !s.contains('%'),
    ensures
        percent_decoded(s) == s,
{
    lemma_no_ascii_byte(s, 37);
    lemma_unescape_nothing(encode_utf8(s));
    encode_utf8_decode_utf8(s);
    encode_utf8_valid_utf8(s);
}

/// The encoding of a text holds the byte of an ASCII character only for that character.
pub proof fn lemma_no_ascii_byte(s: Seq<char>, b: u8)
    requires
        b < 128,
        !s.contains(b as char),
    ensures
        forall|i: int| 0 <= i < encode_utf8(s).len() ==> #[trigger] encode_utf8(s)[i] != b,
    decreases s.len(),
{
    if s.len() > 0 {
        let c = s[0] as u32;
        let rest = s.drop_first();
        assert(rest =~= s.skip(1));
        assert(!rest.contains(b as char)) by {
            if rest.contains(b as char) {
                let j = choose|j: int| 0 <= j < rest.len() && rest[j] == b as char;
                assert(s[j + 1] == b as char);
            }
        }
        lemma_no_ascii_byte(rest, b);
        assert(s.contains(s[0]));
        assert(s[0] != b as char);
        char_is_scalar(s[0]);
        assert(c != b) by {
            char_u32_cast(s[0], c);
        }
        let e = encode_scalar(c);
        lemma_scalar_bytes(c, b);
        assert forall|i: int| 0 <= i < (e + encode_utf8(rest)).len() implies #[trigger] (e
            + encode_utf8(rest))[i] != b by {
            if i >= e.len() {
                assert((e + encode_utf8(rest))[i] == encode_utf8(rest)[i - e.len()]);
            }
        }
    }
}

/// Only an ASCII character has its byte in its encoding.
proof fn lemma_scalar_bytes(c: u32, b: u8)
    requires
        b < 128,
        c != b,
        is_scalar(c),
    ensures
        forall|i: int|
            0 <= i < encode_scalar(c).len() ==> #[trigger] encode_scalar(
                c,
            )[i] != b,
{
    assert((c & 0x7f) as u8 == b ==> c == b || c > 0x7f) by (bit_vector);
    assert(b < 128 ==> 0xc0u8 | ((c >> 6) & 0x1f) as u8 != b) by (bit_vector);
    assert(b < 128 ==> 0xe0u8 | ((c >> 12) & 0x0f) as u8 != b) by (bit_vector);
    assert(b < 128 ==> 0xf0u8 | ((c >> 18) & 0x07) as u8 != b) by (bit_vector);
    assert(b < 128 ==> 0x80u8 | (c & 0x3f) as u8 != b) by (bit_vector);
    assert(b < 128 ==> 0x80u8 | ((c >> 6) & 0x3f) as u8 != b) by (bit_vector);
    assert(b < 128 ==> 0x80u8 | ((c >> 12) & 0x3f) as u8 != b) by (bit_vector);
}

proof fn lemma_unescape_nothing(bytes: Seq<u8>)
    requires
        forall|i: int| 0 <= i < bytes.len() ==> #[trigger] bytes[i] != 37,
    ensures
        unescaped(bytes) == bytes,
    decreases bytes.len(),
{
    if bytes.len() > 0 {
        lemma_unescape_nothing(bytes.skip(1));
        assert(bytes =~= seq![bytes[0]] + bytes.skip(1));
    } else {
        assert(bytes =~= Seq::<u8>::empty());
    }
}

/// The encoding of two texts, one after the other.
pub proof fn lemma_encode_concat(a: Seq<char>, b: Seq<char>)
    ensures
        encode_utf8(a + b) == encode_utf8(a) + encode_utf8(b),
    decreases a.len(),
{
    if a.len() == 0 {
        assert(a + b =~= b);
        assert(encode_utf8(a) + encode_utf8(b) =~= encode_utf8(b));
    } else {
        assert((a + b).drop_first() =~= a.drop_first() + b);
        lemma_encode_concat(a.drop_first(), b);
        assert(encode_utf8(a + b) =~= encode_utf8(a) + encode_utf8(b));
    }
}

/// Resolving the escapes of encoded bytes and of what follows them.
proof fn lemma_unescape_prefix(bytes: Seq<u8>, rest: Seq<u8>)
    ensures
        unescaped(ascii_bytes(escaped_bytes(bytes)) + rest) == bytes + unescaped(rest),
    decreases bytes.len(),
{
    if bytes.len() > 0 {
        let b = bytes[0];
        let e = ascii_bytes(escaped_byte(b));
        let t = ascii_bytes(escaped_bytes(bytes.skip(1)));
        let all = ascii_bytes(escaped_bytes(bytes)) + rest;
        assert(all =~= e + (t + rest));
        lemma_unescape_prefix(bytes.skip(1), rest);
        assert(bytes =~= seq![b] + bytes.skip(1));
        assert(bytes + unescaped(rest) =~= seq![b] + (bytes.skip(1) + unescaped(rest)));
        if unreserved(b) {
            assert(all[0] == b);
            assert(all.skip(1) =~= t + rest);
        } else {
            let h = (b / 16) as int;
            let l = (b % 16) as int;
            assert(all[0] == 37);
            assert(all[1] == numbers::upper_digit_char(h) as u8);
            assert(all[2] == numbers::upper_digit_char(l) as u8);
            assert(nibble(all[1]) == Some(h as u8));
            assert(nibble(all[2]) == Some(l as u8));
            assert(all.skip(3) =~= t + rest);
            assert(h * 16 + l == b);
        }
    } else {
        assert(ascii_bytes(escaped_bytes(bytes)) + rest =~= rest);
        assert(bytes + unescaped(rest) =~= unescaped(rest));
    }
}

/// Resolving the escapes of an encoded text and of what follows it.
pub proof fn lemma_unescape_encoded(s: Seq<char>, rest: Seq<u8>)
    ensures
        unescaped(ascii_bytes(percent_encoded(s)) + rest) == encode_utf8(s) + unescaped(rest),
{
    lemma_unescape_prefix(encode_utf8(s), rest);
}

/// Resolving the escapes of what follows bytes without any.
pub proof fn lemma_unescape_plain(plain: Seq<u8>, rest: Seq<u8>)
    requires
        forall|i: int| 0 <= i < plain.len() ==> #[trigger] plain[i] != 37,
    ensures
        unescaped(plain + rest) == plain + unescaped(rest),
    decreases plain.len(),
{
    if plain.len() > 0 {
        assert((plain + rest).skip(1) =~= plain.skip(1) + rest);
        assert((plain + rest)[0] == plain[0]);
        lemma_unescape_plain(plain.skip(1), rest);
        assert(plain + unescaped(rest) =~= seq![plain[0]] + (plain.skip(1) + unescaped(rest)));
    } else {
        assert(plain + rest =~= rest);
        assert(plain + unescaped(rest) =~= unescaped(rest));
    }
}

/// Decoding gives back a text that was encoded behind a text without a percent sign.
pub proof fn law_decode_behind_plain(plain: Seq<char>, s: Seq<char>)
    requires
        !plain.contains('%'),
    ensures
        percent_decoded(plain + percent_encoded(s)) == plain + s,
{
    let e = percent_encoded(s);
    law_encoded_component_chars(s);
    lemma_ascii_utf8(e);
    lemma_encode_concat(plain, e);
    lemma_no_ascii_byte(plain, 37);
    let none = Seq::<u8>::empty();
    assert(ascii_bytes(e) + none =~= ascii_bytes(e));
    lemma_unescape_encoded(s, none);
    assert(encode_utf8(s) + none =~= encode_utf8(s));
    assert(unescaped(none) =~= none);
    lemma_unescape_plain(encode_utf8(plain), ascii_bytes(e));
    lemma_encode_concat(plain, s);
    encode_utf8_valid_utf8(plain + s);
    encode_utf8_decode_utf8(plain + s);
}

/// A text that decoding leaves as it is stays so behind a text without a percent sign.
pub proof fn lemma_decode_nothing_behind_plain(plain: Seq<char>, s: Seq<char>)
    requires
        !plain.contains('%'),
        percent_decoded(s) == s,
    ensures
        percent_decoded(plain + s) == plain + s,
{
    let before = encode_utf8(plain);
    let u = unescaped(encode_utf8(s));
    lemma_encode_concat(plain, s);
    lemma_no_ascii_byte(plain, 37);
    lemma_unescape_plain(before, encode_utf8(s));
    encode_utf8_valid_utf8(plain);
    if valid_utf8(u) {
        decode_utf8_encode_utf8(u);
        encode_utf8_valid_utf8(plain + s);
        encode_utf8_decode_utf8(plain + s);
    } else {
        let all = before + u;
        assert(all.subrange(0, before.len() as int) =~= before);
        assert(all.subrange(before.len() as int, all.len() as int) =~= u);
        partial_valid_partial_invalid_utf8(all, before.len() as int);
    }
}

/// A text of unreserved characters is its own encoding.
pub proof fn law_encode_unreserved(s: Seq<char>)
    requires
        forall|i: int| 0 <= i < s.len() ==> component_char(#[trigger] s[i]) && s[i] != '%',
    ensures
        percent_encoded(s) == s,
{
    lemma_ascii_utf8(s);
    lemma_escape_unreserved(s);
}

proof fn lemma_escape_unreserved(s: Seq<char>)
    requires
        forall|i: int| 0 <= i < s.len() ==> component_char(#[trigger] s[i]) && s[i] != '%',
    ensures
        escaped_bytes(ascii_bytes(s)) == s,
    decreases s.len(),
{
    if s.len() > 0 {
        assert(component_char(s[0]));
        text::lemma_char_range(s[0]);
        assert(ascii_bytes(s).skip(1) =~= ascii_bytes(s.skip(1)));
        assert forall|i: int| 0 <= i < s.skip(1).len() implies component_char(
            #[trigger] s.skip(1)[i],
        ) && s.skip(1)[i] != '%' by {
            assert(component_char(s[i + 1]));
        }
        lemma_escape_unreserved(s.skip(1));
        assert(escaped_byte(ascii_bytes(s)[0]) =~= seq![s[0]]);
        assert(seq![s[0]] + s.skip(1) =~= s);
    } else {
        assert(escaped_bytes(ascii_bytes(s)) =~= s);
    }
}

/// The length of a Base64 text: four characters for each started group of three bytes.
pub proof fn law_base64_length(bytes: Seq<u8>)
    ensures
        base64(bytes).len() == (bytes.len() + 2) / 3 * 4,
    decreases bytes.len(),
{
    if bytes.len() > 0 {
        let n = if bytes.len() < 3 {
            bytes.len() as int
        } else {
            3
        };
        law_base64_length(bytes.skip(n));
    }
}

/// The six-bit value of a Base64 digit.
pub open spec fn base64_value(c: char) -> int {
    let u = c as int;
    if 65 <= u <= 90 {
        u - 65
    } else if 97 <= u <= 122 {
        u - 71
    } else if 48 <= u <= 57 {
        u + 4
    } else if c == '+' {
        62
    } else {
        63
    }
}

/// The bytes that a padded Base64 text stands for.
pub open spec fn base64_decoded(s: Seq<char>) -> Seq<u8>
    decreases s.len(),
{
    if s.len() < 4 {
        Seq::empty()
    } else {
        base64_group_decoded(s.take(4)) + base64_decoded(s.skip(4))
    }
}

/// The one to three bytes that four Base64 characters stand for.
pub open spec fn base64_group_decoded(g: Seq<char>) -> Seq<u8> {
    let v0 = base64_value(g[0]);
    let v1 = base64_value(g[1]);
    let v2 = base64_value(g[2]);
    let v3 = base64_value(g[3]);
    let b0 = (v0 * 4 + v1 / 16) as u8;
    let b1 = (v1 % 16 * 16 + v2 / 4) as u8;
    let b2 = (v2 % 4 * 64 + v3) as u8;
    if g[2] == '=' {
        seq![b0]
    } else if g[3] == '=' {
        seq![b0, b1]
    } else {
        seq![b0, b1, b2]
    }
}

/// Reading a Base64 text as RFC 4648 says gives back the bytes that were encoded.
pub proof fn law_base64_round_trip(bytes: Seq<u8>)
    ensures
        base64_decoded(base64(bytes)) == bytes,
    decreases bytes.len(),
{
    if bytes.len() > 0 {
        let n = if bytes.len() < 3 {
            bytes.len() as int
        } else {
            3
        };
        let g = bytes.take(n);
        let e = base64_group(g);
        let t = base64(bytes.skip(n));
        law_base64_round_trip(bytes.skip(n));
        assert((e + t).take(4) =~= e);
        assert((e + t).skip(4) =~= t);
        assert(bytes =~= g + bytes.skip(n));
        lemma_base64_group(g);
    } else {
        assert(bytes =~= Seq::<u8>::empty());
    }
}

proof fn lemma_base64_digit(v: int)
    requires
        0 <= v < 64,
    ensures
        base64_value(base64_digit(v)) == v,
        base64_digit(v) != '=',
{
}

proof fn lemma_base64_group(g: Seq<u8>)
    requires
        1 <= g.len() <= 3,
    ensures
        base64_group_decoded(base64_group(g)) == g,
{
    let b0 = g[0] as int;
    let b1 = if g.len() > 1 {
        g[1] as int
    } else {
        0
    };
    let b2 = if g.len() > 2 {
        g[2] as int
    } else {
        0
    };
    lemma_base64_digit(b0 / 4);
    lemma_base64_digit((b0 % 4) * 16 + b1 / 16);
    lemma_base64_digit((b1 % 16) * 4 + b2 / 64);
    lemma_base64_digit(b2 % 64);
    assert(base64_group_decoded(base64_group(g)) =~= g);
}

/// Each byte is written as two digits from which it is read back: the first counts sixteens.
pub proof fn law_hex_is_read_back(bytes: Seq<u8>, i: int)
    requires
        0 <= i < bytes.len(),
    ensures
        hex_bytes(bytes).len() == 2 * bytes.len(),
        numbers::digit_value(hex_bytes(bytes)[2 * i]) * 16 + numbers::digit_value(
            hex_bytes(bytes)[2 * i + 1],
        ) == bytes[i],
        0 <= numbers::digit_value(hex_bytes(bytes)[2 * i]) < 16,
        0 <= numbers::digit_value(hex_bytes(bytes)[2 * i + 1]) < 16,
    decreases bytes.len(),
{
    let front = bytes.drop_last();
    lemma_hex_len(front);
    if i < front.len() {
        law_hex_is_read_back(front, i);
        assert(hex_bytes(bytes)[2 * i] == hex_bytes(front)[2 * i]);
        assert(hex_bytes(bytes)[2 * i + 1] == hex_bytes(front)[2 * i + 1]);
    } else {
        let b = bytes.last();
        assert(hex_bytes(bytes)[2 * i] == numbers::digit_char((b / 16) as int));
        assert(hex_bytes(bytes)[2 * i + 1] == numbers::digit_char((b % 16) as int));
    }
}

proof fn lemma_hex_len(bytes: Seq<u8>)
    ensures
        hex_bytes(bytes).len() == 2 * bytes.len(),
    decreases bytes.len(),
{
    if bytes.len() > 0 {
        lemma_hex_len(bytes.drop_last());
    }
}

/// In a query a byte behind a percent sign is read by its two digits, a plus sign is a space, and
/// any other byte but the percent sign stands for itself.
pub proof fn law_query_is_read(b: u8, c: u8, rest: Seq<u8>)
    ensures
        query_decoded(Seq::empty()).len() == 0,
        query_decoded(
            seq![
                37u8,
                numbers::digit_char((b / 16) as int) as u8,
                numbers::digit_char((b % 16) as int) as u8,
            ] + rest,
        ) == seq![b as char] + query_decoded(rest),
        query_decoded(seq![43u8] + rest) == seq![' '] + query_decoded(rest),
        c != 37 && c != 43 ==> query_decoded(seq![c] + rest) == seq![c as char] + query_decoded(rest),
{
    let h = numbers::digit_char((b / 16) as int) as u8;
    let l = numbers::digit_char((b % 16) as int) as u8;
    let e = seq![37u8, h, l] + rest;
    assert(e[0] == 37 && e[1] == h && e[2] == l);
    assert(e.skip(3) =~= rest);
    assert(h as char == numbers::digit_char((b / 16) as int));
    assert(l as char == numbers::digit_char((b % 16) as int));
    assert(query_escape(h, l) == Some(b));
    let p = seq![43u8] + rest;
    assert(p[0] == 43);
    assert(p.skip(1) =~= rest);
    let o = seq![c] + rest;
    assert(o[0] == c);
    assert(o.skip(1) =~= rest);
}

} // verus!
