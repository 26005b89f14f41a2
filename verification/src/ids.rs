//! Identifiers that are derived from texts.
use vstd::prelude::*;
use vstd::std_specs::hash::*;
use vstd::utf8::*;

use sha1::Digest;
use std::collections::hash_map::DefaultHasher;
use std::hash::Hasher;

use crate::encoding;
use crate::numbers;

verus! {

/// The SHA-1 digest of bytes, as the crate `sha1` computes it.
pub uninterp spec fn sha1_of(bytes: Seq<u8>) -> Seq<u8>;

/// `Sha1::new`, `update` and `finalize` of the crate `sha1`: the digest of the bytes, which has
/// 20 bytes and depends on them alone. The digest itself is named and not restated.
#[verifier::external_body]
fn sha1_digest(bytes: &[u8]) -> (r: Vec<u8>)
    ensures
        r@ == sha1_of(bytes@),
        r@.len() == 20,
{
    let mut hasher = sha1::Sha1::new();
    hasher.update(bytes);
    hasher.finalize().to_vec()
}

/// The identifier of the item at a URL: the first eight bytes of the SHA-1 digest of the URL, in
/// lower case hexadecimal.
pub open spec fn item_id(url: Seq<char>) -> Seq<char> {
    encoding::hex_bytes(sha1_of(encode_utf8(url)).take(8))
}

/// The identifier of the item at `url`, of 16 hexadecimal digits.
pub fn item_id_for_url(url: &str) -> (r: String)
    ensures
        r@ == item_id(url@),
        r@.len() == 16,
{
    let digest = sha1_digest(url.as_bytes());
    let start = encoding::byte_range(&digest, 0, 8);
    proof {
        assert(start@ =~= digest@.take(8));
        lemma_hex_length(start@);
    }
    encoding::hex_lower(&start)
}

/// The identifier of the item at `source_url`, of 16 hexadecimal digits.
pub fn stable_item_id(source_url: &str) -> (r: String)
    ensures
        r@ == item_id(source_url@),
        r@.len() == 16,
{
    item_id_for_url(source_url)
}

/// Two digits for each byte.
pub proof fn lemma_hex_length(bytes: Seq<u8>)
    ensures
        encoding::hex_bytes(bytes).len() == 2 * bytes.len(),
    decreases bytes.len(),
{
    if bytes.len() > 0 {
        lemma_hex_length(bytes.drop_last());
    }
}

/// The hash of a file of a phone: that of the folder, a zero byte and the path.
pub open spec fn cache_hash(phone_folder: Seq<char>, target_path: Seq<char>) -> u64 {
    DefaultHasher::spec_finish(
        seq![encode_utf8(phone_folder), seq![0u8], encode_utf8(target_path)],
    )
}

/// The name under which the beginning of a phone's file is cached: a hash of 16 hexadecimal
/// digits.
pub fn cache_key(phone_folder: &str, target_path: &str) -> (r: String)
    ensures
        r@ == numbers::hex_padded(cache_hash(phone_folder@, target_path@) as nat, 16),
{
    let mut hasher = DefaultHasher::new();
    hasher.write(phone_folder.as_bytes());
    let zero: [u8; 1] = [0];
    hasher.write(&zero);
    hasher.write(target_path.as_bytes());
    proof {
        assert(zero@ =~= seq![0u8]);
        assert(hasher@ =~= seq![encode_utf8(phone_folder@), seq![0u8], encode_utf8(target_path@)]);
    }
    numbers::padded_hex(hasher.finish(), 16)
}

/// The parts of a UUID made of two hashes.
pub open spec fn uuid_of(a: u64, b: u64) -> Seq<char> {
    numbers::hex_padded((a / 0x1_0000_0000) as nat, 8) + "-"@ + numbers::hex_padded(
        (a / 0x1_0000 % 0x1_0000) as nat,
        4,
    ) + "-"@ + numbers::hex_padded((a % 0x1_0000) as nat, 4) + "-"@ + numbers::hex_padded(
        (b / 0x1_0000_0000_0000) as nat,
        4,
    ) + "-"@ + numbers::hex_padded((b % 0x1_0000_0000_0000) as nat, 12)
}

/// The UUID that stands for a text.
pub open spec fn uuid_for(value: Seq<char>) -> Seq<char> {
    uuid_of(
        DefaultHasher::spec_finish(seq![encode_utf8(value)]),
        DefaultHasher::spec_finish(seq![encode_utf8("troozn-upnp"@), encode_utf8(value)]),
    )
}

/// A UUID that depends on `value` alone: two hashes of it, written in hexadecimal.
pub fn deterministic_uuid(value: &str) -> (r: String)
    ensures
        r@ == uuid_for(value@),
{
    let mut first = DefaultHasher::new();
    first.write(value.as_bytes());
    let a: u64 = first.finish();
    let mut second = DefaultHasher::new();
    second.write("troozn-upnp".as_bytes());
    second.write(value.as_bytes());
    let b: u64 = second.finish();
    proof {
        assert(first@ =~= seq![encode_utf8(value@)]);
        assert(second@ =~= seq![encode_utf8("troozn-upnp"@), encode_utf8(value@)]);
    }
    let mut r = numbers::padded_hex(a / 0x1_0000_0000, 8);
    r.push_str("-");
    r.push_str(&numbers::padded_hex(a / 0x1_0000 % 0x1_0000, 4));
    r.push_str("-");
    r.push_str(&numbers::padded_hex(a % 0x1_0000, 4));
    r.push_str("-");
    r.push_str(&numbers::padded_hex(b / 0x1_0000_0000_0000, 4));
    r.push_str("-");
    r.push_str(&numbers::padded_hex(b % 0x1_0000_0000_0000, 12));
    r
}

// ---------------------------------------------------------------------------
// Laws
// ---------------------------------------------------------------------------

/// A number below a power of the radix has no more digits than that power.
proof fn lemma_digit_count(n: nat, width: nat)
    requires
        width >= 1,
        n < vstd::arithmetic::power::pow(16, width),
    ensures
        numbers::digits_of(n, 16).len() <= width,
    decreases width,
{
    if n >= 16 {
        if width == 1 {
            assert(vstd::arithmetic::power::pow(16, 1) == 16) by {
                reveal_with_fuel(vstd::arithmetic::power::pow, 3);
            }
        } else {
            assert(vstd::arithmetic::power::pow(16, width) == 16 * vstd::arithmetic::power::pow(
                16,
                (width - 1) as nat,
            )) by {
                reveal_with_fuel(vstd::arithmetic::power::pow, 2);
            }
            lemma_digit_count(n / 16, (width - 1) as nat);
        }
    }
}

/// The digits of hexadecimal numbers, in lower case.
pub open spec fn hex_digit(c: char) -> bool {
    '0' <= c <= '9' || 'a' <= c <= 'f'
}

/// Hexadecimal numbers are written in these digits.
proof fn lemma_hex_digits(n: nat)
    ensures
        forall|i: int|
            0 <= i < numbers::digits_of(n, 16).len() ==> hex_digit(
                #[trigger] numbers::digits_of(n, 16)[i],
            ),
    decreases n,
{
    let s = numbers::digits_of(n, 16);
    if n >= 16 {
        lemma_hex_digits(n / 16);
        let front = numbers::digits_of(n / 16, 16);
        assert forall|i: int| 0 <= i < s.len() implies hex_digit(#[trigger] s[i]) by {
            if i < front.len() {
                assert(s[i] == front[i]);
            } else {
                assert(s[i] == numbers::digit_char((n % 16) as int));
            }
        }
    } else {
        assert(s =~= seq![numbers::digit_char(n as int)]);
    }
}

/// A number that fits is written in just so many of these digits.
proof fn lemma_hex_padded(n: nat, width: nat)
    requires
        width >= 1,
        n < vstd::arithmetic::power::pow(16, width),
    ensures
        numbers::hex_padded(n, width).len() == width,
        forall|i: int| 0 <= i < width ==> hex_digit(#[trigger] numbers::hex_padded(n, width)[i]),
{
    lemma_digit_count(n, width);
    lemma_hex_digits(n);
    let s = numbers::digits_of(n, 16);
    let p = numbers::hex_padded(n, width);
    assert forall|i: int| 0 <= i < width implies hex_digit(#[trigger] p[i]) by {
        if i >= width - s.len() {
            assert(p[i] == s[i - (width - s.len())]);
        }
    }
}

/// A UUID has 36 characters: hyphens after 8, 13, 18 and 23 of them, and lower case hexadecimal
/// digits at all other places.
pub proof fn law_uuid_shape(value: Seq<char>)
    ensures
        uuid_for(value).len() == 36,
        uuid_for(value)[8] == '-',
        uuid_for(value)[13] == '-',
        uuid_for(value)[18] == '-',
        uuid_for(value)[23] == '-',
        forall|i: int|
            0 <= i < 36 && i != 8 && i != 13 && i != 18 && i != 23 ==> hex_digit(
                #[trigger] uuid_for(value)[i],
            ),
{
    let a = DefaultHasher::spec_finish(seq![encode_utf8(value)]);
    let b = DefaultHasher::spec_finish(seq![encode_utf8("troozn-upnp"@), encode_utf8(value)]);
    reveal_strlit("-");
    assert(vstd::arithmetic::power::pow(16, 8) == 0x1_0000_0000 && vstd::arithmetic::power::pow(
        16,
        4,
    ) == 0x1_0000 && vstd::arithmetic::power::pow(16, 12) == 0x1_0000_0000_0000) by {
        reveal_with_fuel(vstd::arithmetic::power::pow, 13);
    }
    let p1 = numbers::hex_padded((a / 0x1_0000_0000) as nat, 8);
    let p2 = numbers::hex_padded((a / 0x1_0000 % 0x1_0000) as nat, 4);
    let p3 = numbers::hex_padded((a % 0x1_0000) as nat, 4);
    let p4 = numbers::hex_padded((b / 0x1_0000_0000_0000) as nat, 4);
    let p5 = numbers::hex_padded((b % 0x1_0000_0000_0000) as nat, 12);
    lemma_hex_padded((a / 0x1_0000_0000) as nat, 8);
    lemma_hex_padded((a / 0x1_0000 % 0x1_0000) as nat, 4);
    lemma_hex_padded((a % 0x1_0000) as nat, 4);
    lemma_hex_padded((b / 0x1_0000_0000_0000) as nat, 4);
    lemma_hex_padded((b % 0x1_0000_0000_0000) as nat, 12);
    let u = uuid_for(value);
    assert forall|i: int|
        0 <= i < 36 && i != 8 && i != 13 && i != 18 && i != 23 implies hex_digit(
        #[trigger] u[i],
    ) by {
        if i < 8 {
            assert(u[i] == p1[i]);
        } else if i < 13 {
            assert(u[i] == p2[i - 9]);
        } else if i < 18 {
            assert(u[i] == p3[i - 14]);
        } else if i < 23 {
            assert(u[i] == p4[i - 19]);
        } else {
            assert(u[i] == p5[i - 24]);
        }
    }
}

/// The cache name of a file has 16 characters, whatever the file.
pub proof fn law_cache_key_length(phone_folder: Seq<char>, target_path: Seq<char>)
    ensures
        numbers::hex_padded(cache_hash(phone_folder, target_path) as nat, 16).len() == 16,
{
    assert(vstd::arithmetic::power::pow(16, 16) == 0x1_0000_0000_0000_0000) by {
        reveal_with_fuel(vstd::arithmetic::power::pow, 17);
    }
    lemma_digit_count(cache_hash(phone_folder, target_path) as nat, 16);
}

/// A UUID tells both hashes: the digits of its first three parts are those of the first, and the
/// digits of the other two are those of the second.
pub proof fn law_uuid_tells_hashes(a: u64, b: u64)
    ensures
        ({
            let u = uuid_of(a, b);
            &&& u.len() == 36
            &&& numbers::radix_value(u.subrange(0, 8), 16) * 0x1_0000_0000 + numbers::radix_value(
                u.subrange(9, 13),
                16,
            ) * 0x1_0000 + numbers::radix_value(u.subrange(14, 18), 16) == a
            &&& numbers::radix_value(u.subrange(19, 23), 16) * 0x1_0000_0000_0000
                + numbers::radix_value(u.subrange(24, 36), 16) == b
        }),
{
    reveal_strlit("-");
    assert(vstd::arithmetic::power::pow(16, 8) == 0x1_0000_0000 && vstd::arithmetic::power::pow(
        16,
        4,
    ) == 0x1_0000 && vstd::arithmetic::power::pow(16, 12) == 0x1_0000_0000_0000) by {
        reveal_with_fuel(vstd::arithmetic::power::pow, 13);
    }
    let n1 = (a / 0x1_0000_0000) as nat;
    let n2 = (a / 0x1_0000 % 0x1_0000) as nat;
    let n3 = (a % 0x1_0000) as nat;
    let n4 = (b / 0x1_0000_0000_0000) as nat;
    let n5 = (b % 0x1_0000_0000_0000) as nat;
    lemma_hex_padded(n1, 8);
    lemma_hex_padded(n2, 4);
    lemma_hex_padded(n3, 4);
    lemma_hex_padded(n4, 4);
    lemma_hex_padded(n5, 12);
    lemma_hex_value(n1, 8);
    lemma_hex_value(n2, 4);
    lemma_hex_value(n3, 4);
    lemma_hex_value(n4, 4);
    lemma_hex_value(n5, 12);
    let u = uuid_of(a, b);
    assert(u.subrange(0, 8) =~= numbers::hex_padded(n1, 8));
    assert(u.subrange(9, 13) =~= numbers::hex_padded(n2, 4));
    assert(u.subrange(14, 18) =~= numbers::hex_padded(n3, 4));
    assert(u.subrange(19, 23) =~= numbers::hex_padded(n4, 4));
    assert(u.subrange(24, 36) =~= numbers::hex_padded(n5, 12));
}

/// Hexadecimal digits stand for the number that they were made of.
proof fn lemma_hex_value(n: nat, width: nat)
    ensures
        numbers::radix_value(numbers::hex_padded(n, width), 16) == n,
{
    numbers::lemma_digits_of(n, 16);
    numbers::lemma_zero_padded(numbers::digits_of(n, 16), width, 16);
}

/// The identifier of an item holds the first eight bytes of the digest of its link, two digits for
/// each.
pub proof fn law_identifier_is_start_of_digest(url: Seq<char>, i: int)
    requires
        sha1_of(encode_utf8(url)).len() >= 8,
        0 <= i < 8,
    ensures
        item_id(url).len() == 16,
        numbers::digit_value(item_id(url)[2 * i]) * 16 + numbers::digit_value(
            item_id(url)[2 * i + 1],
        ) == sha1_of(encode_utf8(url))[i],
{
    encoding::law_hex_is_read_back(sha1_of(encode_utf8(url)).take(8), i);
}

/// What is hashed for a file names its folder and its path, with a zero byte between them.
pub proof fn law_hashed_name_of_file(phone_folder: Seq<char>, target_path: Seq<char>)
    ensures
        cache_hash(phone_folder, target_path) == DefaultHasher::spec_finish(
            seq![encode_utf8(phone_folder)].push(seq![0u8]).push(encode_utf8(target_path)),
        ),
        numbers::radix_value(
            numbers::hex_padded(cache_hash(phone_folder, target_path) as nat, 16),
            16,
        ) == cache_hash(phone_folder, target_path),
{
    assert(seq![encode_utf8(phone_folder)].push(seq![0u8]).push(encode_utf8(target_path)) =~= seq![
        encode_utf8(phone_folder),
        seq![0u8],
        encode_utf8(target_path),
    ]);
    lemma_hex_value(cache_hash(phone_folder, target_path) as nat, 16);
}

} // verus!
