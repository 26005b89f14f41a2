//! Numbers as text: decimal and hexadecimal, written and read.
use vstd::prelude::*;

use crate::text::{chars_of, string_of};

verus! {

/// The digit `d` of 0 to 15, in lower case.
pub open spec fn digit_char(d: int) -> char {
    if d < 10 {
        (48 + d) as char
    } else {
        (87 + d) as char
    }
}

/// The digit `d` of 0 to 15, in upper case.
pub open spec fn upper_digit_char(d: int) -> char {
    if d < 10 {
        (48 + d) as char
    } else {
        (55 + d) as char
    }
}

/// The number that the digit `c` stands for in any radix up to 16, or 99 where `c` is no
/// such digit.
pub open spec fn digit_value(c: char) -> int {
    let u = c as int;
    if 48 <= u <= 57 {
        u - 48
    } else if 97 <= u <= 102 {
        u - 87
    } else if 65 <= u <= 70 {
        u - 55
    } else {
        99
    }
}

/// The digit `d`, in lower case.
fn digit(d: u8) -> (r: char)
    requires
        d < 16,
    ensures
        r == digit_char(d as int),
{
    if d < 10 {
        (48 + d) as char
    } else {
        (87 + d) as char
    }
}

/// The digit `d`, in upper case.
pub fn upper_digit(d: u8) -> (r: char)
    requires
        d < 16,
    ensures
        r == upper_digit_char(d as int),
{
    if d < 10 {
        (48 + d) as char
    } else {
        (55 + d) as char
    }
}

/// The digits of `n` in base `radix`, the most significant first.
pub open spec fn digits_of(n: nat, radix: nat) -> Seq<char>
    decreases n,
{
    if radix < 2 || n < radix {
        seq![digit_char(n as int)]
    } else {
        proof {
            assert(n / radix < n) by (nonlinear_arith)
                requires
                    n >= radix,
                    radix >= 2,
            ;
        }
        digits_of(n / radix, radix).push(digit_char((n % radix) as int))
    }
}

/// `n` in decimal.
pub open spec fn dec(n: nat) -> Seq<char> {
    digits_of(n, 10)
}

/// `s` with zeros before it, up to `width` characters.
pub open spec fn zero_padded(s: Seq<char>, width: nat) -> Seq<char> {
    if s.len() >= width {
        s
    } else {
        Seq::new((width - s.len()) as nat, |i: int| '0') + s
    }
}

/// `n` in decimal, with zeros before it up to `width` characters.
pub open spec fn dec_padded(n: nat, width: nat) -> Seq<char> {
    zero_padded(dec(n), width)
}

/// `n` in lower case hexadecimal, with zeros before it up to `width` characters.
pub open spec fn hex_padded(n: nat, width: nat) -> Seq<char> {
    zero_padded(digits_of(n, 16), width)
}

/// The digits of `n` in base `radix`, the most significant first.
fn write_digits(n: u64, radix: u64) -> (r: Vec<char>)
    requires
        2 <= radix <= 16,
    ensures
        r@ == digits_of(n as nat, radix as nat),
    decreases n,
{
    if n < radix {
        let mut r: Vec<char> = Vec::new();
        r.push(digit(n as u8));
        proof {
            assert(r@ =~= seq![digit_char(n as int)]);
        }
        r
    } else {
        proof {
            assert(n / radix < n) by (nonlinear_arith)
                requires
                    n >= radix,
                    radix >= 2,
            ;
        }
        let mut r = write_digits(n / radix, radix);
        r.push(digit((n % radix) as u8));
        r
    }
}

/// `n` in decimal.
pub fn decimal(n: u64) -> (r: String)
    ensures
        r@ == dec(n as nat),
{
    string_of(&write_digits(n, 10))
}

/// The characters `s` with zeros before them.
fn pad(s: &Vec<char>, width: usize) -> (r: String)
    ensures
        r@ == zero_padded(s@, width as nat),
{
    let mut r: String = String::new();
    let mut i: usize = s.len();
    while i < width
        invariant
            s@.len() <= i,
            s@.len() >= width ==> i == s@.len(),
            s@.len() < width ==> i <= width,
            r@ == Seq::new((i - s@.len()) as nat, |j: int| '0'),
        decreases width - i,
    {
        let ghost before = r@;
        r.push('0');
        proof {
            assert(before.push('0') =~= Seq::new((i + 1 - s@.len()) as nat, |j: int| '0'));
        }
        i += 1;
    }
    r.push_str(&string_of(s));
    proof {
        if s@.len() >= width {
            assert(Seq::new(0, |j: int| '0') + s@ =~= s@);
        }
    }
    r
}

/// `n` in decimal, with zeros before it up to `width` characters.
pub fn padded_decimal(n: u64, width: usize) -> (r: String)
    ensures
        r@ == dec_padded(n as nat, width as nat),
{
    pad(&write_digits(n, 10), width)
}

/// `n` in lower case hexadecimal, with zeros before it up to `width` characters.
pub fn padded_hex(n: u64, width: usize) -> (r: String)
    ensures
        r@ == hex_padded(n as nat, width as nat),
{
    pad(&write_digits(n, 16), width)
}

/// A number in decimal, with a minus sign where it is negative.
pub open spec fn signed_dec(n: int) -> Seq<char> {
    if n < 0 {
        seq!['-'] + dec((-n) as nat)
    } else {
        dec(n as nat)
    }
}

/// A number in decimal, with a minus sign where it is negative.
pub fn signed_decimal(n: i64) -> (r: String)
    ensures
        r@ == signed_dec(n as int),
{
    if n < 0 {
        let size: u64 = ((-1i64 - n) as u64) + 1;
        let mut r = String::new();
        r.push('-');
        r.push_str(&decimal(size));
        proof {
            assert(Seq::<char>::empty().push('-') =~= seq!['-']);
        }
        r
    } else {
        decimal(n as u64)
    }
}

// ---------------------------------------------------------------------------
// Reading
// ---------------------------------------------------------------------------

/// Whether all of `s` are digits in base `radix`.
pub open spec fn all_digits(s: Seq<char>, radix: nat) -> bool {
    forall|i: int| 0 <= i < s.len() ==> digit_value(#[trigger] s[i]) < radix
}

/// The number that the digits `s` stand for in base `radix`.
pub open spec fn radix_value(s: Seq<char>, radix: nat) -> nat
    decreases s.len(),
{
    if s.len() == 0 {
        0
    } else {
        (radix_value(s.drop_last(), radix) * radix + digit_value(s.last())) as nat
    }
}

/// `s` without one plus sign at its start.
pub open spec fn unsigned_part(s: Seq<char>) -> Seq<char> {
    if s.len() > 0 && s[0] == '+' {
        s.skip(1)
    } else {
        s
    }
}

/// The unsigned number that `s` spells in base `radix`: an optional plus sign, then at
/// least one digit and nothing else, of a value up to `max`.
pub open spec fn parse_uint(s: Seq<char>, radix: nat, max: nat) -> Option<nat> {
    let d = unsigned_part(s);
    if d.len() > 0 && all_digits(d, radix) && radix_value(d, radix) <= max {
        Some(radix_value(d, radix))
    } else {
        None
    }
}

/// A number does not get smaller by digits written behind it.
proof fn lemma_value_grows(s: Seq<char>, n: int, radix: nat)
    requires
        0 <= n <= s.len(),
        radix >= 1,
    ensures
        radix_value(s.take(n), radix) <= radix_value(s, radix),
    decreases s.len() - n,
{
    if n == s.len() {
        assert(s.take(n) =~= s);
    } else {
        lemma_value_grows(s, n + 1, radix);
        let a = s.take(n + 1);
        assert(a.drop_last() =~= s.take(n));
        let v = radix_value(s.take(n), radix);
        assert(v * radix >= v) by (nonlinear_arith)
            requires
                radix >= 1,
        ;
        assert(digit_value(a.last()) >= 0);
    }
}

/// The number that the digit `c` stands for, or 99.
fn value_of_digit(c: char) -> (r: u64)
    ensures
        r == digit_value(c),
{
    let u: u32 = c as u32;
    if 48 <= u && u <= 57 {
        (u - 48) as u64
    } else if 97 <= u && u <= 102 {
        (u - 87) as u64
    } else if 65 <= u && u <= 70 {
        (u - 55) as u64
    } else {
        99
    }
}

/// Reads an unsigned number of at most `max` in base `radix`.
pub fn parse_radix(s: &str, radix: u64, max: u64) -> (r: Option<u64>)
    requires
        2 <= radix <= 16,
    ensures
        match r {
            Some(n) => parse_uint(s@, radix as nat, max as nat) == Some(n as nat),
            None => parse_uint(s@, radix as nat, max as nat) is None,
        },
{
    let v = chars_of(s);
    let from: usize = if v.len() > 0 && v[0] == '+' {
        1
    } else {
        0
    };
    let ghost d = unsigned_part(v@);
    proof {
        assert(d =~= v@.skip(from as int));
    }
    if from == v.len() {
        return None;
    }
    let mut acc: u64 = 0;
    let mut i: usize = from;
    while i < v.len()
        invariant
            v@ == s@,
            d == unsigned_part(v@),
            d == v@.skip(from as int),
            2 <= radix <= 16,
            from <= i <= v@.len(),
            from < v@.len(),
            all_digits(d.take(i - from), radix as nat),
            acc == radix_value(d.take(i - from), radix as nat),
            acc <= max,
        decreases v@.len() - i,
    {
        let x = value_of_digit(v[i]);
        let ghost k = i - from;
        proof {
            assert(d[k] == v@[i as int]);
            assert(d.take(k + 1).drop_last() =~= d.take(k));
            assert(d.take(k + 1).last() == d[k]);
        }
        if x >= radix {
            return None;
        }
        proof {
            assert(radix_value(d.take(k + 1), radix as nat) == acc * radix + x);
            lemma_value_grows(d, k + 1, radix as nat);
        }
        let scaled = match acc.checked_mul(radix) {
            Some(p) => p,
            None => {
                return None;
            },
        };
        let next = match scaled.checked_add(x) {
            Some(p) => p,
            None => {
                return None;
            },
        };
        if next > max {
            return None;
        }
        proof {
            assert(all_digits(d.take(k + 1), radix as nat)) by {
                assert forall|j: int| 0 <= j < k + 1 implies digit_value(
                    #[trigger] d.take(k + 1)[j],
                ) < radix by {
                    if j < k {
                        assert(d.take(k)[j] == d.take(k + 1)[j]);
                    }
                }
            }
        }
        acc = next;
        i += 1;
    }
    proof {
        assert(d.take(i - from) =~= d);
    }
    Some(acc)
}

/// The decimal number that `s` spells, where it fits in 64 bits.
pub fn parse_u64(s: &str) -> (r: Option<u64>)
    ensures
        match r {
            Some(n) => parse_uint(s@, 10, u64::MAX as nat) == Some(n as nat),
            None => parse_uint(s@, 10, u64::MAX as nat) is None,
        },
{
    parse_radix(s, 10, u64::MAX)
}

/// The decimal number that `s` spells, where it fits in 16 bits.
pub fn parse_u16(s: &str) -> (r: Option<u16>)
    ensures
        match r {
            Some(n) => parse_uint(s@, 10, u16::MAX as nat) == Some(n as nat),
            None => parse_uint(s@, 10, u16::MAX as nat) is None,
        },
{
    match parse_radix(s, 10, 65535) {
        Some(n) => Some(n as u16),
        None => None,
    }
}

/// The number that `s` spells in base `radix`, where it is a machine size.
pub fn parse_usize_radix(s: &str, radix: u64) -> (r: Option<usize>)
    requires
        2 <= radix <= 16,
    ensures
        match r {
            Some(n) => parse_uint(s@, radix as nat, usize::MAX as nat) == Some(n as nat),
            None => parse_uint(s@, radix as nat, usize::MAX as nat) is None,
        },
{
    match parse_radix(s, radix, usize::MAX as u64) {
        Some(n) => Some(n as usize),
        None => None,
    }
}

/// The decimal number that `s` spells, where it is a machine size.
pub fn parse_usize(s: &str) -> (r: Option<usize>)
    ensures
        match r {
            Some(n) => parse_uint(s@, 10, usize::MAX as nat) == Some(n as nat),
            None => parse_uint(s@, 10, usize::MAX as nat) is None,
        },
{
    parse_usize_radix(s, 10)
}

// ---------------------------------------------------------------------------
// Laws
// ---------------------------------------------------------------------------

/// The digits of a number are digits, there is at least one, and they stand for the number.
pub proof fn lemma_digits_of(n: nat, radix: nat)
    requires
        2 <= radix <= 16,
    ensures
        digits_of(n, radix).len() > 0,
        all_digits(digits_of(n, radix), radix),
        radix_value(digits_of(n, radix), radix) == n,
    decreases n,
{
    let s = digits_of(n, radix);
    if n < radix {
        assert(s.drop_last() =~= Seq::<char>::empty());
        assert(radix_value(s.drop_last(), radix) == 0);
        assert(radix_value(s, radix) == n) by {
            assert(0 * radix == 0) by (nonlinear_arith);
        }
    } else {
        assert(n / radix < n) by (nonlinear_arith)
            requires
                n >= radix,
                radix >= 2,
        ;
        lemma_digits_of(n / radix, radix);
        let t = digits_of(n / radix, radix);
        let d = (n % radix) as int;
        assert(0 <= d < radix) by (nonlinear_arith)
            requires
                radix >= 2,
                d == n % radix,
        ;
        assert(s.drop_last() =~= t);
        assert(s.last() == digit_char(d));
        assert(digit_value(digit_char(d)) == d);
        assert(n == (n / radix) * radix + n % radix) by (nonlinear_arith)
            requires
                radix >= 2,
        ;
        assert forall|i: int| 0 <= i < s.len() implies digit_value(#[trigger] s[i]) < radix by {
            if i < t.len() {
                assert(s[i] == t[i]);
            }
        }
    }
}

/// Zeros before digits are digits and do not change the number.
pub proof fn lemma_zero_padded(s: Seq<char>, width: nat, radix: nat)
    requires
        2 <= radix <= 16,
        all_digits(s, radix),
    ensures
        all_digits(zero_padded(s, width), radix),
        radix_value(zero_padded(s, width), radix) == radix_value(s, radix),
    decreases s.len(),
{
    let p = zero_padded(s, width);
    if s.len() < width {
        let z = Seq::new((width - s.len()) as nat, |i: int| '0');
        assert forall|i: int| 0 <= i < p.len() implies digit_value(#[trigger] p[i]) < radix by {
            if i >= z.len() {
                assert(p[i] == s[i - z.len()]);
            }
        }
        lemma_zeros_before(z, s, radix);
    }
}

/// A text of zeros before `s` does not change the number that `s` stands for.
proof fn lemma_zeros_before(z: Seq<char>, s: Seq<char>, radix: nat)
    requires
        2 <= radix <= 16,
        forall|i: int| 0 <= i < z.len() ==> z[i] == '0',
    ensures
        radix_value(z + s, radix) == radix_value(s, radix),
    decreases z.len() + s.len(),
{
    let p = z + s;
    if s.len() > 0 {
        assert(p.drop_last() =~= z + s.drop_last());
        lemma_zeros_before(z, s.drop_last(), radix);
    } else if z.len() > 0 {
        assert(p =~= z);
        assert(z =~= z.drop_last() + seq!['0']);
        assert(z.drop_last() + Seq::<char>::empty() =~= z.drop_last());
        lemma_zeros_before(z.drop_last(), s, radix);
        assert(z.drop_last() + s =~= z.drop_last());
        assert(0 * radix == 0) by (nonlinear_arith);
    } else {
        assert(p =~= s);
    }
}

/// Reading gives back what was written: a number in decimal, padded with zeros or not, is
/// read as that number wherever it is within the bound.
pub proof fn law_parse_of_dec(n: nat, width: nat, max: nat)
    requires
        n <= max,
    ensures
        parse_uint(dec(n), 10, max) == Some(n),
        parse_uint(dec_padded(n, width), 10, max) == Some(n),
{
    lemma_digits_of(n, 10);
    lemma_zero_padded(dec(n), width, 10);
    lemma_no_sign(dec(n), 10);
    lemma_no_sign(dec_padded(n, width), 10);
}

/// Digits do not start with a sign.
pub proof fn lemma_no_sign(s: Seq<char>, radix: nat)
    requires
        2 <= radix <= 16,
        s.len() > 0,
        all_digits(s, radix),
    ensures
        unsigned_part(s) == s,
{
    assert(digit_value(s[0]) < radix);
}

} // verus!
