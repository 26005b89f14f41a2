//! Text primitives: searching, trimming, splitting, joining and replacing.
//!
//! A string is modelled by the sequence of its characters (`s@`). Every function
//! here states its result as a spec function over such sequences, and the rest of
//! the crate builds its own contracts from those spec functions.
use vstd::prelude::*;

verus! {

/// `String::push` of std: the character is appended to the end of the string.
pub assume_specification[ String::push ](s: &mut String, c: char)
    ensures
        final(s)@ == old(s)@.push(c),
;

/// `String::push_str` of std: the slice is appended to the end of the string.
pub assume_specification[ String::push_str ](s: &mut String, suffix: &str)
    ensures
        final(s)@ == old(s)@ + suffix@,
;

/// `str::to_lowercase` of std, named: the Unicode lowercase mapping of a text.
pub uninterp spec fn unicode_lowercase(s: Seq<char>) -> Seq<char>;

/// `char::is_alphanumeric` of std, named: the Unicode alphabetic or numeric characters.
pub uninterp spec fn unicode_alphanumeric(c: char) -> bool;

/// `char::is_alphanumeric` of std, whose Unicode tables are named, not restated: the result
/// depends on the character alone, and of ASCII it holds of the letters and digits.
pub assume_specification[ char::is_alphanumeric ](c: char) -> (r: bool)
    ensures
        r == unicode_alphanumeric(c),
        (c as int) < 128 ==> r == ascii_alphanumeric(c),
;

/// Calls `str::to_lowercase` of std, whose Unicode tables are named, not restated: the result
/// depends on the text alone, and in an ASCII text only the capitals change.
#[verifier::external_body]
pub(crate) fn lowercase(s: &str) -> (r: String)
    ensures
        r@ == unicode_lowercase(s@),
        vstd::utf8::is_ascii_chars(s@) ==> r@ == ascii_lower(s@),
{
    s.to_lowercase()
}

// ---------------------------------------------------------------------------
// Characters
// ---------------------------------------------------------------------------

/// The characters with the Unicode `White_Space` property.
pub open spec fn white_space(c: char) -> bool {
    let u = c as u32;
    ||| 0x09 <= u <= 0x0d
    ||| u == 0x20
    ||| u == 0x85
    ||| u == 0xa0
    ||| u == 0x1680
    ||| 0x2000 <= u <= 0x200a
    ||| u == 0x2028
    ||| u == 0x2029
    ||| u == 0x202f
    ||| u == 0x205f
    ||| u == 0x3000
}

/// Whether `c` has the Unicode `White_Space` property.
pub fn is_white_space(c: char) -> (r: bool)
    ensures
        r == white_space(c),
{
    let u: u32 = c as u32;
    (0x09 <= u && u <= 0x0d) || u == 0x20 || u == 0x85 || u == 0xa0 || u == 0x1680 || (0x2000 <= u
        && u <= 0x200a) || u == 0x2028 || u == 0x2029 || u == 0x202f || u == 0x205f || u == 0x3000
}

/// The control characters: Unicode general category `Cc`.
pub open spec fn control(c: char) -> bool {
    let u = c as u32;
    u <= 0x1f || 0x7f <= u <= 0x9f
}

/// Whether `c` is a control character.
pub fn is_control(c: char) -> (r: bool)
    ensures
        r == control(c),
{
    let u: u32 = c as u32;
    u <= 0x1f || (0x7f <= u && u <= 0x9f)
}

/// The ASCII digits.
pub open spec fn ascii_digit(c: char) -> bool {
    '0' <= c <= '9'
}

/// Whether `c` is an ASCII digit.
pub fn is_ascii_digit(c: char) -> (r: bool)
    ensures
        r == ascii_digit(c),
{
    '0' <= c && c <= '9'
}

/// The ASCII letters and digits.
pub open spec fn ascii_alphanumeric(c: char) -> bool {
    ascii_digit(c) || 'a' <= c <= 'z' || 'A' <= c <= 'Z'
}

/// Whether `c` is an ASCII letter or digit.
pub fn is_ascii_alphanumeric(c: char) -> (r: bool)
    ensures
        r == ascii_alphanumeric(c),
{
    is_ascii_digit(c) || ('a' <= c && c <= 'z') || ('A' <= c && c <= 'Z')
}

/// `c`, an ASCII capital replaced by its small letter.
pub open spec fn lower_char(c: char) -> char {
    if 'A' <= c <= 'Z' {
        ((c as u8) + 32) as char
    } else {
        c
    }
}

/// `c`, an ASCII small letter replaced by its capital.
pub open spec fn upper_char(c: char) -> char {
    if 'a' <= c <= 'z' {
        ((c as u8) - 32) as char
    } else {
        c
    }
}

/// `c` with an ASCII capital turned into its small letter.
pub fn to_lower_char(c: char) -> (r: char)
    ensures
        r == lower_char(c),
{
    if 'A' <= c && c <= 'Z' {
        ((c as u8) + 32) as char
    } else {
        c
    }
}

/// `c` with an ASCII small letter turned into its capital.
pub fn to_upper_char(c: char) -> (r: char)
    ensures
        r == upper_char(c),
{
    if 'a' <= c && c <= 'z' {
        ((c as u8) - 32) as char
    } else {
        c
    }
}

/// The code points lie between 0 and 0x10ffff.
pub proof fn lemma_char_range(c: char)
    ensures
        0 <= c as int <= 0x10ffff,
{
}

/// A set of characters, as the trimming and splitting functions take it.
#[derive(Clone, Copy, Debug)]
pub enum CharSet {
    /// White space.
    White,
    /// One character.
    Only(char),
    /// Either of two characters.
    Pair(char, char),
    /// One of three characters.
    Three(char, char, char),
    /// One of four characters.
    Four(char, char, char, char),
}

impl CharSet {
    /// Whether the set holds `c`.
    pub open spec fn has(self, c: char) -> bool {
        match self {
            CharSet::White => white_space(c),
            CharSet::Only(a) => c == a,
            CharSet::Pair(a, b) => c == a || c == b,
            CharSet::Three(a, b, d) => c == a || c == b || c == d,
            CharSet::Four(a, b, d, e) => c == a || c == b || c == d || c == e,
        }
    }

    /// Whether the set holds `c`.
    pub fn holds(&self, c: char) -> (r: bool)
        ensures
            r == self.has(c),
    {
        match *self {
            CharSet::White => is_white_space(c),
            CharSet::Only(a) => c == a,
            CharSet::Pair(a, b) => c == a || c == b,
            CharSet::Three(a, b, d) => c == a || c == b || c == d,
            CharSet::Four(a, b, d, e) => c == a || c == b || c == d || c == e,
        }
    }
}

// ---------------------------------------------------------------------------
// Strings and their characters
// ---------------------------------------------------------------------------

/// The characters of `s`, in order.
pub fn chars_of(s: &str) -> (r: Vec<char>)
    ensures
        r@ == s@,
{
    let mut r: Vec<char> = Vec::new();
    for c in it: s.chars()
        invariant
            it.seq() == s@,
            r@ == it.seq().take(it.index()),
    {
        r.push(c);
    }
    r
}

/// The string made of the characters `from..to` of `chars`.
pub fn substring(chars: &Vec<char>, from: usize, to: usize) -> (r: String)
    requires
        from <= to <= chars@.len(),
    ensures
        r@ == chars@.subrange(from as int, to as int),
{
    let mut r = String::new();
    let mut i: usize = from;
    while i < to
        invariant
            from <= i <= to <= chars@.len(),
            r@ == chars@.subrange(from as int, i as int),
        decreases to - i,
    {
        r.push(chars[i]);
        i += 1;
    }
    r
}

/// The string made of `chars`.
pub fn string_of(chars: &Vec<char>) -> (r: String)
    ensures
        r@ == chars@,
{
    let r = substring(chars, 0, chars.len());
    assert(chars@.subrange(0, chars@.len() as int) =~= chars@);
    r
}

/// An owned copy of `s`.
pub fn owned(s: &str) -> (r: String)
    ensures
        r@ == s@,
{
    s.to_string()
}

/// Whether the two texts are the same.
pub fn same(a: &str, b: &str) -> (r: bool)
    ensures
        r == (a@ == b@),
{
    let x = chars_of(a);
    let y = chars_of(b);
    if x.len() != y.len() {
        return false;
    }
    let mut i: usize = 0;
    while i < x.len()
        invariant
            x@ == a@,
            y@ == b@,
            x@.len() == y@.len(),
            i <= x@.len(),
            x@.take(i as int) == y@.take(i as int),
        decreases x@.len() - i,
    {
        if x[i] != y[i] {
            return false;
        }
        proof {
            assert(x@.take(i + 1) =~= x@.take(i as int).push(x@[i as int]));
            assert(y@.take(i + 1) =~= y@.take(i as int).push(y@[i as int]));
        }
        i += 1;
    }
    proof {
        assert(x@.take(i as int) =~= x@);
        assert(y@.take(i as int) =~= y@);
    }
    true
}

/// The number of bytes that the UTF-8 encoding of `s` takes.
pub fn byte_len(s: &str) -> (r: usize)
    ensures
        r == vstd::utf8::encode_utf8(s@).len(),
{
    s.as_bytes().len()
}

/// The two texts, one after the other.
pub fn concat2(a: &str, b: &str) -> (r: String)
    ensures
        r@ == a@ + b@,
{
    let mut r = owned(a);
    r.push_str(b);
    r
}

/// The three texts, one after the other.
pub fn concat3(a: &str, b: &str, c: &str) -> (r: String)
    ensures
        r@ == a@ + b@ + c@,
{
    let mut r = owned(a);
    r.push_str(b);
    r.push_str(c);
    r
}

/// The first `n` characters of `s`, or all of it where it is shorter.
pub open spec fn first_chars(s: Seq<char>, n: int) -> Seq<char> {
    if s.len() <= n {
        s
    } else {
        s.take(n)
    }
}

/// The first `n` characters of `s`, or all of it where it is shorter.
pub fn take_chars(s: &str, n: usize) -> (r: String)
    ensures
        r@ == first_chars(s@, n as int),
{
    let v = chars_of(s);
    if v.len() <= n {
        string_of(&v)
    } else {
        substring(&v, 0, n)
    }
}

/// The texts that a vector of strings holds.
pub open spec fn texts(v: Seq<String>) -> Seq<Seq<char>> {
    v.map_values(|s: String| s@)
}

/// The text in an optional string.
pub open spec fn text_in(o: Option<String>) -> Option<Seq<char>> {
    match o {
        Some(s) => Some(s@),
        None => None,
    }
}

// ---------------------------------------------------------------------------
// Case
// ---------------------------------------------------------------------------

/// `s` with its ASCII capitals turned into small letters.
pub open spec fn ascii_lower(s: Seq<char>) -> Seq<char> {
    s.map_values(|c: char| lower_char(c))
}

/// `s` with its ASCII small letters turned into capitals.
pub open spec fn ascii_upper(s: Seq<char>) -> Seq<char> {
    s.map_values(|c: char| upper_char(c))
}

/// `s` with its ASCII capitals turned into small letters.
pub fn to_ascii_lower(s: &str) -> (r: String)
    ensures
        r@ == ascii_lower(s@),
{
    let v = chars_of(s);
    let mut r = String::new();
    let mut i: usize = 0;
    while i < v.len()
        invariant
            v@ == s@,
            i <= v@.len(),
            r@ == ascii_lower(v@.take(i as int)),
        decreases v@.len() - i,
    {
        r.push(to_lower_char(v[i]));
        proof {
            assert(ascii_lower(v@.take(i + 1)) =~= ascii_lower(v@.take(i as int)).push(
                lower_char(v@[i as int]),
            ));
        }
        i += 1;
    }
    proof {
        assert(v@.take(i as int) =~= v@);
    }
    r
}

/// `s` with its ASCII small letters turned into capitals.
pub fn to_ascii_upper(s: &str) -> (r: String)
    ensures
        r@ == ascii_upper(s@),
{
    let v = chars_of(s);
    let mut r = String::new();
    let mut i: usize = 0;
    while i < v.len()
        invariant
            v@ == s@,
            i <= v@.len(),
            r@ == ascii_upper(v@.take(i as int)),
        decreases v@.len() - i,
    {
        r.push(to_upper_char(v[i]));
        proof {
            assert(ascii_upper(v@.take(i + 1)) =~= ascii_upper(v@.take(i as int)).push(
                upper_char(v@[i as int]),
            ));
        }
        i += 1;
    }
    proof {
        assert(v@.take(i as int) =~= v@);
    }
    r
}

// ---------------------------------------------------------------------------
// Prefixes, suffixes and occurrences
// ---------------------------------------------------------------------------

/// Whether `pat` stands in `s` at position `i`.
pub open spec fn occurs_at(s: Seq<char>, pat: Seq<char>, i: int) -> bool {
    0 <= i && i + pat.len() <= s.len() && s.subrange(i, i + pat.len()) == pat
}

/// Whether `s` begins with `pat`.
pub open spec fn begins(s: Seq<char>, pat: Seq<char>) -> bool {
    occurs_at(s, pat, 0)
}

/// Whether `s` ends with `pat`.
pub open spec fn ends(s: Seq<char>, pat: Seq<char>) -> bool {
    occurs_at(s, pat, s.len() - pat.len())
}

/// Whether `pat` stands somewhere in `s`.
pub open spec fn has_part(s: Seq<char>, pat: Seq<char>) -> bool {
    exists|i: int| #[trigger] occurs_at(s, pat, i)
}

/// The first position at or after `from` where `pat` stands in `s`.
pub open spec fn find_from(s: Seq<char>, pat: Seq<char>, from: int) -> Option<int>
    decreases s.len() + 1 - from,
{
    if from < 0 || from > s.len() {
        None
    } else if occurs_at(s, pat, from) {
        Some(from)
    } else {
        find_from(s, pat, from + 1)
    }
}

/// The first position where `pat` stands in `s`.
pub open spec fn find_spec(s: Seq<char>, pat: Seq<char>) -> Option<int> {
    find_from(s, pat, 0)
}

/// What `find_from` returns: the least position at or after `from`, if there is one.
pub proof fn lemma_find_from(s: Seq<char>, pat: Seq<char>, from: int)
    requires
        0 <= from,
    ensures
        match find_from(s, pat, from) {
            Some(i) => from <= i && occurs_at(s, pat, i) && forall|j: int|
                from <= j < i ==> !#[trigger] occurs_at(s, pat, j),
            None => forall|j: int| from <= j ==> !#[trigger] occurs_at(s, pat, j),
        },
    decreases s.len() + 1 - from,
{
    if from > s.len() {
    } else if occurs_at(s, pat, from) {
    } else {
        lemma_find_from(s, pat, from + 1);
    }
}

/// A text holds a part exactly where a search for it from the start succeeds.
pub proof fn lemma_has_part(s: Seq<char>, pat: Seq<char>)
    ensures
        has_part(s, pat) == (find_spec(s, pat) is Some),
{
    lemma_find_from(s, pat, 0);
}

/// A part of a text is a part of every text that holds the text.
pub proof fn lemma_part_within(before: Seq<char>, s: Seq<char>, after: Seq<char>, pat: Seq<char>)
    requires
        has_part(s, pat),
    ensures
        has_part(before + s + after, pat),
{
    let i = choose|i: int| occurs_at(s, pat, i);
    let whole = before + s + after;
    let k = before.len() + i;
    assert(whole.subrange(k, k + pat.len()) =~= s.subrange(i, i + pat.len()));
    assert(occurs_at(whole, pat, k));
}

/// Whether `pat` stands in `s` at position `i`.
fn matches_at(s: &Vec<char>, pat: &Vec<char>, i: usize) -> (r: bool)
    ensures
        r == occurs_at(s@, pat@, i as int),
{
    if i > s.len() || s.len() - i < pat.len() {
        return false;
    }
    let mut k: usize = 0;
    while k < pat.len()
        invariant
            i <= s@.len(),
            s@.len() - i >= pat@.len(),
            s@.len() <= usize::MAX,
            k <= pat@.len(),
            forall|j: int| 0 <= j < k ==> s@[i + j] == pat@[j],
        decreases pat@.len() - k,
    {
        if s[i + k] != pat[k] {
            proof {
                assert(s@.subrange(i as int, i + pat@.len())[k as int] != pat@[k as int]);
            }
            return false;
        }
        k += 1;
    }
    proof {
        assert(s@.subrange(i as int, i + pat@.len()) =~= pat@);
    }
    true
}

/// The first position at or after `from` where `pat` stands in `s`.
pub fn find_in(s: &Vec<char>, pat: &Vec<char>, from: usize) -> (r: Option<usize>)
    ensures
        match r {
            Some(i) => find_from(s@, pat@, from as int) == Some(i as int),
            None => find_from(s@, pat@, from as int) is None,
        },
{
    let mut i: usize = from;
    while i <= s.len()
        invariant
            from <= i,
            from > s@.len() || i <= s@.len() + 1,
            find_from(s@, pat@, from as int) == find_from(s@, pat@, i as int),
        decreases s@.len() + 1 - i,
    {
        if matches_at(s, pat, i) {
            return Some(i);
        }
        if i == s.len() {
            proof {
                reveal_with_fuel(find_from, 2);
            }
            return None;
        }
        i += 1;
    }
    None
}

/// The position, counted in characters, where `pat` first stands in `s`.
pub fn find(s: &str, pat: &str) -> (r: Option<usize>)
    ensures
        match r {
            Some(i) => find_spec(s@, pat@) == Some(i as int) && i + pat@.len() <= s@.len(),
            None => find_spec(s@, pat@) is None,
        },
{
    let v = chars_of(s);
    let p = chars_of(pat);
    proof {
        lemma_find_from(s@, pat@, 0);
    }
    find_in(&v, &p, 0)
}

/// Whether `pat` stands somewhere in `s`.
pub fn contains(s: &str, pat: &str) -> (r: bool)
    ensures
        r == has_part(s@, pat@),
{
    proof {
        lemma_has_part(s@, pat@);
    }
    find(s, pat).is_some()
}

/// Whether `c` stands somewhere in `s`.
pub fn contains_char(s: &str, c: char) -> (r: bool)
    ensures
        r == s@.contains(c),
{
    let v = chars_of(s);
    let mut i: usize = 0;
    while i < v.len()
        invariant
            v@ == s@,
            i <= v@.len(),
            forall|j: int| 0 <= j < i ==> v@[j] != c,
        decreases v@.len() - i,
    {
        if v[i] == c {
            return true;
        }
        i += 1;
    }
    false
}

/// Whether `s` begins with `pat`.
pub fn starts_with(s: &str, pat: &str) -> (r: bool)
    ensures
        r == begins(s@, pat@),
{
    matches_at(&chars_of(s), &chars_of(pat), 0)
}

/// Whether `s` ends with `pat`.
pub fn ends_with(s: &str, pat: &str) -> (r: bool)
    ensures
        r == ends(s@, pat@),
{
    let v = chars_of(s);
    let p = chars_of(pat);
    if v.len() < p.len() {
        return false;
    }
    matches_at(&v, &p, v.len() - p.len())
}

/// What follows `pat` in `s`, where `s` begins with it.
pub open spec fn without_prefix(s: Seq<char>, pat: Seq<char>) -> Option<Seq<char>> {
    if begins(s, pat) {
        Some(s.skip(pat.len() as int))
    } else {
        None
    }
}

/// What follows `pat` in `s`, where `s` begins with it.
pub fn strip_prefix(s: &str, pat: &str) -> (r: Option<String>)
    ensures
        text_in(r) == without_prefix(s@, pat@),
{
    let v = chars_of(s);
    let p = chars_of(pat);
    if matches_at(&v, &p, 0) {
        proof {
            assert(v@.subrange(p@.len() as int, v@.len() as int) =~= v@.skip(p@.len() as int));
        }
        Some(substring(&v, p.len(), v.len()))
    } else {
        None
    }
}

/// `s` without every `pat` at its end.
pub open spec fn without_suffixes(s: Seq<char>, pat: Seq<char>) -> Seq<char>
    decreases s.len(),
{
    if pat.len() > 0 && ends(s, pat) {
        without_suffixes(s.take(s.len() - pat.len()), pat)
    } else {
        s
    }
}

/// `s` without every `pat` at its end.
pub fn strip_suffixes(s: &str, pat: &str) -> (r: String)
    requires
        pat@.len() > 0,
    ensures
        r@ == without_suffixes(s@, pat@),
{
    let v = chars_of(s);
    let p = chars_of(pat);
    let mut n: usize = v.len();
    proof {
        assert(v@.take(n as int) =~= v@);
    }
    while n >= p.len() && ends_at(&v, &p, n)
        invariant
            v@ == s@,
            p@ == pat@,
            p@.len() > 0,
            n <= v@.len(),
            without_suffixes(v@, p@) == without_suffixes(v@.take(n as int), p@),
        decreases n,
    {
        proof {
            assert(v@.take(n as int).take(n - p@.len()) =~= v@.take(n - p@.len()));
        }
        n -= p.len();
    }
    proof {
        assert(v@.subrange(0, n as int) =~= v@.take(n as int));
    }
    substring(&v, 0, n)
}

/// Whether the first `n` characters of `v` end with `p`.
fn ends_at(v: &Vec<char>, p: &Vec<char>, n: usize) -> (r: bool)
    requires
        n <= v@.len(),
    ensures
        r == ends(v@.take(n as int), p@),
{
    if n < p.len() {
        return false;
    }
    proof {
        assert(v@.take(n as int).subrange(n - p@.len(), n as int) =~= v@.subrange(
            n - p@.len(),
            n as int,
        ));
    }
    matches_at(v, p, n - p.len())
}

/// `s` without every `pat` at its start.
pub open spec fn without_prefixes(s: Seq<char>, pat: Seq<char>) -> Seq<char>
    decreases s.len(),
{
    if pat.len() > 0 && begins(s, pat) {
        without_prefixes(s.skip(pat.len() as int), pat)
    } else {
        s
    }
}

/// `s` without every `pat` at its start.
pub fn strip_prefixes(s: &str, pat: &str) -> (r: String)
    requires
        pat@.len() > 0,
    ensures
        r@ == without_prefixes(s@, pat@),
{
    let v = chars_of(s);
    let p = chars_of(pat);
    let mut n: usize = 0;
    proof {
        assert(v@.skip(0) =~= v@);
    }
    while n <= v.len() && matches_at(&v, &p, n)
        invariant
            v@ == s@,
            p@ == pat@,
            p@.len() > 0,
            n <= v@.len(),
            without_prefixes(v@, p@) == without_prefixes(v@.skip(n as int), p@),
        decreases v@.len() - n,
    {
        proof {
            assert(v@.skip(n as int).subrange(0, p@.len() as int) =~= v@.subrange(
                n as int,
                n + p@.len(),
            ));
            assert(v@.skip(n as int).skip(p@.len() as int) =~= v@.skip(n + p@.len()));
        }
        n += p.len();
    }
    proof {
        if begins(v@.skip(n as int), p@) {
            assert(v@.skip(n as int).subrange(0, p@.len() as int) =~= v@.subrange(
                n as int,
                n + p@.len(),
            ));
        }
        assert(v@.subrange(n as int, v@.len() as int) =~= v@.skip(n as int));
    }
    substring(&v, n, v.len())
}

// ---------------------------------------------------------------------------
// Trimming
// ---------------------------------------------------------------------------

/// `s` without the characters of `set` at its start.
pub open spec fn trim_start(s: Seq<char>, set: CharSet) -> Seq<char>
    decreases s.len(),
{
    if s.len() > 0 && set.has(s[0]) {
        trim_start(s.skip(1), set)
    } else {
        s
    }
}

/// `s` without the characters of `set` at its end.
pub open spec fn trim_end(s: Seq<char>, set: CharSet) -> Seq<char>
    decreases s.len(),
{
    if s.len() > 0 && set.has(s.last()) {
        trim_end(s.drop_last(), set)
    } else {
        s
    }
}

/// `s` without the characters of `set` at either end.
pub open spec fn trim_ends(s: Seq<char>, set: CharSet) -> Seq<char> {
    trim_end(trim_start(s, set), set)
}

/// `s` without white space at either end.
pub open spec fn trimmed(s: Seq<char>) -> Seq<char> {
    trim_ends(s, CharSet::White)
}

/// The number of characters of `set` at the start of `v`.
fn start_run(v: &Vec<char>, set: CharSet) -> (n: usize)
    ensures
        n <= v@.len(),
        trim_start(v@, set) == v@.skip(n as int),
{
    let mut n: usize = 0;
    proof {
        assert(v@.skip(0) =~= v@);
    }
    while n < v.len() && set.holds(v[n])
        invariant
            n <= v@.len(),
            trim_start(v@, set) == trim_start(v@.skip(n as int), set),
        decreases v@.len() - n,
    {
        proof {
            assert(v@.skip(n as int).skip(1) =~= v@.skip(n + 1));
        }
        n += 1;
    }
    n
}

/// The end of `v[from..]` without the characters of `set` at its end.
fn end_run(v: &Vec<char>, from: usize, set: CharSet) -> (n: usize)
    requires
        from <= v@.len(),
    ensures
        from <= n <= v@.len(),
        trim_end(v@.skip(from as int), set) == v@.subrange(from as int, n as int),
{
    let mut n: usize = v.len();
    proof {
        assert(v@.subrange(from as int, n as int) =~= v@.skip(from as int));
    }
    while n > from && set.holds(v[n - 1])
        invariant
            from <= n <= v@.len(),
            trim_end(v@.skip(from as int), set) == trim_end(v@.subrange(from as int, n as int), set),
        decreases n,
    {
        proof {
            assert(v@.subrange(from as int, n as int).drop_last() =~= v@.subrange(
                from as int,
                n - 1,
            ));
        }
        n -= 1;
    }
    n
}

/// `s` without the characters of `set` at its start.
pub fn strip_start(s: &str, set: CharSet) -> (r: String)
    ensures
        r@ == trim_start(s@, set),
{
    let v = chars_of(s);
    let n = start_run(&v, set);
    proof {
        assert(v@.subrange(n as int, v@.len() as int) =~= v@.skip(n as int));
    }
    substring(&v, n, v.len())
}

/// `s` without the characters of `set` at its end.
pub fn strip_end(s: &str, set: CharSet) -> (r: String)
    ensures
        r@ == trim_end(s@, set),
{
    let v = chars_of(s);
    let n = end_run(&v, 0, set);
    proof {
        assert(v@.skip(0) =~= v@);
    }
    substring(&v, 0, n)
}

/// `s` without the characters of `set` at either end.
pub fn strip_ends(s: &str, set: CharSet) -> (r: String)
    ensures
        r@ == trim_ends(s@, set),
{
    let v = chars_of(s);
    let from = start_run(&v, set);
    let to = end_run(&v, from, set);
    substring(&v, from, to)
}

/// `s` without white space at either end.
pub fn trim(s: &str) -> (r: String)
    ensures
        r@ == trimmed(s@),
{
    strip_ends(s, CharSet::White)
}

// ---------------------------------------------------------------------------
// Splitting
// ---------------------------------------------------------------------------

/// The number of characters before the first character of `set`, or the length of `s`.
pub open spec fn until(s: Seq<char>, set: CharSet) -> int
    decreases s.len(),
{
    if s.len() == 0 || set.has(s[0]) {
        0
    } else {
        1 + until(s.skip(1), set)
    }
}

/// What `until` counts.
pub proof fn lemma_until(s: Seq<char>, set: CharSet)
    ensures
        0 <= until(s, set) <= s.len(),
        until(s, set) < s.len() ==> set.has(s[until(s, set)]),
        forall|j: int| 0 <= j < until(s, set) ==> !set.has(#[trigger] s[j]),
    decreases s.len(),
{
    if s.len() == 0 || set.has(s[0]) {
    } else {
        lemma_until(s.skip(1), set);
        assert forall|j: int| 0 <= j < until(s, set) implies !set.has(#[trigger] s[j]) by {
            if j > 0 {
                assert(s[j] == s.skip(1)[j - 1]);
            }
        }
    }
}

/// The count is the only one with its two properties.
pub proof fn lemma_until_is(s: Seq<char>, set: CharSet, n: int)
    requires
        0 <= n <= s.len(),
        n < s.len() ==> set.has(s[n]),
        forall|j: int| 0 <= j < n ==> !set.has(#[trigger] s[j]),
    ensures
        until(s, set) == n,
{
    lemma_until(s, set);
    let m = until(s, set);
    if m < n {
        assert(set.has(s[m]));
    }
    if n < m {
        assert(set.has(s[n]));
    }
}

/// The part of `s` before the first character of `set`, or all of it.
pub open spec fn head(s: Seq<char>, set: CharSet) -> Seq<char> {
    s.take(until(s, set))
}

/// The parts of `s` between the characters of `set`.
pub open spec fn parts(s: Seq<char>, set: CharSet) -> Seq<Seq<char>>
    decreases s.len(),
    via parts_decreases
{
    let n = until(s, set);
    if n < s.len() {
        seq![s.take(n)] + parts(s.skip(n + 1), set)
    } else {
        seq![s]
    }
}

#[via_fn]
proof fn parts_decreases(s: Seq<char>, set: CharSet) {
    lemma_until(s, set);
}

/// The position of the first character of `set` at or after `from`, or the length of `v`.
fn scan(v: &Vec<char>, from: usize, set: CharSet) -> (n: usize)
    requires
        from <= v@.len(),
    ensures
        from <= n <= v@.len(),
        n == from + until(v@.skip(from as int), set),
{
    let mut n: usize = from;
    while n < v.len() && !set.holds(v[n])
        invariant
            from <= n <= v@.len(),
            forall|j: int| from <= j < n ==> !set.has(#[trigger] v@[j]),
        decreases v@.len() - n,
    {
        n += 1;
    }
    proof {
        lemma_until_is(v@.skip(from as int), set, n - from);
    }
    n
}

/// The part of `s` before the first character of `set`, or all of it.
pub fn head_of(s: &str, set: CharSet) -> (r: String)
    ensures
        r@ == head(s@, set),
{
    let v = chars_of(s);
    let n = scan(&v, 0, set);
    proof {
        assert(v@.skip(0) =~= v@);
        assert(v@.subrange(0, n as int) =~= v@.take(n as int));
    }
    substring(&v, 0, n)
}

/// The parts of `s` between the characters of `set`.
pub fn split(s: &str, set: CharSet) -> (r: Vec<String>)
    ensures
        texts(r@) == parts(s@, set),
{
    let v = chars_of(s);
    let mut r: Vec<String> = Vec::new();
    let mut from: usize = 0;
    proof {
        assert(v@.skip(0) =~= v@);
        assert(texts(r@) + parts(v@, set) =~= parts(v@, set));
    }
    loop
        invariant_except_break
            v@ == s@,
            from <= v@.len(),
            texts(r@) + parts(v@.skip(from as int), set) == parts(v@, set),
        ensures
            texts(r@) == parts(v@, set),
        decreases v@.len() - from,
    {
        let n = scan(&v, from, set);
        let part = substring(&v, from, n);
        let ghost before = texts(r@);
        let ghost rest = v@.skip(from as int);
        r.push(part);
        proof {
            assert(texts(r@) =~= before.push(part@));
            assert(part@ =~= rest.take(n - from));
        }
        if n == v.len() {
            proof {
                assert(part@ =~= rest);
                assert(before + seq![rest] =~= before.push(rest));
            }
            break;
        }
        proof {
            assert(rest.skip(n - from + 1) =~= v@.skip(n + 1));
            assert(before + (seq![rest.take(n - from)] + parts(v@.skip(n + 1), set))
                =~= before.push(part@) + parts(v@.skip(n + 1), set));
        }
        from = n + 1;
    }
    r
}

/// The two parts of `s` around the first character of `set`.
pub open spec fn cut(s: Seq<char>, set: CharSet) -> Option<(Seq<char>, Seq<char>)> {
    let n = until(s, set);
    if n < s.len() {
        Some((s.take(n), s.skip(n + 1)))
    } else {
        None
    }
}

/// The two parts of `s` around the first character of `set`.
pub fn split_once(s: &str, set: CharSet) -> (r: Option<(String, String)>)
    ensures
        match r {
            Some((a, b)) => cut(s@, set) == Some((a@, b@)),
            None => cut(s@, set) is None,
        },
{
    let v = chars_of(s);
    let n = scan(&v, 0, set);
    proof {
        assert(v@.skip(0) =~= v@);
    }
    if n == v.len() {
        return None;
    }
    let a = substring(&v, 0, n);
    let b = substring(&v, n + 1, v.len());
    proof {
        assert(a@ =~= v@.take(n as int));
        assert(b@ =~= v@.skip(n + 1));
    }
    Some((a, b))
}

/// The part of `s` after the last character of `set`, or all of it.
pub open spec fn tail(s: Seq<char>, set: CharSet) -> Seq<char>
    decreases s.len(),
{
    if s.len() == 0 || set.has(s.last()) {
        Seq::empty()
    } else {
        tail(s.drop_last(), set).push(s.last())
    }
}

/// The part of `s` after the last character of `set`, or all of it.
pub fn tail_of(s: &str, set: CharSet) -> (r: String)
    ensures
        r@ == tail(s@, set),
{
    let v = chars_of(s);
    let mut n: usize = v.len();
    proof {
        assert(v@.take(n as int) =~= v@);
        assert(tail(v@, set) =~= tail(v@.take(n as int), set) + v@.skip(n as int));
    }
    while n > 0 && !set.holds(v[n - 1])
        invariant
            v@ == s@,
            n <= v@.len(),
            tail(v@, set) == tail(v@.take(n as int), set) + v@.skip(n as int),
        decreases n,
    {
        proof {
            let t = v@.take(n as int);
            assert(t.drop_last() =~= v@.take(n - 1));
            assert(tail(t, set) == tail(v@.take(n - 1), set).push(v@[n - 1]));
            assert(tail(v@.take(n - 1), set).push(v@[n - 1]) + v@.skip(n as int) =~= tail(
                v@.take(n - 1),
                set,
            ) + v@.skip(n - 1));
        }
        n -= 1;
    }
    proof {
        assert(tail(v@.take(n as int), set) =~= Seq::<char>::empty());
        assert(v@.subrange(n as int, v@.len() as int) =~= v@.skip(n as int));
        assert(Seq::<char>::empty() + v@.skip(n as int) =~= v@.skip(n as int));
    }
    substring(&v, n, v.len())
}

// ---------------------------------------------------------------------------
// Selecting and joining
// ---------------------------------------------------------------------------

/// The parts that are not empty.
pub open spec fn nonempty(p: Seq<Seq<char>>) -> Seq<Seq<char>> {
    p.filter(|s: Seq<char>| s.len() > 0)
}

/// The runs of characters of `s` that are no white space.
pub open spec fn words(s: Seq<char>) -> Seq<Seq<char>> {
    nonempty(parts(s, CharSet::White))
}

/// The runs of characters of `s` that are no white space.
pub fn split_whitespace(s: &str) -> (r: Vec<String>)
    ensures
        texts(r@) == words(s@),
{
    let all = split(s, CharSet::White);
    let mut r: Vec<String> = Vec::new();
    let mut i: usize = 0;
    let ghost keep = |s: Seq<char>| s.len() > 0;
    proof {
        assert(texts(r@) =~= nonempty(texts(all@).take(0)));
    }
    while i < all.len()
        invariant
            i <= all@.len(),
            keep == (|s: Seq<char>| s.len() > 0),
            texts(all@) == parts(s@, CharSet::White),
            texts(r@) == texts(all@).take(i as int).filter(keep),
        decreases all@.len() - i,
    {
        let ghost before = texts(r@);
        let ghost t = texts(all@);
        proof {
            lemma_filter_push(t.take(i as int), t[i as int], keep);
            assert(t.take(i + 1) =~= t.take(i as int).push(t[i as int]));
        }
        if !all[i].as_str().is_empty() {
            r.push(all[i].clone());
            proof {
                assert(texts(r@) =~= before.push(t[i as int]));
            }
        }
        i += 1;
    }
    proof {
        assert(texts(all@).take(i as int) =~= texts(all@));
    }
    r
}

/// Filtering a sequence with one more element.
pub proof fn lemma_filter_push<A>(s: Seq<A>, a: A, keep: spec_fn(A) -> bool)
    ensures
        s.push(a).filter(keep) == if keep(a) {
            s.filter(keep).push(a)
        } else {
            s.filter(keep)
        },
{
    reveal(Seq::filter);
    assert(s.push(a).drop_last() =~= s);
}

/// The first word of `s`, or the empty text where it has none.
pub open spec fn first_word(s: Seq<char>) -> Seq<char> {
    head(trim_start(s, CharSet::White), CharSet::White)
}

/// The parts one after the other, with `sep` between each two.
pub open spec fn joined(p: Seq<Seq<char>>, sep: Seq<char>) -> Seq<char>
    decreases p.len(),
{
    if p.len() == 0 {
        Seq::empty()
    } else if p.len() == 1 {
        p[0]
    } else {
        joined(p.drop_last(), sep) + sep + p.last()
    }
}

/// The strings one after the other, with `sep` between each two.
pub fn join(p: &Vec<String>, sep: &str) -> (r: String)
    ensures
        r@ == joined(texts(p@), sep@),
{
    let mut r = String::new();
    let mut i: usize = 0;
    while i < p.len()
        invariant
            i <= p@.len(),
            r@ == joined(texts(p@).take(i as int), sep@),
        decreases p@.len() - i,
    {
        proof {
            let t = texts(p@);
            assert(t.take(i + 1).drop_last() =~= t.take(i as int));
            assert(t.take(i + 1).last() == t[i as int]);
        }
        if i > 0 {
            r.push_str(sep);
        }
        r.push_str(&p[i]);
        i += 1;
    }
    proof {
        assert(texts(p@).take(i as int) =~= texts(p@));
    }
    r
}

// ---------------------------------------------------------------------------
// Replacing
// ---------------------------------------------------------------------------

/// Each character of `s` replaced by the text that `f` gives for it.
pub open spec fn substituted(s: Seq<char>, f: spec_fn(char) -> Seq<char>) -> Seq<char>
    decreases s.len(),
{
    if s.len() == 0 {
        Seq::empty()
    } else {
        substituted(s.drop_last(), f) + f(s.last())
    }
}

/// `s` with each character of `set` replaced by `with`.
pub open spec fn replaced_set(s: Seq<char>, set: CharSet, with: char) -> Seq<char> {
    s.map_values(
        |c: char|
            if set.has(c) {
                with
            } else {
                c
            },
    )
}

/// `s` with each character of `set` replaced by `with`.
pub fn replace_set(s: &str, set: CharSet, with: char) -> (r: String)
    ensures
        r@ == replaced_set(s@, set, with),
{
    let v = chars_of(s);
    let mut r = String::new();
    let mut i: usize = 0;
    while i < v.len()
        invariant
            v@ == s@,
            i <= v@.len(),
            r@ == replaced_set(v@, set, with).take(i as int),
        decreases v@.len() - i,
    {
        let c = v[i];
        let d = if set.holds(c) {
            with
        } else {
            c
        };
        r.push(d);
        proof {
            assert(replaced_set(v@, set, with).take(i + 1) =~= replaced_set(v@, set, with).take(
                i as int,
            ).push(d));
        }
        i += 1;
    }
    proof {
        assert(replaced_set(v@, set, with).take(i as int) =~= replaced_set(v@, set, with));
    }
    r
}

/// `s` with each `pat` in it, found from left to right, replaced by `with`.
pub open spec fn replaced(s: Seq<char>, pat: Seq<char>, with: Seq<char>) -> Seq<char>
    decreases s.len(),
{
    if s.len() == 0 {
        s
    } else if pat.len() > 0 && begins(s, pat) {
        with + replaced(s.skip(pat.len() as int), pat, with)
    } else {
        seq![s[0]] + replaced(s.skip(1), pat, with)
    }
}

/// `s` with each `pat` in it, found from left to right, replaced by `with`.
pub fn replace(s: &str, pat: &str, with: &str) -> (r: String)
    requires
        pat@.len() > 0,
    ensures
        r@ == replaced(s@, pat@, with@),
{
    let v = chars_of(s);
    let p = chars_of(pat);
    let mut r = String::new();
    let mut i: usize = 0;
    proof {
        assert(v@.skip(0) =~= v@);
        assert(r@ + replaced(v@, p@, with@) =~= replaced(v@, p@, with@));
    }
    while i < v.len()
        invariant
            v@ == s@,
            p@ == pat@,
            p@.len() > 0,
            i <= v@.len(),
            r@ + replaced(v@.skip(i as int), p@, with@) == replaced(v@, p@, with@),
        decreases v@.len() - i,
    {
        let ghost before = r@;
        let ghost rest = v@.skip(i as int);
        if matches_at(&v, &p, i) {
            r.push_str(with);
            proof {
                assert(rest.subrange(0, p@.len() as int) =~= v@.subrange(i as int, i + p@.len()));
                assert(rest.skip(p@.len() as int) =~= v@.skip(i + p@.len()));
                assert(before + (with@ + replaced(v@.skip(i + p@.len()), p@, with@)) =~= r@
                    + replaced(v@.skip(i + p@.len()), p@, with@));
            }
            i += p.len();
        } else {
            r.push(v[i]);
            proof {
                if begins(rest, p@) {
                    assert(rest.subrange(0, p@.len() as int) =~= v@.subrange(
                        i as int,
                        i + p@.len(),
                    ));
                }
                assert(rest.skip(1) =~= v@.skip(i + 1));
                assert(before + (seq![rest[0]] + replaced(v@.skip(i + 1), p@, with@)) =~= r@
                    + replaced(v@.skip(i + 1), p@, with@));
            }
            i += 1;
        }
    }
    proof {
        assert(v@.skip(i as int) =~= Seq::<char>::empty());
        assert(r@ + Seq::<char>::empty() =~= r@);
    }
    r
}

// ---------------------------------------------------------------------------
// Lines
// ---------------------------------------------------------------------------

/// `s` without one carriage return at its end.
pub open spec fn without_cr(s: Seq<char>) -> Seq<char> {
    if s.len() > 0 && s.last() == '\r' {
        s.drop_last()
    } else {
        s
    }
}

/// The lines among the parts between line feeds: each but the last ends before a line
/// feed, so a carriage return at its end belongs to the line ending; the last is a line
/// only where it is not empty.
pub open spec fn lines_of_parts(p: Seq<Seq<char>>) -> Seq<Seq<char>> {
    let n = p.len() - 1;
    let ended = Seq::new(n as nat, |i: int| without_cr(p[i]));
    if n >= 0 && p[n].len() > 0 {
        ended.push(p[n])
    } else {
        ended
    }
}

/// The lines of `s`, without their line endings (`"\n"` or `"\r\n"`).
pub open spec fn line_seq(s: Seq<char>) -> Seq<Seq<char>> {
    lines_of_parts(parts(s, CharSet::Only('\n')))
}

/// There is always a part.
pub proof fn lemma_parts_nonempty(s: Seq<char>, set: CharSet)
    ensures
        parts(s, set).len() > 0,
{
    lemma_until(s, set);
}

/// The lines of `s`, without their line endings.
pub fn lines(s: &str) -> (r: Vec<String>)
    ensures
        texts(r@) == line_seq(s@),
{
    let p = split(s, CharSet::Only('\n'));
    let ghost t = texts(p@);
    proof {
        lemma_parts_nonempty(s@, CharSet::Only('\n'));
        assert(t.len() == p@.len());
    }
    let n: usize = p.len() - 1;
    let mut r: Vec<String> = Vec::new();
    let mut i: usize = 0;
    while i < n
        invariant
            t == texts(p@),
            n == p@.len() - 1,
            i <= n,
            texts(r@) == Seq::new(i as nat, |j: int| without_cr(t[j])),
        decreases n - i,
    {
        let line = strip_cr(&p[i]);
        let ghost before = texts(r@);
        r.push(line);
        proof {
            assert(texts(r@) =~= before.push(line@));
            assert(before.push(line@) =~= Seq::new((i + 1) as nat, |j: int| without_cr(t[j])));
        }
        i += 1;
    }
    if !p[n].as_str().is_empty() {
        let ghost before = texts(r@);
        r.push(p[n].clone());
        proof {
            assert(texts(r@) =~= before.push(t[n as int]));
        }
    }
    r
}

/// `s` without one carriage return at its end.
fn strip_cr(s: &str) -> (r: String)
    ensures
        r@ == without_cr(s@),
{
    let v = chars_of(s);
    if v.len() > 0 && v[v.len() - 1] == '\r' {
        proof {
            assert(v@.subrange(0, v@.len() - 1) =~= v@.drop_last());
        }
        substring(&v, 0, v.len() - 1)
    } else {
        string_of(&v)
    }
}

// ---------------------------------------------------------------------------
// Splitting and joining
// ---------------------------------------------------------------------------

/// Whether no character of `s` is in `set`.
pub open spec fn free_of(s: Seq<char>, set: CharSet) -> bool {
    forall|i: int| 0 <= i < s.len() ==> !set.has(#[trigger] s[i])
}

/// A text without a separator is its own only part.
pub proof fn lemma_parts_free(s: Seq<char>, set: CharSet)
    requires
        free_of(s, set),
    ensures
        parts(s, set) == seq![s],
{
    lemma_until_is(s, set, s.len() as int);
}

/// The parts around a separator are those before it and those behind it.
pub proof fn lemma_parts_concat(a: Seq<char>, c: char, b: Seq<char>, set: CharSet)
    requires
        set.has(c),
    ensures
        parts(a + seq![c] + b, set) == parts(a, set) + parts(b, set),
    decreases a.len(),
{
    let whole = a + seq![c] + b;
    lemma_until(a, set);
    let n = until(a, set);
    if n < a.len() {
        assert forall|j: int| 0 <= j < n implies !set.has(#[trigger] whole[j]) by {
            assert(whole[j] == a[j]);
        }
        assert(whole[n] == a[n]);
        lemma_until_is(whole, set, n);
        assert(whole.take(n) =~= a.take(n));
        assert(whole.skip(n + 1) =~= a.skip(n + 1) + seq![c] + b);
        lemma_parts_concat(a.skip(n + 1), c, b, set);
        assert(seq![a.take(n)] + (parts(a.skip(n + 1), set) + parts(b, set)) =~= (seq![a.take(n)]
            + parts(a.skip(n + 1), set)) + parts(b, set));
    } else {
        assert forall|j: int| 0 <= j < a.len() implies !set.has(#[trigger] whole[j]) by {
            assert(whole[j] == a[j]);
        }
        assert(whole[a.len() as int] == c);
        lemma_until_is(whole, set, a.len() as int);
        assert(whole.take(a.len() as int) =~= a);
        assert(whole.skip(a.len() as int + 1) =~= b);
    }
}

/// No part holds a separator.
pub proof fn lemma_parts_are_free(s: Seq<char>, set: CharSet)
    ensures
        forall|i: int| 0 <= i < parts(s, set).len() ==> free_of(#[trigger] parts(s, set)[i], set),
    decreases s.len(),
{
    lemma_until(s, set);
    let n = until(s, set);
    if n < s.len() {
        lemma_parts_are_free(s.skip(n + 1), set);
        let rest = parts(s.skip(n + 1), set);
        assert forall|i: int| 0 <= i < parts(s, set).len() implies free_of(
            #[trigger] parts(s, set)[i],
            set,
        ) by {
            if i > 0 {
                assert(parts(s, set)[i] == rest[i - 1]);
            }
        }
    }
}

/// Splitting gives back the parts that were joined with the separator.
pub proof fn lemma_parts_of_joined(p: Seq<Seq<char>>, c: char)
    requires
        p.len() > 0,
        forall|i: int| 0 <= i < p.len() ==> free_of(#[trigger] p[i], CharSet::Only(c)),
    ensures
        parts(joined(p, seq![c]), CharSet::Only(c)) == p,
    decreases p.len(),
{
    let set = CharSet::Only(c);
    if p.len() == 1 {
        assert(free_of(p[0], set));
        lemma_parts_free(p[0], set);
        assert(p =~= seq![p[0]]);
    } else {
        let front = p.drop_last();
        assert forall|i: int| 0 <= i < front.len() implies free_of(#[trigger] front[i], set) by {
            assert(front[i] == p[i]);
        }
        lemma_parts_of_joined(front, c);
        assert(free_of(p[p.len() - 1], set));
        lemma_parts_free(p.last(), set);
        lemma_parts_concat(joined(front, seq![c]), c, p.last(), set);
        assert(front + seq![p.last()] =~= p);
    }
}

/// What a filter keeps was there, and meets the condition.
pub proof fn lemma_filter_members<A>(s: Seq<A>, keep: spec_fn(A) -> bool)
    ensures
        forall|i: int|
            0 <= i < s.filter(keep).len() ==> keep(#[trigger] s.filter(keep)[i]) && s.contains(
                s.filter(keep)[i],
            ),
    decreases s.len(),
{
    reveal(Seq::filter);
    if s.len() > 0 {
        let front = s.drop_last();
        lemma_filter_members(front, keep);
        assert(s =~= front.push(s.last()));
        lemma_filter_push(front, s.last(), keep);
        assert forall|i: int| 0 <= i < s.filter(keep).len() implies keep(
            #[trigger] s.filter(keep)[i],
        ) && s.contains(s.filter(keep)[i]) by {
            if i < front.filter(keep).len() {
                assert(s.filter(keep)[i] == front.filter(keep)[i]);
                let k = choose|k: int| 0 <= k < front.len() && front[k] == front.filter(keep)[i];
                assert(s[k] == front[k]);
            } else {
                assert(s[s.len() - 1] == s.last());
            }
        }
    }
}

/// A filter changes nothing where everything meets its condition.
pub proof fn lemma_filter_all<A>(s: Seq<A>, keep: spec_fn(A) -> bool)
    requires
        forall|i: int| 0 <= i < s.len() ==> keep(#[trigger] s[i]),
    ensures
        s.filter(keep) == s,
    decreases s.len(),
{
    reveal(Seq::filter);
    if s.len() > 0 {
        let front = s.drop_last();
        assert forall|i: int| 0 <= i < front.len() implies keep(#[trigger] front[i]) by {
            assert(front[i] == s[i]);
        }
        lemma_filter_all(front, keep);
        assert(keep(s[s.len() - 1]));
        lemma_filter_push(front, s.last(), keep);
        assert(s =~= front.push(s.last()));
    } else {
        assert(s.filter(keep) =~= s);
    }
}

/// The parts of a text hold no character that the text does not hold.
pub proof fn lemma_parts_inherit(s: Seq<char>, set: CharSet, c: char)
    requires
        forall|i: int| 0 <= i < s.len() ==> #[trigger] s[i] != c,
    ensures
        forall|k: int, m: int|
            0 <= k < parts(s, set).len() && 0 <= m < parts(s, set)[k].len()
                ==> #[trigger] parts(s, set)[k][m] != c,
    decreases s.len(),
{
    lemma_until(s, set);
    let n = until(s, set);
    if n < s.len() {
        let rest = s.skip(n + 1);
        lemma_parts_inherit(rest, set, c);
        assert forall|k: int, m: int|
            0 <= k < parts(s, set).len() && 0 <= m < parts(s, set)[k].len() implies
            #[trigger] parts(s, set)[k][m] != c by {
            if k > 0 {
                assert(parts(s, set)[k] == parts(rest, set)[k - 1]);
                assert(parts(rest, set)[k - 1][m] != c);
            }
        }
    }
}

/// Joined parts hold no character that neither the parts nor what stands between them holds.
pub proof fn lemma_joined_inherits(p: Seq<Seq<char>>, sep: Seq<char>, c: char)
    requires
        forall|i: int| 0 <= i < p.len() ==> free_of(#[trigger] p[i], CharSet::Only(c)),
        free_of(sep, CharSet::Only(c)),
    ensures
        free_of(joined(p, sep), CharSet::Only(c)),
    decreases p.len(),
{
    let set = CharSet::Only(c);
    if p.len() == 1 {
        assert(free_of(p[0], set));
    } else if p.len() > 1 {
        let front = p.drop_last();
        assert forall|i: int| 0 <= i < front.len() implies free_of(#[trigger] front[i], set) by {
            assert(free_of(p[i], set));
        }
        lemma_joined_inherits(front, sep, c);
        let a = joined(front, sep);
        let j = joined(p, sep);
        assert(free_of(p[p.len() - 1], set));
        assert forall|i: int| 0 <= i < j.len() implies !set.has(#[trigger] j[i]) by {
            if i < a.len() {
                assert(j[i] == a[i]);
            } else if i < a.len() + sep.len() {
                assert(j[i] == sep[i - a.len()]);
            } else {
                assert(j[i] == p.last()[i - a.len() - sep.len()]);
            }
        }
    }
}

/// The lines of a text behind the end of a line follow those before it.
pub proof fn lemma_lines_concat(a: Seq<char>, b: Seq<char>)
    requires
        a.len() == 0 || a.last() == '\n',
    ensures
        line_seq(a + b) == line_seq(a) + line_seq(b),
{
    let feed = CharSet::Only('\n');
    let none = Seq::<char>::empty();
    lemma_parts_free(none, feed);
    if a.len() == 0 {
        assert(a =~= none);
        assert(a + b =~= b);
        assert(line_seq(a) =~= Seq::<Seq<char>>::empty());
        assert(line_seq(a) + line_seq(b) =~= line_seq(b));
    } else {
        let c = a.drop_last();
        assert(a =~= c + seq!['\n'] + none);
        assert(a + b =~= c + seq!['\n'] + b);
        lemma_parts_concat(c, '\n', none, feed);
        lemma_parts_concat(c, '\n', b, feed);
        lemma_parts_nonempty(b, feed);
        let pc = parts(c, feed);
        let pa = parts(a, feed);
        let pb = parts(b, feed);
        let pw = parts(a + b, feed);
        assert(pa =~= pc.push(none));
        assert(pw =~= pc + pb);
        assert(line_seq(a).len() == pc.len());
        assert forall|i: int| 0 <= i < pc.len() implies #[trigger] line_seq(a)[i] == without_cr(
            pc[i],
        ) by {
            assert(pa[i] == pc[i]);
        }
        assert(pw[pw.len() - 1] == pb[pb.len() - 1]);
        assert(line_seq(a + b).len() == pc.len() + line_seq(b).len());
        assert forall|i: int| 0 <= i < line_seq(a + b).len() implies #[trigger] line_seq(a + b)[i]
            == (line_seq(a) + line_seq(b))[i] by {
            if i < pc.len() {
                assert(pw[i] == pc[i]);
                assert(line_seq(a)[i] == without_cr(pc[i]));
            } else {
                assert(pw[i] == pb[i - pc.len()]);
            }
        }
        assert(line_seq(a + b) =~= line_seq(a) + line_seq(b));
    }
}

/// A text on one line, with the end of the line.
pub proof fn lemma_one_line(s: Seq<char>)
    requires
        free_of(s, CharSet::Pair('\n', '\r')),
    ensures
        line_seq(s + "\n"@) == seq![s],
{
    let feed = CharSet::Only('\n');
    let none = Seq::<char>::empty();
    reveal_strlit("\n");
    assert(s + "\n"@ =~= s + seq!['\n'] + none);
    assert forall|i: int| 0 <= i < s.len() implies !feed.has(#[trigger] s[i]) && s[i] != '\r' by {
        assert(!CharSet::Pair('\n', '\r').has(s[i]));
    }
    lemma_parts_concat(s, '\n', none, feed);
    lemma_parts_free(s, feed);
    lemma_parts_free(none, feed);
    let p = parts(s + "\n"@, feed);
    assert(p =~= seq![s, none]);
    if s.len() > 0 {
        assert(s[s.len() - 1] != '\r');
    }
    assert(line_seq(s + "\n"@) =~= seq![s]);
}

/// What stands behind the last separator, where nothing behind it is one.
pub proof fn lemma_tail_behind(a: Seq<char>, c: char, b: Seq<char>, set: CharSet)
    requires
        set.has(c),
        free_of(b, set),
    ensures
        tail(a + seq![c] + b, set) == b,
    decreases b.len(),
{
    let s = a + seq![c] + b;
    if b.len() == 0 {
        assert(s.last() == c);
    } else {
        let front = b.drop_last();
        assert forall|i: int| 0 <= i < front.len() implies !set.has(#[trigger] front[i]) by {
            assert(!set.has(b[i]));
        }
        lemma_tail_behind(a, c, front, set);
        assert(s.drop_last() =~= a + seq![c] + front);
        assert(!set.has(b[b.len() - 1]));
        assert(front.push(b.last()) =~= b);
    }
}

/// A text holds what stands at a place of it.
pub proof fn lemma_part_at(s: Seq<char>, pat: Seq<char>, i: int)
    requires
        0 <= i <= s.len() - pat.len(),
        s.subrange(i, i + pat.len()) =~= pat,
    ensures
        has_part(s, pat),
{
    assert(occurs_at(s, pat, i));
}

/// All of these stand in the text.
pub open spec fn holds_all(s: Seq<char>, parts: Seq<Seq<char>>) -> bool {
    forall|i: int| 0 <= i < parts.len() ==> has_part(s, #[trigger] parts[i])
}

/// A text with a further field holds that field, and what it held before.
pub proof fn lemma_next_field(s: Seq<char>, name: Seq<char>, value: Seq<char>, parts: Seq<Seq<char>>)
    requires
        holds_all(s, parts),
    ensures
        holds_all(s + name + value, parts.push(name + value)),
{
    let t = s + name + value;
    let all = parts.push(name + value);
    assert forall|i: int| 0 <= i < all.len() implies has_part(t, #[trigger] all[i]) by {
        if i < parts.len() {
            assert(all[i] == parts[i]);
            lemma_part_within(Seq::empty(), s, name + value, parts[i]);
            assert(Seq::<char>::empty() + s + (name + value) =~= t);
        } else {
            assert(t.subrange(s.len() as int, t.len() as int) =~= name + value);
            lemma_part_at(t, name + value, s.len() as int);
        }
    }
}

/// Trimming takes the characters of the set off both ends and nothing else: it stops at the first
/// other character from either end. Where there is none, nothing is left.
pub proof fn law_trimming(a: Seq<char>, s: Seq<char>, b: Seq<char>, set: CharSet)
    requires
        forall|i: int| 0 <= i < a.len() ==> set.has(#[trigger] a[i]),
        forall|i: int| 0 <= i < b.len() ==> set.has(#[trigger] b[i]),
        s.len() > 0 ==> !set.has(s[0]) && !set.has(s.last()),
    ensures
        trim_ends(a + s + b, set) == s,
        s.len() > 0 ==> trim_start(a + s + b, set) == s + b,
        s.len() > 0 ==> trim_end(a + s + b, set) == a + s,
    decreases a.len() + b.len(),
{
    let whole = a + s + b;
    if s.len() == 0 {
        assert forall|i: int| 0 <= i < whole.len() implies set.has(#[trigger] whole[i]) by {
            if i < a.len() {
                assert(whole[i] == a[i]);
            } else {
                assert(whole[i] == b[i - a.len()]);
            }
        }
        lemma_trim_all(whole, set);
        assert(s =~= Seq::<char>::empty());
    } else {
        lemma_trim_front(a, s + b, set);
        lemma_trim_back(s, b, set);
        lemma_trim_back(a + s, b, set);
        assert(whole =~= a + (s + b));
        assert((a + s).last() == s.last());
    }
}

proof fn lemma_trim_all(s: Seq<char>, set: CharSet)
    requires
        forall|i: int| 0 <= i < s.len() ==> set.has(#[trigger] s[i]),
    ensures
        trim_start(s, set).len() == 0,
        trim_ends(s, set) == Seq::<char>::empty(),
    decreases s.len(),
{
    if s.len() > 0 {
        let rest = s.skip(1);
        assert forall|i: int| 0 <= i < rest.len() implies set.has(#[trigger] rest[i]) by {
            assert(rest[i] == s[i + 1]);
        }
        assert(set.has(s[0]));
        lemma_trim_all(rest, set);
    }
    assert(trim_start(s, set) =~= Seq::<char>::empty());
}

proof fn lemma_trim_front(a: Seq<char>, s: Seq<char>, set: CharSet)
    requires
        forall|i: int| 0 <= i < a.len() ==> set.has(#[trigger] a[i]),
        s.len() > 0,
        !set.has(s[0]),
    ensures
        trim_start(a + s, set) == s,
    decreases a.len(),
{
    if a.len() > 0 {
        let rest = a.skip(1);
        assert forall|i: int| 0 <= i < rest.len() implies set.has(#[trigger] rest[i]) by {
            assert(rest[i] == a[i + 1]);
        }
        assert(set.has(a[0]));
        assert((a + s)[0] == a[0]);
        lemma_trim_front(rest, s, set);
        assert((a + s).skip(1) =~= rest + s);
    } else {
        assert(a + s =~= s);
    }
}

proof fn lemma_trim_back(s: Seq<char>, b: Seq<char>, set: CharSet)
    requires
        forall|i: int| 0 <= i < b.len() ==> set.has(#[trigger] b[i]),
        s.len() > 0,
        !set.has(s.last()),
    ensures
        trim_end(s + b, set) == s,
    decreases b.len(),
{
    if b.len() > 0 {
        let front = b.drop_last();
        assert forall|i: int| 0 <= i < front.len() implies set.has(#[trigger] front[i]) by {
            assert(front[i] == b[i]);
        }
        assert(set.has(b[b.len() - 1]));
        assert((s + b).last() == b.last());
        lemma_trim_back(s, front, set);
        assert((s + b).drop_last() =~= s + front);
    } else {
        assert(s + b =~= s);
    }
}

/// A text begins with what stands before the rest of it, and ends with what stands behind it.
pub proof fn law_begins_and_ends(a: Seq<char>, b: Seq<char>)
    ensures
        begins(a + b, a),
        ends(a + b, b),
        without_prefix(a + b, a) == Some(b),
        begins(b, a) ==> b == a + b.skip(a.len() as int),
        ends(b, a) ==> b == b.take(b.len() - a.len()) + a,
{
    let s = a + b;
    assert(s.subrange(0, a.len() as int) =~= a);
    assert(s.subrange(a.len() as int, s.len() as int) =~= b);
    assert(s.skip(a.len() as int) =~= b);
    if begins(b, a) {
        assert(b =~= b.subrange(0, a.len() as int) + b.skip(a.len() as int));
    }
    if ends(b, a) {
        assert(b =~= b.take(b.len() - a.len()) + b.subrange(b.len() - a.len(), b.len() as int));
    }
}

/// Only ASCII letters have another case here: small letters lie 32 behind the capitals.
pub proof fn law_letters(c: char)
    ensures
        'A' <= c <= 'Z' ==> lower_char(c) as int == c as int + 32 && upper_char(lower_char(c)) == c,
        'a' <= c <= 'z' ==> upper_char(c) as int == c as int - 32 && lower_char(upper_char(c)) == c,
        !('A' <= c <= 'Z') ==> lower_char(c) == c,
        !('a' <= c <= 'z') ==> upper_char(c) == c,
{
}

/// Spaces, tabs and the ends of lines are white space; letters, digits and other visible ASCII
/// characters are not.
pub proof fn law_white_space(c: char)
    ensures
        white_space(' ') && white_space('\t') && white_space('\n') && white_space('\r'),
        '!' <= c <= '~' ==> !white_space(c),
{
}

/// Joining puts the separator between each two texts, and nowhere else.
pub proof fn law_joining(p: Seq<Seq<char>>, s: Seq<char>, sep: Seq<char>)
    ensures
        joined(Seq::empty(), sep).len() == 0,
        joined(seq![s], sep) == s,
        p.len() > 0 ==> joined(p.push(s), sep) == joined(p, sep) + sep + s,
{
    assert(p.push(s).drop_last() =~= p);
}

/// What stands for each character where one is replaced.
pub open spec fn one_replaced(c: char, with: Seq<char>) -> spec_fn(char) -> Seq<char> {
    |x: char|
        if x == c {
            with
        } else {
            seq![x]
        }
}

/// Replacing a character replaces it everywhere, and nothing else.
pub proof fn law_replacing(s: Seq<char>, c: char, with: Seq<char>)
    ensures
        replaced(s, seq![c], with) == substituted(s, one_replaced(c, with)),
    decreases s.len(),
{
    let f = one_replaced(c, with);
    if s.len() > 0 {
        let rest = s.skip(1);
        law_replacing(rest, c, with);
        let first = seq![s[0]];
        lemma_substituted_concat(first, rest, f);
        assert(first + rest =~= s);
        assert(first.drop_last() =~= Seq::<char>::empty());
        assert(substituted(first.drop_last(), f).len() == 0);
        assert(substituted(first, f) =~= f(s[0]));
        if begins(s, seq![c]) {
            assert(s.subrange(0, 1)[0] == c);
        } else if s[0] == c {
            assert(s.subrange(0, 1) =~= seq![c]);
        }
    } else {
        assert(s =~= Seq::<char>::empty());
    }
}

/// What is put in the place of a text is what is put in the place of its parts.
pub proof fn lemma_substituted_concat(a: Seq<char>, b: Seq<char>, f: spec_fn(char) -> Seq<char>)
    ensures
        substituted(a + b, f) == substituted(a, f) + substituted(b, f),
    decreases b.len(),
{
    if b.len() == 0 {
        assert(a + b =~= a);
        assert(substituted(a, f) + Seq::<char>::empty() =~= substituted(a, f));
    } else {
        lemma_substituted_concat(a, b.drop_last(), f);
        assert((a + b).drop_last() =~= a + b.drop_last());
        assert(substituted(a, f) + (substituted(b.drop_last(), f) + f(b.last())) =~= substituted(
            a,
            f,
        ) + substituted(b.drop_last(), f) + f(b.last()));
    }
}

/// A text is as it was where there is nothing to replace.
pub proof fn law_nothing_to_replace(s: Seq<char>, pat: Seq<char>, with: Seq<char>)
    requires
        !has_part(s, pat),
    ensures
        replaced(s, pat, with) == s,
    decreases s.len(),
{
    if s.len() > 0 {
        let rest = s.skip(1);
        if has_part(rest, pat) {
            let i = choose|i: int| occurs_at(rest, pat, i);
            assert(s.subrange(i + 1, i + 1 + pat.len()) =~= rest.subrange(i, i + pat.len()));
            assert(occurs_at(s, pat, i + 1));
        }
        law_nothing_to_replace(rest, pat, with);
        assert(!occurs_at(s, pat, 0));
        assert(seq![s[0]] + rest =~= s);
    }
}

/// The words of texts that are joined by spaces are those texts, where none of them is empty or
/// holds white space.
pub proof fn law_words_are_read_back(p: Seq<Seq<char>>)
    requires
        p.len() > 0,
        forall|i: int|
            0 <= i < p.len() ==> (#[trigger] p[i]).len() > 0 && free_of(p[i], CharSet::White),
    ensures
        words(joined(p, " "@)) == p,
{
    lemma_parts_of_words(p);
    let keep = |s: Seq<char>| s.len() > 0;
    assert forall|i: int| 0 <= i < p.len() implies keep(#[trigger] p[i]) by {}
    lemma_filter_all(p, keep);
}

proof fn lemma_parts_of_words(p: Seq<Seq<char>>)
    requires
        p.len() > 0,
        forall|i: int|
            0 <= i < p.len() ==> (#[trigger] p[i]).len() > 0 && free_of(p[i], CharSet::White),
    ensures
        parts(joined(p, " "@), CharSet::White) == p,
    decreases p.len(),
{
    reveal_strlit(" ");
    let white = CharSet::White;
    assert(" "@ =~= seq![' ']);
    if p.len() == 1 {
        assert(free_of(p[0], white));
        lemma_parts_free(p[0], white);
        assert(p =~= seq![p[0]]);
    } else {
        let front = p.drop_last();
        assert forall|i: int| 0 <= i < front.len() implies (#[trigger] front[i]).len() > 0
            && free_of(front[i], white) by {
            assert(front[i] == p[i]);
        }
        lemma_parts_of_words(front);
        assert(free_of(p[p.len() - 1], white));
        lemma_parts_free(p.last(), white);
        lemma_parts_concat(joined(front, seq![' ']), ' ', p.last(), white);
        assert(front + seq![p.last()] =~= p);
    }
}

/// A phrase is a part of every text that holds it.
pub proof fn lemma_phrase_within(before: Seq<char>, phrase: Seq<char>, after: Seq<char>)
    ensures
        has_part(before + phrase + after, phrase),
{
    assert(phrase.subrange(0, phrase.len() as int) =~= phrase);
    assert(occurs_at(phrase, phrase, 0));
    lemma_part_within(before, phrase, after, phrase);
}

/// A text that holds a phrase holds how the phrase begins.
pub proof fn lemma_begins_phrase(s: Seq<char>, phrase: Seq<char>, start: Seq<char>)
    requires
        start.len() <= phrase.len(),
        phrase.subrange(0, start.len() as int) =~= start,
    ensures
        has_part(s, phrase) ==> has_part(s, start),
{
    if has_part(s, phrase) {
        let i = choose|i: int| occurs_at(s, phrase, i);
        assert(s.subrange(i, i + start.len()) =~= start) by {
            assert forall|j: int| 0 <= j < start.len() implies s[i + j] == start[j] by {
                assert(s.subrange(i, i + phrase.len())[j] == phrase[j]);
                assert(phrase.subrange(0, start.len() as int)[j] == start[j]);
            }
        }
        assert(occurs_at(s, start, i));
    }
}

/// A text is cut at the first character of the set: before it, and behind it.
pub proof fn law_cutting(a: Seq<char>, c: char, b: Seq<char>, set: CharSet)
    requires
        set.has(c),
        free_of(a, set),
    ensures
        cut(a + seq![c] + b, set) == Some((a, b)),
        head(a + seq![c] + b, set) == a,
        cut(a, set) is None,
        head(a, set) == a,
{
    let s = a + seq![c] + b;
    let n = a.len() as int;
    assert forall|i: int| 0 <= i < n implies !set.has(#[trigger] s[i]) by {
        assert(s[i] == a[i]);
        assert(!set.has(a[i]));
    }
    assert(s[n] == c);
    lemma_until_is(s, set, n);
    assert(s.take(n) =~= a);
    assert(s.skip(n + 1) =~= b);
    assert forall|i: int| 0 <= i < n implies !set.has(#[trigger] a[i]) by {}
    lemma_until_is(a, set, n);
    assert(a.take(n) =~= a);
}

/// All repetitions of a text at the start, or at the end, are left out, and nothing else.
pub proof fn law_repetitions_are_left_out(s: Seq<char>, pat: Seq<char>)
    requires
        pat.len() > 0,
    ensures
        without_suffixes(s + pat, pat) == without_suffixes(s, pat),
        without_prefixes(pat + s, pat) == without_prefixes(s, pat),
        !ends(s, pat) ==> without_suffixes(s, pat) == s,
        !begins(s, pat) ==> without_prefixes(s, pat) == s,
{
    law_begins_and_ends(s, pat);
    law_begins_and_ends(pat, s);
    let a = s + pat;
    let b = pat + s;
    assert(a.take(a.len() - pat.len()) =~= s);
    assert(b.skip(pat.len() as int) =~= s);
    assert(without_suffixes(a, pat) == without_suffixes(a.take(a.len() - pat.len()), pat));
    assert(without_prefixes(b, pat) == without_prefixes(b.skip(pat.len() as int), pat));
}

/// What a part of a text holds, the text holds.
pub proof fn lemma_part_of_part(s: Seq<char>, part: Seq<char>, pat: Seq<char>)
    requires
        has_part(s, part),
        has_part(part, pat),
    ensures
        has_part(s, pat),
{
    let i = choose|i: int| occurs_at(s, part, i);
    let before = s.take(i);
    let after = s.skip(i + part.len());
    assert(s =~= before + part + after) by {
        assert(s.subrange(i, i + part.len()) == part);
    }
    lemma_part_within(before, part, after, pat);
}

} // verus!
