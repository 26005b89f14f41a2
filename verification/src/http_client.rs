//! Reading the answer of an HTTP server.
use vstd::prelude::*;
use vstd::utf8::*;

use crate::encoding;
use crate::numbers;
use crate::text::CharSet;
use crate::text;

verus! {

// ---------------------------------------------------------------------------
// Searching bytes
// ---------------------------------------------------------------------------

/// Whether `pat` stands in `s` at position `i`.
pub open spec fn bytes_at(s: Seq<u8>, pat: Seq<u8>, i: int) -> bool {
    0 <= i && i + pat.len() <= s.len() && s.subrange(i, i + pat.len()) == pat
}

/// The first position at or after `from` where `pat` stands in `s`.
pub open spec fn bytes_from(s: Seq<u8>, pat: Seq<u8>, from: int) -> Option<int>
    decreases s.len() + 1 - from,
{
    if from < 0 || from > s.len() {
        None
    } else if bytes_at(s, pat, from) {
        Some(from)
    } else {
        bytes_from(s, pat, from + 1)
    }
}

/// The end of a line: a carriage return and a line feed.
pub open spec fn crlf() -> Seq<u8> {
    seq![13u8, 10u8]
}

/// What `bytes_from` returns.
proof fn lemma_bytes_from(s: Seq<u8>, pat: Seq<u8>, from: int)
    requires
        0 <= from,
    ensures
        match bytes_from(s, pat, from) {
            Some(i) => from <= i && bytes_at(s, pat, i) && forall|j: int|
                from <= j < i ==> !#[trigger] bytes_at(s, pat, j),
            None => forall|j: int| from <= j ==> !#[trigger] bytes_at(s, pat, j),
        },
    decreases s.len() + 1 - from,
{
    if from <= s.len() && !bytes_at(s, pat, from) {
        lemma_bytes_from(s, pat, from + 1);
    }
}

/// Whether `pat` stands in `s` at position `i`.
fn is_at(s: &[u8], pat: &[u8], i: usize) -> (r: bool)
    requires
        i <= s@.len(),
    ensures
        r == bytes_at(s@, pat@, i as int),
{
    let n: usize = s.len();
    if n - i < pat.len() {
        return false;
    }
    let mut k: usize = 0;
    while k < pat.len()
        invariant
            n == s@.len(),
            i <= n,
            pat@.len() <= n - i,
            k <= pat@.len(),
            forall|j: int| 0 <= j < k ==> s@[i + j] == pat@[j],
        decreases pat@.len() - k,
    {
        if s[i + k] != pat[k] {
            proof {
                assert(s@.subrange(i as int, i + pat@.len())[k as int] != pat@[k as int]);
            }
            return false;
        }
        k += 1;
    }
    proof {
        assert(s@.subrange(i as int, i + pat@.len()) =~= pat@);
    }
    true
}

/// The first position at or after `from` where `pat` stands in `s`.
fn find_bytes(s: &[u8], pat: &[u8], from: usize) -> (r: Option<usize>)
    requires
        from <= s@.len(),
    ensures
        match r {
            Some(i) => bytes_from(s@, pat@, from as int) == Some(i as int) && from <= i && i
                + pat@.len() <= s@.len(),
            None => bytes_from(s@, pat@, from as int) is None,
        },
{
    let n: usize = s.len();
    let mut i: usize = from;
    loop
        invariant
            n == s@.len(),
            from <= i <= n,
            bytes_from(s@, pat@, from as int) == bytes_from(s@, pat@, i as int),
        decreases n - i,
    {
        if is_at(s, pat, i) {
            return Some(i);
        }
        if i == n {
            proof {
                reveal_with_fuel(bytes_from, 2);
            }
            return None;
        }
        i += 1;
    }
}

/// Where the first line ends.
pub fn find_crlf(value: &[u8]) -> (r: Option<usize>)
    ensures
        match r {
            Some(i) => bytes_from(value@, crlf(), 0) == Some(i as int) && i + 2 <= value@.len(),
            None => bytes_from(value@, crlf(), 0) is None,
        },
{
    let mark: Vec<u8> = vec![13u8, 10u8];
    proof {
        assert(mark@ =~= crlf());
    }
    find_bytes(value, mark.as_slice(), 0)
}

// ---------------------------------------------------------------------------
// Headers
// ---------------------------------------------------------------------------

/// The status code in the first line of the headers.
pub open spec fn status_of(headers: Seq<char>) -> Option<nat> {
    let lines = text::line_seq(headers);
    if lines.len() == 0 {
        None
    } else {
        let words = text::words(lines[0]);
        if words.len() < 2 {
            None
        } else {
            numbers::parse_uint(words[1], 10, u16::MAX as nat)
        }
    }
}

/// The status code in the first line of the headers.
pub fn http_status_code(headers: &str) -> (r: Option<u16>)
    ensures
        match r {
            Some(code) => status_of(headers@) == Some(code as nat),
            None => status_of(headers@) is None,
        },
{
    let lines = text::lines(headers);
    proof {
        assert(text::texts(lines@).len() == lines@.len());
    }
    if lines.len() == 0 {
        return None;
    }
    let words = text::split_whitespace(&lines[0]);
    proof {
        assert(text::texts(lines@)[0] == lines@[0]@);
        assert(text::texts(words@).len() == words@.len());
    }
    if words.len() < 2 {
        return None;
    }
    proof {
        assert(text::texts(words@)[1] == words@[1]@);
    }
    numbers::parse_u16(&words[1])
}

/// The value of the header in a line, where the line holds the header with that name.
pub open spec fn value_in_line(line: Seq<char>, name: Seq<char>) -> Option<Seq<char>> {
    match text::cut(line, CharSet::Only(':')) {
        Some((key, value)) => if text::ascii_lower(text::trimmed(key)) == text::ascii_lower(name) {
            Some(text::trimmed(value))
        } else {
            None
        },
        None => None,
    }
}

/// The value of the first header with a name among lines.
pub open spec fn value_in_lines(lines: Seq<Seq<char>>, name: Seq<char>) -> Option<Seq<char>>
    decreases lines.len(),
{
    if lines.len() == 0 {
        None
    } else {
        match value_in_line(lines[0], name) {
            Some(value) => Some(value),
            None => value_in_lines(lines.skip(1), name),
        }
    }
}

/// The value of the first header with a name, capitals and small letters being equal.
pub open spec fn header_of(headers: Seq<char>, name: Seq<char>) -> Option<Seq<char>> {
    value_in_lines(text::line_seq(headers), name)
}

/// The value of the first header with a name, capitals and small letters being equal.
pub fn header_value(headers: &str, name: &str) -> (r: Option<String>)
    ensures
        text::text_in(r) == header_of(headers@, name@),
{
    let lines = text::lines(headers);
    let wanted = text::to_ascii_lower(name);
    let ghost all = text::texts(lines@);
    let mut i: usize = 0;
    proof {
        assert(all.skip(0) =~= all);
    }
    while i < lines.len()
        invariant
            all == text::texts(lines@),
            wanted@ == text::ascii_lower(name@),
            all == text::line_seq(headers@),
            i <= all.len(),
            value_in_lines(all, name@) == value_in_lines(all.skip(i as int), name@),
        decreases all.len() - i,
    {
        proof {
            assert(all.skip(i as int)[0] == lines@[i as int]@);
            assert(all.skip(i as int).skip(1) =~= all.skip(i + 1));
        }
        match text::split_once(&lines[i], CharSet::Only(':')) {
            Some((key, value)) => {
                let found = text::to_ascii_lower(&text::trim(&key));
                if text::same(&found, &wanted) {
                    return Some(text::trim(&value));
                }
            },
            None => {},
        }
        i += 1;
    }
    None
}

/// The start of a text, with three dots where it is cut off.
pub open spec fn preview_of(s: Seq<char>, max_chars: int) -> Seq<char> {
    if s.len() > max_chars {
        s.take(max_chars) + "..."@
    } else {
        s
    }
}

/// The start of a text, with three dots where it is cut off.
pub fn preview_text(value: &str, max_chars: usize) -> (r: String)
    ensures
        r@ == preview_of(value@, max_chars as int),
{
    let mut preview = text::take_chars(value, max_chars);
    if text::chars_of(value).len() > max_chars {
        preview.push_str("...");
    }
    preview
}

// ---------------------------------------------------------------------------
// The body
// ---------------------------------------------------------------------------

/// Why an answer has no body.
#[derive(Debug)]
pub enum BodyError {
    /// The headers do not end.
    NoHeaders,
    /// The headers are not UTF-8.
    HeadersNotUtf8,
    /// There is no status code.
    NoStatus,
    /// The status code does not stand for success; with the start of the body.
    Status(u16, String),
    /// A chunk has no line with its size.
    ChunkSizeMissing,
    /// The line with the size of a chunk is not UTF-8.
    ChunkSizeNotUtf8,
    /// The size of a chunk is not a number.
    ChunkSizeInvalid(String),
    /// A chunk is larger than any memory.
    ChunkTooLarge,
    /// A chunk is cut off.
    ChunkIncomplete,
    /// A chunk does not end with a line.
    ChunkEndInvalid,
    /// The body is shorter than announced.
    Incomplete(usize, usize),
}

/// The model of why an answer has no body.
#[verifier::ext_equal]
pub enum BodyErrorView {
    NoHeaders,
    HeadersNotUtf8,
    NoStatus,
    Status(nat, Seq<char>),
    ChunkSizeMissing,
    ChunkSizeNotUtf8,
    ChunkSizeInvalid(Seq<char>),
    ChunkTooLarge,
    ChunkIncomplete,
    ChunkEndInvalid,
    Incomplete(nat, nat),
}

impl View for BodyError {
    type V = BodyErrorView;

    open spec fn view(&self) -> BodyErrorView {
        match *self {
            BodyError::NoHeaders => BodyErrorView::NoHeaders,
            BodyError::HeadersNotUtf8 => BodyErrorView::HeadersNotUtf8,
            BodyError::NoStatus => BodyErrorView::NoStatus,
            BodyError::Status(code, start) => BodyErrorView::Status(code as nat, start@),
            BodyError::ChunkSizeMissing => BodyErrorView::ChunkSizeMissing,
            BodyError::ChunkSizeNotUtf8 => BodyErrorView::ChunkSizeNotUtf8,
            BodyError::ChunkSizeInvalid(s) => BodyErrorView::ChunkSizeInvalid(s@),
            BodyError::ChunkTooLarge => BodyErrorView::ChunkTooLarge,
            BodyError::ChunkIncomplete => BodyErrorView::ChunkIncomplete,
            BodyError::ChunkEndInvalid => BodyErrorView::ChunkEndInvalid,
            BodyError::Incomplete(got, wanted) => BodyErrorView::Incomplete(
                got as nat,
                wanted as nat,
            ),
        }
    }
}

impl BodyErrorView {
    /// What is said of the error.
    pub open spec fn text(self) -> Seq<char> {
        match self {
            BodyErrorView::NoHeaders => "en-tetes HTTP absents"@,
            BodyErrorView::HeadersNotUtf8 => "en-tetes HTTP non UTF-8"@,
            BodyErrorView::NoStatus => "ligne de statut HTTP Kodi absente"@,
            BodyErrorView::Status(code, start) => "Kodi HTTP "@ + numbers::dec(code) + ": "@
                + start,
            BodyErrorView::ChunkSizeMissing => "taille de chunk HTTP absente"@,
            BodyErrorView::ChunkSizeNotUtf8 => "taille de chunk HTTP non UTF-8"@,
            BodyErrorView::ChunkSizeInvalid(s) => "taille de chunk HTTP invalide: "@ + s,
            BodyErrorView::ChunkTooLarge => "taille de chunk HTTP trop grande"@,
            BodyErrorView::ChunkIncomplete => "chunk HTTP incomplet"@,
            BodyErrorView::ChunkEndInvalid => "terminateur de chunk HTTP invalide"@,
            BodyErrorView::Incomplete(got, wanted) => "corps HTTP incomplet: "@ + numbers::dec(got)
                + " octets recus sur "@ + numbers::dec(wanted),
        }
    }
}

impl BodyError {
    /// What is said of the error.
    pub fn message(&self) -> (r: String)
        ensures
            r@ == self@.text(),
    {
        match self {
            BodyError::NoHeaders => "en-tetes HTTP absents".to_string(),
            BodyError::HeadersNotUtf8 => "en-tetes HTTP non UTF-8".to_string(),
            BodyError::NoStatus => "ligne de statut HTTP Kodi absente".to_string(),
            BodyError::Status(code, start) => {
                let mut r = text::concat3("Kodi HTTP ", &numbers::decimal(*code as u64), ": ");
                r.push_str(start);
                r
            },
            BodyError::ChunkSizeMissing => "taille de chunk HTTP absente".to_string(),
            BodyError::ChunkSizeNotUtf8 => "taille de chunk HTTP non UTF-8".to_string(),
            BodyError::ChunkSizeInvalid(s) => text::concat2("taille de chunk HTTP invalide: ", s),
            BodyError::ChunkTooLarge => "taille de chunk HTTP trop grande".to_string(),
            BodyError::ChunkIncomplete => "chunk HTTP incomplet".to_string(),
            BodyError::ChunkEndInvalid => "terminateur de chunk HTTP invalide".to_string(),
            BodyError::Incomplete(got, wanted) => {
                let mut r = text::concat3(
                    "corps HTTP incomplet: ",
                    &numbers::decimal(*got as u64),
                    " octets recus sur ",
                );
                r.push_str(&numbers::decimal(*wanted as u64));
                r
            },
        }
    }
}

/// The size in the line before a chunk: what stands before a semicolon, in hexadecimal.
pub open spec fn size_digits(line: Seq<char>) -> Seq<char> {
    text::trimmed(text::head(line, CharSet::Only(';')))
}

/// The bytes of the chunks from `offset` on.
pub open spec fn dechunked(body: Seq<u8>, offset: int) -> Result<Seq<u8>, BodyErrorView>
    decreases body.len() - offset,
    via dechunked_decreases
{
    match bytes_from(body, crlf(), offset) {
        None => Err(BodyErrorView::ChunkSizeMissing),
        Some(line_end) => {
            let line = body.subrange(offset, line_end);
            if !valid_utf8(line) {
                Err(BodyErrorView::ChunkSizeNotUtf8)
            } else {
                let digits = size_digits(decode_utf8(line));
                match numbers::parse_uint(digits, 16, usize::MAX as nat) {
                    None => Err(BodyErrorView::ChunkSizeInvalid(digits)),
                    Some(size) => {
                        let from = line_end + 2;
                        let to = from + size;
                        if size == 0 {
                            Ok(Seq::empty())
                        } else if to > usize::MAX {
                            Err(BodyErrorView::ChunkTooLarge)
                        } else if body.len() < to + 2 {
                            Err(BodyErrorView::ChunkIncomplete)
                        } else if body.subrange(to, to + 2) != crlf() {
                            Err(BodyErrorView::ChunkEndInvalid)
                        } else {
                            match dechunked(body, to + 2) {
                                Ok(rest) => Ok(body.subrange(from, to) + rest),
                                Err(e) => Err(e),
                            }
                        }
                    },
                }
            }
        },
    }
}

#[via_fn]
proof fn dechunked_decreases(body: Seq<u8>, offset: int) {
    if 0 <= offset {
        lemma_bytes_from(body, crlf(), offset);
    }
}

/// The bytes of a body that comes in chunks.
pub fn decode_chunked_body(body: &[u8]) -> (r: Result<Vec<u8>, BodyError>)
    ensures
        match r {
            Ok(bytes) => dechunked(body@, 0) == Ok::<_, BodyErrorView>(bytes@),
            Err(e) => dechunked(body@, 0) == Err::<Seq<u8>, _>(e@),
        },
{
    let n: usize = body.len();
    let mark: Vec<u8> = vec![13u8, 10u8];
    proof {
        assert(mark@ =~= crlf());
    }
    let mut decoded: Vec<u8> = Vec::new();
    let mut offset: usize = 0;
    loop
        invariant
            n == body@.len(),
            mark@ == crlf(),
            offset <= n,
            match dechunked(body@, offset as int) {
                Ok(rest) => dechunked(body@, 0) == Ok::<_, BodyErrorView>(decoded@ + rest),
                Err(e) => dechunked(body@, 0) == Err::<Seq<u8>, _>(e),
            },
        decreases n - offset,
    {
        let line_end = match find_bytes(body, mark.as_slice(), offset) {
            Some(i) => i,
            None => {
                return Err(BodyError::ChunkSizeMissing);
            },
        };
        let line = match encoding::utf8_text(encoding::byte_range(body, offset, line_end)) {
            Some(line) => line,
            None => {
                return Err(BodyError::ChunkSizeNotUtf8);
            },
        };
        let digits = text::trim(&text::head_of(&line, CharSet::Only(';')));
        let size: usize = match numbers::parse_usize_radix(&digits, 16) {
            Some(size) => size,
            None => {
                return Err(BodyError::ChunkSizeInvalid(digits));
            },
        };
        let from: usize = line_end + 2;
        if size == 0 {
            proof {
                assert(decoded@ + Seq::<u8>::empty() =~= decoded@);
            }
            return Ok(decoded);
        }
        if size > usize::MAX - from {
            return Err(BodyError::ChunkTooLarge);
        }
        let to: usize = from + size;
        if n < 2 || n - 2 < to {
            return Err(BodyError::ChunkIncomplete);
        }
        if !is_at(body, mark.as_slice(), to) {
            return Err(BodyError::ChunkEndInvalid);
        }
        let ghost before = decoded@;
        let mut chunk = encoding::byte_range(body, from, to);
        decoded.append(&mut chunk);
        offset = to + 2;
        proof {
            match dechunked(body@, offset as int) {
                Ok(rest) => {
                    assert(before + (body@.subrange(from as int, to as int) + rest) =~= decoded@
                        + rest);
                },
                Err(_) => {},
            }
        }
    }
}

/// The end of the headers.
pub open spec fn header_mark() -> Seq<u8> {
    seq![13u8, 10u8, 13u8, 10u8]
}

/// Whether the headers say that the body comes in chunks.
pub open spec fn comes_in_chunks(headers: Seq<char>) -> bool {
    match header_of(headers, "transfer-encoding"@) {
        Some(value) => text::has_part(text::ascii_lower(value), "chunked"@),
        None => false,
    }
}

/// The length of the body that the headers announce.
pub open spec fn announced_length(headers: Seq<char>) -> Option<nat> {
    match header_of(headers, "content-length"@) {
        Some(value) => numbers::parse_uint(value, 10, usize::MAX as nat),
        None => None,
    }
}

/// The body behind headers.
pub open spec fn body_behind(headers: Seq<char>, body: Seq<u8>) -> Result<
    Seq<u8>,
    BodyErrorView,
> {
    match status_of(headers) {
        None => Err(BodyErrorView::NoStatus),
        Some(code) => if code < 200 || code >= 300 {
            Err(BodyErrorView::Status(code, preview_of(encoding::lossy_text(body), 160)))
        } else if comes_in_chunks(headers) {
            dechunked(body, 0)
        } else {
            match announced_length(headers) {
                Some(length) => if body.len() < length {
                    Err(BodyErrorView::Incomplete(body.len(), length))
                } else {
                    Ok(body.take(length as int))
                },
                None => Ok(body),
            }
        },
    }
}

/// The body of an answer with a status code that stands for success.
pub open spec fn response_body(response: Seq<u8>) -> Result<Seq<u8>, BodyErrorView> {
    match bytes_from(response, header_mark(), 0) {
        None => Err(BodyErrorView::NoHeaders),
        Some(end) => if !valid_utf8(response.take(end)) {
            Err(BodyErrorView::HeadersNotUtf8)
        } else {
            body_behind(decode_utf8(response.take(end)), response.skip(end + 4))
        },
    }
}

/// The body behind headers.
pub fn body_for_headers(headers: &str, body: Vec<u8>) -> (r: Result<Vec<u8>, BodyError>)
    ensures
        match r {
            Ok(bytes) => body_behind(headers@, body@) == Ok::<_, BodyErrorView>(bytes@),
            Err(e) => body_behind(headers@, body@) == Err::<Seq<u8>, _>(e@),
        },
{
    let code: u16 = match http_status_code(headers) {
        Some(code) => code,
        None => {
            return Err(BodyError::NoStatus);
        },
    };
    if code < 200 || code >= 300 {
        let shown = encoding::utf8_text_lossy(body.as_slice());
        return Err(BodyError::Status(code, preview_text(&shown, 160)));
    }
    match header_value(headers, "transfer-encoding") {
        Some(value) => {
            if text::contains(&text::to_ascii_lower(&value), "chunked") {
                return decode_chunked_body(body.as_slice());
            }
        },
        None => {},
    }
    let announced = match header_value(headers, "content-length") {
        Some(value) => numbers::parse_usize(&value),
        None => None,
    };
    match announced {
        Some(length) => {
            let n: usize = body.len();
            if n < length {
                Err(BodyError::Incomplete(n, length))
            } else {
                let mut body = body;
                body.truncate(length);
                Ok(body)
            }
        },
        None => Ok(body),
    }
}

/// The body of an answer with a status code that stands for success.
pub fn parse_http_response_body(response: &[u8]) -> (r: Result<Vec<u8>, BodyError>)
    ensures
        match r {
            Ok(bytes) => response_body(response@) == Ok::<_, BodyErrorView>(bytes@),
            Err(e) => response_body(response@) == Err::<Seq<u8>, _>(e@),
        },
{
    let mark: Vec<u8> = vec![13u8, 10u8, 13u8, 10u8];
    proof {
        assert(mark@ =~= header_mark());
    }
    let n: usize = response.len();
    let end = match find_bytes(response, mark.as_slice(), 0) {
        Some(end) => end,
        None => {
            return Err(BodyError::NoHeaders);
        },
    };
    let head = encoding::byte_range(response, 0, end);
    proof {
        assert(head@ =~= response@.take(end as int));
    }
    let headers = match encoding::utf8_text(head) {
        Some(headers) => headers,
        None => {
            return Err(BodyError::HeadersNotUtf8);
        },
    };
    let body = encoding::byte_range(response, end + 4, n);
    proof {
        assert(body@ =~= response@.skip(end + 4));
    }
    body_for_headers(&headers, body)
}

// ---------------------------------------------------------------------------
// Laws
// ---------------------------------------------------------------------------

/// A chunk as it is sent.
#[verifier::ext_equal]
pub struct ChunkView {
    /// What stands behind the size in its line.
    pub extension: Seq<char>,
    /// The bytes.
    pub bytes: Seq<u8>,
}

impl ChunkView {
    /// There are bytes, and the extension is empty or a semicolon and a text without a carriage
    /// return.
    pub open spec fn well_formed(self) -> bool {
        &&& self.bytes.len() > 0
        &&& self.extension.len() > 0 ==> self.extension[0] == ';'
        &&& !self.extension.contains('\r')
    }

    /// The line before the bytes: their number in hexadecimal, and the extension.
    pub open spec fn line(self) -> Seq<char> {
        numbers::digits_of(self.bytes.len(), 16) + self.extension
    }

    /// The line and the bytes, each followed by the end of a line.
    pub open spec fn sent(self) -> Seq<u8> {
        encode_utf8(self.line()) + crlf() + self.bytes + crlf()
    }
}

/// A body that comes in chunks, up to the line of the empty chunk.
pub open spec fn chunked(chunks: Seq<ChunkView>) -> Seq<u8>
    decreases chunks.len(),
{
    if chunks.len() == 0 {
        seq![48u8, 13u8, 10u8]
    } else {
        chunks[0].sent() + chunked(chunks.skip(1))
    }
}

/// The bytes of all chunks.
pub open spec fn all_bytes(chunks: Seq<ChunkView>) -> Seq<u8>
    decreases chunks.len(),
{
    if chunks.len() == 0 {
        Seq::empty()
    } else {
        chunks[0].bytes + all_bytes(chunks.skip(1))
    }
}

/// The line of a chunk is read as the size that it was made of.
proof fn lemma_size_line(n: nat, extension: Seq<char>)
    requires
        n <= usize::MAX,
        extension.len() > 0 ==> extension[0] == ';',
        !extension.contains('\r'),
    ensures
        ({
            let line = encode_utf8(numbers::digits_of(n, 16) + extension);
            &&& valid_utf8(line)
            &&& numbers::parse_uint(size_digits(decode_utf8(line)), 16, usize::MAX as nat) == Some(
                n,
            )
            &&& forall|i: int| 0 <= i < line.len() ==> #[trigger] line[i] != 13
        }),
{
    let s = numbers::digits_of(n, 16);
    let line = s + extension;
    numbers::lemma_digits_of(n, 16);
    numbers::lemma_no_sign(s, 16);
    assert forall|i: int| 0 <= i < s.len() implies #[trigger] s[i] != ';' && !text::white_space(
        s[i],
    ) && s[i] != '\r' by {
        assert(0 <= numbers::digit_value(s[i]) < 16);
    }
    encode_utf8_valid_utf8(line);
    encode_utf8_decode_utf8(line);
    assert forall|j: int| 0 <= j < s.len() implies !CharSet::Only(';').has(#[trigger] line[j]) by {
        assert(line[j] == s[j]);
    }
    assert(extension.len() > 0 ==> line[s.len() as int] == ';');
    text::lemma_until_is(line, CharSet::Only(';'), s.len() as int);
    assert(line.take(s.len() as int) =~= s);
    assert(text::trim_start(s, CharSet::White) == s) by {
        assert(!text::white_space(s[0]));
    }
    assert(text::trim_end(s, CharSet::White) == s) by {
        assert(!text::white_space(s[s.len() - 1]));
    }
    assert(!line.contains('\r')) by {
        if line.contains('\r') {
            let j = choose|j: int| 0 <= j < line.len() && line[j] == '\r';
            if j < s.len() {
                assert(line[j] == s[j]);
            } else {
                assert(line[j] == extension[j - s.len()]);
                assert(extension.contains('\r'));
            }
        }
    }
    assert(13u8 as char == '\r');
    encoding::lemma_no_ascii_byte(line, 13);
}

/// The first end of a line, where no carriage return stands before it.
proof fn lemma_line_end(body: Seq<u8>, from: int, end: int)
    requires
        0 <= from <= end,
        bytes_at(body, crlf(), end),
        forall|i: int| from <= i < end ==> #[trigger] body[i] != 13,
    ensures
        bytes_from(body, crlf(), from) == Some(end),
    decreases end - from,
{
    if from < end {
        if bytes_at(body, crlf(), from) {
            assert(body.subrange(from, from + 2)[0] == crlf()[0]);
            assert(body[from] != 13);
        }
        lemma_line_end(body, from + 1, end);
    }
}

/// A prefix, a line without a carriage return, and what follows.
proof fn lemma_prefixed_line(prefix: Seq<u8>, line: Seq<u8>, rest: Seq<u8>)
    requires
        forall|i: int| 0 <= i < line.len() ==> #[trigger] line[i] != 13,
    ensures
        bytes_from(prefix + line + crlf() + rest, crlf(), prefix.len() as int) == Some(
            (prefix.len() + line.len()) as int,
        ),
{
    let body = prefix + line + crlf() + rest;
    let p = prefix.len() as int;
    let e = (prefix.len() + line.len()) as int;
    assert(body.subrange(e, e + 2) =~= crlf());
    assert forall|i: int| p <= i < e implies #[trigger] body[i] != 13 by {
        assert(body[i] == line[i - p]);
    }
    lemma_line_end(body, p, e);
}

/// There is no end of a line where no carriage return has a byte behind it.
proof fn lemma_no_line_end(body: Seq<u8>, from: int)
    requires
        0 <= from,
        forall|i: int| from <= i < body.len() - 1 ==> #[trigger] body[i] != 13,
    ensures
        bytes_from(body, crlf(), from) is None,
    decreases body.len() + 1 - from,
{
    if from <= body.len() {
        if bytes_at(body, crlf(), from) {
            assert(body.subrange(from, from + 2)[0] == crlf()[0]);
            assert(body[from] != 13);
        }
        lemma_no_line_end(body, from + 1);
    }
}

/// A line without a carriage return that is cut off before its end has no end.
proof fn lemma_cut_line(prefix: Seq<u8>, line: Seq<u8>, rest: Seq<u8>, n: int)
    requires
        forall|i: int| 0 <= i < line.len() ==> #[trigger] line[i] != 13,
        prefix.len() <= n < prefix.len() + line.len() + 2,
    ensures
        bytes_from((prefix + line + crlf() + rest).take(n), crlf(), prefix.len() as int) is None,
{
    let body = prefix + line + crlf() + rest;
    let cut = body.take(n);
    let p = prefix.len() as int;
    assert forall|i: int| p <= i < cut.len() - 1 implies #[trigger] cut[i] != 13 by {
        assert(cut[i] == line[i - p]);
    }
    lemma_no_line_end(cut, p);
}

/// The line of the empty chunk.
proof fn lemma_last_line()
    ensures
        encode_utf8(numbers::digits_of(0, 16) + Seq::<char>::empty()) == seq![48u8],
{
    let s = numbers::digits_of(0, 16);
    assert(s + Seq::<char>::empty() =~= seq!['0']);
    encoding::lemma_ascii_utf8(seq!['0']);
    assert(encoding::ascii_bytes(seq!['0']) =~= seq![48u8]);
}

/// Reading the chunks between a prefix and what follows them.
proof fn lemma_dechunked(prefix: Seq<u8>, chunks: Seq<ChunkView>, rest: Seq<u8>)
    requires
        forall|i: int| 0 <= i < chunks.len() ==> (#[trigger] chunks[i]).well_formed(),
        (prefix + chunked(chunks) + rest).len() <= usize::MAX,
    ensures
        dechunked(prefix + chunked(chunks) + rest, prefix.len() as int) == Ok::<_, BodyErrorView>(
            all_bytes(chunks),
        ),
    decreases chunks.len(),
{
    let body = prefix + chunked(chunks) + rest;
    let p = prefix.len() as int;
    if chunks.len() == 0 {
        let line = seq![48u8];
        lemma_size_line(0, Seq::empty());
        lemma_last_line();
        lemma_prefixed_line(prefix, line, rest);
        assert(body =~= prefix + line + crlf() + rest);
        assert(body.subrange(p, p + 1) =~= line);
    } else {
        let first = chunks[0];
        assert(first.well_formed());
        let bytes = first.bytes;
        let n = bytes.len();
        let line = encode_utf8(first.line());
        let behind = chunked(chunks.skip(1)) + rest;
        assert(body =~= prefix + line + crlf() + (bytes + crlf() + behind));
        assert(n <= usize::MAX);
        lemma_size_line(n, first.extension);
        lemma_prefixed_line(prefix, line, bytes + crlf() + behind);
        let e = p + line.len();
        assert(body.subrange(p, e) =~= line);
        let next = prefix + first.sent();
        assert(body =~= next + chunked(chunks.skip(1)) + rest);
        assert(body.subrange(e + 2, e + 2 + n) =~= bytes);
        assert(body.subrange(e + 2 + n, e + 2 + n + 2) =~= crlf());
        assert forall|i: int| 0 <= i < chunks.skip(1).len() implies (
        #[trigger] chunks.skip(1)[i]).well_formed() by {
            assert(chunks[i + 1].well_formed());
        }
        lemma_dechunked(next, chunks.skip(1), rest);
        assert(next.len() == e + 2 + n + 2);
    }
}

/// Reading the chunks behind a prefix, where they are cut off.
proof fn lemma_cut_chunks(prefix: Seq<u8>, chunks: Seq<ChunkView>, n: int)
    requires
        forall|i: int| 0 <= i < chunks.len() ==> (#[trigger] chunks[i]).well_formed(),
        (prefix + chunked(chunks)).len() <= usize::MAX,
        prefix.len() <= n < prefix.len() + chunked(chunks).len(),
    ensures
        dechunked((prefix + chunked(chunks)).take(n), prefix.len() as int) is Err,
    decreases chunks.len(),
{
    let body = prefix + chunked(chunks);
    let cut = body.take(n);
    let p = prefix.len() as int;
    if chunks.len() == 0 {
        let line = seq![48u8];
        assert(body =~= prefix + line + crlf() + Seq::<u8>::empty());
        lemma_cut_line(prefix, line, Seq::empty(), n);
    } else {
        let first = chunks[0];
        assert(first.well_formed());
        let bytes = first.bytes;
        let size = bytes.len();
        let line = encode_utf8(first.line());
        let behind = bytes + crlf() + chunked(chunks.skip(1));
        assert(body =~= prefix + line + crlf() + behind);
        assert(size <= usize::MAX);
        lemma_size_line(size, first.extension);
        let e = p + line.len();
        if n < e + 2 {
            lemma_cut_line(prefix, line, behind, n);
        } else {
            assert(cut =~= prefix + line + crlf() + behind.take(n - e - 2));
            lemma_prefixed_line(prefix, line, behind.take(n - e - 2));
            assert(cut.subrange(p, e) =~= line);
            let next = prefix + first.sent();
            assert(next.len() == e + 2 + size + 2);
            if n >= next.len() {
                assert(body =~= next + chunked(chunks.skip(1)));
                assert forall|i: int| 0 <= i < chunks.skip(1).len() implies (
                #[trigger] chunks.skip(1)[i]).well_formed() by {
                    assert(chunks[i + 1].well_formed());
                }
                lemma_cut_chunks(next, chunks.skip(1), n);
            }
        }
    }
}

/// Whatever is sent in chunks is read as it was before it was cut into chunks, whatever their
/// extensions say and whatever follows the line of the empty chunk.
pub proof fn law_chunks_are_read_back(chunks: Seq<ChunkView>, rest: Seq<u8>)
    requires
        forall|i: int| 0 <= i < chunks.len() ==> (#[trigger] chunks[i]).well_formed(),
        (chunked(chunks) + rest).len() <= usize::MAX,
    ensures
        dechunked(chunked(chunks) + rest, 0) == Ok::<_, BodyErrorView>(all_bytes(chunks)),
{
    assert(Seq::<u8>::empty() + chunked(chunks) + rest =~= chunked(chunks) + rest);
    lemma_dechunked(Seq::empty(), chunks, rest);
}

/// What is sent in chunks is refused wherever it breaks off before the end of the line of the
/// empty chunk.
pub proof fn law_cut_chunks_are_refused(chunks: Seq<ChunkView>, n: int)
    requires
        forall|i: int| 0 <= i < chunks.len() ==> (#[trigger] chunks[i]).well_formed(),
        chunked(chunks).len() <= usize::MAX,
        0 <= n < chunked(chunks).len(),
    ensures
        dechunked(chunked(chunks).take(n), 0) is Err,
{
    assert(Seq::<u8>::empty() + chunked(chunks) =~= chunked(chunks));
    lemma_cut_chunks(Seq::empty(), chunks, n);
}

/// The words of a text that starts with two words.
proof fn lemma_second_word(first: Seq<char>, second: Seq<char>, rest: Seq<char>)
    requires
        first.len() > 0 && text::free_of(first, CharSet::White),
        second.len() > 0 && text::free_of(second, CharSet::White),
    ensures
        ({
            let words = text::words(first + " "@ + (second + " "@ + rest));
            &&& words.len() >= 2
            &&& words[1] == second
        }),
        ({
            let words = text::words(first + " "@ + second);
            &&& words.len() == 2
            &&& words[1] == second
        }),
{
    reveal_strlit(" ");
    let white = CharSet::White;
    let keep = |p: Seq<char>| p.len() > 0;
    assert(" "@ =~= seq![' ']);
    let tail = second + seq![' '] + rest;
    text::lemma_parts_concat(first, ' ', tail, white);
    text::lemma_parts_concat(second, ' ', rest, white);
    text::lemma_parts_concat(first, ' ', second, white);
    text::lemma_parts_free(first, white);
    text::lemma_parts_free(second, white);
    let more = text::parts(rest, white);
    let ps = text::parts(first + seq![' '] + tail, white);
    let both = seq![first, second];
    assert(ps =~= both + more);
    Seq::filter_distributes_over_add(both, more, keep);
    assert forall|i: int| 0 <= i < both.len() implies keep(#[trigger] both[i]) by {}
    text::lemma_filter_all(both, keep);
    assert(text::parts(first + seq![' '] + second, white) =~= both);
}

/// The status code is the second word of the first line, whatever follows it.
pub proof fn law_status_is_read(headers: Seq<char>, version: Seq<char>, code: nat, reason: Seq<char>)
    requires
        code <= u16::MAX,
        version.len() > 0 && text::free_of(version, CharSet::White),
        text::line_seq(headers).len() > 0,
        text::line_seq(headers)[0] == version + " "@ + (numbers::dec(code) + " "@ + reason)
            || text::line_seq(headers)[0] == version + " "@ + numbers::dec(code),
    ensures
        status_of(headers) == Some(code),
{
    let d = numbers::dec(code);
    numbers::lemma_digits_of(code, 10);
    assert(text::free_of(d, CharSet::White)) by {
        assert forall|i: int| 0 <= i < d.len() implies !CharSet::White.has(#[trigger] d[i]) by {
            assert(numbers::digit_value(d[i]) < 10);
        }
    }
    lemma_second_word(version, d, reason);
    numbers::law_parse_of_dec(code, 0, u16::MAX as nat);
}

/// A header line holds the value behind its colon, without white space around it, under its name
/// in capitals or small letters.
pub proof fn law_header_line_is_read(key: Seq<char>, value: Seq<char>, name: Seq<char>)
    requires
        text::free_of(key, CharSet::Only(':')),
    ensures
        text::ascii_lower(text::trimmed(key)) == text::ascii_lower(name) ==> value_in_line(
            key + ":"@ + value,
            name,
        ) == Some(text::trimmed(value)),
        text::ascii_lower(text::trimmed(key)) != text::ascii_lower(name) ==> value_in_line(
            key + ":"@ + value,
            name,
        ) is None,
        value_in_line(key, name) is None,
{
    reveal_strlit(":");
    let colon = CharSet::Only(':');
    let s = key + ":"@ + value;
    assert forall|i: int| 0 <= i < key.len() implies !colon.has(#[trigger] s[i]) by {
        assert(!colon.has(key[i]));
    }
    text::lemma_until_is(s, colon, key.len() as int);
    assert(s.take(key.len() as int) =~= key);
    assert(s.skip(key.len() as int + 1) =~= value);
    text::lemma_until_is(key, colon, key.len() as int);
}

/// The value of a header is that of the first line that holds it; lines that hold others do not
/// matter.
pub proof fn law_first_header_counts(
    before: Seq<Seq<char>>,
    line: Seq<char>,
    after: Seq<Seq<char>>,
    name: Seq<char>,
)
    requires
        forall|i: int| 0 <= i < before.len() ==> value_in_line(#[trigger] before[i], name) is None,
        value_in_line(line, name) is Some,
    ensures
        value_in_lines(before + seq![line] + after, name) == value_in_line(line, name),
        value_in_lines(before, name) is None,
    decreases before.len(),
{
    let all = before + seq![line] + after;
    if before.len() == 0 {
        assert(all[0] == line);
    } else {
        let rest = before.skip(1);
        assert(value_in_line(before[0], name) is None);
        assert forall|i: int| 0 <= i < rest.len() implies value_in_line(
            #[trigger] rest[i],
            name,
        ) is None by {
            assert(rest[i] == before[i + 1]);
        }
        law_first_header_counts(rest, line, after, name);
        assert(all.skip(1) =~= rest + seq![line] + after);
        assert(all[0] == before[0]);
    }
}

/// A body behind headers that say success is as long as they announce, and complete; without a
/// length it is all that came. Where they say anything else, the answer is an error with the code.
pub proof fn law_body_is_as_announced(headers: Seq<char>, body: Seq<u8>, code: nat, length: nat)
    requires
        status_of(headers) == Some(code),
    ensures
        code < 200 || code >= 300 ==> (body_behind(headers, body) matches Err(
            BodyErrorView::Status(told, _),
        ) && told == code),
        200 <= code < 300 && !comes_in_chunks(headers) && announced_length(headers) == Some(length)
            && length <= body.len() ==> (body_behind(headers, body) matches Ok(got) && got.len()
            == length && got.is_prefix_of(body)),
        200 <= code < 300 && !comes_in_chunks(headers) && announced_length(headers) == Some(length)
            && length > body.len() ==> body_behind(headers, body) == Err::<Seq<u8>, _>(
            BodyErrorView::Incomplete(body.len(), length),
        ),
        200 <= code < 300 && !comes_in_chunks(headers) && announced_length(headers) is None
            ==> body_behind(headers, body) == Ok::<_, BodyErrorView>(body),
        200 <= code < 300 && comes_in_chunks(headers) ==> body_behind(headers, body) == dechunked(
            body,
            0,
        ),
{
}

/// The headers of an answer end at the first empty line, and the body is all behind it.
pub proof fn law_body_follows_empty_line(head: Seq<u8>, body: Seq<u8>)
    requires
        valid_utf8(head),
        forall|i: int|
            0 <= i < head.len() ==> !#[trigger] bytes_at(
                head + header_mark() + body,
                header_mark(),
                i,
            ),
    ensures
        header_mark() == crlf() + crlf(),
        response_body(head + header_mark() + body) == body_behind(decode_utf8(head), body),
{
    let mark = header_mark();
    assert(mark =~= crlf() + crlf());
    lemma_first_mark(head, mark, body);
    let all = head + mark + body;
    assert(all.take(head.len() as int) =~= head);
    assert(all.skip(head.len() as int + 4) =~= body);
}

/// A mark is found where it first stands.
proof fn lemma_first_mark(head: Seq<u8>, mark: Seq<u8>, body: Seq<u8>)
    requires
        forall|i: int| 0 <= i < head.len() ==> !#[trigger] bytes_at(head + mark + body, mark, i),
    ensures
        bytes_from(head + mark + body, mark, 0) == Some(head.len() as int),
{
    let all = head + mark + body;
    let n = head.len() as int;
    lemma_bytes_from(all, mark, 0);
    assert(all.subrange(n, n + mark.len()) =~= mark);
    assert(bytes_at(all, mark, n));
}

/// A long text is cut off and marked with three dots; a short one stays.
pub proof fn law_preview_is_short(s: Seq<char>, max_chars: int)
    requires
        max_chars >= 0,
    ensures
        s.len() <= max_chars ==> preview_of(s, max_chars) == s,
        s.len() > max_chars ==> preview_of(s, max_chars).len() == max_chars + 3 && s.take(
            max_chars,
        ).is_prefix_of(preview_of(s, max_chars)),
{
    reveal_strlit("...");
}

} // verus!
