//! Phones' files over HTTP: byte ranges, the heads of answers, and the cache of files' first bytes.
use vstd::prelude::*;
use vstd::hash_set::StringHashSet;
use vstd::utf8::*;

use crate::encoding;
use crate::ids;
use crate::media_path;
use crate::numbers;
use crate::order;
use crate::phone::{PhoneResponse, ResponseView};
use crate::phone;
use crate::registry::{PhoneRegistry, PhoneSession, PhoneView, RegistryView};
use crate::registry;
use crate::stream::Sweep;
use crate::stream;
use crate::text::CharSet;
use crate::text;
use crate::worker;

verus! {

/// The least number of bytes of a file that are kept.
pub const MIN_HEAD_CACHE_BYTES: u64 = 10_485_760;

/// How many bytes of a file are kept, unless configured otherwise.
pub const DEFAULT_HEAD_CACHE_BYTES: u64 = 33_554_432;

/// The greatest number of bytes of a file that are kept.
pub const MAX_HEAD_CACHE_BYTES: u64 = 52_428_800;

/// How many bytes are kept of all files, unless configured otherwise.
pub const DEFAULT_HEAD_CACHE_MAX_BYTES: u64 = 268_435_456;

// ---------------------------------------------------------------------------
// Byte ranges
// ---------------------------------------------------------------------------

/// The bytes of a file that are asked for.
#[derive(Clone, Copy, Debug, PartialEq, Eq, Structural)]
pub struct ByteRange {
    /// The first byte.
    pub start: u64,
    /// The last byte.
    pub end: u64,
    /// Whether a part of the file was asked for.
    pub partial: bool,
}

/// Whether a byte can stand in the text of a header.
pub open spec fn header_byte(b: u8) -> bool {
    32 <= b < 127 || b == 9
}

/// The part of a file of `size` bytes that `start-end` stands for: from a byte to another, from a
/// byte on, or as many last bytes.
pub open spec fn range_part(first: Seq<char>, size: u64) -> Option<ByteRange> {
    match text::cut(first, CharSet::Only('-')) {
        None => None,
        Some((from, to)) => if from.len() == 0 {
            match numbers::parse_uint(to, 10, u64::MAX as nat) {
                Some(n) if n > 0 => Some(
                    ByteRange {
                        start: if n >= size {
                            0
                        } else {
                            (size - n) as u64
                        },
                        end: (size - 1) as u64,
                        partial: true,
                    },
                ),
                _ => None,
            }
        } else {
            match numbers::parse_uint(from, 10, u64::MAX as nat) {
                Some(start) if start < size => if text::trimmed(to).len() == 0 {
                    Some(
                        ByteRange { start: start as u64, end: (size - 1) as u64, partial: true },
                    )
                } else {
                    match numbers::parse_uint(to, 10, u64::MAX as nat) {
                        Some(end) if end >= start => Some(
                            ByteRange {
                                start: start as u64,
                                end: if end >= size {
                                    (size - 1) as u64
                                } else {
                                    end as u64
                                },
                                partial: true,
                            },
                        ),
                        _ => None,
                    }
                },
                _ => None,
            }
        },
    }
}

/// The bytes of a file of `size` bytes that a `Range` header asks for; nothing where it cannot be
/// met. Without the header, and of an empty file, it is the whole file.
pub open spec fn requested_range(header: Option<Seq<u8>>, size: u64) -> Option<ByteRange> {
    if size == 0 {
        Some(ByteRange { start: 0, end: 0, partial: false })
    } else {
        match header {
            None => Some(ByteRange { start: 0, end: (size - 1) as u64, partial: false }),
            Some(bytes) => if !(forall|i: int|
                0 <= i < bytes.len() ==> header_byte(#[trigger] bytes[i])) {
                None
            } else {
                match text::without_prefix(decode_utf8(bytes), "bytes="@) {
                    None => None,
                    Some(ranges) => range_part(
                        text::trimmed(text::head(ranges, CharSet::Only(','))),
                        size,
                    ),
                }
            },
        }
    }
}

/// The text of a header, where all of it is printable ASCII or tabs.
fn header_text(bytes: &[u8]) -> (r: Option<String>)
    ensures
        match r {
            Some(s) => (forall|i: int| 0 <= i < bytes@.len() ==> header_byte(#[trigger] bytes@[i]))
                && s@ == decode_utf8(bytes@),
            None => !(forall|i: int| 0 <= i < bytes@.len() ==> header_byte(#[trigger] bytes@[i])),
        },
{
    let n: usize = bytes.len();
    let mut i: usize = 0;
    while i < n
        invariant
            n == bytes@.len(),
            i <= n,
            forall|j: int| 0 <= j < i ==> header_byte(#[trigger] bytes@[j]),
        decreases n - i,
    {
        let b: u8 = bytes[i];
        if !((32 <= b && b < 127) || b == 9) {
            proof {
                assert(!header_byte(bytes@[i as int]));
            }
            return None;
        }
        i += 1;
    }
    let copy = encoding::byte_range(bytes, 0, n);
    proof {
        assert(copy@ =~= bytes@);
        lemma_header_is_utf8(bytes@);
    }
    encoding::utf8_text(copy)
}

/// Printable ASCII is valid UTF-8.
proof fn lemma_header_is_utf8(bytes: Seq<u8>)
    requires
        forall|i: int| 0 <= i < bytes.len() ==> header_byte(#[trigger] bytes[i]),
    ensures
        valid_utf8(bytes),
{
    let s = bytes.map_values(|b: u8| b as char);
    assert forall|i: int| 0 <= i < s.len() implies (#[trigger] s[i] as int) < 128 by {
        assert(header_byte(bytes[i]));
    }
    encoding::lemma_ascii_utf8(s);
    assert(encoding::ascii_bytes(s) =~= bytes) by {
        assert forall|i: int| 0 <= i < bytes.len() implies encoding::ascii_bytes(s)[i]
            == bytes[i] by {
            assert(header_byte(bytes[i]));
        }
    }
    encode_utf8_valid_utf8(s);
}

/// The part of a file that `start-end` stands for.
fn parse_part(first: &str, size: u64) -> (r: Option<ByteRange>)
    requires
        size > 0,
    ensures
        r == range_part(first@, size),
{
    let (from, to) = match text::split_once(first, CharSet::Only('-')) {
        Some(pair) => pair,
        None => {
            return None;
        },
    };
    if from.as_str().is_empty() {
        let n: u64 = match numbers::parse_u64(&to) {
            Some(n) => n,
            None => {
                return None;
            },
        };
        if n == 0 {
            return None;
        }
        return Some(ByteRange { start: size.saturating_sub(n), end: size - 1, partial: true });
    }
    let start: u64 = match numbers::parse_u64(&from) {
        Some(n) => n,
        None => {
            return None;
        },
    };
    if start >= size {
        return None;
    }
    if text::trim(&to).as_str().is_empty() {
        return Some(ByteRange { start, end: size - 1, partial: true });
    }
    let last: u64 = match numbers::parse_u64(&to) {
        Some(n) => n,
        None => {
            return None;
        },
    };
    let end: u64 = if last >= size {
        size - 1
    } else {
        last
    };
    if end < start {
        return None;
    }
    Some(ByteRange { start, end, partial: true })
}

/// The bytes of a file of `size` bytes that a `Range` header asks for; nothing where it cannot be
/// met.
pub fn parse_http_range(range: Option<&[u8]>, size: u64) -> (r: Option<ByteRange>)
    ensures
        r == requested_range(
            match range {
                Some(bytes) => Some(bytes@),
                None => None,
            },
            size,
        ),
{
    if size == 0 {
        return Some(ByteRange { start: 0, end: 0, partial: false });
    }
    let bytes = match range {
        Some(bytes) => bytes,
        None => {
            return Some(ByteRange { start: 0, end: size - 1, partial: false });
        },
    };
    let header = match header_text(bytes) {
        Some(header) => header,
        None => {
            return None;
        },
    };
    match text::strip_prefix(&header, "bytes=") {
        Some(ranges) => {
            let first = text::trim(&text::head_of(&ranges, CharSet::Only(',')));
            parse_part(&first, size)
        },
        None => None,
    }
}

// ---------------------------------------------------------------------------
// Heads of answers
// ---------------------------------------------------------------------------

/// The status code and the headers of an answer.
#[derive(Debug)]
pub struct ReplyHead {
    /// The status code.
    pub status: u16,
    /// The headers: their names and values.
    pub headers: Vec<(String, String)>,
}

/// The model of the head of an answer.
#[verifier::ext_equal]
pub struct HeadView {
    pub status: u16,
    pub headers: Seq<(Seq<char>, Seq<char>)>,
}

/// The headers of a list.
pub open spec fn header_views(v: Seq<(String, String)>) -> Seq<(Seq<char>, Seq<char>)> {
    v.map_values(|h: (String, String)| (h.0@, h.1@))
}

impl View for ReplyHead {
    type V = HeadView;

    open spec fn view(&self) -> HeadView {
        HeadView { status: self.status, headers: header_views(self.headers@) }
    }
}

/// The number of bytes that are sent for a range of a file of `size` bytes.
pub open spec fn sent_length(size: u64, start: u64, end: u64) -> nat {
    if size == 0 {
        0
    } else if end < start {
        1
    } else if end - start >= u64::MAX {
        u64::MAX as nat
    } else {
        (end - start + 1) as nat
    }
}

/// The head of an answer with a range of a file of `size` bytes.
pub open spec fn media_head(size: u64, start: u64, end: u64, partial: bool) -> HeadView {
    let basic = seq![
        ("accept-ranges"@, "bytes"@),
        ("content-type"@, "application/octet-stream"@),
        ("content-length"@, numbers::dec(sent_length(size, start, end))),
    ];
    HeadView {
        status: if partial {
            206
        } else {
            200
        },
        headers: if partial && size > 0 {
            basic.push(
                (
                    "content-range"@,
                    "bytes "@ + numbers::dec(start as nat) + "-"@ + numbers::dec(end as nat) + "/"@
                        + numbers::dec(size as nat),
                ),
            )
        } else {
            basic
        },
    }
}

/// Appends a header.
fn put_header(headers: &mut Vec<(String, String)>, name: &str, value: String)
    ensures
        header_views(final(headers)@) == header_views(old(headers)@).push((name@, value@)),
{
    let ghost before = header_views(headers@);
    headers.push((name.to_string(), value));
    proof {
        assert(header_views(headers@) =~= before.push((name@, value@)));
    }
}

/// The head of an answer with a range of a file of `size` bytes.
pub fn media_headers_response(size: u64, start: u64, end: u64, partial: bool) -> (r: ReplyHead)
    ensures
        r@ == media_head(size, start, end, partial),
{
    let length: u64 = if size == 0 {
        0
    } else {
        end.saturating_sub(start).saturating_add(1)
    };
    let mut headers: Vec<(String, String)> = Vec::new();
    put_header(&mut headers, "accept-ranges", "bytes".to_string());
    put_header(&mut headers, "content-type", "application/octet-stream".to_string());
    put_header(&mut headers, "content-length", numbers::decimal(length));
    if partial && size > 0 {
        let mut value = text::concat3("bytes ", &numbers::decimal(start), "-");
        value.push_str(&numbers::decimal(end));
        value.push_str("/");
        value.push_str(&numbers::decimal(size));
        put_header(&mut headers, "content-range", value);
    }
    let status: u16 = if partial {
        206
    } else {
        200
    };
    let r = ReplyHead { status, headers };
    proof {
        assert(r@.headers =~= media_head(size, start, end, partial).headers);
    }
    r
}

// ---------------------------------------------------------------------------
// Answering
// ---------------------------------------------------------------------------

/// The phone and the path on it that a media URL names, once lost phones were taken out, or what
/// is said where there is none.
pub open spec fn media_target_of(s: RegistryView, raw_path: Seq<char>) -> Result<
    (PhoneView, Seq<char>),
    Seq<char>,
> {
    match media_path::http_media_target(raw_path) {
        Err(e) => Err(e.url_text()),
        Ok((folder, path)) => match phone::folder_phone(s, folder) {
            Some(p) => Ok((p, path)),
            None => Err(phone::phone_gone_text(folder)),
        },
    }
}

/// The phone and the path on it that a media URL names, or what is said where there is none.
pub fn media_target(phones: &mut PhoneRegistry, raw_path: &str, now: u64) -> (r: Result<
    (PhoneSession, String),
    String,
>)
    ensures
        final(phones)@ == (if media_path::http_media_target(raw_path@) is Ok {
            registry::without_stale(old(phones)@, now)
        } else {
            old(phones)@
        }),
        match r {
            Ok((p, path)) => media_target_of(final(phones)@, raw_path@) == Ok::<_, Seq<char>>(
                (p@, path@),
            ),
            Err(message) => media_target_of(final(phones)@, raw_path@) == Err::<
                (PhoneView, Seq<char>),
                _,
            >(message@),
        },
{
    match media_path::resolve_http_media_path(raw_path) {
        Ok((folder, path)) => match phones.get_by_folder(&folder, now) {
            Some(p) => Ok((p, path)),
            None => Err(phone::phone_gone(&folder)),
        },
        Err(e) => Err(e.url_message()),
    }
}

/// The size of the file that a phone describes, or what is said of a directory or a failure.
pub open spec fn described_size(reply: ResponseView) -> Result<u64, Seq<char>> {
    if reply.ok == Some(false) {
        Err(
            match reply.error {
                Some(e) => e,
                None => "erreur telephone"@,
            },
        )
    } else if reply.is_directory == Some(true) {
        Err("le chemin est un dossier"@)
    } else {
        Ok(
            match reply.size {
                Some(n) => n,
                None => 0,
            },
        )
    }
}

/// The size of the file that a phone describes, or what is said of a directory or a failure.
pub fn media_stat_for_http(response: PhoneResponse) -> (r: Result<u64, String>)
    ensures
        match r {
            Ok(size) => described_size(response@) == Ok::<_, Seq<char>>(size),
            Err(message) => described_size(response@) == Err::<u64, _>(message@),
        },
{
    let reply = match phone::phone_json_request(response) {
        Ok(reply) => reply,
        Err(message) => {
            return Err(message);
        },
    };
    match reply.is_directory {
        Some(true) => {
            return Err("le chemin est un dossier".to_string());
        },
        _ => {},
    }
    match reply.size {
        Some(size) => Ok(size),
        None => Ok(0),
    }
}

/// How a request for the bytes of a file is answered.
#[derive(Debug)]
pub enum MediaPlan {
    /// With this status code, and a few words.
    Refuse(u16, &'static str),
    /// With a head alone.
    Empty(ReplyHead),
    /// With a head and bytes of the file.
    Send {
        /// The head.
        head: ReplyHead,
        /// The bytes.
        range: ByteRange,
        /// How many bytes.
        length: u64,
        /// Whether they may be in the cache.
        cacheable: bool,
    },
}

/// The model of how a request for the bytes of a file is answered.
#[verifier::ext_equal]
pub enum PlanView {
    Refuse(u16, Seq<char>),
    Empty(HeadView),
    Send { head: HeadView, range: ByteRange, length: nat, cacheable: bool },
}

impl View for MediaPlan {
    type V = PlanView;

    open spec fn view(&self) -> PlanView {
        match *self {
            MediaPlan::Refuse(status, words) => PlanView::Refuse(status, words@),
            MediaPlan::Empty(head) => PlanView::Empty(head@),
            MediaPlan::Send { head, range, length, cacheable } => PlanView::Send {
                head: head@,
                range,
                length: length as nat,
                cacheable,
            },
        }
    }
}

/// How a request for the bytes of a file of `size` bytes is answered, where the first
/// `file_bytes` bytes of files are kept.
pub open spec fn media_plan(header: Option<Seq<u8>>, size: u64, file_bytes: u64) -> PlanView {
    match requested_range(header, size) {
        None => PlanView::Refuse(416, "range invalide"@),
        Some(range) => if size == 0 {
            PlanView::Empty(media_head(0, 0, 0, range.partial))
        } else {
            let length = sent_length(size, range.start, range.end);
            PlanView::Send {
                head: media_head(size, range.start, range.end, range.partial),
                range,
                length,
                cacheable: range.start < file_bytes && (range.partial || length <= file_bytes),
            }
        },
    }
}

/// How a request for the bytes of a file is answered.
pub fn http_get_media(range: Option<&[u8]>, size: u64, file_bytes: u64) -> (r: MediaPlan)
    ensures
        r@ == media_plan(
            match range {
                Some(bytes) => Some(bytes@),
                None => None,
            },
            size,
            file_bytes,
        ),
{
    let asked = match parse_http_range(range, size) {
        Some(asked) => asked,
        None => {
            return MediaPlan::Refuse(416, "range invalide");
        },
    };
    if size == 0 {
        return MediaPlan::Empty(media_headers_response(0, 0, 0, asked.partial));
    }
    let length: u64 = asked.end.saturating_sub(asked.start).saturating_add(1);
    MediaPlan::Send {
        head: media_headers_response(size, asked.start, asked.end, asked.partial),
        range: asked,
        length,
        cacheable: asked.start < file_bytes && (asked.partial || length <= file_bytes),
    }
}

/// Whether a request is answered with a head alone: the same head as with the bytes.
pub open spec fn head_plan(header: Option<Seq<u8>>, size: u64) -> PlanView {
    match requested_range(header, size) {
        None => PlanView::Refuse(416, "range invalide"@),
        Some(range) => PlanView::Empty(media_head(size, range.start, range.end, range.partial)),
    }
}

/// How a request for the head of an answer with the bytes of a file is answered.
pub fn http_head_media(range: Option<&[u8]>, size: u64) -> (r: MediaPlan)
    ensures
        r@ == head_plan(
            match range {
                Some(bytes) => Some(bytes@),
                None => None,
            },
            size,
        ),
{
    match parse_http_range(range, size) {
        Some(asked) => MediaPlan::Empty(
            media_headers_response(size, asked.start, asked.end, asked.partial),
        ),
        None => MediaPlan::Refuse(416, "range invalide"),
    }
}

// ---------------------------------------------------------------------------
// Copying
// ---------------------------------------------------------------------------

/// A copy of at most a number of bytes out of a stream.
#[derive(Clone, Copy, Debug, PartialEq, Eq, Structural)]
pub struct MediaCopy {
    /// How many bytes may still be copied.
    pub remaining: u64,
}

/// What is done with bytes that were read.
#[derive(Clone, Copy, Debug, PartialEq, Eq, Structural)]
pub struct CopyStep {
    /// How many of them are written.
    pub write: usize,
    /// Whether more are read after that.
    pub more: bool,
}

/// How many of the bytes that were read are written.
pub open spec fn written(remaining: nat, read: nat) -> nat {
    if read < remaining {
        read
    } else {
        remaining
    }
}

impl MediaCopy {
    /// A copy of at most `max_bytes` bytes.
    pub fn new(max_bytes: u64) -> (r: Self)
        ensures
            r.remaining == max_bytes,
    {
        MediaCopy { remaining: max_bytes }
    }

    /// Whether anything is to be read.
    pub fn wants_more(&self) -> (r: bool)
        ensures
            r == (self.remaining > 0),
    {
        self.remaining > 0
    }

    /// Takes in that `read` bytes were read; none are read at the end of the stream.
    pub fn copy_phone_media_range(&mut self, read: usize) -> (r: CopyStep)
        ensures
            r.write == written(old(self).remaining as nat, read as nat),
            final(self).remaining == old(self).remaining - r.write,
            r.more == (read > 0 && final(self).remaining > 0),
    {
        let write: usize = if (read as u64) < self.remaining {
            read
        } else {
            self.remaining as usize
        };
        self.remaining = self.remaining - write as u64;
        CopyStep { write, more: read > 0 && self.remaining > 0 }
    }
}

/// How many bytes are written of blocks of the given sizes, and how many may be written after
/// that.
pub open spec fn copied(remaining: nat, blocks: Seq<nat>) -> (nat, nat)
    decreases blocks.len(),
{
    if blocks.len() == 0 || remaining == 0 || blocks[0] == 0 {
        (0, remaining)
    } else {
        let w = written(remaining, blocks[0]);
        let rest = copied((remaining - w) as nat, blocks.skip(1));
        (w + rest.0, rest.1)
    }
}

// ---------------------------------------------------------------------------
// The cache
// ---------------------------------------------------------------------------

/// A number of bytes that is configured: where it is no number, a default; 0 turns the cache off;
/// other numbers are kept within bounds, where there are any.
pub open spec fn cache_bytes(raw: Option<Seq<char>>, default: u64, clamp: Option<(u64, u64)>) -> u64 {
    let value = match raw {
        Some(s) => match numbers::parse_uint(s, 10, u64::MAX as nat) {
            Some(n) => n as u64,
            None => default,
        },
        None => default,
    };
    if value == 0 {
        0
    } else {
        match clamp {
            Some((min, max)) => if value < min {
                min
            } else if value > max {
                max
            } else {
                value
            },
            None => value,
        }
    }
}

/// A number of bytes that is configured.
pub fn configured_cache_bytes(raw: Option<String>, default: u64, clamp: Option<(u64, u64)>) -> (r:
    u64)
    requires
        clamp matches Some((min, max)) ==> min <= max,
    ensures
        r == cache_bytes(text::text_in(raw), default, clamp),
{
    let value: u64 = match raw {
        Some(s) => match numbers::parse_u64(&s) {
            Some(n) => n,
            None => default,
        },
        None => default,
    };
    if value == 0 {
        return 0;
    }
    match clamp {
        Some((min, max)) => if value < min {
            min
        } else if value > max {
            max
        } else {
            value
        },
        None => value,
    }
}

/// The name of the file that keeps the first bytes of a phone's file.
pub open spec fn cache_name(phone_folder: Seq<char>, target_path: Seq<char>) -> Seq<char> {
    numbers::hex_padded(ids::cache_hash(phone_folder, target_path) as nat, 16) + ".head"@
}

/// The path of the file that keeps the first bytes of a phone's file.
pub fn cache_path_for(dir: &str, phone_folder: &str, target_path: &str) -> (r: String)
    ensures
        r@ == worker::path_in(dir@, cache_name(phone_folder@, target_path@)),
{
    let name = text::concat2(&ids::cache_key(phone_folder, target_path), ".head");
    worker::join_path(dir, &name)
}

/// Whether a file is one of the cache, by its name.
pub fn is_cache_file(name: &str) -> (r: bool)
    ensures
        r == (text::ends(name@, ".head"@) && name@.len() > 5),
{
    text::ends_with(name, ".head") && text::chars_of(name).len() > 5
}

/// The cache of files' first bytes.
pub struct HeadCache {
    /// How many bytes of a file are kept; 0 where none are.
    pub file_bytes: u64,
    /// How many bytes are kept of all files; 0 where there is no limit.
    pub max_bytes: u64,
    /// The files that are being read.
    pub prefetching: StringHashSet,
}

impl HeadCache {
    /// An empty cache.
    pub fn new(file_bytes: u64, max_bytes: u64) -> (r: Self)
        ensures
            r.file_bytes == file_bytes,
            r.max_bytes == max_bytes,
            r.prefetching@ == Set::<Seq<char>>::empty(),
    {
        HeadCache { file_bytes, max_bytes, prefetching: StringHashSet::new() }
    }

    /// Whether the first bytes of a file are to be read: the cache is on, the file is not empty,
    /// and nobody is reading it. From then on somebody is.
    pub fn schedule_head_cache_prefetch(&mut self, key: &str, size: u64) -> (r: bool)
        ensures
            final(self).file_bytes == old(self).file_bytes,
            final(self).max_bytes == old(self).max_bytes,
            r == (old(self).file_bytes != 0 && size != 0 && !old(self).prefetching@.contains(key@)),
            final(self).prefetching@ == (if r {
                old(self).prefetching@.insert(key@)
            } else {
                old(self).prefetching@
            }),
    {
        if self.file_bytes == 0 || size == 0 {
            return false;
        }
        if self.prefetching.contains(key) {
            return false;
        }
        self.prefetching.insert(key.to_string());
        true
    }

    /// Notes that a file is no longer read.
    pub fn prefetch_done(&mut self, key: &str)
        ensures
            final(self).file_bytes == old(self).file_bytes,
            final(self).max_bytes == old(self).max_bytes,
            final(self).prefetching@ == old(self).prefetching@.remove(key@),
    {
        self.prefetching.remove(key);
    }

    /// The bytes that are still to be read of a file of `size` bytes of which `kept` bytes are
    /// kept: from where, and how many; or that there are none, or that the cache is off.
    pub fn ensure_head_cache(&self, size: u64, kept: u64) -> (r: Result<Option<(u64, u64)>, String>)
        ensures
            match r {
                Err(message) => (self.file_bytes == 0 || size == 0) && message@
                    == "cache desactive"@,
                Ok(missing) => self.file_bytes != 0 && size != 0 && missing == missing_bytes(
                    self.file_bytes,
                    size,
                    kept,
                ),
            },
    {
        if self.file_bytes == 0 || size == 0 {
            return Err("cache desactive".to_string());
        }
        let wanted: u64 = if self.file_bytes < size {
            self.file_bytes
        } else {
            size
        };
        if kept < wanted {
            Ok(Some((kept, wanted - kept)))
        } else {
            Ok(None)
        }
    }

    /// How the cache is brought within its limit, given the length of each of its files and when
    /// it was modified: by removing files, the oldest first. A cache without a limit keeps all.
    pub fn prune_head_cache(&self, files: &Vec<(u64, u128)>) -> (r: Option<Sweep>)
        ensures
            match r {
                None => self.max_bytes == 0,
                Some(sweep) => {
                    &&& self.max_bytes != 0
                    &&& sweep.well_formed()
                    &&& order::stable_order(
                        stream::age_keys(files@.map_values(|f: (u64, u128)| f.1)),
                        sweep.order@,
                    )
                    &&& sweep.next == 0
                    &&& sweep.total == stream::capped(0, length_of_all(files@))
                    &&& sweep.limit == self.max_bytes
                },
            },
    {
        if self.max_bytes == 0 {
            return None;
        }
        let ghost times = files@.map_values(|f: (u64, u128)| f.1);
        let mut modified: Vec<u128> = Vec::new();
        let mut total: u64 = 0;
        let mut i: usize = 0;
        while i < files.len()
            invariant
                times == files@.map_values(|f: (u64, u128)| f.1),
                i <= files@.len(),
                modified@ == times.take(i as int),
                total == stream::capped(0, length_of_all(files@.take(i as int))),
            decreases files@.len() - i,
        {
            proof {
                assert(files@.take(i + 1).drop_last() =~= files@.take(i as int));
                assert(times.take(i + 1) =~= times.take(i as int).push(times[i as int]));
            }
            total = total.saturating_add(files[i].0);
            modified.push(files[i].1);
            i += 1;
        }
        proof {
            assert(files@.take(i as int) =~= files@);
            assert(times.take(i as int) =~= times);
        }
        Some(Sweep::new(&modified, total, self.max_bytes))
    }
}

/// The length of all files together.
pub open spec fn length_of_all(files: Seq<(u64, u128)>) -> nat
    decreases files.len(),
{
    if files.len() == 0 {
        0
    } else {
        length_of_all(files.drop_last()) + files.last().0 as nat
    }
}

/// The first bytes of a file of `size` bytes that are not kept yet: from where, and how many.
pub open spec fn missing_bytes(file_bytes: u64, size: u64, kept: u64) -> Option<(u64, u64)> {
    let wanted = if file_bytes < size {
        file_bytes
    } else {
        size
    };
    if kept < wanted {
        Some((kept, (wanted - kept) as u64))
    } else {
        None
    }
}

/// Whether the bytes of a range are all among the first bytes that are kept.
pub fn cache_holds(range: &ByteRange, cache_len: u64) -> (r: bool)
    ensures
        r == (range.end < cache_len),
{
    range.end < cache_len
}

// ---------------------------------------------------------------------------
// Laws
// ---------------------------------------------------------------------------

/// A range that is answered lies in the file, and is not empty.
pub proof fn law_range_in_file(header: Option<Seq<u8>>, size: u64)
    requires
        size > 0,
    ensures
        requested_range(header, size) matches Some(range) ==> range.start <= range.end < size,
{
}

/// The length that is announced is the number of bytes of the range, and a part of a file is
/// announced with its first and last byte and the file's size.
pub proof fn law_length_of_range(header: Option<Seq<u8>>, size: u64, file_bytes: u64)
    requires
        size > 0,
    ensures
        match media_plan(header, size, file_bytes) {
            PlanView::Send { head, range, length, cacheable } => {
                &&& 0 < length <= size
                &&& length == range.end - range.start + 1
                &&& head.headers.contains(("content-length"@, numbers::dec(length)))
                &&& range.partial ==> head.headers.contains(
                    (
                        "content-range"@,
                        "bytes "@ + numbers::dec(range.start as nat) + "-"@ + numbers::dec(
                            range.end as nat,
                        ) + "/"@ + numbers::dec(size as nat),
                    ),
                )
                &&& head.status == (if range.partial {
                    206u16
                } else {
                    200u16
                })
            },
            PlanView::Refuse(status, _) => status == 416,
            PlanView::Empty(_) => false,
        },
{
    law_range_in_file(header, size);
    match requested_range(header, size) {
        Some(range) => {
            let head = media_head(size, range.start, range.end, range.partial);
            assert(head.headers[2] == (
                "content-length"@,
                numbers::dec(sent_length(size, range.start, range.end)),
            ));
            if range.partial {
                assert(head.headers[3].0 == "content-range"@);
            }
        },
        None => {},
    }
}

/// A request for the head alone is answered with the head that the request for the bytes has, and
/// is refused where that one is.
pub proof fn law_head_matches_get(header: Option<Seq<u8>>, size: u64, file_bytes: u64)
    ensures
        match (head_plan(header, size), media_plan(header, size, file_bytes)) {
            (PlanView::Empty(a), PlanView::Empty(b)) => a == b,
            (PlanView::Empty(a), PlanView::Send { head, .. }) => a == head,
            (PlanView::Refuse(a, s), PlanView::Refuse(b, t)) => a == b && s == t,
            _ => false,
        },
{
}

/// The sum of sizes.
pub open spec fn sum_of(blocks: Seq<nat>) -> nat
    decreases blocks.len(),
{
    if blocks.len() == 0 {
        0
    } else {
        blocks[0] + sum_of(blocks.skip(1))
    }
}

/// A copy writes what comes in, and never more than it may: of blocks that are not empty it writes
/// all, or as many bytes as it may.
pub proof fn law_copy_is_bounded(remaining: nat, blocks: Seq<nat>)
    requires
        forall|i: int| 0 <= i < blocks.len() ==> #[trigger] blocks[i] > 0,
    ensures
        copied(remaining, blocks).0 == written(remaining, sum_of(blocks)),
        copied(remaining, blocks).0 + copied(remaining, blocks).1 == remaining,
    decreases blocks.len(),
{
    if blocks.len() > 0 && remaining > 0 {
        assert(blocks[0] > 0);
        let w = written(remaining, blocks[0]);
        assert forall|i: int| 0 <= i < blocks.skip(1).len() implies #[trigger] blocks.skip(1)[i]
            > 0 by {
            assert(blocks[i + 1] > 0);
        }
        law_copy_is_bounded((remaining - w) as nat, blocks.skip(1));
    }
}

/// Once the missing bytes were read, nothing is missing; and no more is read than is kept of a
/// file, or than the file has.
pub proof fn law_cache_fills(file_bytes: u64, size: u64, kept: u64)
    ensures
        missing_bytes(file_bytes, size, kept) matches Some((from, n)) ==> from == kept && n > 0
            && from + n <= size && from + n <= file_bytes && missing_bytes(
            file_bytes,
            size,
            (from + n) as u64,
        ) is None,
{
}

/// A configured size of the cache is 0 or within its bounds.
pub proof fn law_cache_bytes_bounded(raw: Option<Seq<char>>)
    ensures
        ({
            let n = cache_bytes(
                raw,
                DEFAULT_HEAD_CACHE_BYTES,
                Some((MIN_HEAD_CACHE_BYTES, MAX_HEAD_CACHE_BYTES)),
            );
            n == 0 || MIN_HEAD_CACHE_BYTES <= n <= MAX_HEAD_CACHE_BYTES
        }),
{
}

/// Decimal digits are no dash, no comma and no white space.
proof fn lemma_digits_are_plain(n: nat)
    ensures
        numbers::dec(n).len() > 0,
        forall|i: int|
            0 <= i < numbers::dec(n).len() ==> '0' <= #[trigger] numbers::dec(n)[i] <= '9',
{
    numbers::lemma_digits_of(n, 10);
    let d = numbers::dec(n);
    assert forall|i: int| 0 <= i < d.len() implies '0' <= #[trigger] d[i] <= '9' by {
        assert(numbers::digit_value(d[i]) < 10);
    }
}

/// What stands before and behind the dash of a range.
proof fn lemma_range_is_cut(a: Seq<char>, b: Seq<char>)
    requires
        text::free_of(a, CharSet::Only('-')),
    ensures
        text::cut(a + "-"@ + b, CharSet::Only('-')) == Some((a, b)),
{
    reveal_strlit("-");
    let s = a + "-"@ + b;
    let dash = CharSet::Only('-');
    assert forall|i: int| 0 <= i < a.len() implies !dash.has(#[trigger] s[i]) by {
        assert(!dash.has(a[i]));
    }
    text::lemma_until_is(s, dash, a.len() as int);
    assert(s.take(a.len() as int) =~= a);
    assert(s.skip(a.len() as int + 1) =~= b);
}

/// A range from a byte to another is answered with these and all between them, one from a byte on
/// with all behind it, and a number of last bytes with as many as there are of them. A range that
/// starts behind the file, or ends before it starts, is not answered.
pub proof fn law_ranges_are_understood(a: u64, b: u64, size: u64)
    requires
        size > 0,
    ensures
        ({
            let both = range_part(numbers::dec(a as nat) + "-"@ + numbers::dec(b as nat), size);
            let open = range_part(numbers::dec(a as nat) + "-"@, size);
            let last = range_part("-"@ + numbers::dec(b as nat), size);
            &&& a <= b < size ==> both == Some(ByteRange { start: a, end: b, partial: true })
            &&& a < size <= b ==> both == Some(
                ByteRange { start: a, end: (size - 1) as u64, partial: true },
            )
            &&& a >= size || b < a ==> both is None
            &&& a < size ==> open == Some(
                ByteRange { start: a, end: (size - 1) as u64, partial: true },
            )
            &&& a >= size ==> open is None
            &&& 0 < b <= size ==> last == Some(
                ByteRange { start: (size - b) as u64, end: (size - 1) as u64, partial: true },
            )
            &&& b > size ==> last == Some(
                ByteRange { start: 0, end: (size - 1) as u64, partial: true },
            )
            &&& b == 0 ==> last is None
        }),
{
    reveal_strlit("-");
    let x = numbers::dec(a as nat);
    let y = numbers::dec(b as nat);
    let dash = CharSet::Only('-');
    let nothing = Seq::<char>::empty();
    lemma_digits_are_plain(a as nat);
    lemma_digits_are_plain(b as nat);
    numbers::law_parse_of_dec(a as nat, 0, u64::MAX as nat);
    numbers::law_parse_of_dec(b as nat, 0, u64::MAX as nat);
    assert(text::free_of(x, dash)) by {
        assert forall|i: int| 0 <= i < x.len() implies !dash.has(#[trigger] x[i]) by {}
    }
    assert(!CharSet::White.has(y[0]) && !CharSet::White.has(y.last())) by {
        assert('0' <= y[0] <= '9');
        assert('0' <= y[y.len() - 1] <= '9');
    }
    media_path::lemma_trim_nothing(y, CharSet::White);
    media_path::lemma_trim_nothing(nothing, CharSet::White);
    lemma_range_is_cut(x, y);
    lemma_range_is_cut(x, nothing);
    lemma_range_is_cut(nothing, y);
    assert(x + "-"@ + nothing =~= x + "-"@);
    assert(nothing + "-"@ + y =~= "-"@ + y);
}

/// A header asks for the range behind `bytes=`; without one the whole file is sent, and so is an
/// empty one.
pub proof fn law_header_names_range(header: Seq<u8>, range: Seq<char>, size: u64)
    requires
        forall|i: int| 0 <= i < header.len() ==> header_byte(#[trigger] header[i]),
        decode_utf8(header) == "bytes="@ + range,
        text::free_of(range, CharSet::Only(',')),
        text::trimmed(range) == range,
    ensures
        size > 0 ==> requested_range(Some(header), size) == range_part(range, size),
        size > 0 ==> requested_range(None, size) == Some(
            ByteRange { start: 0, end: (size - 1) as u64, partial: false },
        ),
        requested_range(Some(header), 0) == Some(ByteRange { start: 0, end: 0, partial: false }),
        requested_range(None, 0) == Some(ByteRange { start: 0, end: 0, partial: false }),
{
    reveal_strlit("bytes=");
    let s = "bytes="@ + range;
    assert(s.subrange(0, 6) =~= "bytes="@);
    assert(s.skip(6) =~= range);
    let comma = CharSet::Only(',');
    assert forall|i: int| 0 <= i < range.len() implies !comma.has(#[trigger] range[i]) by {}
    text::lemma_until_is(range, comma, range.len() as int);
    assert(range.take(range.len() as int) =~= range);
}

/// A whole file is announced with its size, and a part with the number of its bytes.
pub proof fn law_head_announces_bytes(size: u64, start: u64, end: u64)
    requires
        start <= end < size,
    ensures
        sent_length(size, start, end) == end - start + 1,
        sent_length(0, 0, 0) == 0,
        media_head(size, start, end, false).status == 200,
        media_head(size, start, end, true).status == 206,
        media_head(size, start, end, false).headers.len() == 3,
        media_head(size, start, end, true).headers.len() == 4,
        forall|partial: bool|
            #![trigger media_head(size, start, end, partial)]
            media_head(size, start, end, partial).headers[0] == ("accept-ranges"@, "bytes"@)
                && media_head(size, start, end, partial).headers[2] == (
                "content-length"@,
                numbers::dec((end - start + 1) as nat),
            ),
{
}

/// A media address leads to the phone of its folder and to the path behind it; where there is no
/// such phone, the answer says so.
pub proof fn law_address_leads_to_phone(
    s: RegistryView,
    raw: Seq<char>,
    folder: Seq<char>,
    path: Seq<char>,
)
    requires
        media_path::http_media_target(raw) == Ok::<_, media_path::PathError>((folder, path)),
    ensures
        registry::in_folder(s.phones, folder, 0) matches Some(p) ==> media_target_of(s, raw) == Ok::<
            _,
            Seq<char>,
        >((p, path)),
        registry::in_folder(s.phones, folder, 0) is None && registry::with_id(s.phones, folder) is None
            ==> media_target_of(s, raw) == Err::<(PhoneView, Seq<char>), _>(
            "telephone WebTransport indisponible: "@ + folder,
        ),
{
}

/// The size of a file is what its phone says; a directory and a failure have none.
pub proof fn law_size_is_what_phone_says(reply: ResponseView, size: u64)
    ensures
        reply.ok != Some(false) && reply.is_directory != Some(true) && reply.size == Some(size)
            ==> described_size(reply) == Ok::<_, Seq<char>>(size),
        reply.ok == Some(false) ==> described_size(reply) is Err,
        reply.is_directory == Some(true) ==> described_size(reply) is Err,
{
}

/// Of the bytes that were read as many are written as may be.
pub proof fn law_no_more_is_written(remaining: nat, read: nat)
    ensures
        written(remaining, read) <= remaining,
        written(remaining, read) <= read,
        read <= remaining ==> written(remaining, read) == read,
        read >= remaining ==> written(remaining, read) == remaining,
{
}

/// Bytes are kept where the range starts among the first bytes that are kept and is a part of the
/// file, or where the whole file is.
pub proof fn law_first_bytes_are_kept(header: Option<Seq<u8>>, size: u64, file_bytes: u64)
    ensures
        media_plan(header, size, file_bytes) matches PlanView::Send {
            range,
            length,
            cacheable,
            ..
        } ==> {
            &&& range.start >= file_bytes ==> !cacheable
            &&& range.partial && range.start < file_bytes ==> cacheable
            &&& !range.partial && 0 < size <= file_bytes ==> cacheable
            &&& !range.partial && size > file_bytes ==> !cacheable
        },
{
    if size > 0 {
        law_range_in_file(header, size);
    }
}

/// A number of bytes that is given is taken within the bounds, none turns the cache off, and what
/// is no number leaves it at the default.
pub proof fn law_cache_size_is_configured(n: u64, default: u64, min: u64, max: u64)
    requires
        min <= max,
    ensures
        ({
            let given = cache_bytes(Some(numbers::dec(n as nat)), default, Some((min, max)));
            &&& n == 0 ==> given == 0
            &&& min <= n <= max && n > 0 ==> given == n
            &&& 0 < n < min ==> given == min
            &&& n > max && n > 0 ==> given == max
        }),
        cache_bytes(Some(numbers::dec(n as nat)), default, None) == n,
        cache_bytes(None, default, None) == default,
{
    numbers::law_parse_of_dec(n as nat, 0, u64::MAX as nat);
}

/// What is missing of the first bytes is what lies between those that are kept and the end of the
/// file, or of what is kept of files.
pub proof fn law_missing_bytes(file_bytes: u64, size: u64, kept: u64)
    ensures
        kept >= size || kept >= file_bytes ==> missing_bytes(file_bytes, size, kept) is None,
        kept < size <= file_bytes ==> missing_bytes(file_bytes, size, kept) == Some(
            (kept, (size - kept) as u64),
        ),
        kept < file_bytes <= size ==> missing_bytes(file_bytes, size, kept) == Some(
            (kept, (file_bytes - kept) as u64),
        ),
{
}

/// The length of all files grows with each file by its own.
pub proof fn law_lengths_add_up(files: Seq<(u64, u128)>, file: (u64, u128))
    ensures
        length_of_all(Seq::empty()) == 0,
        length_of_all(files.push(file)) == length_of_all(files) + file.0,
{
    assert(files.push(file).drop_last() =~= files);
}

/// The file that keeps the first bytes of a file is named by sixteen digits and `.head`.
pub proof fn law_name_of_kept_bytes(phone_folder: Seq<char>, target_path: Seq<char>)
    ensures
        cache_name(phone_folder, target_path).len() == 21,
        text::ends(cache_name(phone_folder, target_path), ".head"@),
        numbers::radix_value(cache_name(phone_folder, target_path).take(16), 16) == ids::cache_hash(
            phone_folder,
            target_path,
        ),
{
    reveal_strlit(".head");
    let name = cache_name(phone_folder, target_path);
    let digits = numbers::hex_padded(ids::cache_hash(phone_folder, target_path) as nat, 16);
    ids::law_cache_key_length(phone_folder, target_path);
    ids::law_hashed_name_of_file(phone_folder, target_path);
    text::law_begins_and_ends(digits, ".head"@);
    assert(name.take(16) =~= digits);
}

} // verus!
