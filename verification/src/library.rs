//! A library of videos for Kodi: files that name a video and describe it, and the addresses under
//! which the videos are played.
use vstd::prelude::*;
use vstd::hash_map::StringHashMap;
use vstd::utf8::*;

use crate::ids;
use crate::json::{Json, JsonView};
use crate::json;
use crate::links;
use crate::numbers;
use crate::text::CharSet;
use crate::text;
use crate::worker;
use crate::xml;
use crate::ytdlp::OutputText;
use crate::ytdlp;

verus! {

/// How many videos are taken of a playlist, unless asked otherwise.
pub const DEFAULT_LIMIT: usize = 20;

/// The greatest number of videos that are taken of a playlist.
pub const MAX_LIMIT: usize = 100;

/// The formats in which videos are played: MP4 in one piece before all others.
pub const YTDLP_FAST_FORMAT: &'static str =
    "best[height<=720][ext=mp4][vcodec^=avc1][acodec^=mp4a][protocol^=https]/best[height<=720][ext=mp4][protocol^=https]/best[ext=mp4][protocol^=https]/best[height<=720]/best";

/// How long the address under which a video is played is kept, in seconds.
pub const RESOLVED_URL_CACHE_SECONDS: u64 = 900;

// ---------------------------------------------------------------------------
// Texts
// ---------------------------------------------------------------------------

/// Whether a character can stand in the name of a file.
pub open spec fn file_char(c: char) -> bool {
    ||| text::unicode_alphanumeric(c)
    ||| c == ' '
    ||| c == '.'
    ||| c == '-'
    ||| c == '_'
    ||| c == '('
    ||| c == ')'
    ||| c == '['
    ||| c == ']'
    ||| c == '&'
    ||| c == '\''
    ||| c == ','
}

/// The name of a file for a title: the characters that can stand in one, with one space between
/// words and at most 140 characters; another name where nothing is left.
pub open spec fn file_title(name: Seq<char>, fallback: Seq<char>) -> Seq<char> {
    let kept = text::joined(text::words(name.filter(|c: char| file_char(c))), " "@);
    if kept.len() == 0 {
        fallback
    } else {
        text::first_chars(kept, 140)
    }
}

/// The name of a file for a title.
pub fn sanitize_filename(name: &str, fallback: &str) -> (r: String)
    ensures
        r@ == file_title(name@, fallback@),
        !fallback@.contains('/') ==> !r@.contains('/'),
{
    let v = text::chars_of(name);
    let ghost keep = |c: char| file_char(c);
    let mut kept = String::new();
    let mut i: usize = 0;
    proof {
        text::lemma_filter_all(v@.take(0), keep);
        assert(kept@ =~= v@.take(0).filter(keep));
    }
    while i < v.len()
        invariant
            v@ == name@,
            keep == (|c: char| file_char(c)),
            i <= v@.len(),
            kept@ == v@.take(i as int).filter(keep),
            text::free_of(kept@, CharSet::Only('/')),
        decreases v@.len() - i,
    {
        let c = v[i];
        proof {
            text::lemma_filter_push(v@.take(i as int), c, keep);
            assert(v@.take(i + 1) =~= v@.take(i as int).push(c));
        }
        if c.is_alphanumeric() || c == ' ' || c == '.' || c == '-' || c == '_' || c == '(' || c
            == ')' || c == '[' || c == ']' || c == '&' || c == '\'' || c == ',' {
            kept.push(c);
        }
        i += 1;
    }
    proof {
        assert(v@.take(i as int) =~= v@);
    }
    let joined = text::join(&text::split_whitespace(&kept), " ");
    proof {
        reveal_strlit(" ");
        lemma_words_inherit(kept@, '/');
        text::lemma_joined_inherits(text::words(kept@), " "@, '/');
    }
    if joined.as_str().is_empty() {
        fallback.to_string()
    } else {
        text::take_chars(&joined, 140)
    }
}

/// A text without the line feeds that follow two others.
pub open spec fn squeezed(s: Seq<char>) -> Seq<char>
    decreases s.len(),
{
    if s.len() == 0 {
        s
    } else {
        let front = squeezed(s.drop_last());
        let n = s.len() as int;
        if n >= 3 && s[n - 1] == '\n' && s[n - 2] == '\n' && s[n - 3] == '\n' {
            front
        } else {
            front.push(s.last())
        }
    }
}

/// A text with line feeds at the ends of its lines.
pub open spec fn with_line_feeds(s: Seq<char>) -> Seq<char> {
    text::replaced(text::replaced(s, "\r\n"@, "\n"@), "\r"@, "\n"@)
}

/// A description: at most one empty line between two others, no white space around it, and no
/// more than the given number of characters.
pub open spec fn compacted(s: Seq<char>, max_chars: int) -> Seq<char> {
    let t = text::trimmed(squeezed(with_line_feeds(s)));
    if t.len() <= max_chars {
        t
    } else {
        t.take(max_chars) + "…"@
    }
}

/// A text without the line feeds that follow two others.
fn squeeze(s: &str) -> (r: String)
    ensures
        r@ == squeezed(s@),
{
    let v = text::chars_of(s);
    let mut r = String::new();
    let mut i: usize = 0;
    while i < v.len()
        invariant
            v@ == s@,
            i <= v@.len(),
            r@ == squeezed(v@.take(i as int)),
        decreases v@.len() - i,
    {
        proof {
            assert(v@.take(i + 1).drop_last() =~= v@.take(i as int));
            assert(v@.take(i + 1).last() == v@[i as int]);
        }
        let dropped = i >= 2 && v[i] == '\n' && v[i - 1] == '\n' && v[i - 2] == '\n';
        if !dropped {
            r.push(v[i]);
        }
        i += 1;
    }
    proof {
        assert(v@.take(i as int) =~= v@);
    }
    r
}

/// A description.
pub fn compact_text(value: &str, max_chars: usize) -> (r: String)
    ensures
        r@ == compacted(value@, max_chars as int),
{
    proof {
        reveal_strlit("\r\n");
        reveal_strlit("\r");
    }
    let lines = text::replace(&text::replace(value, "\r\n", "\n"), "\r", "\n");
    let t = text::trim(&squeeze(&lines));
    if text::chars_of(&t).len() <= max_chars {
        t
    } else {
        text::concat2(&text::take_chars(&t, max_chars), "…")
    }
}

/// Whether a text is a date without separators.
pub open spec fn plain_date(s: Seq<char>) -> bool {
    s.len() == 8 && forall|i: int| 0 <= i < s.len() ==> text::ascii_digit(#[trigger] s[i])
}

/// A date: year, month and day.
pub open spec fn date_of(s: Seq<char>) -> Option<Seq<char>> {
    if plain_date(s) {
        Some(s.subrange(0, 4) + "-"@ + s.subrange(4, 6) + "-"@ + s.subrange(6, 8))
    } else {
        None
    }
}

/// A date: year, month and day.
pub fn parse_yt_date(value: &str) -> (r: Option<String>)
    ensures
        text::text_in(r) == date_of(value@),
{
    let v = text::chars_of(value);
    if v.len() != 8 {
        return None;
    }
    let mut i: usize = 0;
    while i < v.len()
        invariant
            v@ == value@,
            i <= v@.len(),
            forall|j: int| 0 <= j < i ==> text::ascii_digit(#[trigger] v@[j]),
        decreases v@.len() - i,
    {
        if !text::is_ascii_digit(v[i]) {
            return None;
        }
        i += 1;
    }
    let mut r = text::concat3(&text::substring(&v, 0, 4), "-", &text::substring(&v, 4, 6));
    r.push_str("-");
    r.push_str(&text::substring(&v, 6, 8));
    Some(r)
}

/// A text in XML.
pub fn xml_escape(value: &str) -> (r: String)
    ensures
        r@ == xml::xml_escaped(value@),
{
    xml::xml_text(value)
}

// ---------------------------------------------------------------------------
// Links
// ---------------------------------------------------------------------------

/// Whether a link is one of a playlist.
pub open spec fn playlist_link(url: Seq<char>) -> bool {
    text::has_part(url, "/playlist"@) || text::has_part(url, "list="@)
}

/// Whether a link is one of a playlist.
pub fn is_probably_playlist_url(url: &str) -> (r: bool)
    ensures
        r == playlist_link(url@),
{
    text::contains(url, "/playlist") || text::contains(url, "list=")
}

/// The video that a mix begins with, of the link of the mix.
pub open spec fn mix_seed(url: Seq<char>) -> Option<Seq<char>> {
    match text::find_spec(url, "list=RD"@) {
        Some(i) => {
            let seed = text::trimmed(text::head(url.skip(i + 7), CharSet::Pair('&', '#')));
            if encode_utf8(seed).len() >= 8 {
                Some(links::watch_url(seed))
            } else {
                None
            }
        },
        None => None,
    }
}

/// The link of the video that a mix begins with.
pub fn youtube_mix_seed_url(url: &str) -> (r: Option<String>)
    ensures
        text::text_in(r) == mix_seed(url@),
{
    proof {
        reveal_strlit("list=RD");
    }
    match text::find(url, "list=RD") {
        Some(i) => {
            let v = text::chars_of(url);
            let n: usize = v.len();
            let rest = text::substring(&v, i + 7, n);
            proof {
                assert(rest@ =~= url@.skip(i + 7));
            }
            let seed = text::trim(&text::head_of(&rest, CharSet::Pair('&', '#')));
            if text::byte_len(&seed) >= 8 {
                Some(links::youtube_watch_url(&seed))
            } else {
                None
            }
        },
        None => None,
    }
}

// ---------------------------------------------------------------------------
// Videos
// ---------------------------------------------------------------------------

/// What is known of a video.
#[derive(Debug)]
pub struct VideoMetadata {
    /// The title.
    pub title: String,
    /// The link of the video.
    pub source_url: String,
    /// The link of the page of the video.
    pub webpage_url: String,
    /// The link of a picture.
    pub thumbnail: Option<String>,
    /// The duration in seconds.
    pub duration: Option<u64>,
    /// The channel.
    pub channel: Option<String>,
    /// Who uploaded it.
    pub uploader: Option<String>,
    /// When it was uploaded.
    pub upload_date: Option<String>,
    /// What it is about.
    pub plot: Option<String>,
}

/// The model of what is known of a video.
#[verifier::ext_equal]
pub struct VideoView {
    pub title: Seq<char>,
    pub source_url: Seq<char>,
    pub webpage_url: Seq<char>,
    pub thumbnail: Option<Seq<char>>,
    pub duration: Option<u64>,
    pub channel: Option<Seq<char>>,
    pub uploader: Option<Seq<char>>,
    pub upload_date: Option<Seq<char>>,
    pub plot: Option<Seq<char>>,
}

impl View for VideoMetadata {
    type V = VideoView;

    open spec fn view(&self) -> VideoView {
        VideoView {
            title: self.title@,
            source_url: self.source_url@,
            webpage_url: self.webpage_url@,
            thumbnail: text::text_in(self.thumbnail),
            duration: self.duration,
            channel: text::text_in(self.channel),
            uploader: text::text_in(self.uploader),
            upload_date: text::text_in(self.upload_date),
            plot: text::text_in(self.plot),
        }
    }
}

/// The videos of a list.
pub open spec fn video_views(v: Seq<VideoMetadata>) -> Seq<VideoView> {
    v.map_values(|m: VideoMetadata| m@)
}

/// A text, or another where there is none.
pub open spec fn first_text(a: Option<Seq<char>>, b: Option<Seq<char>>) -> Option<Seq<char>> {
    match a {
        Some(s) => Some(s),
        None => b,
    }
}

/// The title in a report, or one for all videos without.
pub open spec fn title_in(v: JsonView) -> Seq<char> {
    match v.text_at("title"@) {
        Some(s) => s,
        None => "Vidéo YouTube"@,
    }
}

/// What a report about a video says.
pub open spec fn reported_video(v: JsonView, fallback_url: Seq<char>) -> VideoView {
    let uploader = match v.get("uploader"@) {
        Some(u) => u.text(),
        None => v.text_at("channel"@),
    };
    let page = match v.text_at("webpage_url"@) {
        Some(u) => u,
        None => fallback_url,
    };
    VideoView {
        title: title_in(v),
        source_url: page,
        webpage_url: page,
        thumbnail: v.text_at("thumbnail"@),
        duration: v.unsigned_at("duration"@),
        channel: first_text(v.text_at("channel"@), uploader),
        uploader,
        upload_date: match v.text_at("upload_date"@) {
            Some(d) => date_of(d),
            None => None,
        },
        plot: match v.text_at("description"@) {
            Some(d) => Some(compacted(d, 1200)),
            None => None,
        },
    }
}

/// A copy of a text, or of another where there is none.
fn first_of_two(a: Option<String>, b: &Option<String>) -> (r: Option<String>)
    ensures
        text::text_in(r) == first_text(text::text_in(a), text::text_in(*b)),
{
    match a {
        Some(s) => Some(s),
        None => b.clone(),
    }
}

/// The title in a report, or one for all videos without.
fn find_title(value: &Json) -> (r: String)
    ensures
        r@ == title_in(value@),
{
    match value.text_at("title") {
        Some(s) => s,
        None => "Vidéo YouTube".to_string(),
    }
}

/// What a report about a video says.
pub fn metadata_from_video_info(value: &Json, fallback_url: &str) -> (r: VideoMetadata)
    ensures
        r@ == reported_video(value@, fallback_url@),
{
    let uploader = match value.get("uploader") {
        Some(u) => u.text(),
        None => value.text_at("channel"),
    };
    let page = match value.text_at("webpage_url") {
        Some(u) => u,
        None => fallback_url.to_string(),
    };
    let channel = first_of_two(value.text_at("channel"), &uploader);
    let upload_date = match value.text_at("upload_date") {
        Some(d) => parse_yt_date(&d),
        None => None,
    };
    let plot = match value.text_at("description") {
        Some(d) => Some(compact_text(&d, 1200)),
        None => None,
    };
    VideoMetadata {
        title: find_title(value),
        source_url: page.clone(),
        webpage_url: page,
        thumbnail: value.text_at("thumbnail"),
        duration: value.unsigned_at("duration"),
        channel,
        uploader,
        upload_date,
        plot,
    }
}

/// The link in an entry of a playlist: the first of three that is there.
pub open spec fn entry_link(v: JsonView) -> Option<Seq<char>> {
    let found = match v.get("webpage_url"@) {
        Some(u) => Some(u),
        None => match v.get("url"@) {
            Some(u) => Some(u),
            None => v.get("original_url"@),
        },
    };
    match found {
        Some(u) => u.text(),
        None => None,
    }
}

/// What an entry of a playlist says about its video; nothing where it has no link.
pub open spec fn listed_video(v: JsonView) -> Option<VideoView> {
    match entry_link(v) {
        None => None,
        Some(raw) => {
            let link = if links::web_link(raw) {
                raw
            } else {
                links::watch_url(raw)
            };
            let uploader = v.text_at("uploader"@);
            Some(
                VideoView {
                    title: title_in(v),
                    source_url: link,
                    webpage_url: link,
                    thumbnail: v.text_at("thumbnail"@),
                    duration: v.unsigned_at("duration"@),
                    channel: first_text(v.text_at("channel"@), uploader),
                    uploader,
                    upload_date: None,
                    plot: None,
                },
            )
        },
    }
}

/// The link in an entry of a playlist.
fn find_entry_link(value: &Json) -> (r: Option<String>)
    ensures
        text::text_in(r) == entry_link(value@),
{
    match value.get("webpage_url") {
        Some(u) => u.text(),
        None => match value.get("url") {
            Some(u) => u.text(),
            None => value.text_at("original_url"),
        },
    }
}

/// What an entry of a playlist says about its video; nothing where it has no link.
pub fn metadata_from_flat_entry(value: &Json) -> (r: Option<VideoMetadata>)
    ensures
        match r {
            Some(meta) => listed_video(value@) == Some(meta@),
            None => listed_video(value@) is None,
        },
{
    let raw = match find_entry_link(value) {
        Some(raw) => raw,
        None => {
            return None;
        },
    };
    let link = if links::is_web_link(&raw) {
        raw
    } else {
        links::youtube_watch_url(&raw)
    };
    let uploader = value.text_at("uploader");
    let channel = first_of_two(value.text_at("channel"), &uploader);
    Some(
        VideoMetadata {
            title: find_title(value),
            source_url: link.clone(),
            webpage_url: link,
            thumbnail: value.text_at("thumbnail"),
            duration: value.unsigned_at("duration"),
            channel,
            uploader,
            upload_date: None,
            plot: None,
        },
    )
}

/// The videos that the entries of a playlist have.
pub open spec fn listed_videos(entries: Seq<JsonView>) -> Seq<VideoView>
    decreases entries.len(),
{
    if entries.len() == 0 {
        Seq::empty()
    } else {
        let front = listed_videos(entries.drop_last());
        match listed_video(entries.last()) {
            Some(v) => front.push(v),
            None => front,
        }
    }
}

/// The videos of a report about a playlist.
pub open spec fn playlist_videos(v: JsonView) -> Seq<VideoView> {
    match v.list_at("entries"@) {
        Some(entries) => listed_videos(entries),
        None => Seq::empty(),
    }
}

/// The videos of a report about a playlist.
pub fn videos_of_playlist(value: &Json) -> (r: Vec<VideoMetadata>)
    ensures
        video_views(r@) == playlist_videos(value@),
{
    let mut r: Vec<VideoMetadata> = Vec::new();
    proof {
        assert(video_views(r@) =~= Seq::empty());
    }
    let entries = match value.list_at("entries") {
        Some(entries) => entries,
        None => {
            return r;
        },
    };
    let ghost all = json::views(entries@);
    let mut i: usize = 0;
    while i < entries.len()
        invariant
            all == json::views(entries@),
            i <= entries@.len(),
            video_views(r@) == listed_videos(all.take(i as int)),
        decreases entries@.len() - i,
    {
        let ghost before = video_views(r@);
        proof {
            assert(all.take(i + 1).drop_last() =~= all.take(i as int));
            assert(all.take(i + 1).last() == entries@[i as int]@);
        }
        match metadata_from_flat_entry(&entries[i]) {
            Some(meta) => {
                let ghost made = meta@;
                r.push(meta);
                proof {
                    assert(video_views(r@) =~= before.push(made));
                }
            },
            None => {},
        }
        i += 1;
    }
    proof {
        assert(all.take(i as int) =~= all);
    }
    r
}

// ---------------------------------------------------------------------------
// The library
// ---------------------------------------------------------------------------

/// A request for a library.
#[derive(Debug)]
pub struct YoutubeSubmitRequest {
    /// The link of a video or a playlist.
    pub url: String,
    /// How many videos are taken of a playlist.
    pub limit: Option<usize>,
}

impl YoutubeSubmitRequest {
    /// What is said of a request without a link, or how many videos are taken.
    pub fn checked_limit(&self) -> (r: Result<usize, String>)
        ensures
            match r {
                Ok(limit) => text::trimmed(self.url@).len() > 0 && limit == match self.limit {
                    Some(n) => n,
                    None => DEFAULT_LIMIT,
                },
                Err(message) => text::trimmed(self.url@).len() == 0 && message@
                    == "missing url"@,
            },
    {
        if text::trim(&self.url).as_str().is_empty() {
            return Err("missing url".to_string());
        }
        match self.limit {
            Some(n) => Ok(n),
            None => Ok(DEFAULT_LIMIT),
        }
    }
}

/// A video of the library.
#[derive(Debug)]
pub struct YoutubeItem {
    /// The identifier of the video.
    pub item_id: String,
    /// Its number in the library, from 1 on.
    pub index: usize,
    /// The title.
    pub title: String,
    /// The link of the video.
    pub source_url: String,
    /// The link of the page of the video.
    pub webpage_url: String,
    /// The link of a picture.
    pub thumbnail: Option<String>,
    /// The path of the picture, as text.
    pub local_thumb: Option<String>,
    /// The duration in seconds.
    pub duration: Option<u64>,
    /// The channel.
    pub channel: Option<String>,
    /// Who uploaded it.
    pub uploader: Option<String>,
    /// When it was uploaded.
    pub upload_date: Option<String>,
    /// What it is about.
    pub plot: Option<String>,
    /// The path of the file that names the video.
    pub strm_path: String,
    /// The path of the file that describes it.
    pub nfo_path: String,
    /// The path of the picture.
    pub thumb_path: Option<String>,
    /// The address under which the video is played.
    pub play_url: String,
    /// When the video came into the library, in seconds since 1970.
    pub created_at: u64,
}

/// The model of a video of the library.
#[verifier::ext_equal]
pub struct LibraryItemView {
    pub item_id: Seq<char>,
    pub index: usize,
    pub title: Seq<char>,
    pub source_url: Seq<char>,
    pub webpage_url: Seq<char>,
    pub thumbnail: Option<Seq<char>>,
    pub local_thumb: Option<Seq<char>>,
    pub duration: Option<u64>,
    pub channel: Option<Seq<char>>,
    pub uploader: Option<Seq<char>>,
    pub upload_date: Option<Seq<char>>,
    pub plot: Option<Seq<char>>,
    pub strm_path: Seq<char>,
    pub nfo_path: Seq<char>,
    pub thumb_path: Option<Seq<char>>,
    pub play_url: Seq<char>,
    pub created_at: u64,
}

impl View for YoutubeItem {
    type V = LibraryItemView;

    open spec fn view(&self) -> LibraryItemView {
        LibraryItemView {
            item_id: self.item_id@,
            index: self.index,
            title: self.title@,
            source_url: self.source_url@,
            webpage_url: self.webpage_url@,
            thumbnail: text::text_in(self.thumbnail),
            local_thumb: text::text_in(self.local_thumb),
            duration: self.duration,
            channel: text::text_in(self.channel),
            uploader: text::text_in(self.uploader),
            upload_date: text::text_in(self.upload_date),
            plot: text::text_in(self.plot),
            strm_path: self.strm_path@,
            nfo_path: self.nfo_path@,
            thumb_path: text::text_in(self.thumb_path),
            play_url: self.play_url@,
            created_at: self.created_at,
        }
    }
}

impl Clone for YoutubeItem {
    fn clone(&self) -> (r: Self)
        ensures
            r == *self,
    {
        YoutubeItem {
            item_id: self.item_id.clone(),
            index: self.index,
            title: self.title.clone(),
            source_url: self.source_url.clone(),
            webpage_url: self.webpage_url.clone(),
            thumbnail: self.thumbnail.clone(),
            local_thumb: self.local_thumb.clone(),
            duration: self.duration,
            channel: self.channel.clone(),
            uploader: self.uploader.clone(),
            upload_date: self.upload_date.clone(),
            plot: self.plot.clone(),
            strm_path: self.strm_path.clone(),
            nfo_path: self.nfo_path.clone(),
            thumb_path: self.thumb_path.clone(),
            play_url: self.play_url.clone(),
            created_at: self.created_at,
        }
    }
}

/// The videos of a library.
pub open spec fn library_views(v: Seq<YoutubeItem>) -> Seq<LibraryItemView> {
    v.map_values(|item: YoutubeItem| item@)
}

/// The answer to a request for a library.
#[derive(Debug)]
pub struct YoutubeSubmitResponse {
    /// Whether it was made.
    pub ok: bool,
    /// How many videos it has.
    pub count: usize,
    /// Its directory.
    pub library_dir: String,
    /// The path of its playlist.
    pub playlist_path: String,
    /// Its videos.
    pub items: Vec<YoutubeItem>,
}

/// The address under which a video is played, for a while.
#[derive(Debug)]
pub struct ResolvedUrlCache {
    /// The address.
    pub url: String,
    /// Until when it is used, in seconds since 1970.
    pub expires_at: u64,
}

/// The library.
pub struct YoutubeLibrary {
    /// The path of the file that lists all videos.
    pub db_path: String,
    /// The directory for Kodi.
    pub library_dir: String,
    /// The directory of the library.
    pub current_dir: String,
    /// The address of the server.
    pub public_base_url: String,
    /// The path of yt-dlp.
    pub ytdlp_bin: String,
    /// The addresses under which videos are played, by the identifiers of the videos.
    pub resolved_cache: StringHashMap<ResolvedUrlCache>,
}

/// The address of a server, of what it is bound to.
pub open spec fn base_url(http_bind: Seq<char>) -> Seq<char> {
    if links::web_link(http_bind) {
        text::trim_end(http_bind, CharSet::Only('/'))
    } else {
        "http://"@ + http_bind
    }
}

/// The text for a number of a video: three digits or more.
pub open spec fn index_text(index: nat) -> Seq<char> {
    numbers::dec_padded(index, 3)
}

/// The name of the files of a video, without an extension.
pub open spec fn file_base(index: nat, title: Seq<char>) -> Seq<char> {
    index_text(index) + " - "@ + file_title(title, "video-"@ + index_text(index))
}

/// A video of the library in a directory, played at an address of the server.
pub open spec fn library_item(
    dir: Seq<char>,
    base: Seq<char>,
    index: usize,
    v: VideoView,
    now: u64,
) -> LibraryItemView {
    let name = file_base(index as nat, v.title);
    let thumb = match v.thumbnail {
        Some(_) => Some(worker::path_in(dir, name + "-thumb.jpg"@)),
        None => None,
    };
    LibraryItemView {
        item_id: ids::item_id(v.source_url),
        index,
        title: v.title,
        source_url: v.source_url,
        webpage_url: v.webpage_url,
        thumbnail: v.thumbnail,
        local_thumb: thumb,
        duration: v.duration,
        channel: v.channel,
        uploader: v.uploader,
        upload_date: v.upload_date,
        plot: v.plot,
        strm_path: worker::path_in(dir, name + ".strm"@),
        nfo_path: worker::path_in(dir, name + ".nfo"@),
        thumb_path: thumb,
        play_url: base + "/youtube/item/"@ + ids::item_id(v.source_url) + "/play"@,
        created_at: now,
    }
}

/// The first videos of the library, numbered from 1 on, each made at its own time.
pub open spec fn library_items(
    dir: Seq<char>,
    base: Seq<char>,
    videos: Seq<VideoView>,
    times: Seq<u64>,
) -> Seq<LibraryItemView> {
    Seq::new(
        times.len(),
        |i: int| library_item(dir, base, (i + 1) as usize, videos[i], times[i]),
    )
}

/// What is to be done for a library.
#[derive(Debug)]
pub enum SubmitStep {
    /// yt-dlp is asked for the videos of a playlist.
    AskPlaylist(String, usize),
    /// yt-dlp is asked about a video.
    AskVideo(String),
    /// These are the videos.
    Found(Vec<VideoMetadata>),
    /// There are none, for this reason.
    Fail(String),
}

/// The model of what is to be done for a library.
#[verifier::ext_equal]
pub enum SubmitView {
    AskPlaylist(Seq<char>, usize),
    AskVideo(Seq<char>),
    Found(Seq<VideoView>),
    Fail(Seq<char>),
}

impl View for SubmitStep {
    type V = SubmitView;

    open spec fn view(&self) -> SubmitView {
        match *self {
            SubmitStep::AskPlaylist(url, limit) => SubmitView::AskPlaylist(url@, limit),
            SubmitStep::AskVideo(url) => SubmitView::AskVideo(url@),
            SubmitStep::Found(videos) => SubmitView::Found(video_views(videos@)),
            SubmitStep::Fail(message) => SubmitView::Fail(message@),
        }
    }
}

/// A number of videos within its bounds.
pub open spec fn bounded_limit(limit: usize) -> usize {
    if limit < 1 {
        1
    } else if limit > MAX_LIMIT {
        MAX_LIMIT
    } else {
        limit
    }
}

/// What yt-dlp reported, or why it did not.
pub open spec fn report_in(value: Result<Json, String>) -> Result<JsonView, Seq<char>> {
    match value {
        Ok(v) => Ok(v@),
        Err(message) => Err(message@),
    }
}

/// What is done first for a library.
pub open spec fn first_step(url: Seq<char>, limit: usize) -> SubmitView {
    if playlist_link(url) {
        SubmitView::AskPlaylist(url, bounded_limit(limit))
    } else {
        SubmitView::AskVideo(url)
    }
}

/// What is done after a playlist was asked for: a mix that cannot be listed is replaced by the
/// video that it begins with.
pub open spec fn after_playlist(
    url: Seq<char>,
    report: Result<JsonView, Seq<char>>,
) -> SubmitView {
    match report {
        Ok(v) => SubmitView::Found(playlist_videos(v)),
        Err(message) => match mix_seed(url) {
            Some(seed) => SubmitView::AskVideo(seed),
            None => SubmitView::Fail(message),
        },
    }
}

/// What is done after a video was asked about.
pub open spec fn after_video(url: Seq<char>, report: Result<JsonView, Seq<char>>) -> SubmitView {
    match report {
        Ok(v) => SubmitView::Found(seq![reported_video(v, url)]),
        Err(message) => SubmitView::Fail(message),
    }
}

/// Goes on with what yt-dlp said of a playlist.
pub fn submit_after_playlist(url: &str, report: Result<Json, String>) -> (r: SubmitStep)
    ensures
        r@ == after_playlist(url@, report_in(report)),
{
    match report {
        Ok(value) => SubmitStep::Found(videos_of_playlist(&value)),
        Err(message) => match youtube_mix_seed_url(url) {
            Some(seed) => SubmitStep::AskVideo(seed),
            None => SubmitStep::Fail(message),
        },
    }
}

/// Goes on with what yt-dlp said of a video.
pub fn submit_after_video(url: &str, report: Result<Json, String>) -> (r: SubmitStep)
    ensures
        r@ == after_video(url@, report_in(report)),
{
    match report {
        Ok(value) => {
            let mut videos: Vec<VideoMetadata> = Vec::new();
            let video = metadata_from_video_info(&value, url);
            let ghost made = video@;
            videos.push(video);
            proof {
                assert(video_views(videos@) =~= seq![made]);
            }
            SubmitStep::Found(videos)
        },
        Err(message) => SubmitStep::Fail(message),
    }
}

/// The arguments with which yt-dlp describes a playlist.
pub open spec fn playlist_args(url: Seq<char>, limit: nat, use_deno: bool) -> Seq<Seq<char>> {
    ytdlp::deno_args_if(use_deno) + seq![
        "--flat-playlist"@,
        "--no-warnings"@,
        "--playlist-end"@,
        numbers::dec(limit),
        "-J"@,
        url,
    ]
}

/// The arguments with which yt-dlp describes a video.
pub open spec fn video_args(url: Seq<char>, use_deno: bool) -> Seq<Seq<char>> {
    ytdlp::deno_args_if(use_deno) + seq!["--no-playlist"@, "--no-warnings"@, "-J"@, url]
}

/// The arguments with which yt-dlp finds the address under which a video is played.
pub open spec fn play_args(url: Seq<char>, use_deno: bool) -> Seq<Seq<char>> {
    ytdlp::deno_args_if(use_deno) + seq![
        "--no-playlist"@,
        "--no-warnings"@,
        "-f"@,
        YTDLP_FAST_FORMAT@,
        "-g"@,
        url,
    ]
}

/// The arguments with which yt-dlp describes a playlist.
pub fn playlist_arguments(url: &str, limit: usize, use_deno: bool) -> (r: Vec<String>)
    ensures
        text::texts(r@) == playlist_args(url@, limit as nat, use_deno),
{
    let mut args = ytdlp::deno_arguments(use_deno);
    ytdlp::put(&mut args, "--flat-playlist");
    ytdlp::put(&mut args, "--no-warnings");
    ytdlp::put(&mut args, "--playlist-end");
    ytdlp::put(&mut args, &numbers::decimal(limit as u64));
    ytdlp::put(&mut args, "-J");
    ytdlp::put(&mut args, url);
    proof {
        assert(text::texts(args@) =~= playlist_args(url@, limit as nat, use_deno));
    }
    args
}

/// The arguments with which yt-dlp describes a video.
pub fn video_arguments(url: &str, use_deno: bool) -> (r: Vec<String>)
    ensures
        text::texts(r@) == video_args(url@, use_deno),
{
    let mut args = ytdlp::deno_arguments(use_deno);
    ytdlp::put(&mut args, "--no-playlist");
    ytdlp::put(&mut args, "--no-warnings");
    ytdlp::put(&mut args, "-J");
    ytdlp::put(&mut args, url);
    proof {
        assert(text::texts(args@) =~= video_args(url@, use_deno));
    }
    args
}

/// The arguments with which yt-dlp finds the address under which a video is played.
pub fn play_arguments(url: &str, use_deno: bool) -> (r: Vec<String>)
    ensures
        text::texts(r@) == play_args(url@, use_deno),
{
    let mut args = ytdlp::deno_arguments(use_deno);
    ytdlp::put(&mut args, "--no-playlist");
    ytdlp::put(&mut args, "--no-warnings");
    ytdlp::put(&mut args, "-f");
    ytdlp::put(&mut args, YTDLP_FAST_FORMAT);
    ytdlp::put(&mut args, "-g");
    ytdlp::put(&mut args, url);
    proof {
        assert(text::texts(args@) =~= play_args(url@, use_deno));
    }
    args
}

/// The report that yt-dlp wrote, or why there is none.
pub fn ytdlp_json(out: &OutputText) -> (r: Result<Json, String>)
    ensures
        match r {
            Ok(value) => out.success && json::json_read(out.stdout@) == Ok::<_, Seq<char>>(value@),
            Err(message) => if out.success {
                json::json_read(out.stdout@) == Err::<JsonView, _>(message@)
            } else {
                message@ == "yt-dlp JSON failed: "@ + out.stderr@
            },
        },
{
    if !out.success {
        return Err(text::concat2("yt-dlp JSON failed: ", &out.stderr));
    }
    json::read_json(&out.stdout)
}

/// The address under which a video is played, or why there is none.
pub fn ytdlp_play_url(out: &OutputText) -> (r: Result<String, String>)
    ensures
        match r {
            Ok(url) => out.success && ytdlp::listed_links(out.stdout@).len() > 0 && url@
                == ytdlp::listed_links(out.stdout@)[0],
            Err(message) => if out.success {
                ytdlp::listed_links(out.stdout@).len() == 0 && message@
                    == "yt-dlp returned no playable URL"@
            } else {
                message@ == "yt-dlp play URL failed: "@ + out.stderr@
            },
        },
{
    if !out.success {
        return Err(text::concat2("yt-dlp play URL failed: ", &out.stderr));
    }
    let urls = ytdlp::links_in(&out.stdout);
    proof {
        assert(text::texts(urls@).len() == urls@.len());
    }
    if urls.len() == 0 {
        return Err("yt-dlp returned no playable URL".to_string());
    }
    proof {
        assert(text::texts(urls@)[0] == urls@[0]@);
    }
    Ok(urls[0].clone())
}

/// The text of the file that names a video.
pub fn strm_text(item: &YoutubeItem) -> (r: String)
    ensures
        r@ == item@.play_url + "\n"@,
{
    text::concat2(&item.play_url, "\n")
}

/// A text that may be missing, in XML.
pub open spec fn optional_xml(s: Option<Seq<char>>) -> Seq<char> {
    xml::xml_escaped(
        match s {
            Some(t) => t,
            None => Seq::empty(),
        },
    )
}

fn escape_optional(s: &Option<String>) -> (r: String)
    ensures
        r@ == optional_xml(text::text_in(*s)),
{
    match s {
        Some(t) => xml_escape(t),
        None => {
            proof {
                reveal_strlit("");
                assert(""@ =~= Seq::<char>::empty());
            }
            xml_escape("")
        },
    }
}

/// The text of the file that describes a video.
pub open spec fn nfo_of(item: LibraryItemView) -> Seq<char> {
    let title = xml::xml_escaped(item.title);
    "<?xml version=\"1.0\" encoding=\"UTF-8\" standalone=\"yes\"?>\n<movie>\n  <title>"@ + title
        + "</title>\n  <originaltitle>"@ + title + "</originaltitle>\n  <plot>"@ + optional_xml(
        item.plot,
    ) + "</plot>\n  <runtime>"@ + numbers::dec(
        match item.duration {
            Some(d) => (d / 60) as nat,
            None => 0,
        },
    ) + "</runtime>\n  <studio>"@ + optional_xml(first_text(item.channel, item.uploader))
        + "</studio>\n  <premiered>"@ + optional_xml(item.upload_date)
        + "</premiered>\n  <thumb>"@ + optional_xml(item.local_thumb)
        + "</thumb>\n  <uniqueid type=\"troozn\" default=\"true\">"@ + xml::xml_escaped(item.item_id)
        + "</uniqueid>\n  <trailer>"@ + xml::xml_escaped(item.source_url)
        + "</trailer>\n</movie>\n"@
}

/// The text of the file that describes a video.
pub fn movie_nfo_xml(item: &YoutubeItem) -> (r: String)
    ensures
        r@ == nfo_of(item@),
{
    let title = xml_escape(&item.title);
    let studio = first_of_two(item.channel.clone(), &item.uploader);
    let runtime: u64 = match item.duration {
        Some(d) => d / 60,
        None => 0,
    };
    let mut r = text::concat3(
        "<?xml version=\"1.0\" encoding=\"UTF-8\" standalone=\"yes\"?>\n<movie>\n  <title>",
        &title,
        "</title>\n  <originaltitle>",
    );
    r.push_str(&title);
    r.push_str("</originaltitle>\n  <plot>");
    r.push_str(&escape_optional(&item.plot));
    r.push_str("</plot>\n  <runtime>");
    r.push_str(&numbers::decimal(runtime));
    r.push_str("</runtime>\n  <studio>");
    r.push_str(&escape_optional(&studio));
    r.push_str("</studio>\n  <premiered>");
    r.push_str(&escape_optional(&item.upload_date));
    r.push_str("</premiered>\n  <thumb>");
    r.push_str(&escape_optional(&item.local_thumb));
    r.push_str("</thumb>\n  <uniqueid type=\"troozn\" default=\"true\">");
    r.push_str(&xml_escape(&item.item_id));
    r.push_str("</uniqueid>\n  <trailer>");
    r.push_str(&xml_escape(&item.source_url));
    r.push_str("</trailer>\n</movie>\n");
    r
}

/// The lines of a playlist for a video: its duration and title, and the file that names it.
pub open spec fn playlist_lines(item: LibraryItemView) -> Seq<char> {
    "#EXTINF:"@ + numbers::dec(
        match item.duration {
            Some(d) => d as nat,
            None => 0,
        },
    ) + ","@ + item.title + "\n"@ + item.strm_path + "\n"@
}

/// The playlist of a library.
pub open spec fn playlist_of(items: Seq<LibraryItemView>) -> Seq<char>
    decreases items.len(),
{
    if items.len() == 0 {
        "#EXTM3U\n"@
    } else {
        playlist_of(items.drop_last()) + playlist_lines(items.last())
    }
}

/// The playlist of a library.
pub fn write_playlist(items: &Vec<YoutubeItem>) -> (r: String)
    ensures
        r@ == playlist_of(library_views(items@)),
{
    let ghost all = library_views(items@);
    let mut r = "#EXTM3U\n".to_string();
    let mut i: usize = 0;
    while i < items.len()
        invariant
            all == library_views(items@),
            i <= items@.len(),
            r@ == playlist_of(all.take(i as int)),
        decreases items@.len() - i,
    {
        proof {
            assert(all.take(i + 1).drop_last() =~= all.take(i as int));
            assert(all.take(i + 1).last() == items@[i as int]@);
        }
        let duration: u64 = match items[i].duration {
            Some(d) => d,
            None => 0,
        };
        let mut lines = text::concat3("#EXTINF:", &numbers::decimal(duration), ",");
        lines.push_str(&items[i].title);
        lines.push_str("\n");
        lines.push_str(&items[i].strm_path);
        lines.push_str("\n");
        r.push_str(&lines);
        i += 1;
    }
    proof {
        assert(all.take(i as int) =~= all);
    }
    r
}

impl YoutubeLibrary {
    /// The library in the home directory, played at the address of the server.
    pub fn new_default(home: Option<String>, http_bind: &str, ytdlp: Option<String>) -> (r: Self)
        ensures
            r.db_path@ == "/tmp/troozn-youtube/items.json"@,
            r.library_dir@ == worker::path_in(
                match text::text_in(home) {
                    Some(h) => h,
                    None => "/tmp"@,
                },
                ".kodi/userdata/TROOZN"@,
            ),
            r.current_dir@ == worker::path_in(r.library_dir@, "current"@),
            r.public_base_url@ == base_url(http_bind@),
            r.ytdlp_bin@ == match text::text_in(ytdlp) {
                Some(path) => path,
                None => "/usr/local/bin/yt-dlp"@,
            },
            r.resolved_cache@ == Map::<Seq<char>, ResolvedUrlCache>::empty(),
    {
        let home_dir = match home {
            Some(h) => h,
            None => "/tmp".to_string(),
        };
        let public_base_url = if links::is_web_link(http_bind) {
            text::strip_end(http_bind, CharSet::Only('/'))
        } else {
            text::concat2("http://", http_bind)
        };
        let library_dir = worker::join_path(&home_dir, ".kodi/userdata/TROOZN");
        let current_dir = worker::join_path(&library_dir, "current");
        let ytdlp_bin = match ytdlp {
            Some(path) => path,
            None => "/usr/local/bin/yt-dlp".to_string(),
        };
        YoutubeLibrary {
            db_path: "/tmp/troozn-youtube/items.json".to_string(),
            library_dir,
            current_dir,
            public_base_url,
            ytdlp_bin,
            resolved_cache: StringHashMap::new(),
        }
    }

    /// Forgets the addresses under which videos are played: a new library is made.
    pub fn clear_current_library(&mut self)
        ensures
            *final(self) == (YoutubeLibrary { resolved_cache: final(self).resolved_cache, ..*old(self) }),
            final(self).resolved_cache@ == Map::<Seq<char>, ResolvedUrlCache>::empty(),
    {
        self.resolved_cache.clear();
    }

    /// Starts with a library: what is asked of yt-dlp first.
    pub fn submit(&self, url: &str, limit: usize) -> (r: SubmitStep)
        ensures
            r@ == first_step(url@, limit),
    {
        let bounded: usize = if limit < 1 {
            1
        } else if limit > MAX_LIMIT {
            MAX_LIMIT
        } else {
            limit
        };
        if is_probably_playlist_url(url) {
            SubmitStep::AskPlaylist(url.to_string(), bounded)
        } else {
            SubmitStep::AskVideo(url.to_string())
        }
    }

    /// A video of the library.
    pub fn create_library_item(&self, index: usize, meta: &VideoMetadata, now: u64) -> (r:
        YoutubeItem)
        ensures
            r@ == library_item(self.current_dir@, self.public_base_url@, index, meta@, now),
    {
        let item_id = ids::item_id_for_url(&meta.source_url);
        let number = numbers::padded_decimal(index as u64, 3);
        let title = sanitize_filename(&meta.title, &text::concat2("video-", &number));
        let base = text::concat3(&number, " - ", &title);
        let strm_path = worker::join_path(&self.current_dir, &text::concat2(&base, ".strm"));
        let nfo_path = worker::join_path(&self.current_dir, &text::concat2(&base, ".nfo"));
        let thumb_path = match &meta.thumbnail {
            Some(_) => Some(
                worker::join_path(&self.current_dir, &text::concat2(&base, "-thumb.jpg")),
            ),
            None => None,
        };
        let mut play_url = text::concat3(&self.public_base_url, "/youtube/item/", &item_id);
        play_url.push_str("/play");
        let local_thumb = thumb_path.clone();
        YoutubeItem {
            item_id,
            index,
            title: meta.title.clone(),
            source_url: meta.source_url.clone(),
            webpage_url: meta.webpage_url.clone(),
            thumbnail: meta.thumbnail.clone(),
            local_thumb,
            duration: meta.duration,
            channel: meta.channel.clone(),
            uploader: meta.uploader.clone(),
            upload_date: meta.upload_date.clone(),
            plot: meta.plot.clone(),
            strm_path,
            nfo_path,
            thumb_path,
            play_url,
            created_at: now,
        }
    }

    /// Makes the next video of the library at the time `now`, where there is one: that behind
    /// those that were made, with the next number.
    pub fn next_library_item(
        &self,
        videos: &Vec<VideoMetadata>,
        items: &mut Vec<YoutubeItem>,
        now: u64,
    ) -> (r: bool)
        ensures
            r == (old(items)@.len() < videos@.len()),
            library_views(final(items)@) == if r {
                library_views(old(items)@).push(
                    library_item(
                        self.current_dir@,
                        self.public_base_url@,
                        (old(items)@.len() + 1) as usize,
                        video_views(videos@)[old(items)@.len() as int],
                        now,
                    ),
                )
            } else {
                library_views(old(items)@)
            },
    {
        let n: usize = items.len();
        if n >= videos.len() {
            return false;
        }
        let ghost before = library_views(items@);
        let item = self.create_library_item(n + 1, &videos[n], now);
        let ghost made = item@;
        items.push(item);
        proof {
            assert(library_views(items@) =~= before.push(made));
        }
        true
    }

    /// The path of the playlist.
    pub fn playlist_path(&self) -> (r: String)
        ensures
            r@ == worker::path_in(self.current_dir@, "playlist.m3u8"@),
    {
        worker::join_path(&self.current_dir, "playlist.m3u8")
    }

    /// The answer to a request for a library.
    pub fn response(&self, items: Vec<YoutubeItem>) -> (r: YoutubeSubmitResponse)
        ensures
            r.ok,
            r.count == items@.len(),
            r.library_dir@ == self.current_dir@,
            r.playlist_path@ == worker::path_in(self.current_dir@, "playlist.m3u8"@),
            r.items == items,
    {
        let count: usize = items.len();
        YoutubeSubmitResponse {
            ok: true,
            count,
            library_dir: self.current_dir.clone(),
            playlist_path: self.playlist_path(),
            items,
        }
    }

    /// The address under which a video is played, where it is known and not too old.
    pub fn play_redirect(&self, item_id: &str, now: u64) -> (r: Option<String>)
        ensures
            text::text_in(r) == cached_url(self.resolved_cache@, item_id@, now),
    {
        match self.resolved_cache.get(item_id) {
            Some(entry) => if entry.expires_at > now {
                Some(entry.url.clone())
            } else {
                None
            },
            None => None,
        }
    }

    /// Keeps the address under which a video is played.
    pub fn remember_url(&mut self, item_id: &str, url: &str, now: u64)
        requires
            now + RESOLVED_URL_CACHE_SECONDS <= u64::MAX,
        ensures
            final(self).resolved_cache@.dom() == old(self).resolved_cache@.dom().insert(item_id@),
            final(self).resolved_cache@[item_id@].url@ == url@,
            final(self).resolved_cache@[item_id@].expires_at == now + RESOLVED_URL_CACHE_SECONDS,
            forall|other: Seq<char>|
                other != item_id@ && old(self).resolved_cache@.contains_key(other)
                    ==> #[trigger] final(self).resolved_cache@[other]
                    == old(self).resolved_cache@[other],
            *final(self) == (YoutubeLibrary { resolved_cache: final(self).resolved_cache, ..*old(self) }),
    {
        let entry = ResolvedUrlCache {
            url: url.to_string(),
            expires_at: now + RESOLVED_URL_CACHE_SECONDS,
        };
        self.resolved_cache.insert(item_id.to_string(), entry);
    }
}

/// The address under which a video is played, where it is known and not too old.
pub open spec fn cached_url(
    cache: Map<Seq<char>, ResolvedUrlCache>,
    item_id: Seq<char>,
    now: u64,
) -> Option<Seq<char>> {
    if cache.contains_key(item_id) && cache[item_id].expires_at > now {
        Some(cache[item_id].url@)
    } else {
        None
    }
}

/// What is said of a video that is not in the library.
pub fn unknown_item(item_id: &str) -> (r: String)
    ensures
        r@ == "unknown YouTube item: "@ + item_id@,
{
    text::concat2("unknown YouTube item: ", item_id)
}

// ---------------------------------------------------------------------------
// Laws
// ---------------------------------------------------------------------------

/// The words of a text hold no character that the text does not hold.
proof fn lemma_words_inherit(s: Seq<char>, c: char)
    requires
        text::free_of(s, CharSet::Only(c)),
    ensures
        forall|i: int|
            0 <= i < text::words(s).len() ==> text::free_of(
                #[trigger] text::words(s)[i],
                CharSet::Only(c),
            ),
{
    let ps = text::parts(s, CharSet::White);
    let keep = |p: Seq<char>| p.len() > 0;
    text::lemma_filter_members(ps, keep);
    assert forall|i: int| 0 <= i < s.len() implies #[trigger] s[i] != c by {
        assert(!CharSet::Only(c).has(s[i]));
    }
    text::lemma_parts_inherit(s, CharSet::White, c);
    assert forall|i: int| 0 <= i < text::words(s).len() implies text::free_of(
        #[trigger] text::words(s)[i],
        CharSet::Only(c),
    ) by {
        assert(ps.contains(ps.filter(keep)[i]));
        let k = choose|k: int| 0 <= k < ps.len() && ps[k] == text::words(s)[i];
        assert forall|m: int| 0 <= m < ps[k].len() implies !CharSet::Only(c).has(
            #[trigger] ps[k][m],
        ) by {}
    }
}

/// A description has at most one empty line between two others: three line feeds never follow
/// each other.
pub proof fn law_no_two_empty_lines(s: Seq<char>)
    ensures
        forall|i: int|
            0 <= i < squeezed(s).len() - 2 ==> !((#[trigger] squeezed(s)[i]) == '\n' && squeezed(
                s,
            )[i + 1] == '\n' && squeezed(s)[i + 2] == '\n'),
    decreases s.len(),
{
    if s.len() > 0 {
        law_no_two_empty_lines(s.drop_last());
        lemma_squeezed_end(s.drop_last());
        let front = squeezed(s.drop_last());
        let r = squeezed(s);
        assert forall|i: int| 0 <= i < r.len() - 2 implies !((#[trigger] r[i]) == '\n' && r[i + 1]
            == '\n' && r[i + 2] == '\n') by {
            if r != front {
                if i + 2 < front.len() {
                    assert(r[i] == front[i]);
                    assert(!(front[i] == '\n' && front[i + 1] == '\n' && front[i + 2] == '\n'));
                }
            } else {
                assert(!(front[i] == '\n' && front[i + 1] == '\n' && front[i + 2] == '\n'));
            }
        }
    }
}

/// The ends of a text and of what is left of it: where two line feeds end what is left, they end
/// the text.
proof fn lemma_squeezed_end(s: Seq<char>)
    ensures
        ({
            let r = squeezed(s);
            let n = r.len() as int;
            let m = s.len() as int;
            &&& n <= m
            &&& m > 0 ==> n > 0 && r[n - 1] == s[m - 1]
            &&& n >= 2 && r[n - 1] == '\n' && r[n - 2] == '\n' ==> m >= 2 && s[m - 1] == '\n'
                && s[m - 2] == '\n'
            &&& m >= 2 && s[m - 1] == '\n' && s[m - 2] == '\n' ==> n >= 2 && r[n - 1] == '\n'
                && r[n - 2] == '\n'
        }),
    decreases s.len(),
{
    if s.len() > 0 {
        lemma_squeezed_end(s.drop_last());
    }
}

/// A description is no longer than asked for, but for the mark that it was cut off.
pub proof fn law_description_is_bounded(s: Seq<char>, max_chars: nat)
    ensures
        compacted(s, max_chars as int).len() <= max_chars + 1,
{
    reveal_strlit("…");
}

/// Videos with different numbers have different files, whatever their titles are.
pub proof fn law_files_do_not_collide(a: nat, b: nat, title: Seq<char>, other: Seq<char>)
    requires
        file_base(a, title) == file_base(b, other),
    ensures
        a == b,
{
    lemma_number_of_base(a, title);
    lemma_number_of_base(b, other);
}

/// The number stands before the first space.
proof fn lemma_number_of_base(index: nat, title: Seq<char>)
    ensures
        numbers::radix_value(text::head(file_base(index, title), CharSet::Only(' ')), 10) == index,
{
    reveal_strlit(" - ");
    let number = index_text(index);
    let base = file_base(index, title);
    numbers::lemma_digits_of(index, 10);
    numbers::lemma_zero_padded(numbers::dec(index), 3, 10);
    let n = number.len() as int;
    assert forall|j: int| 0 <= j < n implies !CharSet::Only(' ').has(#[trigger] base[j]) by {
        assert(base[j] == number[j]);
        assert(numbers::digit_value(number[j]) < 10);
    }
    assert(base[n] == ' ');
    text::lemma_until_is(base, CharSet::Only(' '), n);
    assert(base.take(n) =~= number);
}

/// The videos of a library are made in their order and numbered from 1 on: what was made before
/// stays, and the next video takes the next number and its own time.
pub proof fn law_library_follows_videos(
    dir: Seq<char>,
    base: Seq<char>,
    videos: Seq<VideoView>,
    times: Seq<u64>,
    now: u64,
)
    requires
        times.len() < videos.len(),
    ensures
        library_items(dir, base, videos, times.push(now)) == library_items(
            dir,
            base,
            videos,
            times,
        ).push(
            library_item(dir, base, (times.len() + 1) as usize, videos[times.len() as int], now),
        ),
{
    let n = times.len() as int;
    let more = library_items(dir, base, videos, times.push(now));
    assert(more =~= library_items(dir, base, videos, times).push(
        library_item(dir, base, (n + 1) as usize, videos[n], now),
    ));
}

/// An address that was kept is used until it is too old, and not after that.
pub proof fn law_kept_address_is_used(
    cache: Map<Seq<char>, ResolvedUrlCache>,
    item_id: Seq<char>,
    entry: ResolvedUrlCache,
    now: u64,
)
    ensures
        cached_url(cache.insert(item_id, entry), item_id, now) == (if now < entry.expires_at {
            Some(entry.url@)
        } else {
            None
        }),
{
}

/// yt-dlp is always asked for at least one video of a playlist, and never for more than the
/// greatest number.
pub proof fn law_limit_is_bounded(limit: usize)
    ensures
        1 <= bounded_limit(limit) <= MAX_LIMIT,
        1 <= limit <= MAX_LIMIT ==> bounded_limit(limit) == limit,
{
}

/// The playlist of a library grows video by video: what was written stays, and behind it stand the
/// duration and the title of the next video on one line, and its file on the next.
pub proof fn law_playlist_grows(items: Seq<LibraryItemView>, item: LibraryItemView)
    ensures
        playlist_of(Seq::empty()) == "#EXTM3U\n"@,
        item.duration is None ==> playlist_of(items.push(item)) == playlist_of(items)
            + "#EXTINF:0,"@ + item.title + "\n"@ + item.strm_path + "\n"@,
        item.duration matches Some(d) ==> playlist_of(items.push(item)) == playlist_of(items)
            + "#EXTINF:"@ + numbers::dec(d as nat) + ","@ + item.title + "\n"@ + item.strm_path
            + "\n"@,
{
    assert(items.push(item).drop_last() =~= items);
    match item.duration {
        Some(d) => {
            assert(playlist_of(items.push(item)) =~= playlist_of(items) + "#EXTINF:"@
                + numbers::dec(d as nat) + ","@ + item.title + "\n"@ + item.strm_path + "\n"@);
        },
        None => {
            reveal_strlit("#EXTINF:");
            reveal_strlit("#EXTINF:0,");
            reveal_strlit(",");
            assert("#EXTINF:0,"@ =~= "#EXTINF:"@ + numbers::dec(0) + ","@);
            assert(playlist_of(items.push(item)) =~= playlist_of(items) + "#EXTINF:0,"@ + item.title
                + "\n"@ + item.strm_path + "\n"@);
        },
    }
}

/// The title and the path of a video are each on one line.
pub open spec fn on_one_line(item: LibraryItemView) -> bool {
    text::free_of(item.title, CharSet::Pair('\n', '\r')) && text::free_of(
        item.strm_path,
        CharSet::Pair('\n', '\r'),
    )
}

/// The playlist names every video of the library, in their order: two lines for each behind the
/// first line, the second of which is the path of its file.
pub proof fn law_playlist_names_all_videos(items: Seq<LibraryItemView>)
    requires
        forall|k: int| 0 <= k < items.len() ==> on_one_line(#[trigger] items[k]),
    ensures
        text::line_seq(playlist_of(items)).len() == 2 * items.len() + 1,
        text::line_seq(playlist_of(items))[0] == "#EXTM3U"@,
        forall|k: int|
            #![trigger items[k]]
            0 <= k < items.len() ==> {
                &&& text::line_seq(playlist_of(items))[2 * k + 2] == items[k].strm_path
                &&& text::line_seq(playlist_of(items))[2 * k + 1] == "#EXTINF:"@ + numbers::dec(
                    match items[k].duration {
                        Some(d) => d as nat,
                        None => 0,
                    },
                ) + ","@ + items[k].title
            },
    decreases items.len(),
{
    lemma_playlist_ends(items);
    if items.len() == 0 {
        reveal_strlit("#EXTM3U\n");
        reveal_strlit("#EXTM3U");
        reveal_strlit("\n");
        assert("#EXTM3U\n"@ =~= "#EXTM3U"@ + "\n"@);
        text::lemma_one_line("#EXTM3U"@);
    } else {
        let front = items.drop_last();
        let item = items.last();
        assert(on_one_line(items[items.len() - 1]));
        assert forall|k: int| 0 <= k < front.len() implies on_one_line(#[trigger] front[k]) by {
            assert(on_one_line(items[k]));
        }
        law_playlist_names_all_videos(front);
        lemma_playlist_ends(front);
        law_playlist_grows(front, item);
        assert(front.push(item) =~= items);
        let number = numbers::dec(
            match item.duration {
                Some(d) => d as nat,
                None => 0,
            },
        );
        let first = "#EXTINF:"@ + number + ","@ + item.title;
        lemma_title_line(item);
        let two = first + "\n"@ + (item.strm_path + "\n"@);
        assert(playlist_of(items) =~= playlist_of(front) + two);
        text::lemma_lines_concat(playlist_of(front), two);
        reveal_strlit("\n");
        text::lemma_one_line(first);
        text::lemma_one_line(item.strm_path);
        text::lemma_lines_concat(first + "\n"@, item.strm_path + "\n"@);
        let before = text::line_seq(playlist_of(front));
        let all = text::line_seq(playlist_of(items));
        assert(all =~= before + (seq![first] + seq![item.strm_path]));
        assert forall|k: int| #![trigger items[k]] 0 <= k < items.len() implies {
            &&& all[2 * k + 2] == items[k].strm_path
            &&& all[2 * k + 1] == "#EXTINF:"@ + numbers::dec(
                match items[k].duration {
                    Some(d) => d as nat,
                    None => 0,
                },
            ) + ","@ + items[k].title
        } by {
            if k < front.len() {
                assert(front[k] == items[k]);
                assert(all[2 * k + 2] == before[2 * k + 2]);
                assert(all[2 * k + 1] == before[2 * k + 1]);
            }
        }
    }
}

/// A playlist ends with the end of a line.
proof fn lemma_playlist_ends(items: Seq<LibraryItemView>)
    ensures
        playlist_of(items).len() > 0,
        playlist_of(items).last() == '\n',
{
    reveal_strlit("#EXTM3U\n");
    reveal_strlit("\n");
}

/// The line with the title of a video is one line.
proof fn lemma_title_line(item: LibraryItemView)
    requires
        on_one_line(item),
    ensures
        text::free_of(
            "#EXTINF:"@ + numbers::dec(
                match item.duration {
                    Some(d) => d as nat,
                    None => 0,
                },
            ) + ","@ + item.title,
            CharSet::Pair('\n', '\r'),
        ),
{
    let set = CharSet::Pair('\n', '\r');
    let n = match item.duration {
        Some(d) => d as nat,
        None => 0,
    };
    let number = numbers::dec(n);
    numbers::lemma_digits_of(n, 10);
    reveal_strlit("#EXTINF:");
    reveal_strlit(",");
    let line = "#EXTINF:"@ + number + ","@ + item.title;
    assert forall|i: int| 0 <= i < line.len() implies !set.has(#[trigger] line[i]) by {
        if i < 8 {
            assert(line[i] == "#EXTINF:"@[i]);
        } else if i < 8 + number.len() {
            assert(line[i] == number[i - 8]);
            assert(numbers::digit_value(number[i - 8]) < 10);
        } else if i > 8 + number.len() {
            assert(line[i] == item.title[i - 9 - number.len()]);
        }
    }
}

/// What a report says of a video is kept: its title, its page or the link that was asked about,
/// its picture and duration, its date, and whom it is from. Where there is no channel, the uploader
/// stands for it, and where there is no uploader, the channel.
pub proof fn law_report_tells_video(v: JsonView, url: Seq<char>)
    ensures
        ({
            let video = reported_video(v, url);
            &&& v.text_at("title"@) matches Some(t) ==> video.title == t
            &&& v.text_at("title"@) is None ==> video.title == "Vidéo YouTube"@
            &&& v.text_at("webpage_url"@) matches Some(page) ==> video.webpage_url == page
            &&& v.text_at("webpage_url"@) is None ==> video.webpage_url == url
            &&& video.source_url == video.webpage_url
            &&& video.thumbnail == v.text_at("thumbnail"@)
            &&& video.duration == v.unsigned_at("duration"@)
            &&& v.text_at("channel"@) matches Some(c) ==> video.channel == Some(c)
            &&& v.text_at("channel"@) is None ==> video.channel == v.text_at("uploader"@)
            &&& v.get("uploader"@) is None ==> video.uploader == v.text_at("channel"@)
            &&& v.text_at("uploader"@) matches Some(u) ==> video.uploader == Some(u)
            &&& v.text_at("upload_date"@) matches Some(d) ==> video.upload_date == date_of(d)
            &&& v.text_at("upload_date"@) is None ==> video.upload_date is None
            &&& v.text_at("description"@) matches Some(d) ==> video.plot == Some(
                compacted(d, 1200),
            )
            &&& v.text_at("description"@) is None ==> video.plot is None
        }),
{
}

/// An entry of a playlist is a video where it has a link: the page before the link, and that before
/// the original one. What is no link is the identifier of a video.
pub proof fn law_entry_tells_video(v: JsonView, raw: Seq<char>)
    ensures
        v.text_at("webpage_url"@) == Some(raw) ==> entry_link(v) == Some(raw),
        v.get("webpage_url"@) is None && v.text_at("url"@) == Some(raw) ==> entry_link(v) == Some(
            raw,
        ),
        v.get("webpage_url"@) is None && v.get("url"@) is None ==> entry_link(v) == v.text_at(
            "original_url"@,
        ),
        entry_link(v) is None ==> listed_video(v) is None,
        entry_link(v) == Some(raw) ==> (listed_video(v) matches Some(video) && {
            &&& links::web_link(raw) ==> video.source_url == raw
            &&& !links::web_link(raw) ==> video.source_url == "https://www.youtube.com/watch?v="@
                + raw
            &&& video.webpage_url == video.source_url
            &&& v.text_at("title"@) matches Some(t) ==> video.title == t
            &&& v.text_at("title"@) is None ==> video.title == "Vidéo YouTube"@
            &&& video.thumbnail == v.text_at("thumbnail"@)
            &&& video.duration == v.unsigned_at("duration"@)
            &&& video.uploader == v.text_at("uploader"@)
            &&& v.text_at("channel"@) matches Some(c) ==> video.channel == Some(c)
            &&& v.text_at("channel"@) is None ==> video.channel == v.text_at("uploader"@)
        }),
{
}

/// The videos of a playlist are those of its entries, in their order.
pub proof fn law_videos_follow_entries(entries: Seq<JsonView>, v: JsonView)
    ensures
        listed_videos(Seq::empty()).len() == 0,
        listed_video(v) matches Some(video) ==> listed_videos(entries.push(v)) == listed_videos(
            entries,
        ).push(video),
        listed_video(v) is None ==> listed_videos(entries.push(v)) == listed_videos(entries),
{
    assert(entries.push(v).drop_last() =~= entries);
}

/// A link that says so is asked for as a playlist, for as many videos as wanted; any other as a
/// video.
pub proof fn law_playlists_are_listed(before: Seq<char>, after: Seq<char>, limit: usize)
    ensures
        first_step(before + "/playlist"@ + after, limit) == SubmitView::AskPlaylist(
            before + "/playlist"@ + after,
            bounded_limit(limit),
        ),
        first_step(before + "list="@ + after, limit) == SubmitView::AskPlaylist(
            before + "list="@ + after,
            bounded_limit(limit),
        ),
        !text::has_part(before, "/playlist"@) && !text::has_part(before, "list="@) ==> first_step(
            before,
            limit,
        ) == SubmitView::AskVideo(before),
{
    text::lemma_phrase_within(before, "/playlist"@, after);
    text::lemma_phrase_within(before, "list="@, after);
}

/// What was reported is what the library gets; a mix that could not be listed is replaced by its
/// first video, and any other failure is passed on.
pub proof fn law_reports_make_library(url: Seq<char>, v: JsonView, message: Seq<char>)
    ensures
        after_playlist(url, Ok(v)) == SubmitView::Found(playlist_videos(v)),
        after_video(url, Ok(v)) matches SubmitView::Found(videos) && videos.len() == 1 && videos[0]
            == reported_video(v, url),
        after_video(url, Err(message)) == SubmitView::Fail(message),
        mix_seed(url) is None ==> after_playlist(url, Err(message)) == SubmitView::Fail(message),
        mix_seed(url) matches Some(seed) ==> after_playlist(url, Err(message))
            == SubmitView::AskVideo(seed),
        v.list_at("entries"@) is None ==> playlist_videos(v).len() == 0,
{
}

/// The first video of a mix is the one whose identifier stands behind `list=RD`, up to the next
/// parameter.
pub proof fn law_first_video_of_mix(before: Seq<char>, id: Seq<char>, rest: Seq<char>)
    requires
        text::free_of(id, CharSet::Pair('&', '#')),
        text::trimmed(id) == id,
        encode_utf8(id).len() >= 8,
        text::find_spec(before + "list=RD"@ + id + "&"@ + rest, "list=RD"@) == Some(
            before.len() as int,
        ),
    ensures
        mix_seed(before + "list=RD"@ + id + "&"@ + rest) == Some(
            "https://www.youtube.com/watch?v="@ + id,
        ),
{
    reveal_strlit("list=RD");
    reveal_strlit("&");
    let url = before + "list=RD"@ + id + "&"@ + rest;
    let set = CharSet::Pair('&', '#');
    let behind = url.skip(before.len() as int + 7);
    assert(behind =~= id + "&"@ + rest);
    assert forall|i: int| 0 <= i < id.len() implies !set.has(#[trigger] behind[i]) by {
        assert(behind[i] == id[i]);
        assert(!set.has(id[i]));
    }
    assert(behind[id.len() as int] == '&');
    text::lemma_until_is(behind, set, id.len() as int);
    assert(behind.take(id.len() as int) =~= id);
}

/// Eight digits are a date: four for the year, two for the month and two for the day. Nothing else
/// is one.
pub proof fn law_date_is_read(year: Seq<char>, month: Seq<char>, day: Seq<char>, s: Seq<char>)
    requires
        year.len() == 4 && month.len() == 2 && day.len() == 2,
        forall|i: int| 0 <= i < 4 ==> '0' <= #[trigger] year[i] <= '9',
        forall|i: int| 0 <= i < 2 ==> '0' <= #[trigger] month[i] <= '9',
        forall|i: int| 0 <= i < 2 ==> '0' <= #[trigger] day[i] <= '9',
    ensures
        date_of(year + month + day) == Some(year + "-"@ + month + "-"@ + day),
        s.len() != 8 ==> date_of(s) is None,
        (exists|i: int| 0 <= i < s.len() && !('0' <= #[trigger] s[i] <= '9')) ==> date_of(s) is None,
{
    let d = year + month + day;
    assert forall|i: int| 0 <= i < d.len() implies text::ascii_digit(#[trigger] d[i]) by {
        if i < 4 {
            assert(d[i] == year[i]);
        } else if i < 6 {
            assert(d[i] == month[i - 4]);
        } else {
            assert(d[i] == day[i - 6]);
        }
    }
    assert(d.subrange(0, 4) =~= year);
    assert(d.subrange(4, 6) =~= month);
    assert(d.subrange(6, 8) =~= day);
    if exists|i: int| 0 <= i < s.len() && !('0' <= #[trigger] s[i] <= '9') {
        let i = choose|i: int| 0 <= i < s.len() && !('0' <= #[trigger] s[i] <= '9');
        assert(!text::ascii_digit(s[i]));
    }
}

/// A title of words of letters, digits and a few signs is the name of its file; nothing makes the
/// other name.
pub proof fn law_plain_title_is_file_name(words: Seq<Seq<char>>, fallback: Seq<char>)
    requires
        words.len() > 0,
        forall|i: int|
            0 <= i < words.len() ==> (#[trigger] words[i]).len() > 0 && text::free_of(
                words[i],
                CharSet::White,
            ),
        text::joined(words, " "@).len() <= 140,
        forall|i: int|
            0 <= i < text::joined(words, " "@).len() ==> file_char(
                #[trigger] text::joined(words, " "@)[i],
            ),
    ensures
        file_title(text::joined(words, " "@), fallback) == text::joined(words, " "@),
        file_title(Seq::empty(), fallback) == fallback,
{
    let title = text::joined(words, " "@);
    let keep = |c: char| file_char(c);
    assert forall|i: int| 0 <= i < title.len() implies keep(#[trigger] title[i]) by {}
    text::lemma_filter_all(title, keep);
    text::law_words_are_read_back(words);
    assert(title.len() > 0) by {
        if words.len() > 1 {
            assert(words[words.len() - 1].len() > 0);
        } else {
            assert(words[0].len() > 0);
        }
    }
    let none = Seq::<char>::empty();
    text::lemma_filter_all(none, keep);
    text::lemma_parts_free(none, CharSet::White);
    let empty = |p: Seq<char>| p.len() > 0;
    assert(seq![none] =~= Seq::<Seq<char>>::empty().push(none));
    text::lemma_filter_push(Seq::<Seq<char>>::empty(), none, empty);
    text::lemma_filter_all(Seq::<Seq<char>>::empty(), empty);
    assert(text::words(none).len() == 0);
}

/// The files of a video lie in the directory of the library under its number and title, the
/// address under which it is played names the video, and it has a picture where one was reported.
pub proof fn law_files_of_video(
    dir: Seq<char>,
    base: Seq<char>,
    index: usize,
    v: VideoView,
    now: u64,
)
    ensures
        ({
            let item = library_item(dir, base, index, v, now);
            let name = numbers::dec_padded(index as nat, 3) + " - "@ + file_title(
                v.title,
                "video-"@ + numbers::dec_padded(index as nat, 3),
            );
            &&& item.strm_path == worker::path_in(dir, name + ".strm"@)
            &&& item.nfo_path == worker::path_in(dir, name + ".nfo"@)
            &&& v.thumbnail is None ==> item.thumb_path is None && item.local_thumb is None
            &&& v.thumbnail is Some ==> item.thumb_path == Some(
                worker::path_in(dir, name + "-thumb.jpg"@),
            ) && item.local_thumb == item.thumb_path
            &&& item.item_id == ids::item_id(v.source_url)
            &&& item.play_url == base + "/youtube/item/"@ + ids::item_id(v.source_url) + "/play"@
            &&& item.index == index && item.title == v.title && item.source_url == v.source_url
            &&& item.webpage_url == v.webpage_url && item.thumbnail == v.thumbnail
            &&& item.duration == v.duration && item.channel == v.channel
            &&& item.uploader == v.uploader && item.upload_date == v.upload_date
            &&& item.plot == v.plot && item.created_at == now
        }),
{
}

/// The address of a server is what it is bound to; a scheme that is there stays, and slashes behind
/// it are left out.
pub proof fn law_address_of_server(bind: Seq<char>)
    ensures
        !links::web_link(bind) ==> base_url(bind) == "http://"@ + bind,
        links::web_link(bind) && bind.last() != '/' ==> base_url(bind) == bind,
        links::web_link(bind + "/"@) ==> base_url(bind + "/"@) == text::trim_end(
            bind,
            CharSet::Only('/'),
        ),
{
    reveal_strlit("/");
    let s = bind + "/"@;
    assert(s.last() == '/');
    assert(s.drop_last() =~= bind);
    assert(text::trim_end(s, CharSet::Only('/')) == text::trim_end(
        s.drop_last(),
        CharSet::Only('/'),
    ));
}

/// yt-dlp is asked about the link, named last: about a playlist for no more videos than wanted,
/// about a video for that alone, and for the address under which it is played in one format.
pub proof fn law_library_commands(url: Seq<char>, limit: nat, use_deno: bool)
    ensures
        ytdlp::gives(playlist_args(url, limit, use_deno), "--playlist-end"@, numbers::dec(limit)),
        ytdlp::gives(playlist_args(url, limit, use_deno), "-J"@, url),
        playlist_args(url, limit, use_deno).contains("--flat-playlist"@),
        ytdlp::gives(video_args(url, use_deno), "-J"@, url),
        video_args(url, use_deno).contains("--no-playlist"@),
        ytdlp::gives(play_args(url, use_deno), "-f"@, YTDLP_FAST_FORMAT@),
        ytdlp::gives(play_args(url, use_deno), "-g"@, url),
        play_args(url, use_deno).contains("--no-playlist"@),
{
    let p = playlist_args(url, limit, use_deno);
    let v = video_args(url, use_deno);
    let g = play_args(url, use_deno);
    assert(p[p.len() - 6] == "--flat-playlist"@);
    assert(p[p.len() - 4] == "--playlist-end"@ && p[p.len() - 4 + 1] == numbers::dec(limit));
    assert(p[p.len() - 2] == "-J"@ && p[p.len() - 2 + 1] == url);
    assert(v[v.len() - 4] == "--no-playlist"@);
    assert(v[v.len() - 2] == "-J"@ && v[v.len() - 2 + 1] == url);
    assert(g[g.len() - 6] == "--no-playlist"@);
    assert(g[g.len() - 4] == "-f"@ && g[g.len() - 4 + 1] == YTDLP_FAST_FORMAT@);
    assert(g[g.len() - 2] == "-g"@ && g[g.len() - 2 + 1] == url);
}

/// The file that describes a video tells its title, its description, its length in whole minutes,
/// whom it is from, its date, its picture, its identifier and its link.
pub proof fn law_description_tells_video(item: LibraryItemView)
    ensures
        text::holds_all(
            nfo_of(item),
            seq![
                "<movie>\n  <title>"@ + xml::xml_escaped(item.title),
                "</originaltitle>\n  <plot>"@ + optional_xml(item.plot),
                "</plot>\n  <runtime>"@ + numbers::dec(
                    match item.duration {
                        Some(d) => (d / 60) as nat,
                        None => 0,
                    },
                ),
                "</runtime>\n  <studio>"@ + optional_xml(
                    match item.channel {
                        Some(c) => Some(c),
                        None => item.uploader,
                    },
                ),
                "</studio>\n  <premiered>"@ + optional_xml(item.upload_date),
                "</premiered>\n  <thumb>"@ + optional_xml(item.local_thumb),
                "</thumb>\n  <uniqueid type=\"troozn\" default=\"true\">"@ + xml::xml_escaped(
                    item.item_id,
                ),
                "</uniqueid>\n  <trailer>"@ + xml::xml_escaped(item.source_url),
            ],
        ),
{
    reveal_strlit("<?xml version=\"1.0\" encoding=\"UTF-8\" standalone=\"yes\"?>\n");
    reveal_strlit(
        "<?xml version=\"1.0\" encoding=\"UTF-8\" standalone=\"yes\"?>\n<movie>\n  <title>",
    );
    reveal_strlit("<movie>\n  <title>");
    let none = Seq::<Seq<char>>::empty();
    let nothing = Seq::<char>::empty();
    let start = "<?xml version=\"1.0\" encoding=\"UTF-8\" standalone=\"yes\"?>\n"@;
    let title = xml::xml_escaped(item.title);
    let plot = optional_xml(item.plot);
    let minutes = numbers::dec(
        match item.duration {
            Some(d) => (d / 60) as nat,
            None => 0,
        },
    );
    let studio = optional_xml(first_text(item.channel, item.uploader));
    let date = optional_xml(item.upload_date);
    let thumb = optional_xml(item.local_thumb);
    let id = xml::xml_escaped(item.item_id);
    let link = xml::xml_escaped(item.source_url);
    assert("<?xml version=\"1.0\" encoding=\"UTF-8\" standalone=\"yes\"?>\n<movie>\n  <title>"@
        =~= start + "<movie>\n  <title>"@);
    text::lemma_next_field(start, "<movie>\n  <title>"@, title, none);
    let c1 = start + "<movie>\n  <title>"@ + title;
    let p1 = none.push("<movie>\n  <title>"@ + title);
    text::lemma_next_field(c1, "</title>\n  <originaltitle>"@, title, p1);
    let c2 = c1 + "</title>\n  <originaltitle>"@ + title;
    let p2 = p1.push("</title>\n  <originaltitle>"@ + title);
    text::lemma_next_field(c2, "</originaltitle>\n  <plot>"@, plot, p2);
    let c3 = c2 + "</originaltitle>\n  <plot>"@ + plot;
    let p3 = p2.push("</originaltitle>\n  <plot>"@ + plot);
    text::lemma_next_field(c3, "</plot>\n  <runtime>"@, minutes, p3);
    let c4 = c3 + "</plot>\n  <runtime>"@ + minutes;
    let p4 = p3.push("</plot>\n  <runtime>"@ + minutes);
    text::lemma_next_field(c4, "</runtime>\n  <studio>"@, studio, p4);
    let c5 = c4 + "</runtime>\n  <studio>"@ + studio;
    let p5 = p4.push("</runtime>\n  <studio>"@ + studio);
    text::lemma_next_field(c5, "</studio>\n  <premiered>"@, date, p5);
    let c6 = c5 + "</studio>\n  <premiered>"@ + date;
    let p6 = p5.push("</studio>\n  <premiered>"@ + date);
    text::lemma_next_field(c6, "</premiered>\n  <thumb>"@, thumb, p6);
    let c7 = c6 + "</premiered>\n  <thumb>"@ + thumb;
    let p7 = p6.push("</premiered>\n  <thumb>"@ + thumb);
    let k8 = "</thumb>\n  <uniqueid type=\"troozn\" default=\"true\">"@;
    text::lemma_next_field(c7, k8, id, p7);
    let c8 = c7 + k8 + id;
    let p8 = p7.push(k8 + id);
    text::lemma_next_field(c8, "</uniqueid>\n  <trailer>"@, link, p8);
    let c9 = c8 + "</uniqueid>\n  <trailer>"@ + link;
    let p9 = p8.push("</uniqueid>\n  <trailer>"@ + link);
    text::lemma_next_field(c9, "</trailer>\n</movie>\n"@, nothing, p9);
    let whole = c9 + "</trailer>\n</movie>\n"@;
    assert(whole + nothing =~= whole);
    let told = p9.push("</trailer>\n</movie>\n"@ + nothing);
    assert(nfo_of(item) == whole);
    assert(told[0] == "<movie>\n  <title>"@ + title);
    assert(told[2] == "</originaltitle>\n  <plot>"@ + plot);
    assert(told[3] == "</plot>\n  <runtime>"@ + minutes);
    assert(told[4] == "</runtime>\n  <studio>"@ + studio);
    assert(told[5] == "</studio>\n  <premiered>"@ + date);
    assert(told[6] == "</premiered>\n  <thumb>"@ + thumb);
    assert(told[7] == k8 + id);
    assert(told[8] == "</uniqueid>\n  <trailer>"@ + link);
}

/// A short description on one line stays as it is.
pub proof fn law_short_description_stays(s: Seq<char>, max_chars: nat)
    requires
        text::free_of(s, CharSet::Pair('\n', '\r')),
        s.len() > 0 ==> !CharSet::White.has(s[0]) && !CharSet::White.has(s.last()),
    ensures
        s.len() <= max_chars ==> compacted(s, max_chars as int) == s,
        s.len() > max_chars ==> compacted(s, max_chars as int) == s.take(max_chars as int) + "…"@,
{
    reveal_strlit("\r\n");
    reveal_strlit("\r");
    assert(!text::has_part(s, "\r\n"@)) by {
        if text::has_part(s, "\r\n"@) {
            let i = choose|i: int| text::occurs_at(s, "\r\n"@, i);
            assert(s.subrange(i, i + 2)[0] == s[i]);
            assert(!CharSet::Pair('\n', '\r').has(s[i]));
        }
    }
    assert(!text::has_part(s, "\r"@)) by {
        if text::has_part(s, "\r"@) {
            let i = choose|i: int| text::occurs_at(s, "\r"@, i);
            assert(s.subrange(i, i + 1)[0] == s[i]);
            assert(!CharSet::Pair('\n', '\r').has(s[i]));
        }
    }
    text::law_nothing_to_replace(s, "\r\n"@, "\n"@);
    text::law_nothing_to_replace(s, "\r"@, "\n"@);
    lemma_nothing_to_squeeze(s);
}

proof fn lemma_nothing_to_squeeze(s: Seq<char>)
    requires
        text::free_of(s, CharSet::Pair('\n', '\r')),
    ensures
        squeezed(s) == s,
    decreases s.len(),
{
    if s.len() > 0 {
        let front = s.drop_last();
        assert forall|i: int| 0 <= i < front.len() implies !CharSet::Pair('\n', '\r').has(
            #[trigger] front[i],
        ) by {
            assert(!CharSet::Pair('\n', '\r').has(s[i]));
        }
        lemma_nothing_to_squeeze(front);
        assert(!CharSet::Pair('\n', '\r').has(s[s.len() - 1]));
        assert(front.push(s.last()) =~= s);
    }
}

/// The lines of a text end with line feeds alone, and a text without carriage returns stays.
pub proof fn law_line_ends(s: Seq<char>)
    ensures
        !with_line_feeds(s).contains('\r'),
        !s.contains('\r') ==> with_line_feeds(s) == s,
{
    reveal_strlit("\r\n");
    reveal_strlit("\r");
    reveal_strlit("\n");
    let t = text::replaced(s, "\r\n"@, "\n"@);
    assert("\r"@ =~= seq!['\r']);
    assert("\n"@ =~= seq!['\n']);
    text::law_replacing(t, '\r', "\n"@);
    let f = text::one_replaced('\r', "\n"@);
    assert forall|x: char| !(#[trigger] f(x)).contains('\r') by {}
    lemma_no_returns(t, f);
    if !s.contains('\r') {
        if text::has_part(s, "\r\n"@) {
            let i = choose|i: int| text::occurs_at(s, "\r\n"@, i);
            assert(s.subrange(i, i + 2)[0] == s[i]);
        }
        if text::has_part(s, "\r"@) {
            let i = choose|i: int| text::occurs_at(s, "\r"@, i);
            assert(s.subrange(i, i + 1)[0] == s[i]);
        }
        text::law_nothing_to_replace(s, "\r\n"@, "\n"@);
        text::law_nothing_to_replace(s, "\r"@, "\n"@);
    }
}

proof fn lemma_no_returns(s: Seq<char>, f: spec_fn(char) -> Seq<char>)
    requires
        forall|x: char| !(#[trigger] f(x)).contains('\r'),
    ensures
        !text::substituted(s, f).contains('\r'),
    decreases s.len(),
{
    if s.len() > 0 {
        lemma_no_returns(s.drop_last(), f);
    }
}

/// The name of a file holds letters and digits of any script, spaces, and a few signs; no slash,
/// colon or other sign that is no letter and no digit.
pub proof fn law_characters_of_file(c: char)
    ensures
        text::unicode_alphanumeric(c) ==> file_char(c),
        file_char(' ') && file_char('.') && file_char('-') && file_char('_') && file_char('(')
            && file_char(')') && file_char('[') && file_char(']') && file_char('&') && file_char(
            '\'',
        ) && file_char(','),
        file_char(c) && !text::unicode_alphanumeric(c) ==> seq![
            ' ',
            '.',
            '-',
            '_',
            '(',
            ')',
            '[',
            ']',
            '&',
            '\'',
            ',',
        ].contains(c),
{
    let signs = seq![' ', '.', '-', '_', '(', ')', '[', ']', '&', '\'', ','];
    assert(signs[0] == ' ' && signs[1] == '.' && signs[2] == '-' && signs[3] == '_' && signs[4]
        == '(' && signs[5] == ')' && signs[6] == '[' && signs[7] == ']' && signs[8] == '&'
        && signs[9] == '\'' && signs[10] == ',');
}

} // verus!
