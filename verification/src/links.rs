//! Links to media: what they point to, the identifiers that they hold, and the names that are
//! made of them.
use vstd::prelude::*;
use vstd::utf8::*;

use crate::encoding;
use crate::text;
use crate::text::CharSet;

verus! {

// ---------------------------------------------------------------------------
// Kinds of media
// ---------------------------------------------------------------------------

/// The text starts like a link over HTTP.
pub open spec fn web_link(s: Seq<char>) -> bool {
    text::begins(s, "http://"@) || text::begins(s, "https://"@)
}

/// Whether the text starts like a link over HTTP.
pub fn is_web_link(s: &str) -> (r: bool)
    ensures
        r == web_link(s@),
{
    text::starts_with(s, "http://") || text::starts_with(s, "https://")
}

/// A link without its query and fragment, and without slashes at the end.
pub open spec fn clean_link(url: Seq<char>) -> Seq<char> {
    text::trim_end(text::head(url, CharSet::Pair('?', '#')), CharSet::Only('/'))
}

/// The extension of a link, in lower case: what stands behind the last dot, where that takes at
/// most six bytes and is not all of the link.
pub open spec fn extension_of(url: Seq<char>) -> Option<Seq<char>> {
    let clean = clean_link(url);
    let ext = text::ascii_lower(text::tail(clean, CharSet::Only('.')));
    if encode_utf8(ext).len() > 6 || ext == clean {
        None
    } else {
        Some(ext)
    }
}

/// The extension of a link, in lower case.
pub fn url_extension(source_url: &str) -> (r: Option<String>)
    ensures
        text::text_in(r) == extension_of(source_url@),
{
    let clean = text::strip_end(
        &text::head_of(source_url, CharSet::Pair('?', '#')),
        CharSet::Only('/'),
    );
    let ext = text::to_ascii_lower(&text::tail_of(&clean, CharSet::Only('.')));
    if text::byte_len(&ext) > 6 || text::same(&ext, &clean) {
        None
    } else {
        Some(ext)
    }
}

/// The extensions of sound files.
pub open spec fn audio_extension(e: Seq<char>) -> bool {
    e == "mp3"@ || e == "m4a"@ || e == "aac"@ || e == "flac"@ || e == "wav"@ || e == "ogg"@ || e
        == "oga"@ || e == "opus"@ || e == "wma"@ || e == "aiff"@
}

/// The extensions of films and of their playlists.
pub open spec fn video_extension(e: Seq<char>) -> bool {
    e == "mp4"@ || e == "mkv"@ || e == "webm"@ || e == "mov"@ || e == "m4v"@ || e == "avi"@ || e
        == "ts"@ || e == "m2ts"@ || e == "mpg"@ || e == "mpeg"@ || e == "3gp"@ || e == "flv"@ || e
        == "m3u8"@
}

/// What a link points to by its extension: `audio`, `video`, or nothing that is known.
pub open spec fn media_type_of_link(url: Seq<char>) -> Option<Seq<char>> {
    match extension_of(url) {
        None => None,
        Some(e) => if audio_extension(e) {
            Some("audio"@)
        } else if video_extension(e) {
            Some("video"@)
        } else {
            None
        },
    }
}

/// What a link points to by its extension: `audio`, `video`, or nothing that is known.
pub fn infer_media_type_from_url(source_url: &str) -> (r: Option<&'static str>)
    ensures
        match r {
            Some(t) => media_type_of_link(source_url@) == Some(t@),
            None => media_type_of_link(source_url@) is None,
        },
{
    let e = match url_extension(source_url) {
        Some(e) => e,
        None => {
            return None;
        },
    };
    if text::same(&e, "mp3") || text::same(&e, "m4a") || text::same(&e, "aac") || text::same(
        &e,
        "flac",
    ) || text::same(&e, "wav") || text::same(&e, "ogg") || text::same(&e, "oga") || text::same(
        &e,
        "opus",
    ) || text::same(&e, "wma") || text::same(&e, "aiff") {
        return Some("audio");
    }
    if text::same(&e, "mp4") || text::same(&e, "mkv") || text::same(&e, "webm") || text::same(
        &e,
        "mov",
    ) || text::same(&e, "m4v") || text::same(&e, "avi") || text::same(&e, "ts") || text::same(
        &e,
        "m2ts",
    ) || text::same(&e, "mpg") || text::same(&e, "mpeg") || text::same(&e, "3gp") || text::same(
        &e,
        "flv",
    ) || text::same(&e, "m3u8") {
        return Some("video");
    }
    None
}

/// What a link points to by its extension, as an owned text.
pub fn media_type_text(source_url: &str) -> (r: Option<String>)
    ensures
        text::text_in(r) == media_type_of_link(source_url@),
{
    match infer_media_type_from_url(source_url) {
        Some(t) => Some(t.to_string()),
        None => None,
    }
}

// ---------------------------------------------------------------------------
// Names of playlists
// ---------------------------------------------------------------------------

/// The host of a link over HTTP, in lower case, with its port and what stands before it.
pub open spec fn host_of(url: Seq<char>) -> Option<Seq<char>> {
    let lower = text::ascii_lower(url);
    let rest = match text::without_prefix(lower, "https://"@) {
        Some(rest) => Some(rest),
        None => text::without_prefix(lower, "http://"@),
    };
    match rest {
        None => None,
        Some(rest) => {
            let host = text::trimmed(text::head(rest, CharSet::Three('/', '?', '#')));
            if host.len() == 0 {
                None
            } else {
                Some(host)
            }
        },
    }
}

/// The host of a link over HTTP, in lower case.
pub fn source_host(source_url: &str) -> (r: Option<String>)
    ensures
        text::text_in(r) == host_of(source_url@),
{
    let lower = text::to_ascii_lower(source_url);
    let rest = match text::strip_prefix(&lower, "https://") {
        Some(rest) => rest,
        None => match text::strip_prefix(&lower, "http://") {
            Some(rest) => rest,
            None => {
                return None;
            },
        },
    };
    let host = text::trim(&text::head_of(&rest, CharSet::Three('/', '?', '#')));
    if host.as_str().is_empty() {
        None
    } else {
        Some(host)
    }
}

/// The text with its first character in upper case and the others in lower case, ASCII letters
/// alone, or `Troozn` for the empty text.
pub open spec fn title_cased(s: Seq<char>) -> Seq<char> {
    if s.len() == 0 {
        "Troozn"@
    } else {
        seq![text::upper_char(s[0])] + text::ascii_lower(s.skip(1))
    }
}

/// The text with its first character in upper case and the others in lower case, ASCII letters
/// alone, or `Troozn` for the empty text.
pub fn title_case_ascii(value: &str) -> (r: String)
    ensures
        r@ == title_cased(value@),
{
    let v = text::chars_of(value);
    if v.len() == 0 {
        return "Troozn".to_string();
    }
    let mut r = String::new();
    r.push(text::to_upper_char(v[0]));
    let rest = text::substring(&v, 1, v.len());
    r.push_str(&text::to_ascii_lower(&rest));
    proof {
        assert(rest@ =~= value@.skip(1));
        assert(Seq::<char>::empty().push(text::upper_char(v@[0])) =~= seq![
            text::upper_char(v@[0]),
        ]);
    }
    r
}

/// What becomes of a character in the label of a playlist.
pub open spec fn label_char(c: char) -> Seq<char> {
    if text::ascii_alphanumeric(c) {
        seq![c]
    } else if c == '-' || c == '_' {
        seq!['_']
    } else {
        Seq::empty()
    }
}

/// The text reduced to ASCII letters and digits, hyphens turned into underscores.
pub open spec fn label_of(s: Seq<char>) -> Seq<char> {
    let label = text::substituted(s, |c: char| label_char(c));
    if label.len() == 0 {
        "Troozn"@
    } else {
        label
    }
}

/// The text reduced to ASCII letters and digits, hyphens turned into underscores, or `Troozn`
/// where nothing is left.
pub fn sanitize_playlist_label(value: &str) -> (r: String)
    ensures
        r@ == label_of(value@),
{
    let v = text::chars_of(value);
    let ghost f = |c: char| label_char(c);
    let mut out = String::new();
    let mut i: usize = 0;
    while i < v.len()
        invariant
            v@ == value@,
            f == (|c: char| label_char(c)),
            i <= v@.len(),
            out@ == text::substituted(v@.take(i as int), f),
        decreases v@.len() - i,
    {
        let c = v[i];
        let ghost before = out@;
        if text::is_ascii_alphanumeric(c) {
            out.push(c);
        } else if c == '-' || c == '_' {
            out.push('_');
        }
        proof {
            assert(v@.take(i + 1).drop_last() =~= v@.take(i as int));
            assert(out@ =~= before + f(c));
        }
        i += 1;
    }
    proof {
        assert(v@.take(i as int) =~= v@);
    }
    if out.as_str().is_empty() {
        "Troozn".to_string()
    } else {
        out
    }
}

/// The label of the playlist of a host.
pub open spec fn host_label(host: Seq<char>) -> Seq<char> {
    if text::has_part(host, "youtube.com"@) || text::has_part(host, "youtu.be"@) {
        "Youtube"@
    } else if text::has_part(host, "soundcloud.com"@) {
        "Soundcloud"@
    } else if text::has_part(host, "vimeo.com"@) {
        "Vimeo"@
    } else if text::has_part(host, "dailymotion.com"@) || text::has_part(host, "dai.ly"@) {
        "Dailymotion"@
    } else if text::has_part(host, "twitch.tv"@) {
        "Twitch"@
    } else if text::has_part(host, "spotify.com"@) {
        "Spotify"@
    } else if text::has_part(host, "deezer.com"@) {
        "Deezer"@
    } else if text::has_part(host, "mixcloud.com"@) {
        "Mixcloud"@
    } else if text::has_part(host, "bandcamp.com"@) {
        "Bandcamp"@
    } else {
        title_cased(text::head(text::without_prefixes(host, "www."@), CharSet::Only('.')))
    }
}

/// The name of the playlist of a link: after the service that it points to, or after its host.
pub open spec fn playlist_name(url: Seq<char>) -> Seq<char> {
    let host = match host_of(url) {
        Some(host) => host,
        None => text::ascii_lower(url),
    };
    "Playlist_"@ + label_of(host_label(host)) + ".m3u8"@
}

/// The name of the playlist of a link: after the service that it points to, or after its host.
pub fn playlist_name_for_source(source_url: &str) -> (r: String)
    ensures
        r@ == playlist_name(source_url@),
{
    let host = match source_host(source_url) {
        Some(host) => host,
        None => text::to_ascii_lower(source_url),
    };
    let label = if text::contains(&host, "youtube.com") || text::contains(&host, "youtu.be") {
        "Youtube".to_string()
    } else if text::contains(&host, "soundcloud.com") {
        "Soundcloud".to_string()
    } else if text::contains(&host, "vimeo.com") {
        "Vimeo".to_string()
    } else if text::contains(&host, "dailymotion.com") || text::contains(&host, "dai.ly") {
        "Dailymotion".to_string()
    } else if text::contains(&host, "twitch.tv") {
        "Twitch".to_string()
    } else if text::contains(&host, "spotify.com") {
        "Spotify".to_string()
    } else if text::contains(&host, "deezer.com") {
        "Deezer".to_string()
    } else if text::contains(&host, "mixcloud.com") {
        "Mixcloud".to_string()
    } else if text::contains(&host, "bandcamp.com") {
        "Bandcamp".to_string()
    } else {
        proof {
            reveal_strlit("www.");
        }
        title_case_ascii(
            &text::head_of(&text::strip_prefixes(&host, "www."), CharSet::Only('.')),
        )
    };
    text::concat3("Playlist_", &sanitize_playlist_label(&label), ".m3u8")
}

/// Whether a requested name stands for the current playlist.
pub open spec fn playlist_alias(requested: Seq<char>, current: Seq<char>) -> bool {
    let lower = text::ascii_lower(requested);
    ||| requested == current
    ||| lower == text::ascii_lower(current)
    ||| lower == "playlist-youtube.m3u8"@
    ||| text::begins(requested, "Playlist_"@) && text::ends(requested, ".m3u8"@)
}

/// Whether a requested name stands for the current playlist: its name in any case, the fixed
/// alias, or the name of any playlist.
pub fn is_public_playlist_alias(requested: &str, current_playlist_name: &str) -> (r: bool)
    ensures
        r == playlist_alias(requested@, current_playlist_name@),
{
    let lower = text::to_ascii_lower(requested);
    text::same(requested, current_playlist_name) || text::same(
        &lower,
        &text::to_ascii_lower(current_playlist_name),
    ) || text::same(&lower, "playlist-youtube.m3u8") || (text::starts_with(requested, "Playlist_")
        && text::ends_with(requested, ".m3u8"))
}

/// The title of a playlist by its name.
pub open spec fn playlist_title(name: Seq<char>) -> Seq<char> {
    let label = match text::without_prefix(name, "Playlist_"@) {
        Some(rest) => rest,
        None => "Troozn"@,
    };
    "Playlist "@ + text::replaced_set(
        text::without_suffixes(label, ".m3u8"@),
        CharSet::Only('_'),
        ' ',
    )
}

/// The title of a playlist by its name.
pub fn playlist_title_from_name(playlist_name: &str) -> (r: String)
    ensures
        r@ == playlist_title(playlist_name@),
{
    let label = match text::strip_prefix(playlist_name, "Playlist_") {
        Some(rest) => rest,
        None => "Troozn".to_string(),
    };
    proof {
        reveal_strlit(".m3u8");
    }
    let bare = text::strip_suffixes(&label, ".m3u8");
    text::concat2("Playlist ", &text::replace_set(&bare, CharSet::Only('_'), ' '))
}

/// The title of a medium by its link: the last name of the path, hyphens and underscores turned
/// into spaces.
pub open spec fn fallback_title(url: Seq<char>) -> Seq<char> {
    let last = text::replaced_set(
        text::tail(clean_link(url), CharSet::Only('/')),
        CharSet::Pair('-', '_'),
        ' ',
    );
    if text::trimmed(last).len() == 0 {
        "Media TROOZN"@
    } else {
        last
    }
}

/// The title of a medium by its link.
pub fn fallback_title_for_url(source_url: &str) -> (r: String)
    ensures
        r@ == fallback_title(source_url@),
{
    let clean = text::strip_end(
        &text::head_of(source_url, CharSet::Pair('?', '#')),
        CharSet::Only('/'),
    );
    let last = text::replace_set(
        &text::tail_of(&clean, CharSet::Only('/')),
        CharSet::Pair('-', '_'),
        ' ',
    );
    if text::trim(&last).as_str().is_empty() {
        "Media TROOZN".to_string()
    } else {
        last
    }
}

// ---------------------------------------------------------------------------
// YouTube links
// ---------------------------------------------------------------------------

/// A lower case link looks like one to a playlist.
pub open spec fn playlist_marked(lower: Seq<char>) -> bool {
    ||| text::has_part(lower, "list="@)
    ||| text::has_part(lower, "/playlist?"@)
    ||| text::has_part(lower, "youtube.com/playlist"@)
    ||| text::has_part(lower, "/sets/"@)
    ||| text::has_part(lower, "/album/"@)
    ||| text::has_part(lower, "/channel/"@)
    ||| text::has_part(lower, "/playlist/"@)
}

/// Whether a lower case link looks like one to a playlist.
pub fn has_playlist_mark(lower: &str) -> (r: bool)
    ensures
        r == playlist_marked(lower@),
{
    text::contains(lower, "list=") || text::contains(lower, "/playlist?") || text::contains(
        lower,
        "youtube.com/playlist",
    ) || text::contains(lower, "/sets/") || text::contains(lower, "/album/") || text::contains(
        lower,
        "/channel/",
    ) || text::contains(lower, "/playlist/")
}

/// Whether a link looks like one to a playlist, an album or a channel, in capitals or in small
/// letters.
pub fn is_probably_playlist_url(source_url: &str) -> (r: bool)
    ensures
        r == playlist_marked(text::unicode_lowercase(source_url@)),
        is_ascii_chars(source_url@) ==> r == playlist_marked(text::ascii_lower(source_url@)),
{
    has_playlist_mark(&text::lowercase(source_url))
}

/// A lower case link leads to YouTube.
pub open spec fn youtube_marked(lower: Seq<char>) -> bool {
    text::has_part(lower, "youtube.com/"@) || text::has_part(lower, "youtu.be/"@)
}

/// Whether a lower case link leads to YouTube.
pub fn has_youtube_mark(lower: &str) -> (r: bool)
    ensures
        r == youtube_marked(lower@),
{
    text::contains(lower, "youtube.com/") || text::contains(lower, "youtu.be/")
}

/// Whether a link leads to YouTube, in capitals or in small letters.
pub fn is_youtube_url(source_url: &str) -> (r: bool)
    ensures
        r == youtube_marked(text::unicode_lowercase(source_url@)),
        is_ascii_chars(source_url@) ==> r == youtube_marked(text::ascii_lower(source_url@)),
{
    has_youtube_mark(&text::lowercase(source_url))
}

/// The characters of a YouTube video identifier.
pub open spec fn id_char(c: char) -> bool {
    text::ascii_alphanumeric(c) || c == '_' || c == '-'
}

/// The form of a YouTube video identifier: eleven letters, digits, underscores and hyphens.
pub open spec fn youtube_id(s: Seq<char>) -> bool {
    s.len() == 11 && forall|i: int| 0 <= i < s.len() ==> id_char(#[trigger] s[i])
}

/// Whether a text has the form of a YouTube video identifier.
pub fn looks_like_youtube_id(value: &str) -> (r: bool)
    ensures
        r == youtube_id(value@),
{
    let v = text::chars_of(value);
    if v.len() != 11 {
        return false;
    }
    let mut i: usize = 0;
    while i < v.len()
        invariant
            v@ == value@,
            i <= v@.len(),
            v@.len() == 11,
            forall|j: int| 0 <= j < i ==> id_char(#[trigger] v@[j]),
        decreases v@.len() - i,
    {
        let c = v[i];
        if !(text::is_ascii_alphanumeric(c) || c == '_' || c == '-') {
            return false;
        }
        i += 1;
    }
    true
}

/// The value of the first parameter `key` among the parts of a query.
pub open spec fn first_param(parts: Seq<Seq<char>>, key: Seq<char>) -> Option<Seq<char>>
    decreases parts.len(),
{
    if parts.len() == 0 {
        None
    } else {
        match text::cut(parts[0], CharSet::Only('=')) {
            Some((k, v)) if k == key => Some(encoding::query_decoded(encode_utf8(v))),
            _ => first_param(parts.skip(1), key),
        }
    }
}

/// The query of a link: what follows the first question mark, or all of it.
pub open spec fn query_of(url: Seq<char>) -> Seq<char> {
    match text::cut(url, CharSet::Only('?')) {
        Some((_, q)) => q,
        None => url,
    }
}

/// The decoded value of the first parameter `key` of a link.
pub open spec fn param(url: Seq<char>, key: Seq<char>) -> Option<Seq<char>> {
    first_param(text::parts(query_of(url), CharSet::Only('&')), key)
}

/// The decoded value of the first parameter `key` of a link.
pub fn query_param(source_url: &str, key: &str) -> (r: Option<String>)
    ensures
        text::text_in(r) == param(source_url@, key@),
{
    let query = match text::split_once(source_url, CharSet::Only('?')) {
        Some((_, q)) => q,
        None => source_url.to_string(),
    };
    let parts = text::split(&query, CharSet::Only('&'));
    let ghost ps = text::texts(parts@);
    let mut i: usize = 0;
    proof {
        assert(ps.skip(0) =~= ps);
    }
    while i < parts.len()
        invariant
            ps == text::texts(parts@),
            param(source_url@, key@) == first_param(ps, key@),
            i <= parts@.len(),
            first_param(ps, key@) == first_param(ps.skip(i as int), key@),
        decreases parts@.len() - i,
    {
        proof {
            assert(ps.skip(i as int)[0] == parts@[i as int]@);
            assert(ps.skip(i as int).skip(1) =~= ps.skip(i + 1));
        }
        if let Some((k, v)) = text::split_once(&parts[i], CharSet::Only('=')) {
            if text::same(&k, key) {
                return Some(encoding::percent_decode_minimal(&v));
            }
        }
        i += 1;
    }
    None
}

/// Whether a link names one of YouTube's endless mixes: a list whose name starts with `RD`.
pub open spec fn mix_list(url: Seq<char>) -> bool {
    match param(url, "list"@) {
        Some(list) => text::begins(list, "RD"@),
        None => false,
    }
}

/// Whether a link names one of YouTube's endless mixes.
pub fn is_youtube_mix_list(source_url: &str) -> (r: bool)
    ensures
        r == mix_list(source_url@),
{
    match query_param(source_url, "list") {
        Some(list) => text::starts_with(&list, "RD"),
        None => false,
    }
}

/// The link to a video within its mix.
pub open spec fn mix_watch_url(id: Seq<char>, list: Seq<char>) -> Seq<char> {
    "https://www.youtube.com/watch?v="@ + id + "&list="@ + list + "&start_radio=1"@
}

/// The link to the video that a mix grew from, within the mix, where the name of the list holds
/// the identifier of that video.
pub open spec fn mix_link(url: Seq<char>) -> Option<Seq<char>> {
    match param(url, "list"@) {
        None => None,
        Some(list) => match text::without_prefix(list, "RDMM"@) {
            Some(id) if youtube_id(id) => Some(mix_watch_url(id, list)),
            _ => match text::without_prefix(list, "RD"@) {
                Some(id) if youtube_id(id) => Some(mix_watch_url(id, list)),
                _ => None,
            },
        },
    }
}

/// The link to a video within its mix.
fn mix_watch_link(id: &str, list: &str) -> (r: String)
    ensures
        r@ == mix_watch_url(id@, list@),
{
    let mut r = text::concat2("https://www.youtube.com/watch?v=", id);
    r.push_str("&list=");
    r.push_str(list);
    r.push_str("&start_radio=1");
    r
}

/// The link to the video that a mix grew from, within the mix.
pub fn normalize_rd_playlist_to_watch_url(source_url: &str) -> (r: Option<String>)
    ensures
        text::text_in(r) == mix_link(source_url@),
{
    let list = match query_param(source_url, "list") {
        Some(list) => list,
        None => {
            return None;
        },
    };
    if let Some(id) = text::strip_prefix(&list, "RDMM") {
        if looks_like_youtube_id(&id) {
            return Some(mix_watch_link(&id, &list));
        }
    }
    if let Some(id) = text::strip_prefix(&list, "RD") {
        if looks_like_youtube_id(&id) {
            return Some(mix_watch_link(&id, &list));
        }
    }
    None
}

/// What stands behind the first `marker` of a link, up to the next separator.
pub open spec fn after_marker(url: Seq<char>, marker: Seq<char>) -> Option<Seq<char>> {
    match text::find_spec(url, marker) {
        Some(i) => Some(
            text::head(url.skip(i + marker.len()), CharSet::Four('?', '&', '/', '#')),
        ),
        None => None,
    }
}

/// The identifier, where it has the form of one.
pub open spec fn checked_id(candidate: Option<Seq<char>>) -> Option<Seq<char>> {
    match candidate {
        Some(id) if youtube_id(id) => Some(id),
        _ => None,
    }
}

/// What stands behind a prefix of a list's name, up to the next separator.
pub open spec fn list_seed(list: Seq<char>, prefix: Seq<char>) -> Option<Seq<char>> {
    match text::without_prefix(list, prefix) {
        Some(rest) => Some(text::head(rest, CharSet::Four('?', '&', '/', '#'))),
        None => None,
    }
}

/// The identifier of the video that a link points to: the first that has the form of one among
/// the parameter `v`, what follows `youtu.be/`, `/embed/` and `/shorts/`, and the seed of a mix.
pub open spec fn video_id(url: Seq<char>) -> Option<Seq<char>> {
    match checked_id(param(url, "v"@)) {
        Some(id) => Some(id),
        None => match checked_id(after_marker(url, "youtu.be/"@)) {
            Some(id) => Some(id),
            None => match checked_id(after_marker(url, "/embed/"@)) {
                Some(id) => Some(id),
                None => match checked_id(after_marker(url, "/shorts/"@)) {
                    Some(id) => Some(id),
                    None => match param(url, "list"@) {
                        None => None,
                        Some(list) => match checked_id(list_seed(list, "RDMM"@)) {
                            Some(id) => Some(id),
                            None => checked_id(list_seed(list, "RD"@)),
                        },
                    },
                },
            },
        },
    }
}

/// The candidate, where it has the form of an identifier.
fn check_id(candidate: Option<String>) -> (r: Option<String>)
    ensures
        text::text_in(r) == checked_id(text::text_in(candidate)),
{
    match candidate {
        Some(id) => if looks_like_youtube_id(&id) {
            Some(id)
        } else {
            None
        },
        None => None,
    }
}

/// What stands behind the first `marker` of a link, up to the next separator.
fn text_after_marker(url: &str, marker: &str) -> (r: Option<String>)
    ensures
        text::text_in(r) == after_marker(url@, marker@),
{
    match text::find(url, marker) {
        Some(i) => {
            let v = text::chars_of(url);
            let m = text::chars_of(marker);
            let end: usize = v.len();
            let rest = text::substring(&v, i + m.len(), end);
            proof {
                assert(rest@ =~= url@.skip(i + marker@.len()));
            }
            Some(text::head_of(&rest, CharSet::Four('?', '&', '/', '#')))
        },
        None => None,
    }
}

/// What stands behind a prefix of a list's name, up to the next separator.
fn seed_of_list(list: &str, prefix: &str) -> (r: Option<String>)
    ensures
        text::text_in(r) == list_seed(list@, prefix@),
{
    match text::strip_prefix(list, prefix) {
        Some(rest) => Some(text::head_of(&rest, CharSet::Four('?', '&', '/', '#'))),
        None => None,
    }
}

/// The identifier of the video that a link points to.
pub fn extract_youtube_video_id(source_url: &str) -> (r: Option<String>)
    ensures
        text::text_in(r) == video_id(source_url@),
{
    if let Some(id) = check_id(query_param(source_url, "v")) {
        return Some(id);
    }
    if let Some(id) = check_id(text_after_marker(source_url, "youtu.be/")) {
        return Some(id);
    }
    if let Some(id) = check_id(text_after_marker(source_url, "/embed/")) {
        return Some(id);
    }
    if let Some(id) = check_id(text_after_marker(source_url, "/shorts/")) {
        return Some(id);
    }
    match query_param(source_url, "list") {
        Some(list) => {
            if let Some(id) = check_id(seed_of_list(&list, "RDMM")) {
                return Some(id);
            }
            check_id(seed_of_list(&list, "RD"))
        },
        None => None,
    }
}

/// The link to a video.
pub open spec fn watch_url(id: Seq<char>) -> Seq<char> {
    "https://www.youtube.com/watch?v="@ + id
}

/// The link to the video with the identifier `video_id`.
pub fn youtube_watch_url(video_id: &str) -> (r: String)
    ensures
        r@ == watch_url(video_id@),
{
    text::concat2("https://www.youtube.com/watch?v=", video_id)
}

// ---------------------------------------------------------------------------
// Laws
// ---------------------------------------------------------------------------

/// The name that a playlist is given always stands for the current playlist, whichever that is.
pub proof fn law_playlist_name_is_alias(url: Seq<char>, current: Seq<char>)
    ensures
        playlist_alias(playlist_name(url), current),
{
    let n = playlist_name(url);
    let a = "Playlist_"@;
    let z = ".m3u8"@;
    assert(n.subrange(0, a.len() as int) =~= a);
    assert(n.subrange(n.len() - z.len(), n.len() - z.len() + z.len()) =~= z);
}

/// A lower case link that looks like one to a playlist, or that leads to YouTube, still does so
/// with any text before it and behind it.
pub proof fn law_marks_stay(before: Seq<char>, lower: Seq<char>, after: Seq<char>)
    ensures
        playlist_marked(lower) ==> playlist_marked(before + lower + after),
        youtube_marked(lower) ==> youtube_marked(before + lower + after),
{
    if text::has_part(lower, "list="@) {
        text::lemma_part_within(before, lower, after, "list="@);
    }
    if text::has_part(lower, "/playlist?"@) {
        text::lemma_part_within(before, lower, after, "/playlist?"@);
    }
    if text::has_part(lower, "youtube.com/playlist"@) {
        text::lemma_part_within(before, lower, after, "youtube.com/playlist"@);
    }
    if text::has_part(lower, "/sets/"@) {
        text::lemma_part_within(before, lower, after, "/sets/"@);
    }
    if text::has_part(lower, "/album/"@) {
        text::lemma_part_within(before, lower, after, "/album/"@);
    }
    if text::has_part(lower, "/channel/"@) {
        text::lemma_part_within(before, lower, after, "/channel/"@);
    }
    if text::has_part(lower, "/playlist/"@) {
        text::lemma_part_within(before, lower, after, "/playlist/"@);
    }
    if text::has_part(lower, "youtube.com/"@) {
        text::lemma_part_within(before, lower, after, "youtube.com/"@);
    }
    if text::has_part(lower, "youtu.be/"@) {
        text::lemma_part_within(before, lower, after, "youtu.be/"@);
    }
}

/// Of links in ASCII, whether one looks like one to a playlist, and whether it leads to YouTube,
/// is the same in capitals as in small letters, and stays so with ASCII texts before it and behind
/// it. In capitals and together they are links in ASCII as well.
pub proof fn law_capitals_do_not_matter(before: Seq<char>, url: Seq<char>, after: Seq<char>)
    requires
        is_ascii_chars(before),
        is_ascii_chars(url),
        is_ascii_chars(after),
    ensures
        is_ascii_chars(text::ascii_upper(url)),
        is_ascii_chars(before + url + after),
        playlist_marked(text::ascii_lower(text::ascii_upper(url))) == playlist_marked(
            text::ascii_lower(url),
        ),
        youtube_marked(text::ascii_lower(text::ascii_upper(url))) == youtube_marked(
            text::ascii_lower(url),
        ),
        playlist_marked(text::ascii_lower(url)) ==> playlist_marked(
            text::ascii_lower(before + url + after),
        ),
        youtube_marked(text::ascii_lower(url)) ==> youtube_marked(
            text::ascii_lower(before + url + after),
        ),
{
    lemma_lower_of_upper(url);
    let whole = before + url + after;
    assert(text::ascii_lower(whole) =~= text::ascii_lower(before) + text::ascii_lower(url)
        + text::ascii_lower(after));
    law_marks_stay(text::ascii_lower(before), text::ascii_lower(url), text::ascii_lower(after));
    let upper = text::ascii_upper(url);
    assert forall|i: int| 0 <= i < upper.len() implies '\0' <= #[trigger] upper[i] <= '\u{7f}' by {
        assert('\0' <= url[i] <= '\u{7f}');
    }
    assert forall|i: int| 0 <= i < whole.len() implies '\0' <= #[trigger] whole[i] <= '\u{7f}' by {
        if i < before.len() {
            assert('\0' <= before[i] <= '\u{7f}');
        } else if i < before.len() + url.len() {
            assert('\0' <= url[i - before.len()] <= '\u{7f}');
        } else {
            assert('\0' <= after[i - before.len() - url.len()] <= '\u{7f}');
        }
    }
}

/// The first parameter of a query, or those behind it.
proof fn lemma_first_param(
    name: Seq<char>,
    value: Seq<char>,
    rest: Seq<Seq<char>>,
    key: Seq<char>,
)
    requires
        text::free_of(name, CharSet::Only('=')),
    ensures
        first_param(seq![name + seq!['='] + value] + rest, key) == (if name == key {
            Some(encoding::query_decoded(encode_utf8(value)))
        } else {
            first_param(rest, key)
        }),
{
    let eq = CharSet::Only('=');
    let part = name + seq!['='] + value;
    let all = seq![part] + rest;
    let n = name.len() as int;
    assert forall|i: int| 0 <= i < n implies !eq.has(#[trigger] part[i]) by {
        assert(part[i] == name[i]);
    }
    assert(part[n] == '=');
    text::lemma_until_is(part, eq, n);
    assert(part.take(n) =~= name);
    assert(part.skip(n + 1) =~= value);
    assert(all[0] == part);
    assert(all.skip(1) =~= rest);
}

/// The query of a link.
proof fn lemma_query_of(before: Seq<char>, query: Seq<char>)
    requires
        text::free_of(before, CharSet::Only('?')),
    ensures
        query_of(before + seq!['?'] + query) == query,
{
    let q = CharSet::Only('?');
    let url = before + seq!['?'] + query;
    let n = before.len() as int;
    assert forall|i: int| 0 <= i < n implies !q.has(#[trigger] url[i]) by {
        assert(url[i] == before[i]);
    }
    assert(url[n] == '?');
    text::lemma_until_is(url, q, n);
    assert(url.skip(n + 1) =~= query);
}

/// A link with one parameter.
proof fn lemma_one_param(
    before: Seq<char>,
    name: Seq<char>,
    value: Seq<char>,
    key: Seq<char>,
)
    requires
        text::free_of(before, CharSet::Only('?')),
        text::free_of(name, CharSet::Pair('=', '&')),
        text::free_of(value, CharSet::Only('&')),
    ensures
        param(before + seq!['?'] + (name + seq!['='] + value), key) == (if name == key {
            Some(encoding::query_decoded(encode_utf8(value)))
        } else {
            None
        }),
{
    let query = name + seq!['='] + value;
    lemma_query_of(before, query);
    lemma_part_free(name, value);
    text::lemma_parts_free(query, CharSet::Only('&'));
    assert(text::free_of(name, CharSet::Only('='))) by {
        assert forall|i: int| 0 <= i < name.len() implies !CharSet::Only('=').has(
            #[trigger] name[i],
        ) by {
            assert(!CharSet::Pair('=', '&').has(name[i]));
        }
    }
    let none = Seq::<Seq<char>>::empty();
    assert(seq![query] + none =~= seq![query]);
    lemma_first_param(name, value, none, key);
}

/// A part of a query holds no separator of parts.
proof fn lemma_part_free(name: Seq<char>, value: Seq<char>)
    requires
        text::free_of(name, CharSet::Pair('=', '&')),
        text::free_of(value, CharSet::Only('&')),
    ensures
        text::free_of(name + seq!['='] + value, CharSet::Only('&')),
{
    let amp = CharSet::Only('&');
    let part = name + seq!['='] + value;
    assert forall|i: int| 0 <= i < part.len() implies !amp.has(#[trigger] part[i]) by {
        if i < name.len() {
            assert(!CharSet::Pair('=', '&').has(name[i]));
        } else if i > name.len() {
            assert(part[i] == value[i - name.len() - 1]);
        }
    }
}

/// A link without an equals sign and a question mark has no parameter.
proof fn lemma_no_param(url: Seq<char>, key: Seq<char>)
    requires
        text::free_of(url, CharSet::Pair('=', '?')),
    ensures
        param(url, key) is None,
{
    let q = CharSet::Only('?');
    assert forall|i: int| 0 <= i < url.len() implies !q.has(#[trigger] url[i]) by {
        assert(!CharSet::Pair('=', '?').has(url[i]));
    }
    text::lemma_until_is(url, q, url.len() as int);
    let ps = text::parts(url, CharSet::Only('&'));
    assert forall|i: int| 0 <= i < url.len() implies #[trigger] url[i] != '=' by {
        assert(!CharSet::Pair('=', '?').has(url[i]));
    }
    text::lemma_parts_inherit(url, CharSet::Only('&'), '=');
    lemma_no_first_param(ps, key);
}

proof fn lemma_no_first_param(ps: Seq<Seq<char>>, key: Seq<char>)
    requires
        forall|k: int, m: int|
            0 <= k < ps.len() && 0 <= m < ps[k].len() ==> #[trigger] ps[k][m] != '=',
    ensures
        first_param(ps, key) is None,
    decreases ps.len(),
{
    if ps.len() > 0 {
        let p = ps[0];
        let eq = CharSet::Only('=');
        assert forall|i: int| 0 <= i < p.len() implies !eq.has(#[trigger] p[i]) by {
            assert(ps[0][i] != '=');
        }
        text::lemma_until_is(p, eq, p.len() as int);
        let rest = ps.skip(1);
        assert forall|k: int, m: int| 0 <= k < rest.len() && 0 <= m < rest[k].len() implies
            #[trigger] rest[k][m] != '=' by {
            assert(ps[k + 1][m] != '=');
        }
        lemma_no_first_param(rest, key);
    }
}

/// Each character of a marker stands in the link where the marker does.
proof fn lemma_marker_char(url: Seq<char>, marker: Seq<char>, i: int, k: int)
    requires
        text::occurs_at(url, marker, i),
        0 <= k < marker.len(),
    ensures
        url[i + k] == marker[k],
{
    assert(url.subrange(i, i + marker.len())[k] == url[i + k]);
}

/// A marker that stands nowhere is not found.
proof fn lemma_no_marker(url: Seq<char>, marker: Seq<char>)
    requires
        forall|i: int| !#[trigger] text::occurs_at(url, marker, i),
    ensures
        after_marker(url, marker) is None,
{
    text::lemma_find_from(url, marker, 0);
}

/// What stands behind the first marker, up to a separator or the end.
proof fn lemma_at_marker(
    before: Seq<char>,
    marker: Seq<char>,
    id: Seq<char>,
    rest: Seq<char>,
)
    requires
        forall|i: int|
            0 <= i < before.len() ==> !#[trigger] text::occurs_at(
                before + marker + id + rest,
                marker,
                i,
            ),
        youtube_id(id),
        rest.len() > 0 ==> rest[0] == '?',
    ensures
        after_marker(before + marker + id + rest, marker) == Some(id),
{
    let url = before + marker + id + rest;
    let n = before.len() as int;
    let seps = CharSet::Four('?', '&', '/', '#');
    assert(url.subrange(n, n + marker.len()) =~= marker);
    assert(text::occurs_at(url, marker, n));
    text::lemma_find_from(url, marker, 0);
    assert(text::find_spec(url, marker) == Some(n));
    let behind = url.skip(n + marker.len());
    assert(behind =~= id + rest);
    assert forall|i: int| 0 <= i < id.len() implies !seps.has(#[trigger] behind[i]) by {
        assert(id_char(id[i]));
        assert(behind[i] == id[i]);
    }
    assert(rest.len() > 0 ==> behind[id.len() as int] == '?');
    text::lemma_until_is(behind, seps, id.len() as int);
    assert(behind.take(id.len() as int) =~= id);
}

/// An identifier holds no separator of a link.
proof fn lemma_id_free(id: Seq<char>)
    requires
        forall|i: int| 0 <= i < id.len() ==> id_char(#[trigger] id[i]),
    ensures
        forall|i: int|
            0 <= i < id.len() ==> #[trigger] id[i] != '.' && id[i] != '/' && id[i] != '?' && id[i]
                != '=' && id[i] != '&' && id[i] != '#',
{
    assert forall|i: int| 0 <= i < id.len() implies #[trigger] id[i] != '.' && id[i] != '/'
        && id[i] != '?' && id[i] != '=' && id[i] != '&' && id[i] != '#' by {
        assert(id_char(id[i]));
    }
}

/// The link to a video, as it is shared.
pub open spec fn short_url(id: Seq<char>) -> Seq<char> {
    "https://youtu.be/"@ + id
}

/// The link to a video, as it is shown in other pages.
pub open spec fn embed_url(id: Seq<char>) -> Seq<char> {
    "https://www.youtube.com/embed/"@ + id
}

/// The link to a short video, with a place in it.
pub open spec fn shorts_url(id: Seq<char>) -> Seq<char> {
    "https://www.youtube.com/shorts/"@ + id + "?t=1"@
}

/// The link to a playlist.
pub open spec fn list_url(list: Seq<char>) -> Seq<char> {
    "https://www.youtube.com/playlist?list="@ + list
}

proof fn lemma_watch_url_id(id: Seq<char>)
    requires
        youtube_id(id),
    ensures
        video_id(watch_url(id)) == Some(id),
{
    reveal_strlit("https://www.youtube.com/watch?v=");
    reveal_strlit("https://www.youtube.com/watch");
    reveal_strlit("v");
    lemma_id_free(id);
    let before = "https://www.youtube.com/watch"@;
    assert(watch_url(id) =~= before + seq!['?'] + ("v"@ + seq!['='] + id));
    lemma_one_param(before, "v"@, id, "v"@);
    lemma_id_decodes_to_itself(id);
}

proof fn lemma_short_url_id(id: Seq<char>)
    requires
        youtube_id(id),
    ensures
        video_id(short_url(id)) == Some(id),
{
    let url = short_url(id);
    reveal_strlit("https://youtu.be/");
    reveal_strlit("https://");
    reveal_strlit("youtu.be/");
    lemma_id_free(id);
    let base = "https://youtu.be/"@;
    let before = "https://"@;
    let none = Seq::<char>::empty();
    assert(url =~= before + "youtu.be/"@ + id + none);
    let set = CharSet::Pair('=', '?');
    assert forall|i: int| 0 <= i < url.len() implies !set.has(#[trigger] url[i]) by {
        if i < 17 {
            assert(url[i] == base[i]);
        } else {
            assert(url[i] == id[i - 17]);
        }
    }
    lemma_no_param(url, "v"@);
    assert forall|i: int| 0 <= i < before.len() implies !#[trigger] text::occurs_at(
        before + "youtu.be/"@ + id + none,
        "youtu.be/"@,
        i,
    ) by {
        if text::occurs_at(url, "youtu.be/"@, i) {
            lemma_marker_char(url, "youtu.be/"@, i, 0);
            assert(url[i] == before[i]);
        }
    }
    lemma_at_marker(before, "youtu.be/"@, id, none);
}

proof fn lemma_embed_url_id(id: Seq<char>)
    requires
        youtube_id(id),
    ensures
        video_id(embed_url(id)) == Some(id),
{
    let url = embed_url(id);
    reveal_strlit("https://www.youtube.com/embed/");
    reveal_strlit("https://www.youtube.com");
    reveal_strlit("/embed/");
    reveal_strlit("youtu.be/");
    lemma_id_free(id);
    let base = "https://www.youtube.com/embed/"@;
    let before = "https://www.youtube.com"@;
    let none = Seq::<char>::empty();
    assert(url =~= before + "/embed/"@ + id + none);
    let set = CharSet::Pair('=', '?');
    assert forall|i: int| 0 <= i < url.len() implies !set.has(#[trigger] url[i]) by {
        if i < 30 {
            assert(url[i] == base[i]);
        } else {
            assert(url[i] == id[i - 30]);
        }
    }
    lemma_no_param(url, "v"@);
    assert forall|i: int| !#[trigger] text::occurs_at(url, "youtu.be/"@, i) by {
        if text::occurs_at(url, "youtu.be/"@, i) {
            lemma_marker_char(url, "youtu.be/"@, i, 5);
            lemma_marker_char(url, "youtu.be/"@, i, 0);
            if i + 5 < 30 {
                assert(url[i + 5] == base[i + 5]);
                assert(url[i] == base[i]);
            } else {
                assert(url[i + 5] == id[i + 5 - 30]);
            }
        }
    }
    lemma_no_marker(url, "youtu.be/"@);
    assert forall|i: int| 0 <= i < before.len() implies !#[trigger] text::occurs_at(
        before + "/embed/"@ + id + none,
        "/embed/"@,
        i,
    ) by {
        if text::occurs_at(url, "/embed/"@, i) {
            lemma_marker_char(url, "/embed/"@, i, 0);
            lemma_marker_char(url, "/embed/"@, i, 1);
            assert(url[i] == base[i]);
            assert(url[i + 1] == base[i + 1]);
        }
    }
    lemma_at_marker(before, "/embed/"@, id, none);
}

proof fn lemma_shorts_url_id(id: Seq<char>)
    requires
        youtube_id(id),
    ensures
        video_id(shorts_url(id)) == Some(id),
{
    let url = shorts_url(id);
    reveal_strlit("https://www.youtube.com/shorts/");
    reveal_strlit("https://www.youtube.com");
    reveal_strlit("/shorts/");
    reveal_strlit("/embed/");
    reveal_strlit("youtu.be/");
    reveal_strlit("?t=1");
    reveal_strlit("t");
    reveal_strlit("1");
    reveal_strlit("v");
    lemma_id_free(id);
    let base = "https://www.youtube.com/shorts/"@;
    let before = "https://www.youtube.com"@;
    let end = "?t=1"@;
    assert(url =~= before + "/shorts/"@ + id + end);
    let path = base + id;
    assert(url =~= path + seq!['?'] + ("t"@ + seq!['='] + "1"@));
    assert forall|i: int| 0 <= i < path.len() implies !CharSet::Only('?').has(
        #[trigger] path[i],
    ) by {
        if i < 31 {
            assert(path[i] == base[i]);
        } else {
            assert(path[i] == id[i - 31]);
        }
    }
    lemma_one_param(path, "t"@, "1"@, "v"@);
    assert("t"@[0] != "v"@[0]);
    assert forall|i: int| 0 <= i < url.len() && #[trigger] url[i] == '.' implies i == 11 || i
        == 19 by {
        if i < 31 {
            assert(url[i] == base[i]);
        } else if i < 42 {
            assert(url[i] == id[i - 31]);
        } else {
            assert(url[i] == end[i - 42]);
        }
    }
    assert forall|i: int| 0 <= i < url.len() && #[trigger] url[i] == '/' implies i == 6 || i == 7
        || i == 23 || i == 30 by {
        if i < 31 {
            assert(url[i] == base[i]);
        } else if i < 42 {
            assert(url[i] == id[i - 31]);
        } else {
            assert(url[i] == end[i - 42]);
        }
    }
    assert forall|i: int| !#[trigger] text::occurs_at(url, "youtu.be/"@, i) by {
        if text::occurs_at(url, "youtu.be/"@, i) {
            lemma_marker_char(url, "youtu.be/"@, i, 5);
            lemma_marker_char(url, "youtu.be/"@, i, 0);
            assert(url[i] == base[i]);
        }
    }
    lemma_no_marker(url, "youtu.be/"@);
    assert forall|i: int| !#[trigger] text::occurs_at(url, "/embed/"@, i) by {
        if text::occurs_at(url, "/embed/"@, i) {
            lemma_marker_char(url, "/embed/"@, i, 0);
            lemma_marker_char(url, "/embed/"@, i, 6);
        }
    }
    lemma_no_marker(url, "/embed/"@);
    assert forall|i: int| 0 <= i < before.len() implies !#[trigger] text::occurs_at(
        before + "/shorts/"@ + id + end,
        "/shorts/"@,
        i,
    ) by {
        if text::occurs_at(url, "/shorts/"@, i) {
            lemma_marker_char(url, "/shorts/"@, i, 0);
            lemma_marker_char(url, "/shorts/"@, i, 7);
        }
    }
    lemma_at_marker(before, "/shorts/"@, id, end);
}

/// The identifier in a link to a playlist is that of its name.
proof fn lemma_list_url_id(list: Seq<char>)
    requires
        forall|i: int| 0 <= i < list.len() ==> id_char(#[trigger] list[i]),
    ensures
        param(list_url(list), "list"@) == Some(list),
        video_id(list_url(list)) == (match checked_id(list_seed(list, "RDMM"@)) {
            Some(id) => Some(id),
            None => checked_id(list_seed(list, "RD"@)),
        }),
{
    let url = list_url(list);
    reveal_strlit("https://www.youtube.com/playlist?list=");
    reveal_strlit("https://www.youtube.com/playlist");
    reveal_strlit("/shorts/");
    reveal_strlit("/embed/");
    reveal_strlit("youtu.be/");
    reveal_strlit("list");
    reveal_strlit("v");
    lemma_id_free(list);
    let base = "https://www.youtube.com/playlist?list="@;
    let before = "https://www.youtube.com/playlist"@;
    assert(url =~= before + seq!['?'] + ("list"@ + seq!['='] + list));
    lemma_one_param(before, "list"@, list, "v"@);
    lemma_one_param(before, "list"@, list, "list"@);
    lemma_id_decodes_to_itself(list);
    assert("list"@.len() != "v"@.len());
    assert forall|i: int| 0 <= i < url.len() && #[trigger] url[i] == '.' implies i == 11 || i
        == 19 by {
        if i < 38 {
            assert(url[i] == base[i]);
        } else {
            assert(url[i] == list[i - 38]);
        }
    }
    assert forall|i: int| 0 <= i < url.len() && #[trigger] url[i] == '/' implies i == 6 || i == 7
        || i == 23 by {
        if i < 38 {
            assert(url[i] == base[i]);
        } else {
            assert(url[i] == list[i - 38]);
        }
    }
    assert forall|i: int| !#[trigger] text::occurs_at(url, "youtu.be/"@, i) by {
        if text::occurs_at(url, "youtu.be/"@, i) {
            lemma_marker_char(url, "youtu.be/"@, i, 5);
            lemma_marker_char(url, "youtu.be/"@, i, 0);
            assert(url[i] == base[i]);
        }
    }
    lemma_no_marker(url, "youtu.be/"@);
    assert forall|i: int| !#[trigger] text::occurs_at(url, "/embed/"@, i) by {
        if text::occurs_at(url, "/embed/"@, i) {
            lemma_marker_char(url, "/embed/"@, i, 0);
            lemma_marker_char(url, "/embed/"@, i, 6);
        }
    }
    lemma_no_marker(url, "/embed/"@);
    assert forall|i: int| !#[trigger] text::occurs_at(url, "/shorts/"@, i) by {
        if text::occurs_at(url, "/shorts/"@, i) {
            lemma_marker_char(url, "/shorts/"@, i, 0);
            lemma_marker_char(url, "/shorts/"@, i, 7);
        }
    }
    lemma_no_marker(url, "/shorts/"@);
}

/// A list is the mix that grew from a video.
pub open spec fn mix_of(list: Seq<char>, id: Seq<char>) -> bool {
    youtube_id(id) && (list == "RD"@ + id || list == "RDMM"@ + id)
}

/// The name of a mix holds the identifier of the video that it grew from, and no other.
proof fn lemma_mix_name(list: Seq<char>, id: Seq<char>)
    requires
        mix_of(list, id),
    ensures
        forall|i: int| 0 <= i < list.len() ==> id_char(#[trigger] list[i]),
        (match text::without_prefix(list, "RDMM"@) {
            Some(rest) if youtube_id(rest) => Some(rest),
            _ => match text::without_prefix(list, "RD"@) {
                Some(rest) if youtube_id(rest) => Some(rest),
                _ => None,
            },
        }) == Some(id),
{
    reveal_strlit("RD");
    reveal_strlit("RDMM");
    let short = "RD"@;
    let long = "RDMM"@;
    if list == short + id {
        assert forall|i: int| 0 <= i < list.len() implies id_char(#[trigger] list[i]) by {
            if i < 2 {
                assert(list[i] == short[i]);
            } else {
                assert(list[i] == id[i - 2]);
            }
        }
        assert(list.subrange(0, 2) =~= short);
        assert(list.skip(2) =~= id);
        assert(list.skip(4).len() == 9);
    } else {
        assert forall|i: int| 0 <= i < list.len() implies id_char(#[trigger] list[i]) by {
            if i < 4 {
                assert(list[i] == long[i]);
            } else {
                assert(list[i] == id[i - 4]);
            }
        }
        assert(list.subrange(0, 4) =~= long);
        assert(list.skip(4) =~= id);
    }
}

/// What follows the prefix of the name of a mix has no separator.
proof fn lemma_seed_is_rest(list: Seq<char>, prefix: Seq<char>)
    requires
        forall|i: int| 0 <= i < list.len() ==> id_char(#[trigger] list[i]),
    ensures
        list_seed(list, prefix) == text::without_prefix(list, prefix),
{
    match text::without_prefix(list, prefix) {
        Some(rest) => {
            let seps = CharSet::Four('?', '&', '/', '#');
            lemma_id_free(list);
            assert forall|i: int| 0 <= i < rest.len() implies !seps.has(#[trigger] rest[i]) by {
                assert(rest[i] == list[i + prefix.len()]);
            }
            text::lemma_until_is(rest, seps, rest.len() as int);
            assert(rest.take(rest.len() as int) =~= rest);
        },
        None => {},
    }
}

/// A link holds the identifier of the video that it was made with: as a parameter, behind the
/// name of the short host, in a page of others, as a short video, and as the mix that grew from the
/// video.
pub proof fn law_video_id_is_found(id: Seq<char>)
    requires
        youtube_id(id),
    ensures
        video_id(watch_url(id)) == Some(id),
        video_id(short_url(id)) == Some(id),
        video_id(embed_url(id)) == Some(id),
        video_id(shorts_url(id)) == Some(id),
        video_id(list_url("RD"@ + id)) == Some(id),
        video_id(list_url("RDMM"@ + id)) == Some(id),
{
    lemma_watch_url_id(id);
    lemma_short_url_id(id);
    lemma_embed_url_id(id);
    lemma_shorts_url_id(id);
    assert(mix_of("RD"@ + id, id));
    lemma_mix_name("RD"@ + id, id);
    lemma_list_url_id("RD"@ + id);
    lemma_seed_is_rest("RD"@ + id, "RDMM"@);
    lemma_seed_is_rest("RD"@ + id, "RD"@);
    assert(mix_of("RDMM"@ + id, id));
    lemma_mix_name("RDMM"@ + id, id);
    lemma_list_url_id("RDMM"@ + id);
    lemma_seed_is_rest("RDMM"@ + id, "RDMM"@);
    lemma_seed_is_rest("RDMM"@ + id, "RD"@);
}

/// Whatever the link, what is found in it as an identifier has the form of one.
pub proof fn law_found_id_has_its_form(url: Seq<char>)
    ensures
        video_id(url) matches Some(id) ==> youtube_id(id),
{
}

/// The parameters of the link to a video within its mix.
proof fn lemma_mix_params(id: Seq<char>, list: Seq<char>)
    requires
        forall|i: int| 0 <= i < id.len() ==> id_char(#[trigger] id[i]),
        forall|i: int| 0 <= i < list.len() ==> id_char(#[trigger] list[i]),
    ensures
        param(mix_watch_url(id, list), "v"@) == Some(id),
        param(mix_watch_url(id, list), "list"@) == Some(list),
{
    let url = mix_watch_url(id, list);
    let amp = CharSet::Only('&');
    reveal_strlit("https://www.youtube.com/watch?v=");
    reveal_strlit("https://www.youtube.com/watch");
    reveal_strlit("&list=");
    reveal_strlit("&start_radio=1");
    reveal_strlit("start_radio=1");
    reveal_strlit("v");
    reveal_strlit("list");
    lemma_id_free(id);
    lemma_id_free(list);
    let before = "https://www.youtube.com/watch"@;
    let a = "v"@ + seq!['='] + id;
    let b = "list"@ + seq!['='] + list;
    let c = "start_radio=1"@;
    let query = a + seq!['&'] + (b + seq!['&'] + c);
    assert(url =~= before + seq!['?'] + query);
    lemma_query_of(before, query);
    lemma_part_free("v"@, id);
    lemma_part_free("list"@, list);
    text::lemma_parts_free(a, amp);
    text::lemma_parts_free(b, amp);
    text::lemma_parts_free(c, amp);
    text::lemma_parts_concat(b, '&', c, amp);
    text::lemma_parts_concat(a, '&', b + seq!['&'] + c, amp);
    let behind = seq![b] + seq![c];
    assert(text::parts(query, amp) == seq![a] + behind);
    lemma_first_param("v"@, id, behind, "v"@);
    lemma_first_param("v"@, id, behind, "list"@);
    lemma_first_param("list"@, list, seq![c], "list"@);
    assert("list"@.len() != "v"@.len());
    lemma_id_decodes_to_itself(id);
    lemma_id_decodes_to_itself(list);
}

/// A link has a link within a mix exactly where its list is the mix that grew from a video. That
/// link names the video and the same list, and it is its own link within the mix.
pub proof fn law_mix_link_is_stable(url: Seq<char>)
    ensures
        mix_link(url) is Some <==> (param(url, "list"@) is Some && exists|id: Seq<char>|
            #[trigger] mix_of(param(url, "list"@)->0, id)),
        forall|id: Seq<char>|
            param(url, "list"@) is Some && #[trigger] mix_of(param(url, "list"@)->0, id) ==> {
                let link = mix_link(url)->0;
                &&& mix_link(url) is Some
                &&& param(link, "v"@) == Some(id)
                &&& param(link, "list"@) == param(url, "list"@)
                &&& mix_link(link) == Some(link)
            },
{
    reveal_strlit("RD");
    reveal_strlit("RDMM");
    match param(url, "list"@) {
        Some(list) => {
            assert forall|id: Seq<char>| #[trigger] mix_of(list, id) implies {
                let link = mix_link(url)->0;
                &&& mix_link(url) is Some
                &&& param(link, "v"@) == Some(id)
                &&& param(link, "list"@) == Some(list)
                &&& mix_link(link) == Some(link)
            } by {
                lemma_mix_name(list, id);
                assert(mix_link(url) == Some(mix_watch_url(id, list)));
                lemma_mix_params(id, list);
            }
            if mix_link(url) is Some {
                if text::begins(list, "RDMM"@) && youtube_id(list.skip(4)) {
                    assert(list =~= "RDMM"@ + list.skip(4)) by {
                        assert(list.subrange(0, 4) + list.skip(4) =~= list);
                    }
                    assert(mix_of(list, list.skip(4)));
                } else {
                    assert(list =~= "RD"@ + list.skip(2)) by {
                        assert(list.subrange(0, 2) + list.skip(2) =~= list);
                    }
                    assert(mix_of(list, list.skip(2)));
                }
            }
        },
        None => {},
    }
}

/// Capitals instead of small letters change neither what is left after trimming nor the last part.
proof fn lemma_upper_tail(s: Seq<char>, set: CharSet)
    requires
        set == CharSet::Only('/') || set == CharSet::Only('.'),
    ensures
        text::trim_end(text::ascii_upper(s), set) == text::ascii_upper(text::trim_end(s, set)),
        text::tail(text::ascii_upper(s), set) == text::ascii_upper(text::tail(s, set)),
    decreases s.len(),
{
    let u = text::ascii_upper(s);
    if s.len() > 0 {
        assert(u.last() == text::upper_char(s.last()));
        assert(set.has(u.last()) == set.has(s.last()));
        assert(u.drop_last() =~= text::ascii_upper(s.drop_last()));
        lemma_upper_tail(s.drop_last(), set);
        if !set.has(s.last()) {
            assert(text::ascii_upper(text::tail(s.drop_last(), set)).push(u.last())
                =~= text::ascii_upper(text::tail(s, set)));
        } else {
            assert(text::ascii_upper(Seq::empty()) =~= Seq::<char>::empty());
        }
    } else {
        assert(u =~= s);
        assert(text::ascii_upper(Seq::empty()) =~= Seq::<char>::empty());
    }
}

/// Small letters for capitals undo capitals for small letters.
proof fn lemma_lower_of_upper(s: Seq<char>)
    ensures
        text::ascii_lower(text::ascii_upper(s)) == text::ascii_lower(s),
{
    assert forall|i: int| 0 <= i < s.len() implies text::lower_char(
        text::upper_char(#[trigger] s[i]),
    ) == text::lower_char(s[i]) by {}
    assert(text::ascii_lower(text::ascii_upper(s)) =~= text::ascii_lower(s));
}

/// The part behind the last dot holds no dot.
proof fn lemma_tail_free(s: Seq<char>)
    ensures
        text::free_of(text::tail(s, CharSet::Only('.')), CharSet::Only('.')),
    decreases s.len(),
{
    if s.len() > 0 {
        lemma_tail_free(s.drop_last());
    }
}

/// A dot is not trimmed with slashes.
proof fn lemma_dot_stays(s: Seq<char>)
    requires
        s.contains('.'),
    ensures
        text::trim_end(s, CharSet::Only('/')).contains('.'),
    decreases s.len(),
{
    if s.len() > 0 && s.last() == '/' {
        let i = choose|i: int| 0 <= i < s.len() && s[i] == '.';
        assert(s.drop_last()[i] == '.');
        lemma_dot_stays(s.drop_last());
    }
}

/// The extension of a link with a dot is not all of it.
proof fn lemma_extension_is_not_all(clean: Seq<char>)
    requires
        clean.contains('.'),
    ensures
        text::ascii_lower(text::tail(clean, CharSet::Only('.'))) != clean,
{
    let t = text::tail(clean, CharSet::Only('.'));
    lemma_tail_free(clean);
    let i = choose|i: int| 0 <= i < clean.len() && clean[i] == '.';
    if text::ascii_lower(t) == clean {
        assert(text::ascii_lower(t)[i] == text::lower_char(t[i]));
        assert(!CharSet::Only('.').has(t[i]));
    }
}

/// What stands before a query or a fragment.
proof fn lemma_link_head(url: Seq<char>, rest: Seq<char>)
    requires
        text::free_of(url, CharSet::Pair('?', '#')),
        rest.len() > 0 ==> rest[0] == '?' || rest[0] == '#',
    ensures
        text::head(url + rest, CharSet::Pair('?', '#')) == url,
{
    let set = CharSet::Pair('?', '#');
    let all = url + rest;
    assert forall|i: int| 0 <= i < url.len() implies !set.has(#[trigger] all[i]) by {
        assert(all[i] == url[i]);
    }
    assert(rest.len() > 0 ==> all[url.len() as int] == rest[0]);
    text::lemma_until_is(all, set, url.len() as int);
    assert(all.take(url.len() as int) =~= url);
}

/// What a link points to is the same with a slash, a query or a fragment behind it, and, where it
/// has a dot, in capitals.
pub proof fn law_kind_of_link_stays(url: Seq<char>, rest: Seq<char>)
    requires
        text::free_of(url, CharSet::Pair('?', '#')),
    ensures
        media_type_of_link(url + "/"@) == media_type_of_link(url),
        media_type_of_link(url + "?"@ + rest) == media_type_of_link(url),
        media_type_of_link(url + "#"@ + rest) == media_type_of_link(url),
        url.contains('.') ==> media_type_of_link(text::ascii_upper(url)) == media_type_of_link(
            url,
        ),
{
    reveal_strlit("/");
    reveal_strlit("?");
    reveal_strlit("#");
    let set = CharSet::Pair('?', '#');
    let slash = CharSet::Only('/');
    let dot = CharSet::Only('.');
    let none = Seq::<char>::empty();
    assert(url + none =~= url);
    lemma_link_head(url, none);
    assert(url + "?"@ + rest =~= url + ("?"@ + rest));
    lemma_link_head(url, "?"@ + rest);
    assert(url + "#"@ + rest =~= url + ("#"@ + rest));
    lemma_link_head(url, "#"@ + rest);
    let slashed = url + "/"@;
    assert(slashed + none =~= slashed);
    assert forall|i: int| 0 <= i < slashed.len() implies !set.has(#[trigger] slashed[i]) by {
        if i < url.len() {
            assert(slashed[i] == url[i]);
        }
    }
    lemma_link_head(slashed, none);
    assert(slashed.drop_last() =~= url);
    assert(text::trim_end(slashed, slash) == text::trim_end(url, slash));
    if url.contains('.') {
        let upper = text::ascii_upper(url);
        assert(upper + none =~= upper);
        assert forall|i: int| 0 <= i < upper.len() implies !set.has(#[trigger] upper[i]) by {
            assert(!set.has(url[i]));
            assert(upper[i] == text::upper_char(url[i]));
        }
        lemma_link_head(upper, none);
        let clean = clean_link(url);
        lemma_upper_tail(url, slash);
        assert(clean_link(upper) == text::ascii_upper(clean));
        lemma_upper_tail(clean, dot);
        lemma_lower_of_upper(text::tail(clean, dot));
        lemma_dot_stays(url);
        lemma_extension_is_not_all(clean);
        assert(text::ascii_upper(clean).contains('.')) by {
            let i = choose|i: int| 0 <= i < clean.len() && clean[i] == '.';
            assert(text::ascii_upper(clean)[i] == '.');
        }
        lemma_extension_is_not_all(text::ascii_upper(clean));
    }
}

/// The characters of an identifier stand for themselves in a query.
pub proof fn lemma_id_decodes_to_itself(id: Seq<char>)
    requires
        forall|i: int| 0 <= i < id.len() ==> id_char(#[trigger] id[i]),
    ensures
        encoding::query_decoded(encode_utf8(id)) == id,
{
    assert forall|i: int| 0 <= i < id.len() implies (#[trigger] id[i] as int) < 128 by {
        assert(id_char(id[i]));
    }
    encoding::lemma_ascii_utf8(id);
    lemma_query_ascii(id);
}

proof fn lemma_query_ascii(id: Seq<char>)
    requires
        forall|i: int| 0 <= i < id.len() ==> id_char(#[trigger] id[i]),
    ensures
        encoding::query_decoded(encoding::ascii_bytes(id)) == id,
    decreases id.len(),
{
    let b = encoding::ascii_bytes(id);
    if id.len() > 0 {
        assert(id_char(id[0]));
        let rest = id.skip(1);
        assert forall|i: int| 0 <= i < rest.len() implies id_char(#[trigger] rest[i]) by {
            assert(id_char(id[i + 1]));
        }
        lemma_query_ascii(rest);
        assert(b.skip(1) =~= encoding::ascii_bytes(rest));
        assert(b[0] == id[0] as u8);
        assert(b[0] as char == id[0]);
        assert(id =~= seq![id[0]] + rest);
    } else {
        assert(b =~= Seq::<u8>::empty());
        assert(id =~= Seq::<char>::empty());
    }
}

/// Whether a text is a link is said by how it begins.
pub proof fn law_web_links(rest: Seq<char>, s: Seq<char>)
    ensures
        web_link("http://"@ + rest),
        web_link("https://"@ + rest),
        s.len() == 0 || s[0] != 'h' ==> !web_link(s),
{
    reveal_strlit("http://");
    reveal_strlit("https://");
    text::law_begins_and_ends("http://"@, rest);
    text::law_begins_and_ends("https://"@, rest);
    if web_link(s) {
        assert(s.subrange(0, 1)[0] == s[0]);
        if text::begins(s, "http://"@) {
            assert(s.subrange(0, 7)[0] == s[0]);
        } else {
            assert(s.subrange(0, 8)[0] == s[0]);
        }
    }
}

/// A link points to what its extension says: sound or a film. It is the extension behind the last
/// dot, in whatever letters.
pub proof fn law_extension_tells_kind(name: Seq<char>, e: Seq<char>)
    requires
        text::free_of(name, CharSet::Pair('?', '#')),
        0 < e.len() <= 6,
        forall|i: int| 0 <= i < e.len() ==> text::ascii_alphanumeric(#[trigger] e[i]),
    ensures
        extension_of(name + "."@ + e) == Some(text::ascii_lower(e)),
        audio_extension(text::ascii_lower(e)) ==> media_type_of_link(name + "."@ + e) == Some(
            "audio"@,
        ),
        video_extension(text::ascii_lower(e)) ==> media_type_of_link(name + "."@ + e) == Some(
            "video"@,
        ),
        !audio_extension(text::ascii_lower(e)) && !video_extension(text::ascii_lower(e))
            ==> media_type_of_link(name + "."@ + e) is None,
{
    reveal_strlit(".");
    let url = name + "."@ + e;
    let set = CharSet::Pair('?', '#');
    let dot = CharSet::Only('.');
    let none = Seq::<char>::empty();
    assert("."@ =~= seq!['.']);
    assert(text::free_of(url, set)) by {
        assert forall|i: int| 0 <= i < url.len() implies !set.has(#[trigger] url[i]) by {
            if i < name.len() {
                assert(url[i] == name[i]);
                assert(!set.has(name[i]));
            } else if i > name.len() {
                assert(url[i] == e[i - name.len() - 1]);
                assert(text::ascii_alphanumeric(e[i - name.len() - 1]));
            }
        }
    }
    assert(url + none =~= url);
    lemma_link_head(url, none);
    assert(text::ascii_alphanumeric(e[e.len() - 1]));
    assert(url.last() == e.last());
    assert(clean_link(url) == url);
    assert(text::free_of(e, dot)) by {
        assert forall|i: int| 0 <= i < e.len() implies !dot.has(#[trigger] e[i]) by {
            assert(text::ascii_alphanumeric(e[i]));
        }
    }
    text::lemma_tail_behind(name, '.', e, dot);
    let lower = text::ascii_lower(e);
    assert forall|i: int| 0 <= i < lower.len() implies (#[trigger] lower[i] as int) < 128 by {
        assert(text::ascii_alphanumeric(e[i]));
    }
    encoding::lemma_ascii_utf8(lower);
    assert(lower.len() != url.len());
    lemma_no_extension_of_both(lower);
}

/// No extension stands for sound and for films.
proof fn lemma_no_extension_of_both(e: Seq<char>)
    ensures
        !(audio_extension(e) && video_extension(e)),
{
    reveal_strlit("mp3");
    reveal_strlit("m4a");
    reveal_strlit("aac");
    reveal_strlit("flac");
    reveal_strlit("wav");
    reveal_strlit("ogg");
    reveal_strlit("oga");
    reveal_strlit("opus");
    reveal_strlit("wma");
    reveal_strlit("aiff");
    reveal_strlit("mp4");
    reveal_strlit("mkv");
    reveal_strlit("webm");
    reveal_strlit("mov");
    reveal_strlit("m4v");
    reveal_strlit("avi");
    reveal_strlit("ts");
    reveal_strlit("m2ts");
    reveal_strlit("mpg");
    reveal_strlit("mpeg");
    reveal_strlit("3gp");
    reveal_strlit("flv");
    reveal_strlit("m3u8");
    if audio_extension(e) {
        if e[0] == 'm' {
            assert(e[1] == 'p' || e[1] == '4');
            assert(e[2] == '3' || e[2] == 'a');
        } else {
            assert(e[0] == 'a' || e[0] == 'f' || e[0] == 'w' || e[0] == 'o');
            assert(e[0] == 'f' ==> e.len() == 4);
            assert(e[0] == 'w' ==> e.len() == 3);
            assert(e[0] == 'a' ==> e[1] == 'a' || e[1] == 'i');
        }
    }
    if video_extension(e) {
        if e[0] == 'm' {
            assert(e[1] == 'p' ==> e[2] == '4' || e[2] == 'g' || e[2] == 'e');
            assert(e[1] == '4' ==> e[2] == 'v');
        } else {
            assert(e[0] == 'w' || e[0] == 'a' || e[0] == 't' || e[0] == '3' || e[0] == 'f');
            assert(e[0] == 'f' ==> e.len() == 3);
            assert(e[0] == 'w' ==> e.len() == 4);
            assert(e[0] == 'a' ==> e[1] == 'v');
        }
    }
}

/// The extensions of sound, and those of films and of their playlists.
pub proof fn law_extensions_of_media()
    ensures
        audio_extension("mp3"@) && audio_extension("m4a"@) && audio_extension("aac"@)
            && audio_extension("flac"@) && audio_extension("wav"@) && audio_extension("ogg"@)
            && audio_extension("oga"@) && audio_extension("opus"@) && audio_extension("wma"@)
            && audio_extension("aiff"@),
        video_extension("mp4"@) && video_extension("mkv"@) && video_extension("webm"@)
            && video_extension("mov"@) && video_extension("m4v"@) && video_extension("avi"@)
            && video_extension("ts"@) && video_extension("m2ts"@) && video_extension("mpg"@)
            && video_extension("mpeg"@) && video_extension("3gp"@) && video_extension("flv"@)
            && video_extension("m3u8"@),
{
}

/// The host of a link stands between the scheme and the path, in small letters.
pub proof fn law_host_of_link(host: Seq<char>, rest: Seq<char>)
    requires
        host.len() > 0,
        text::free_of(host, CharSet::Three('/', '?', '#')),
        !CharSet::White.has(host[0]) && !CharSet::White.has(host.last()),
    ensures
        host_of("https://"@ + host + "/"@ + rest) == Some(text::ascii_lower(host)),
        host_of("http://"@ + host + "/"@ + rest) == Some(text::ascii_lower(host)),
        host_of("https://"@ + host) == Some(text::ascii_lower(host)),
{
    lemma_host_behind("https://"@, host, "/"@ + rest);
    lemma_host_behind("http://"@, host, "/"@ + rest);
    lemma_host_behind("https://"@, host, Seq::empty());
    assert("https://"@ + host + ("/"@ + rest) =~= "https://"@ + host + "/"@ + rest);
    assert("http://"@ + host + ("/"@ + rest) =~= "http://"@ + host + "/"@ + rest);
    assert("https://"@ + host + Seq::<char>::empty() =~= "https://"@ + host);
}

proof fn lemma_host_behind(scheme: Seq<char>, host: Seq<char>, rest: Seq<char>)
    requires
        scheme == "https://"@ || scheme == "http://"@,
        host.len() > 0,
        text::free_of(host, CharSet::Three('/', '?', '#')),
        !CharSet::White.has(host[0]) && !CharSet::White.has(host.last()),
        rest.len() == 0 || rest[0] == '/' || (exists|r: Seq<char>| rest == #[trigger] ("/"@ + r)),
    ensures
        host_of(scheme + host + rest) == Some(text::ascii_lower(host)),
{
    reveal_strlit("https://");
    reveal_strlit("http://");
    reveal_strlit("/");
    let set = CharSet::Three('/', '?', '#');
    let url = scheme + host + rest;
    let lower = text::ascii_lower(url);
    let low_host = text::ascii_lower(host);
    let low_rest = text::ascii_lower(rest);
    assert(text::ascii_lower(scheme) =~= scheme);
    assert(lower =~= scheme + (low_host + low_rest));
    text::law_begins_and_ends(scheme, low_host + low_rest);
    if scheme == "http://"@ {
        assert(!text::begins(lower, "https://"@)) by {
            if text::begins(lower, "https://"@) {
                assert(lower.subrange(0, 8)[4] == lower[4]);
                assert(lower[4] == scheme[4]);
            }
        }
    }
    let behind = low_host + low_rest;
    assert forall|i: int| 0 <= i < low_host.len() implies !set.has(#[trigger] behind[i]) by {
        assert(!set.has(host[i]));
        assert(behind[i] == text::lower_char(host[i]));
    }
    if rest.len() > 0 {
        assert(rest[0] == '/');
        assert(behind[low_host.len() as int] == '/');
    }
    text::lemma_until_is(behind, set, low_host.len() as int);
    assert(behind.take(low_host.len() as int) =~= low_host);
    assert(low_host[0] == text::lower_char(host[0]));
    assert(low_host.last() == text::lower_char(host.last()));
    assert(text::trimmed(low_host) == low_host);
}

/// A label keeps letters and digits, has underscores for dashes, and nothing else.
pub proof fn law_labels(a: Seq<char>, b: Seq<char>, c: char)
    requires
        text::ascii_alphanumeric(c),
    ensures
        label_of(seq![c]) == seq![c],
        label_of(a + seq!['-'] + b) == label_of(a + seq!['_'] + b),
        label_of(a + seq![' '] + b) == label_of(a + b),
        label_of(a + seq!['.'] + b) == label_of(a + b),
        label_of(Seq::empty()) == "Troozn"@,
{
    let f = |x: char| label_char(x);
    text::lemma_substituted_concat(a + seq!['-'], b, f);
    text::lemma_substituted_concat(a + seq!['_'], b, f);
    text::lemma_substituted_concat(a + seq![' '], b, f);
    text::lemma_substituted_concat(a + seq!['.'], b, f);
    text::lemma_substituted_concat(a, b, f);
    text::lemma_substituted_concat(a, seq!['-'], f);
    text::lemma_substituted_concat(a, seq!['_'], f);
    text::lemma_substituted_concat(a, seq![' '], f);
    text::lemma_substituted_concat(a, seq!['.'], f);
    lemma_label_alone('-');
    lemma_label_alone('_');
    lemma_label_alone(' ');
    lemma_label_alone('.');
    lemma_label_alone(c);
    assert(text::substituted(a, f) + Seq::<char>::empty() =~= text::substituted(a, f));
}

proof fn lemma_label_alone(c: char)
    ensures
        text::substituted(seq![c], |x: char| label_char(x)) == label_char(c),
{
    let f = |x: char| label_char(x);
    let one = seq![c];
    assert(one.drop_last() =~= Seq::<char>::empty());
    assert(text::substituted(one.drop_last(), f).len() == 0);
    assert(text::substituted(one, f) =~= label_char(c));
}

/// Letters and digits are their own label.
proof fn lemma_plain_label(s: Seq<char>)
    requires
        s.len() > 0,
        forall|i: int| 0 <= i < s.len() ==> text::ascii_alphanumeric(#[trigger] s[i]),
    ensures
        label_of(s) == s,
{
    lemma_plain_label_text(s);
}

proof fn lemma_plain_label_text(s: Seq<char>)
    requires
        forall|i: int| 0 <= i < s.len() ==> text::ascii_alphanumeric(#[trigger] s[i]),
    ensures
        text::substituted(s, |x: char| label_char(x)) == s,
    decreases s.len(),
{
    if s.len() > 0 {
        let front = s.drop_last();
        assert forall|i: int| 0 <= i < front.len() implies text::ascii_alphanumeric(
            #[trigger] front[i],
        ) by {
            assert(front[i] == s[i]);
        }
        lemma_plain_label_text(front);
        assert(text::ascii_alphanumeric(s[s.len() - 1]));
        assert(front + seq![s.last()] =~= s);
    } else {
        assert(s =~= Seq::<char>::empty());
    }
}

/// The playlist of a link to YouTube has that name, whatever its host looks like around it, and so
/// has that of any of the other services, where it is none of those before.
pub proof fn law_playlists_of_services(before: Seq<char>, after: Seq<char>, host: Seq<char>)
    ensures
        host_label(before + "youtube.com"@ + after) == "Youtube"@,
        host_label(before + "youtu.be"@ + after) == "Youtube"@,
        ({
            let youtube = text::has_part(host, "youtube.com"@) || text::has_part(host, "youtu.be"@);
            let soundcloud = text::has_part(host, "soundcloud.com"@);
            let vimeo = text::has_part(host, "vimeo.com"@);
            let dailymotion = text::has_part(host, "dailymotion.com"@) || text::has_part(
                host,
                "dai.ly"@,
            );
            let twitch = text::has_part(host, "twitch.tv"@);
            let spotify = text::has_part(host, "spotify.com"@);
            let deezer = text::has_part(host, "deezer.com"@);
            let mixcloud = text::has_part(host, "mixcloud.com"@);
            let bandcamp = text::has_part(host, "bandcamp.com"@);
            &&& soundcloud && !youtube ==> host_label(host) == "Soundcloud"@
            &&& vimeo && !youtube && !soundcloud ==> host_label(host) == "Vimeo"@
            &&& dailymotion && !youtube && !soundcloud && !vimeo ==> host_label(host)
                == "Dailymotion"@
            &&& twitch && !youtube && !soundcloud && !vimeo && !dailymotion ==> host_label(host)
                == "Twitch"@
            &&& spotify && !youtube && !soundcloud && !vimeo && !dailymotion && !twitch
                ==> host_label(host) == "Spotify"@
            &&& deezer && !youtube && !soundcloud && !vimeo && !dailymotion && !twitch && !spotify
                ==> host_label(host) == "Deezer"@
            &&& mixcloud && !youtube && !soundcloud && !vimeo && !dailymotion && !twitch
                && !spotify && !deezer ==> host_label(host) == "Mixcloud"@
            &&& bandcamp && !youtube && !soundcloud && !vimeo && !dailymotion && !twitch
                && !spotify && !deezer && !mixcloud ==> host_label(host) == "Bandcamp"@
        }),
{
    text::lemma_phrase_within(before, "youtube.com"@, after);
    text::lemma_phrase_within(before, "youtu.be"@, after);
}

/// The playlist of a link is named after its host: `Playlist_Youtube.m3u8` for one to YouTube.
pub proof fn law_playlist_is_named_after_host(url: Seq<char>, host: Seq<char>)
    requires
        host_of(url) == Some(host),
    ensures
        playlist_name(url) == "Playlist_"@ + label_of(host_label(host)) + ".m3u8"@,
        text::has_part(host, "youtube.com"@) ==> playlist_name(url) == "Playlist_Youtube.m3u8"@,
{
    reveal_strlit("Youtube");
    reveal_strlit("Playlist_");
    reveal_strlit(".m3u8");
    reveal_strlit("Playlist_Youtube.m3u8");
    let y = "Youtube"@;
    assert forall|i: int| 0 <= i < y.len() implies text::ascii_alphanumeric(#[trigger] y[i]) by {}
    lemma_plain_label(y);
    assert("Playlist_Youtube.m3u8"@ =~= "Playlist_"@ + y + ".m3u8"@);
}

/// A title starts with a capital and goes on in small letters.
pub proof fn law_title_case(s: Seq<char>, i: int)
    requires
        0 <= i < s.len(),
    ensures
        title_cased(s).len() == s.len(),
        i == 0 ==> title_cased(s)[i] == text::upper_char(s[i]),
        i > 0 ==> title_cased(s)[i] == text::lower_char(s[i]),
        title_cased(Seq::empty()) == "Troozn"@,
{
}

/// The title of a medium without one is the last name of the path of its link, with spaces for
/// dashes and underscores.
pub proof fn law_title_of_link(before: Seq<char>, name: Seq<char>)
    requires
        text::free_of(before, CharSet::Pair('?', '#')),
        name.len() > 0,
        text::free_of(name, CharSet::Three('/', '?', '#')),
        text::trimmed(text::replaced_set(name, CharSet::Pair('-', '_'), ' ')).len() > 0,
    ensures
        fallback_title(before + "/"@ + name) == text::replaced_set(
            name,
            CharSet::Pair('-', '_'),
            ' ',
        ),
{
    reveal_strlit("/");
    let url = before + "/"@ + name;
    let set = CharSet::Pair('?', '#');
    let slash = CharSet::Only('/');
    let three = CharSet::Three('/', '?', '#');
    let none = Seq::<char>::empty();
    assert("/"@ =~= seq!['/']);
    assert(text::free_of(url, set)) by {
        assert forall|i: int| 0 <= i < url.len() implies !set.has(#[trigger] url[i]) by {
            if i < before.len() {
                assert(!set.has(before[i]));
            } else if i > before.len() {
                assert(url[i] == name[i - before.len() - 1]);
                assert(!three.has(name[i - before.len() - 1]));
            }
        }
    }
    assert(url + none =~= url);
    lemma_link_head(url, none);
    assert(!three.has(name[name.len() - 1]));
    assert(url.last() == name.last());
    assert(clean_link(url) == url);
    assert(text::free_of(name, slash)) by {
        assert forall|i: int| 0 <= i < name.len() implies !slash.has(#[trigger] name[i]) by {
            assert(!three.has(name[i]));
        }
    }
    text::lemma_tail_behind(before, '/', name, slash);
}

/// The marks by which a link is taken for one to a playlist, and for one to YouTube.
pub proof fn law_marks_of_links(before: Seq<char>, after: Seq<char>)
    ensures
        playlist_marked(before + "list="@ + after),
        playlist_marked(before + "/playlist?"@ + after),
        playlist_marked(before + "youtube.com/playlist"@ + after),
        playlist_marked(before + "/sets/"@ + after),
        playlist_marked(before + "/album/"@ + after),
        playlist_marked(before + "/channel/"@ + after),
        playlist_marked(before + "/playlist/"@ + after),
        youtube_marked(before + "youtube.com/"@ + after),
        youtube_marked(before + "youtu.be/"@ + after),
        !playlist_marked(Seq::empty()),
        !youtube_marked(Seq::empty()),
{
    text::lemma_phrase_within(before, "list="@, after);
    text::lemma_phrase_within(before, "/playlist?"@, after);
    text::lemma_phrase_within(before, "youtube.com/playlist"@, after);
    text::lemma_phrase_within(before, "/sets/"@, after);
    text::lemma_phrase_within(before, "/album/"@, after);
    text::lemma_phrase_within(before, "/channel/"@, after);
    text::lemma_phrase_within(before, "/playlist/"@, after);
    text::lemma_phrase_within(before, "youtube.com/"@, after);
    text::lemma_phrase_within(before, "youtu.be/"@, after);
    reveal_strlit("list=");
    reveal_strlit("/playlist?");
    reveal_strlit("youtube.com/playlist");
    reveal_strlit("/sets/");
    reveal_strlit("/album/");
    reveal_strlit("/channel/");
    reveal_strlit("/playlist/");
    reveal_strlit("youtube.com/");
    reveal_strlit("youtu.be/");
}

/// A parameter of a link is the first with its name; others before it do not matter.
pub proof fn law_parameter_is_found(
    before: Seq<char>,
    other: Seq<char>,
    passed: Seq<char>,
    key: Seq<char>,
    value: Seq<char>,
)
    requires
        text::free_of(before, CharSet::Only('?')),
        text::free_of(other, CharSet::Pair('=', '&')),
        text::free_of(passed, CharSet::Only('&')),
        text::free_of(key, CharSet::Pair('=', '&')),
        text::free_of(value, CharSet::Only('&')),
    ensures
        param(before + seq!['?'] + (key + seq!['='] + value), key) == Some(
            encoding::query_decoded(encode_utf8(value)),
        ),
        other != key ==> param(
            before + seq!['?'] + (other + seq!['='] + passed + seq!['&'] + (key + seq!['=']
                + value)),
            key,
        ) == Some(encoding::query_decoded(encode_utf8(value))),
        other != key ==> param(before + seq!['?'] + (other + seq!['='] + passed), key) is None,
{
    let amp = CharSet::Only('&');
    let pair = CharSet::Pair('=', '&');
    let eq = CharSet::Only('=');
    let a = other + seq!['='] + passed;
    let b = key + seq!['='] + value;
    let none = Seq::<Seq<char>>::empty();
    lemma_query_of(before, b);
    lemma_query_of(before, a);
    lemma_query_of(before, a + seq!['&'] + b);
    lemma_part_free(other, passed);
    lemma_part_free(key, value);
    text::lemma_parts_free(a, amp);
    text::lemma_parts_free(b, amp);
    text::lemma_parts_concat(a, '&', b, amp);
    assert(text::free_of(other, eq)) by {
        assert forall|i: int| 0 <= i < other.len() implies !eq.has(#[trigger] other[i]) by {
            assert(!pair.has(other[i]));
        }
    }
    assert(text::free_of(key, eq)) by {
        assert forall|i: int| 0 <= i < key.len() implies !eq.has(#[trigger] key[i]) by {
            assert(!pair.has(key[i]));
        }
    }
    lemma_first_param(key, value, none, key);
    lemma_first_param(other, passed, seq![b], key);
    lemma_first_param(other, passed, none, key);
    assert(seq![b] + none =~= seq![b]);
    assert(seq![a] + none =~= seq![a]);
}

/// The title of a playlist is its name without the extension, with spaces for underscores.
pub proof fn law_title_of_playlist(label: Seq<char>)
    requires
        !text::ends(label, ".m3u8"@),
    ensures
        playlist_title("Playlist_"@ + label + ".m3u8"@) == "Playlist "@ + text::replaced_set(
            label,
            CharSet::Only('_'),
            ' ',
        ),
{
    reveal_strlit(".m3u8");
    let name = "Playlist_"@ + label + ".m3u8"@;
    assert(name =~= "Playlist_"@ + (label + ".m3u8"@));
    text::law_begins_and_ends("Playlist_"@, label + ".m3u8"@);
    text::law_begins_and_ends(label, ".m3u8"@);
    let bare = label + ".m3u8"@;
    assert(bare.take(bare.len() - 5) =~= label);
    assert(text::without_suffixes(label, ".m3u8"@) == label);
    assert(text::without_suffixes(bare, ".m3u8"@) == text::without_suffixes(
        bare.take(bare.len() - 5),
        ".m3u8"@,
    ));
}

/// Whether a host is that of a service with a name of its own.
pub open spec fn known_service(host: Seq<char>) -> bool {
    ||| text::has_part(host, "youtube.com"@)
    ||| text::has_part(host, "youtu.be"@)
    ||| text::has_part(host, "soundcloud.com"@)
    ||| text::has_part(host, "vimeo.com"@)
    ||| text::has_part(host, "dailymotion.com"@)
    ||| text::has_part(host, "dai.ly"@)
    ||| text::has_part(host, "twitch.tv"@)
    ||| text::has_part(host, "spotify.com"@)
    ||| text::has_part(host, "deezer.com"@)
    ||| text::has_part(host, "mixcloud.com"@)
    ||| text::has_part(host, "bandcamp.com"@)
}

/// The playlist of any other host is named after what stands before the first dot of the host,
/// behind a `www.`, with a capital.
pub proof fn law_playlists_of_other_hosts(name: Seq<char>, rest: Seq<char>)
    requires
        text::free_of(name, CharSet::Only('.')),
        !text::begins(name + "."@ + rest, "www."@),
    ensures
        !known_service(name + "."@ + rest) ==> host_label(name + "."@ + rest) == title_cased(name),
        !known_service("www."@ + (name + "."@ + rest)) ==> host_label(
            "www."@ + (name + "."@ + rest),
        ) == title_cased(name),
{
    reveal_strlit("www.");
    reveal_strlit(".");
    let dot = CharSet::Only('.');
    let host = name + "."@ + rest;
    let whole = "www."@ + host;
    text::law_begins_and_ends("www."@, host);
    assert(whole.skip(4) =~= host);
    assert(text::without_prefixes(host, "www."@) == host);
    assert(text::without_prefixes(whole, "www."@) == text::without_prefixes(
        whole.skip(4),
        "www."@,
    ));
    assert forall|i: int| 0 <= i < name.len() implies !dot.has(#[trigger] host[i]) by {
        assert(host[i] == name[i]);
        assert(!dot.has(name[i]));
    }
    text::lemma_until_is(host, dot, name.len() as int);
    assert(host.take(name.len() as int) =~= name);
}

/// A link names a mix where the name of its list starts with `RD`.
pub proof fn law_mixes(url: Seq<char>, rest: Seq<char>)
    ensures
        param(url, "list"@) == Some("RD"@ + rest) ==> mix_list(url),
        param(url, "list"@) is None ==> !mix_list(url),
        rest.len() > 0 && rest[0] != 'R' && param(url, "list"@) == Some(rest) ==> !mix_list(url),
{
    reveal_strlit("RD");
    text::law_begins_and_ends("RD"@, rest);
    if text::begins(rest, "RD"@) {
        assert(rest.subrange(0, 2)[0] == rest[0]);
    }
}

} // verus!
