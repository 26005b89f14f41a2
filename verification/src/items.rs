//! The items of a live queue, and how they are read from what yt-dlp reports.
use vstd::prelude::*;

use crate::ids;
use crate::json::{Json, JsonView};
use crate::json;
use crate::links;
use crate::text;

verus! {

/// An item of a live queue.
#[derive(Debug)]
pub struct TrooznLiveItem {
    /// The identifier that is derived from the link.
    pub item_id: String,
    /// The position in the queue, from 1.
    pub index: usize,
    /// The title.
    pub title: String,
    /// The link that is played.
    pub source_url: String,
    /// The link to the page of the medium.
    pub webpage_url: Option<String>,
    /// The duration in seconds.
    pub duration: Option<u64>,
    /// The link to a picture.
    pub thumbnail: Option<String>,
    /// The channel, or who uploaded the medium.
    pub channel: Option<String>,
    /// The description.
    pub description: Option<String>,
    /// The day of the upload.
    pub upload_date: Option<String>,
    /// Who uploaded the medium.
    pub uploader: Option<String>,
}

/// The model of an item of a live queue.
#[verifier::ext_equal]
pub struct ItemView {
    pub item_id: Seq<char>,
    pub index: usize,
    pub title: Seq<char>,
    pub source_url: Seq<char>,
    pub webpage_url: Option<Seq<char>>,
    pub duration: Option<u64>,
    pub thumbnail: Option<Seq<char>>,
    pub channel: Option<Seq<char>>,
    pub description: Option<Seq<char>>,
    pub upload_date: Option<Seq<char>>,
    pub uploader: Option<Seq<char>>,
}

impl View for TrooznLiveItem {
    type V = ItemView;

    open spec fn view(&self) -> ItemView {
        ItemView {
            item_id: self.item_id@,
            index: self.index,
            title: self.title@,
            source_url: self.source_url@,
            webpage_url: text::text_in(self.webpage_url),
            duration: self.duration,
            thumbnail: text::text_in(self.thumbnail),
            channel: text::text_in(self.channel),
            description: text::text_in(self.description),
            upload_date: text::text_in(self.upload_date),
            uploader: text::text_in(self.uploader),
        }
    }
}

impl Clone for TrooznLiveItem {
    fn clone(&self) -> (r: Self)
        ensures
            r == *self,
    {
        TrooznLiveItem {
            item_id: self.item_id.clone(),
            index: self.index,
            title: self.title.clone(),
            source_url: self.source_url.clone(),
            webpage_url: self.webpage_url.clone(),
            duration: self.duration,
            thumbnail: self.thumbnail.clone(),
            channel: self.channel.clone(),
            description: self.description.clone(),
            upload_date: self.upload_date.clone(),
            uploader: self.uploader.clone(),
        }
    }
}

/// The models of a list of items.
pub open spec fn item_views(items: Seq<TrooznLiveItem>) -> Seq<ItemView> {
    items.map_values(|i: TrooznLiveItem| i@)
}

/// The model of an optional item.
pub open spec fn item_in(o: Option<TrooznLiveItem>) -> Option<ItemView> {
    match o {
        Some(i) => Some(i@),
        None => None,
    }
}

/// A copy of the items.
pub fn clone_items(items: &Vec<TrooznLiveItem>) -> (r: Vec<TrooznLiveItem>)
    ensures
        r@ == items@,
{
    let mut r: Vec<TrooznLiveItem> = Vec::new();
    let mut i: usize = 0;
    while i < items.len()
        invariant
            i <= items@.len(),
            r@ == items@.take(i as int),
        decreases items@.len() - i,
    {
        r.push(items[i].clone());
        i += 1;
    }
    proof {
        assert(items@.take(i as int) =~= items@);
    }
    r
}

/// The text, or `default` where there is none.
pub open spec fn text_or(o: Option<Seq<char>>, default: Seq<char>) -> Seq<char> {
    match o {
        Some(s) => s,
        None => default,
    }
}

/// The first of the two that is there.
pub open spec fn first_of<A>(a: Option<A>, b: Option<A>) -> Option<A> {
    match a {
        Some(_) => a,
        None => b,
    }
}

/// The channel that a report names, or who uploaded the medium.
pub open spec fn channel_of(v: JsonView) -> Option<Seq<char>> {
    first_of(v.text_at("channel"@), v.text_at("uploader"@))
}

/// The channel that a report names, or who uploaded the medium.
pub fn read_channel(v: &Json) -> (r: Option<String>)
    ensures
        text::text_in(r) == channel_of(v@),
{
    match v.text_at("channel") {
        Some(c) => Some(c),
        None => v.text_at("uploader"),
    }
}

// ---------------------------------------------------------------------------
// The first page of a playlist
// ---------------------------------------------------------------------------

/// The title that a report gives.
pub open spec fn title_of(v: JsonView) -> Seq<char> {
    text_or(v.text_at("title"@), "Vidéo TROOZN"@)
}

/// A title, in lower case, says that there is no video.
pub open spec fn says_unavailable(lower: Seq<char>) -> bool {
    ||| text::has_part(lower, "private video"@)
    ||| text::has_part(lower, "deleted video"@)
    ||| text::has_part(lower, "video unavailable"@)
    ||| text::has_part(lower, "vidéo privée"@)
    ||| text::has_part(lower, "vidéo supprimée"@)
}

/// A report says that the video is not open to all who have the link.
pub open spec fn restricted(v: JsonView) -> bool {
    match v.text_at("availability"@) {
        Some(s) => s != "public"@ && s != "unlisted"@,
        None => false,
    }
}

/// The link to the video of a report: its page, its link, or the link that its identifier gives.
pub open spec fn source_of(v: JsonView) -> Option<Seq<char>> {
    let id = text_or(v.text_at("id"@), title_of(v));
    let flat = text::trimmed(text_or(v.text_at("url"@), Seq::empty()));
    match v.text_at("webpage_url"@) {
        Some(url) => Some(url),
        None => if links::web_link(flat) {
            Some(flat)
        } else if links::web_link(id) {
            Some(id)
        } else if links::youtube_id(id) {
            Some(links::watch_url(id))
        } else {
            None
        },
    }
}

/// The item of a report, where it has a link.
pub open spec fn reported_item(index: usize, v: JsonView) -> Option<ItemView> {
    match source_of(v) {
        None => None,
        Some(source) => Some(
            ItemView {
                item_id: ids::item_id(source),
                index,
                title: title_of(v),
                source_url: source,
                webpage_url: v.text_at("webpage_url"@),
                duration: v.unsigned_at("duration"@),
                thumbnail: v.text_at("thumbnail"@),
                channel: channel_of(v),
                description: v.text_at("description"@),
                upload_date: v.text_at("upload_date"@),
                uploader: v.text_at("uploader"@),
            },
        ),
    }
}

/// The item of a report, given its title in lower case: none where the title or the report says
/// that the video cannot be seen, or where there is no link.
pub open spec fn listed_item(index: usize, v: JsonView, title_lower: Seq<char>) -> Option<
    ItemView,
> {
    if says_unavailable(title_lower) || restricted(v) {
        None
    } else {
        reported_item(index, v)
    }
}

/// The item that a report of yt-dlp describes.
pub open spec fn item_of(index: usize, v: JsonView) -> Option<ItemView> {
    listed_item(index, v, text::unicode_lowercase(title_of(v)))
}

/// Whether a title, in lower case, says that there is no video.
pub fn title_says_unavailable(lower: &str) -> (r: bool)
    ensures
        r == says_unavailable(lower@),
{
    text::contains(lower, "private video") || text::contains(lower, "deleted video")
        || text::contains(lower, "video unavailable") || text::contains(lower, "vidéo privée")
        || text::contains(lower, "vidéo supprimée")
}

/// The title that a report gives.
pub fn read_title(v: &Json) -> (r: String)
    ensures
        r@ == title_of(v@),
{
    match v.text_at("title") {
        Some(t) => t,
        None => "Vidéo TROOZN".to_string(),
    }
}

/// The item of a report, given its title in lower case.
pub fn item_from_report(index: usize, v: &Json, title_lower: &str) -> (r: Option<TrooznLiveItem>)
    ensures
        item_in(r) == listed_item(index, v@, title_lower@),
{
    if title_says_unavailable(title_lower) {
        return None;
    }
    if let Some(s) = v.text_at("availability") {
        if !text::same(&s, "public") && !text::same(&s, "unlisted") {
            return None;
        }
    }
    let title = read_title(v);
    let id = match v.text_at("id") {
        Some(id) => id,
        None => title.clone(),
    };
    let flat = match v.text_at("url") {
        Some(url) => text::trim(&url),
        None => text::trim(""),
    };
    proof {
        reveal_strlit("");
        assert(""@ =~= Seq::<char>::empty());
    }
    let webpage_url = v.text_at("webpage_url");
    let source_url = match &webpage_url {
        Some(url) => url.clone(),
        None => if links::is_web_link(&flat) {
            flat
        } else if links::is_web_link(&id) {
            id
        } else if links::looks_like_youtube_id(&id) {
            links::youtube_watch_url(&id)
        } else {
            return None;
        },
    };
    let item = TrooznLiveItem {
        item_id: ids::item_id_for_url(&source_url),
        index,
        title,
        source_url,
        webpage_url,
        duration: v.unsigned_at("duration"),
        thumbnail: v.text_at("thumbnail"),
        channel: read_channel(v),
        description: v.text_at("description"),
        upload_date: v.text_at("upload_date"),
        uploader: v.text_at("uploader"),
    };
    proof {
        assert(item@ =~= reported_item(index, v@)->0);
    }
    Some(item)
}

/// The item that a report of yt-dlp describes, or none where the report says that the video
/// cannot be seen or where it holds no link.
pub fn item_from_ytdlp_value(index: usize, v: &Json) -> (r: Option<TrooznLiveItem>)
    ensures
        item_in(r) == item_of(index, v@),
{
    let title_lower = text::lowercase(&read_title(v));
    item_from_report(index, v, &title_lower)
}

/// The items of the first reports of a list, each with its place in the list, from 1.
pub open spec fn items_of_list(entries: Seq<JsonView>) -> Seq<ItemView>
    decreases entries.len(),
{
    if entries.len() == 0 {
        Seq::empty()
    } else {
        let front = items_of_list(entries.drop_last());
        match item_of(entries.len() as usize, entries.last()) {
            Some(item) => front.push(item),
            None => front,
        }
    }
}

/// The items of a report on a playlist, at most the first `scan_limit` entries of it, or of a
/// report on one video.
pub open spec fn items_of_report(root: JsonView, scan_limit: nat) -> Seq<ItemView> {
    match root.list_at("entries"@) {
        Some(entries) => items_of_list(
            entries.take(
                if entries.len() < scan_limit {
                    entries.len() as int
                } else {
                    scan_limit as int
                },
            ),
        ),
        None => match item_of(1, root) {
            Some(item) => seq![item],
            None => Seq::empty(),
        },
    }
}

/// The items of a report on a playlist, at most the first `scan_limit` entries of it, or of a
/// report on one video.
pub fn items_from_report(root: &Json, scan_limit: usize) -> (r: Vec<TrooznLiveItem>)
    ensures
        item_views(r@) == items_of_report(root@, scan_limit as nat),
{
    let mut out: Vec<TrooznLiveItem> = Vec::new();
    proof {
        assert(item_views(out@) =~= Seq::<ItemView>::empty());
    }
    match root.list_at("entries") {
        Some(entries) => {
            let ghost v = json::views(entries@);
            let n: usize = if entries.len() < scan_limit {
                entries.len()
            } else {
                scan_limit
            };
            let mut i: usize = 0;
            while i < n
                invariant
                    v == json::views(entries@),
                    i <= n <= entries@.len(),
                    item_views(out@) == items_of_list(v.take(i as int)),
                decreases n - i,
            {
                let ghost before = item_views(out@);
                proof {
                    assert(v.take(i + 1).drop_last() =~= v.take(i as int));
                    assert(v.take(i + 1).last() == entries@[i as int]@);
                }
                if let Some(item) = item_from_ytdlp_value(i + 1, &entries[i]) {
                    let ghost iv = item@;
                    out.push(item);
                    proof {
                        assert(item_views(out@) =~= before.push(iv));
                    }
                }
                i += 1;
            }
        },
        None => {
            if let Some(item) = item_from_ytdlp_value(1, root) {
                let ghost iv = item@;
                out.push(item);
                proof {
                    assert(item_views(out@) =~= seq![iv]);
                }
            }
        },
    }
    out
}

// ---------------------------------------------------------------------------
// Further pages of a playlist
// ---------------------------------------------------------------------------

/// The link of an entry of a further page.
pub open spec fn entry_source(v: JsonView) -> Option<Seq<char>> {
    let id = text::trimmed(text_or(v.text_at("id"@), Seq::empty()));
    let url = text::trimmed(text_or(v.text_at("url"@), Seq::empty()));
    match v.text_at("webpage_url"@) {
        Some(page) => Some(page),
        None => if links::web_link(url) {
            Some(url)
        } else if id.len() > 0 && !links::web_link(id) {
            if links::youtube_id(id) {
                Some(links::watch_url(id))
            } else {
                None
            }
        } else if url.len() > 0 && links::youtube_id(url) {
            Some(links::watch_url(url))
        } else {
            None
        },
    }
}

/// The item of an entry of a further page; its place in the queue is not yet known.
pub open spec fn entry_item(v: JsonView) -> Option<ItemView> {
    match entry_source(v) {
        None => None,
        Some(source) => Some(
            ItemView {
                item_id: ids::item_id(source),
                index: 0,
                title: text_or(v.text_at("title"@), "YouTube"@),
                source_url: source,
                webpage_url: v.text_at("webpage_url"@),
                duration: v.whole_at("duration"@),
                thumbnail: v.text_at("thumbnail"@),
                channel: channel_of(v),
                description: None,
                upload_date: None,
                uploader: None,
            },
        ),
    }
}

/// The text of a member without white space around it, or the empty text.
fn trimmed_text_at(v: &Json, key: &str) -> (r: String)
    ensures
        r@ == text::trimmed(text_or(v@.text_at(key@), Seq::empty())),
{
    match v.text_at(key) {
        Some(s) => text::trim(&s),
        None => {
            proof {
                reveal_strlit("");
                assert(""@ =~= Seq::<char>::empty());
            }
            text::trim("")
        },
    }
}

/// The item of an entry of a further page of a playlist.
pub fn troozn_live_item_from_ytdlp_entry(entry: &Json) -> (r: Option<TrooznLiveItem>)
    ensures
        item_in(r) == entry_item(entry@),
{
    let id = trimmed_text_at(entry, "id");
    let url = trimmed_text_at(entry, "url");
    let webpage_url = entry.text_at("webpage_url");
    let source_url = match &webpage_url {
        Some(page) => page.clone(),
        None => if links::is_web_link(&url) {
            url
        } else if !id.as_str().is_empty() && !links::is_web_link(&id) {
            if links::looks_like_youtube_id(&id) {
                links::youtube_watch_url(&id)
            } else {
                return None;
            }
        } else if !url.as_str().is_empty() && links::looks_like_youtube_id(&url) {
            links::youtube_watch_url(&url)
        } else {
            return None;
        },
    };
    let title = match entry.text_at("title") {
        Some(t) => t,
        None => "YouTube".to_string(),
    };
    let item = TrooznLiveItem {
        item_id: ids::stable_item_id(&source_url),
        index: 0,
        title,
        source_url,
        webpage_url,
        duration: entry.whole_at("duration"),
        thumbnail: entry.text_at("thumbnail"),
        channel: read_channel(entry),
        description: None,
        upload_date: None,
        uploader: None,
    };
    proof {
        assert(item@ =~= entry_item(entry@)->0);
    }
    Some(item)
}

/// The items of the entries of a further page; entries that are `null` or have no link are left
/// out.
pub open spec fn items_of_entries(entries: Seq<JsonView>) -> Seq<ItemView>
    decreases entries.len(),
{
    if entries.len() == 0 {
        Seq::empty()
    } else {
        let front = items_of_entries(entries.drop_last());
        match entry_item(entries.last()) {
            Some(item) if !(entries.last() is Null) => front.push(item),
            _ => front,
        }
    }
}

/// The items of a report on a further page of a playlist.
pub open spec fn items_of_page(root: JsonView) -> Seq<ItemView> {
    match root.list_at("entries"@) {
        Some(entries) => items_of_entries(entries),
        None => Seq::empty(),
    }
}

/// The items of a report on a further page of a playlist.
pub fn items_from_page(root: &Json) -> (r: Vec<TrooznLiveItem>)
    ensures
        item_views(r@) == items_of_page(root@),
{
    let mut items: Vec<TrooznLiveItem> = Vec::new();
    proof {
        assert(item_views(items@) =~= Seq::<ItemView>::empty());
    }
    if let Some(entries) = root.list_at("entries") {
        let ghost v = json::views(entries@);
        let mut i: usize = 0;
        while i < entries.len()
            invariant
                v == json::views(entries@),
                i <= entries@.len(),
                item_views(items@) == items_of_entries(v.take(i as int)),
            decreases entries@.len() - i,
        {
            let ghost before = item_views(items@);
            proof {
                assert(v.take(i + 1).drop_last() =~= v.take(i as int));
                assert(v.take(i + 1).last() == entries@[i as int]@);
            }
            if !entries[i].is_null() {
                if let Some(item) = troozn_live_item_from_ytdlp_entry(&entries[i]) {
                    let ghost iv = item@;
                    items.push(item);
                    proof {
                        assert(item_views(items@) =~= before.push(iv));
                    }
                }
            }
            i += 1;
        }
        proof {
            assert(v.take(i as int) =~= v);
        }
    }
    items
}

// ---------------------------------------------------------------------------
// An item from its link alone
// ---------------------------------------------------------------------------

/// The link that is played for a link of which nothing else is known.
pub open spec fn fallback_source(url: Seq<char>) -> Option<Seq<char>> {
    match links::video_id(url) {
        Some(id) => Some(links::watch_url(id)),
        None => if links::web_link(url) {
            Some(url)
        } else {
            None
        },
    }
}

/// The only item of a link of which nothing else is known.
pub open spec fn fallback_item(url: Seq<char>) -> Option<ItemView> {
    match fallback_source(url) {
        None => None,
        Some(source) => Some(
            ItemView {
                item_id: ids::item_id(source),
                index: 1,
                title: links::fallback_title(source),
                source_url: source,
                webpage_url: Some(source),
                duration: None,
                thumbnail: None,
                channel: None,
                description: None,
                upload_date: None,
                uploader: None,
            },
        ),
    }
}

/// The only item of a link of which nothing else is known: the video that it names, or the link
/// itself where it is one over HTTP.
pub fn fallback_single_item_from_url(source_url: &str) -> (r: Option<TrooznLiveItem>)
    ensures
        item_in(r) == fallback_item(source_url@),
{
    let watch_url = match links::extract_youtube_video_id(source_url) {
        Some(id) => links::youtube_watch_url(&id),
        None => if links::is_web_link(source_url) {
            source_url.to_string()
        } else {
            return None;
        },
    };
    let item = TrooznLiveItem {
        item_id: ids::item_id_for_url(&watch_url),
        index: 1,
        title: links::fallback_title_for_url(&watch_url),
        source_url: watch_url.clone(),
        webpage_url: Some(watch_url),
        duration: None,
        thumbnail: None,
        channel: None,
        description: None,
        upload_date: None,
        uploader: None,
    };
    proof {
        assert(item@ =~= fallback_item(source_url@)->0);
    }
    Some(item)
}

// ---------------------------------------------------------------------------
// Full metadata
// ---------------------------------------------------------------------------

/// What a full report on a video says of it.
#[derive(Debug)]
pub struct FullVideoMetadata {
    /// The title.
    pub title: Option<String>,
    /// The link to the page of the video.
    pub webpage_url: Option<String>,
    /// The duration in seconds.
    pub duration: Option<u64>,
    /// The link to a picture.
    pub thumbnail: Option<String>,
    /// The channel, or who uploaded the video.
    pub channel: Option<String>,
    /// The description.
    pub description: Option<String>,
    /// The day of the upload.
    pub upload_date: Option<String>,
    /// Who uploaded the video.
    pub uploader: Option<String>,
}

/// The model of what a full report on a video says of it.
#[verifier::ext_equal]
pub struct MetadataView {
    pub title: Option<Seq<char>>,
    pub webpage_url: Option<Seq<char>>,
    pub duration: Option<u64>,
    pub thumbnail: Option<Seq<char>>,
    pub channel: Option<Seq<char>>,
    pub description: Option<Seq<char>>,
    pub upload_date: Option<Seq<char>>,
    pub uploader: Option<Seq<char>>,
}

impl View for FullVideoMetadata {
    type V = MetadataView;

    open spec fn view(&self) -> MetadataView {
        MetadataView {
            title: text::text_in(self.title),
            webpage_url: text::text_in(self.webpage_url),
            duration: self.duration,
            thumbnail: text::text_in(self.thumbnail),
            channel: text::text_in(self.channel),
            description: text::text_in(self.description),
            upload_date: text::text_in(self.upload_date),
            uploader: text::text_in(self.uploader),
        }
    }
}

/// The number of pixels of a picture, as far as it is known, within 64 bits.
pub open spec fn pixels(v: JsonView) -> nat {
    let w = match v.unsigned_at("width"@) {
        Some(n) => n,
        None => 0,
    };
    let h = match v.unsigned_at("height"@) {
        Some(n) => n,
        None => 0,
    };
    if w * h > u64::MAX {
        u64::MAX as nat
    } else {
        (w * h) as nat
    }
}

/// The last of the pictures with a link that none of them has more pixels than.
pub open spec fn largest_picture(pictures: Seq<JsonView>) -> Option<(nat, Seq<char>)>
    decreases pictures.len(),
{
    if pictures.len() == 0 {
        None
    } else {
        let front = largest_picture(pictures.drop_last());
        match pictures.last().text_at("url"@) {
            None => front,
            Some(url) => match front {
                Some((n, _)) if n > pixels(pictures.last()) => front,
                _ => Some((pixels(pictures.last()), url)),
            },
        }
    }
}

/// The picture of a full report: the one that it names, or the largest of its list.
pub open spec fn best_thumbnail(root: JsonView) -> Option<Seq<char>> {
    match root.text_at("thumbnail"@) {
        Some(url) if text::trimmed(url).len() > 0 => Some(url),
        _ => match root.list_at("thumbnails"@) {
            None => None,
            Some(pictures) => match largest_picture(pictures) {
                Some((_, url)) => Some(url),
                None => None,
            },
        },
    }
}

/// The number of pixels of a picture, as far as it is known, within 64 bits.
fn count_pixels(v: &Json) -> (r: u64)
    ensures
        r == pixels(v@),
{
    let w: u64 = match v.unsigned_at("width") {
        Some(n) => n,
        None => 0,
    };
    let h: u64 = match v.unsigned_at("height") {
        Some(n) => n,
        None => 0,
    };
    match w.checked_mul(h) {
        Some(n) => n,
        None => u64::MAX,
    }
}

/// The picture of a full report: the one that it names, or the largest of its list, and the last
/// of the largest.
pub fn best_thumbnail_from_value(root: &Json) -> (r: Option<String>)
    ensures
        text::text_in(r) == best_thumbnail(root@),
{
    if let Some(url) = root.text_at("thumbnail") {
        if !text::trim(&url).as_str().is_empty() {
            return Some(url);
        }
    }
    let pictures = match root.list_at("thumbnails") {
        Some(pictures) => pictures,
        None => {
            return None;
        },
    };
    let ghost v = json::views(pictures@);
    let mut best: Option<(u64, String)> = None;
    let mut i: usize = 0;
    while i < pictures.len()
        invariant
            v == json::views(pictures@),
            i <= pictures@.len(),
            match best {
                Some((n, url)) => largest_picture(v.take(i as int)) == Some((n as nat, url@)),
                None => largest_picture(v.take(i as int)) is None,
            },
        decreases pictures@.len() - i,
    {
        proof {
            assert(v.take(i + 1).drop_last() =~= v.take(i as int));
            assert(v.take(i + 1).last() == pictures@[i as int]@);
        }
        if let Some(url) = pictures[i].text_at("url") {
            let n = count_pixels(&pictures[i]);
            let keep = match &best {
                Some((m, _)) => *m > n,
                None => false,
            };
            if !keep {
                best = Some((n, url));
            }
        }
        i += 1;
    }
    proof {
        assert(v.take(i as int) =~= v);
    }
    match best {
        Some((_, url)) => Some(url),
        None => None,
    }
}

/// What a full report says of a video.
pub open spec fn metadata_of(root: JsonView) -> MetadataView {
    MetadataView {
        title: root.text_at("title"@),
        webpage_url: root.text_at("webpage_url"@),
        duration: root.unsigned_at("duration"@),
        thumbnail: best_thumbnail(root),
        channel: channel_of(root),
        description: root.text_at("description"@),
        upload_date: root.text_at("upload_date"@),
        uploader: root.text_at("uploader"@),
    }
}

/// What a full report says of a video.
pub fn metadata_from_report(root: &Json) -> (r: FullVideoMetadata)
    ensures
        r@ == metadata_of(root@),
{
    FullVideoMetadata {
        title: root.text_at("title"),
        webpage_url: root.text_at("webpage_url"),
        duration: root.unsigned_at("duration"),
        thumbnail: best_thumbnail_from_value(root),
        channel: read_channel(root),
        description: root.text_at("description"),
        upload_date: root.text_at("upload_date"),
        uploader: root.text_at("uploader"),
    }
}

/// The item with what a full report adds to it; what the report does not say stays.
pub open spec fn enriched(item: ItemView, meta: MetadataView) -> ItemView {
    ItemView {
        item_id: item.item_id,
        index: item.index,
        title: text_or(meta.title, item.title),
        source_url: item.source_url,
        webpage_url: first_of(meta.webpage_url, item.webpage_url),
        duration: first_of(meta.duration, item.duration),
        thumbnail: first_of(meta.thumbnail, item.thumbnail),
        channel: first_of(meta.channel, item.channel),
        description: first_of(meta.description, item.description),
        upload_date: first_of(meta.upload_date, item.upload_date),
        uploader: first_of(meta.uploader, item.uploader),
    }
}

/// The first text that is there.
fn either(a: Option<String>, b: &Option<String>) -> (r: Option<String>)
    ensures
        text::text_in(r) == first_of(text::text_in(a), text::text_in(*b)),
{
    match a {
        Some(s) => Some(s),
        None => b.clone(),
    }
}

/// The item with what a full report adds to it; what the report does not say stays.
pub fn enrich_item(item: &TrooznLiveItem, meta: FullVideoMetadata) -> (r: TrooznLiveItem)
    ensures
        r@ == enriched(item@, meta@),
{
    let title = match meta.title {
        Some(t) => t,
        None => item.title.clone(),
    };
    TrooznLiveItem {
        item_id: item.item_id.clone(),
        index: item.index,
        title,
        source_url: item.source_url.clone(),
        webpage_url: either(meta.webpage_url, &item.webpage_url),
        duration: match meta.duration {
            Some(d) => Some(d),
            None => item.duration,
        },
        thumbnail: either(meta.thumbnail, &item.thumbnail),
        channel: either(meta.channel, &item.channel),
        description: either(meta.description, &item.description),
        upload_date: either(meta.upload_date, &item.upload_date),
        uploader: either(meta.uploader, &item.uploader),
    }
}

// ---------------------------------------------------------------------------
// Laws
// ---------------------------------------------------------------------------

/// Every item carries the identifier of its own link, wherever it was read.
pub proof fn law_item_id_is_of_source(index: usize, v: JsonView, url: Seq<char>)
    ensures
        item_of(index, v) matches Some(item) ==> item.item_id == ids::item_id(item.source_url),
        entry_item(v) matches Some(item) ==> item.item_id == ids::item_id(item.source_url),
        fallback_item(url) matches Some(item) ==> item.item_id == ids::item_id(item.source_url),
{
}

/// Enriching keeps an item's identity: its identifier, its place and its link.
pub proof fn law_enriched_keeps_identity(item: ItemView, meta: MetadataView)
    ensures
        enriched(item, meta).item_id == item.item_id,
        enriched(item, meta).index == item.index,
        enriched(item, meta).source_url == item.source_url,
{
}

/// A video is queued exactly where its title does not say that there is none, where there is a
/// link to it, and where its report says that it is public or unlisted, or nothing of it. One that
/// is private, or that only some may see, is not.
pub proof fn law_visible_videos_are_queued(index: usize, v: JsonView, title_lower: Seq<char>)
    ensures
        v.text_at("availability"@) is None && !says_unavailable(title_lower) && source_of(v) is Some
            ==> listed_item(index, v, title_lower) is Some,
        v.text_at("availability"@) == Some("public"@) && !says_unavailable(title_lower)
            && source_of(v) is Some ==> listed_item(index, v, title_lower) is Some,
        v.text_at("availability"@) == Some("unlisted"@) && !says_unavailable(title_lower)
            && source_of(v) is Some ==> listed_item(index, v, title_lower) is Some,
        v.text_at("availability"@) is Some && v.text_at("availability"@) != Some("public"@)
            && v.text_at("availability"@) != Some("unlisted"@) ==> listed_item(
            index,
            v,
            title_lower,
        ) is None,
        v.text_at("availability"@) == Some("private"@) || v.text_at("availability"@) == Some(
            "needs_auth"@,
        ) ==> listed_item(index, v, title_lower) is None,
        says_unavailable(title_lower) || source_of(v) is None ==> listed_item(
            index,
            v,
            title_lower,
        ) is None,
        item_of(index, v) == listed_item(index, v, text::unicode_lowercase(title_of(v))),
{
    reveal_strlit("public");
    reveal_strlit("unlisted");
    reveal_strlit("private");
    reveal_strlit("needs_auth");
    assert("private"@.len() != "public"@.len() && "private"@.len() != "unlisted"@.len());
    assert("needs_auth"@.len() != "public"@.len() && "needs_auth"@.len() != "unlisted"@.len());
}

/// A title says that there is no video where it holds one of the phrases for that, whatever stands
/// around it.
pub proof fn law_titles_of_missing_videos(before: Seq<char>, after: Seq<char>)
    ensures
        says_unavailable(before + "private video"@ + after),
        says_unavailable(before + "deleted video"@ + after),
        says_unavailable(before + "video unavailable"@ + after),
        says_unavailable(before + "vidéo privée"@ + after),
        says_unavailable(before + "vidéo supprimée"@ + after),
{
    lemma_phrase_within(before, "private video"@, after);
    lemma_phrase_within(before, "deleted video"@, after);
    lemma_phrase_within(before, "video unavailable"@, after);
    lemma_phrase_within(before, "vidéo privée"@, after);
    lemma_phrase_within(before, "vidéo supprimée"@, after);
}

proof fn lemma_phrase_within(before: Seq<char>, phrase: Seq<char>, after: Seq<char>)
    ensures
        text::has_part(before + phrase + after, phrase),
{
    lemma_whole_part(phrase);
    text::lemma_part_within(before, phrase, after, phrase);
}

/// A title that speaks of no video at all does not say that there is none.
pub proof fn law_other_titles_are_titles(title: Seq<char>)
    requires
        !text::has_part(title, "video"@),
        !text::has_part(title, "vidéo"@),
    ensures
        !says_unavailable(title),
{
    lemma_private_holds_video(title);
    lemma_deleted_holds_video(title);
    lemma_unavailable_holds_video(title);
    lemma_french_holds_video(title);
}

proof fn lemma_private_holds_video(title: Seq<char>)
    ensures
        text::has_part(title, "private video"@) ==> text::has_part(title, "video"@),
{
    let none = Seq::<char>::empty();
    reveal_strlit("video");
    reveal_strlit("private video");
    assert("private video"@ =~= "private video"@.take(8) + "video"@ + none);
    lemma_part_of_part(title, "private video"@, "private video"@.take(8), "video"@, none);
}

proof fn lemma_deleted_holds_video(title: Seq<char>)
    ensures
        text::has_part(title, "deleted video"@) ==> text::has_part(title, "video"@),
{
    let none = Seq::<char>::empty();
    reveal_strlit("video");
    reveal_strlit("deleted video");
    assert("deleted video"@ =~= "deleted video"@.take(8) + "video"@ + none);
    lemma_part_of_part(title, "deleted video"@, "deleted video"@.take(8), "video"@, none);
}

proof fn lemma_unavailable_holds_video(title: Seq<char>)
    ensures
        text::has_part(title, "video unavailable"@) ==> text::has_part(title, "video"@),
{
    let none = Seq::<char>::empty();
    reveal_strlit("video");
    reveal_strlit("video unavailable");
    assert("video unavailable"@ =~= none + "video"@ + "video unavailable"@.skip(5));
    lemma_part_of_part(title, "video unavailable"@, none, "video"@, "video unavailable"@.skip(5));
}

proof fn lemma_french_holds_video(title: Seq<char>)
    ensures
        text::has_part(title, "vidéo privée"@) ==> text::has_part(title, "vidéo"@),
        text::has_part(title, "vidéo supprimée"@) ==> text::has_part(title, "vidéo"@),
{
    let none = Seq::<char>::empty();
    reveal_strlit("vidéo");
    reveal_strlit("vidéo privée");
    reveal_strlit("vidéo supprimée");
    assert("vidéo privée"@ =~= none + "vidéo"@ + "vidéo privée"@.skip(5));
    assert("vidéo supprimée"@ =~= none + "vidéo"@ + "vidéo supprimée"@.skip(5));
    lemma_part_of_part(title, "vidéo privée"@, none, "vidéo"@, "vidéo privée"@.skip(5));
    lemma_part_of_part(title, "vidéo supprimée"@, none, "vidéo"@, "vidéo supprimée"@.skip(5));
}

/// A text is a part of itself.
proof fn lemma_whole_part(s: Seq<char>)
    ensures
        text::has_part(s, s),
{
    assert(s.subrange(0, s.len() as int) =~= s);
    assert(text::occurs_at(s, s, 0));
}

/// A part of a part is a part.
proof fn lemma_part_of_part(
    s: Seq<char>,
    phrase: Seq<char>,
    front: Seq<char>,
    word: Seq<char>,
    back: Seq<char>,
)
    requires
        phrase =~= front + word + back,
    ensures
        text::has_part(s, phrase) ==> text::has_part(s, word),
{
    if text::has_part(s, phrase) {
        let i = choose|i: int| text::occurs_at(s, phrase, i);
        let k = i + front.len();
        assert(s.subrange(k, k + word.len()) =~= word) by {
            assert forall|j: int| 0 <= j < word.len() implies s[k + j] == word[j] by {
                assert(s.subrange(i, i + phrase.len())[front.len() + j] == phrase[front.len() + j]);
            }
        }
        assert(text::occurs_at(s, word, k));
    }
}

/// The link to a video is that of its page; where that is missing, its own link; where that is
/// none, its identifier where that is a link, or the link to the video with that identifier.
pub proof fn law_link_of_report(v: JsonView, id: Seq<char>)
    ensures
        v.text_at("webpage_url"@) matches Some(page) ==> source_of(v) == Some(page),
        v.text_at("webpage_url"@) is None ==> (v.text_at("url"@) matches Some(url)
            ==> links::web_link(text::trimmed(url)) ==> source_of(v) == Some(text::trimmed(url))),
        v.text_at("webpage_url"@) is None && v.text_at("url"@) is None && v.text_at("id"@) == Some(
            id,
        ) && links::web_link(id) ==> source_of(v) == Some(id),
        v.text_at("webpage_url"@) is None && v.text_at("url"@) is None && v.text_at("id"@) == Some(
            id,
        ) && links::youtube_id(id) ==> source_of(v) == Some(
            "https://www.youtube.com/watch?v="@ + id,
        ),
        v.text_at("webpage_url"@) is None && v.text_at("url"@) is None && v.text_at("id"@) == Some(
            id,
        ) && !links::web_link(id) && !links::youtube_id(id) ==> source_of(v) is None,
{
    let none = Seq::<char>::empty();
    assert(text::trimmed(none) =~= none);
    reveal_strlit("http://");
    reveal_strlit("https://");
    assert(!links::web_link(none));
    if links::youtube_id(id) && links::web_link(id) {
        if text::begins(id, "http://"@) {
            assert(id.subrange(0, 7)[4] == ':');
            assert(links::id_char(id[4]));
        } else {
            assert(id.subrange(0, 8)[5] == ':');
            assert(links::id_char(id[5]));
        }
    }
}

/// An item tells what its report tells: its title, its duration, its picture, and the channel or
/// who uploaded it.
pub proof fn law_item_tells_report(index: usize, v: JsonView)
    ensures
        item_of(index, v) matches Some(item) ==> {
            &&& item.index == index
            &&& source_of(v) == Some(item.source_url)
            &&& v.text_at("title"@) matches Some(title) ==> item.title == title
            &&& v.text_at("title"@) is None ==> item.title == "Vidéo TROOZN"@
            &&& item.webpage_url == v.text_at("webpage_url"@)
            &&& item.duration == v.unsigned_at("duration"@)
            &&& item.thumbnail == v.text_at("thumbnail"@)
            &&& v.text_at("channel"@) is Some ==> item.channel == v.text_at("channel"@)
            &&& v.text_at("channel"@) is None ==> item.channel == v.text_at("uploader"@)
            &&& item.description == v.text_at("description"@)
            &&& item.upload_date == v.text_at("upload_date"@)
            &&& item.uploader == v.text_at("uploader"@)
        },
{
}

/// The items of a playlist are those of its entries, in their order, each with the place of its
/// entry: one more entry adds its item behind the others, or nothing where it has none.
pub proof fn law_items_follow_entries(entries: Seq<JsonView>, v: JsonView)
    requires
        entries.len() < usize::MAX,
    ensures
        items_of_list(Seq::empty()) == Seq::<ItemView>::empty(),
        item_of((entries.len() + 1) as usize, v) matches Some(item) ==> items_of_list(
            entries.push(v),
        ) == items_of_list(entries).push(item) && item.index == entries.len() + 1,
        item_of((entries.len() + 1) as usize, v) is None ==> items_of_list(entries.push(v))
            == items_of_list(entries),
{
    assert(entries.push(v).drop_last() =~= entries);
}

/// Of a report on a playlist no more entries are read than asked for, and all where there are no
/// more; a report without entries is one on a video, and gives that video as the first item.
pub proof fn law_report_is_read_up_to_limit(root: JsonView, limit: nat)
    ensures
        root.list_at("entries"@) matches Some(entries) ==> {
            &&& entries.len() <= limit ==> items_of_report(root, limit) == items_of_list(entries)
            &&& entries.len() > limit ==> items_of_report(root, limit) == items_of_list(
                entries.take(limit as int),
            )
        },
        root.list_at("entries"@) is None ==> (match item_of(1, root) {
            Some(item) => items_of_report(root, limit) == seq![item],
            None => items_of_report(root, limit).len() == 0,
        }),
{
    match root.list_at("entries"@) {
        Some(entries) => {
            assert(entries.take(entries.len() as int) =~= entries);
        },
        None => {},
    }
}

/// The link of an entry of a further page is that of its page; where that is missing, its own
/// link; where that is none, the link to the video whose identifier it has.
pub proof fn law_link_of_entry(v: JsonView, id: Seq<char>)
    requires
        links::youtube_id(id),
    ensures
        v.text_at("webpage_url"@) matches Some(page) ==> entry_source(v) == Some(page),
        v.text_at("webpage_url"@) is None ==> (v.text_at("url"@) matches Some(url)
            ==> links::web_link(text::trimmed(url)) ==> entry_source(v) == Some(
            text::trimmed(url),
        )),
        v.text_at("webpage_url"@) is None && v.text_at("url"@) is None && v.text_at("id"@) == Some(
            id,
        ) ==> entry_source(v) == Some("https://www.youtube.com/watch?v="@ + id),
        v.text_at("webpage_url"@) is None && v.text_at("id"@) is None && v.text_at("url"@) == Some(
            id,
        ) ==> entry_source(v) == Some("https://www.youtube.com/watch?v="@ + id),
        v.text_at("webpage_url"@) is None && v.text_at("id"@) is None && v.text_at("url"@) is None
            ==> entry_source(v) is None,
{
    let none = Seq::<char>::empty();
    assert(text::trimmed(none) =~= none);
    reveal_strlit("http://");
    reveal_strlit("https://");
    assert(!links::web_link(none));
    assert(links::id_char(id[0]) && links::id_char(id[10]));
    assert(id.last() == id[10]);
    assert(text::trim_start(id, text::CharSet::White) == id);
    assert(text::trim_end(id, text::CharSet::White) == id);
    assert(text::trimmed(id) == id);
    if links::web_link(id) {
        if text::begins(id, "http://"@) {
            assert(id.subrange(0, 7)[4] == ':');
            assert(links::id_char(id[4]));
        } else {
            assert(id.subrange(0, 8)[5] == ':');
            assert(links::id_char(id[5]));
        }
    }
}

/// An entry of a further page gives an item exactly where it has a link. The item tells what the
/// entry tells, and has no place in the queue yet.
pub proof fn law_entry_gives_item(v: JsonView)
    ensures
        entry_item(v) is Some <==> entry_source(v) is Some,
        entry_item(v) matches Some(item) ==> {
            &&& Some(item.source_url) == entry_source(v)
            &&& item.index == 0
            &&& v.text_at("title"@) matches Some(title) ==> item.title == title
            &&& v.text_at("title"@) is None ==> item.title == "YouTube"@
            &&& item.webpage_url == v.text_at("webpage_url"@)
            &&& item.duration == v.whole_at("duration"@)
            &&& item.thumbnail == v.text_at("thumbnail"@)
            &&& v.text_at("channel"@) is Some ==> item.channel == v.text_at("channel"@)
            &&& v.text_at("channel"@) is None ==> item.channel == v.text_at("uploader"@)
        },
{
}

/// The items of a further page are those of its entries, in their order; entries that are `null`
/// or have no link are left out, and a report without entries has none.
pub proof fn law_page_follows_entries(entries: Seq<JsonView>, v: JsonView, root: JsonView)
    ensures
        items_of_entries(Seq::empty()) == Seq::<ItemView>::empty(),
        v is Null || entry_item(v) is None ==> items_of_entries(entries.push(v))
            == items_of_entries(entries),
        !(v is Null) ==> (entry_item(v) matches Some(item) ==> items_of_entries(entries.push(v))
            == items_of_entries(entries).push(item)),
        root.list_at("entries"@) matches Some(all) ==> items_of_page(root) == items_of_entries(all),
        root.list_at("entries"@) is None ==> items_of_page(root).len() == 0,
{
    assert(entries.push(v).drop_last() =~= entries);
}

/// Of a link alone the only item is the video that it names; where it names none, the link itself
/// where it is one over HTTP; and there is none otherwise.
pub proof fn law_link_alone_makes_item(url: Seq<char>)
    ensures
        links::video_id(url) matches Some(id) ==> (fallback_item(url) matches Some(item)
            && item.source_url == "https://www.youtube.com/watch?v="@ + id && item.index == 1),
        links::video_id(url) is None && links::web_link(url) ==> (fallback_item(url) matches Some(
            item,
        ) && item.source_url == url && item.index == 1),
        links::video_id(url) is None && !links::web_link(url) ==> fallback_item(url) is None,
        fallback_item(url) matches Some(item) ==> item.webpage_url == Some(item.source_url)
            && item.title == links::fallback_title(item.source_url),
{
}

/// Whether a picture has a link and so many pixels.
pub open spec fn picture_at(v: JsonView, n: nat, url: Seq<char>) -> bool {
    v.text_at("url"@) == Some(url) && pixels(v) == n
}

/// The largest picture is one of the list, no picture with a link has more pixels, and none behind
/// it has as many.
pub proof fn law_largest_picture(pictures: Seq<JsonView>)
    ensures
        largest_picture(pictures) is None <==> forall|i: int|
            0 <= i < pictures.len() ==> (#[trigger] pictures[i]).text_at("url"@) is None,
        largest_picture(pictures) matches Some((n, url)) ==> exists|k: int|
            0 <= k < pictures.len() && picture_at(#[trigger] pictures[k], n, url) && forall|j: int|
                0 <= j < pictures.len() && (#[trigger] pictures[j]).text_at("url"@) is Some
                    ==> pixels(pictures[j]) <= n && (j > k ==> pixels(pictures[j]) < n),
    decreases pictures.len(),
{
    if pictures.len() > 0 {
        let front = pictures.drop_last();
        let last = pictures.last();
        let m = pictures.len() - 1;
        law_largest_picture(front);
        assert(pictures[m] == last);
        assert forall|i: int| 0 <= i < front.len() implies #[trigger] pictures[i] == front[i] by {}
        match last.text_at("url"@) {
            None => {
                match largest_picture(front) {
                    Some((n, url)) => {
                        let k = choose|k: int|
                            0 <= k < front.len() && picture_at(#[trigger] front[k], n, url)
                                && forall|j: int|
                                0 <= j < front.len() && (#[trigger] front[j]).text_at("url"@) is Some
                                    ==> pixels(front[j]) <= n && (j > k ==> pixels(front[j]) < n);
                        assert(pictures[k] == front[k]);
                        assert forall|j: int|
                            0 <= j < pictures.len() && (#[trigger] pictures[j]).text_at(
                                "url"@,
                            ) is Some implies pixels(pictures[j]) <= n && (j > k ==> pixels(
                            pictures[j],
                        ) < n) by {
                            assert(front[j] == pictures[j]);
                        }
                    },
                    None => {
                        assert forall|i: int| 0 <= i < pictures.len() implies (
                        #[trigger] pictures[i]).text_at("url"@) is None by {
                            if i < m {
                                assert(front[i] == pictures[i]);
                            }
                        }
                    },
                }
            },
            Some(link) => {
                match largest_picture(front) {
                    Some((n, url)) => {
                        let k = choose|k: int|
                            0 <= k < front.len() && picture_at(#[trigger] front[k], n, url)
                                && forall|j: int|
                                0 <= j < front.len() && (#[trigger] front[j]).text_at("url"@) is Some
                                    ==> pixels(front[j]) <= n && (j > k ==> pixels(front[j]) < n);
                        if n > pixels(last) {
                            assert(pictures[k] == front[k]);
                            assert forall|j: int|
                                0 <= j < pictures.len() && (#[trigger] pictures[j]).text_at(
                                    "url"@,
                                ) is Some implies pixels(pictures[j]) <= n && (j > k ==> pixels(
                                pictures[j],
                            ) < n) by {
                                if j < m {
                                    assert(front[j] == pictures[j]);
                                }
                            }
                        } else {
                            assert(picture_at(pictures[m], pixels(last), link));
                            assert forall|j: int|
                                0 <= j < pictures.len() && (#[trigger] pictures[j]).text_at(
                                    "url"@,
                                ) is Some implies pixels(pictures[j]) <= pixels(last) by {
                                if j < m {
                                    assert(front[j] == pictures[j]);
                                }
                            }
                        }
                    },
                    None => {
                        assert(picture_at(pictures[m], pixels(last), link));
                        assert forall|j: int|
                            0 <= j < pictures.len() && (#[trigger] pictures[j]).text_at(
                                "url"@,
                            ) is Some implies pixels(pictures[j]) <= pixels(last) by {
                            if j < m {
                                assert(front[j] == pictures[j]);
                            }
                        }
                    },
                }
            },
        }
    }
}

/// The pixels of a picture are its width times its height, where both are given and that can be
/// counted, and none where one of them is missing.
pub proof fn law_pixels(v: JsonView, width: u64, height: u64)
    ensures
        v.unsigned_at("width"@) == Some(width) && v.unsigned_at("height"@) == Some(height) && width
            * height <= u64::MAX ==> pixels(v) == width * height,
        v.unsigned_at("width"@) is None || v.unsigned_at("height"@) is None ==> pixels(v) == 0,
{
    assert(0 * height == 0) by (nonlinear_arith);
    assert(width * 0 == 0) by (nonlinear_arith);
    let w = match v.unsigned_at("width"@) {
        Some(n) => n,
        None => 0,
    };
    let h = match v.unsigned_at("height"@) {
        Some(n) => n,
        None => 0,
    };
    if v.unsigned_at("width"@) is None {
        assert(0 * h == 0) by (nonlinear_arith);
    }
    if v.unsigned_at("height"@) is None {
        assert(w * 0 == 0) by (nonlinear_arith);
    }
}

/// The picture of a report is the one that it names; where it names none, or a blank one, it is
/// the largest of its list.
pub proof fn law_named_picture_comes_first(root: JsonView)
    ensures
        root.text_at("thumbnail"@) matches Some(url) ==> text::trimmed(url).len() > 0
            ==> best_thumbnail(root) == Some(url),
        ({
            let blank = match root.text_at("thumbnail"@) {
                Some(url) => text::trimmed(url).len() == 0,
                None => true,
            };
            &&& blank ==> (root.list_at("thumbnails"@) matches Some(pictures) ==> (
            match largest_picture(pictures) {
                Some((_, url)) => best_thumbnail(root) == Some(url),
                None => best_thumbnail(root) is None,
            }))
            &&& blank && root.list_at("thumbnails"@) is None ==> best_thumbnail(root) is None
        }),
{
}

/// What a report says replaces what was known of an item, and what it does not say stays.
pub proof fn law_report_enriches(item: ItemView, meta: MetadataView)
    ensures
        meta.title matches Some(t) ==> enriched(item, meta).title == t,
        meta.title is None ==> enriched(item, meta).title == item.title,
        enriched(item, meta).duration == (if meta.duration is Some {
            meta.duration
        } else {
            item.duration
        }),
        enriched(item, meta).webpage_url == (if meta.webpage_url is Some {
            meta.webpage_url
        } else {
            item.webpage_url
        }),
        enriched(item, meta).thumbnail == (if meta.thumbnail is Some {
            meta.thumbnail
        } else {
            item.thumbnail
        }),
        enriched(item, meta).channel == (if meta.channel is Some {
            meta.channel
        } else {
            item.channel
        }),
        enriched(item, meta).description == (if meta.description is Some {
            meta.description
        } else {
            item.description
        }),
        enriched(item, meta).upload_date == (if meta.upload_date is Some {
            meta.upload_date
        } else {
            item.upload_date
        }),
        enriched(item, meta).uploader == (if meta.uploader is Some {
            meta.uploader
        } else {
            item.uploader
        }),
{
}

/// A full report tells the title, the page, the duration, the picture, the channel or who uploaded
/// the video, and the description of a video.
pub proof fn law_metadata_tells_report(root: JsonView)
    ensures
        metadata_of(root).title == root.text_at("title"@),
        metadata_of(root).webpage_url == root.text_at("webpage_url"@),
        metadata_of(root).duration == root.unsigned_at("duration"@),
        metadata_of(root).thumbnail == best_thumbnail(root),
        root.text_at("channel"@) is Some ==> metadata_of(root).channel == root.text_at("channel"@),
        root.text_at("channel"@) is None ==> metadata_of(root).channel == root.text_at("uploader"@),
        metadata_of(root).description == root.text_at("description"@),
        metadata_of(root).upload_date == root.text_at("upload_date"@),
        metadata_of(root).uploader == root.text_at("uploader"@),
{
}

} // verus!
