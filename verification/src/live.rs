//! The state of the live stream: the queue, what is produced, what is played, and the sessions
//! that follow one another.
use vstd::hash_map::StringHashMap;
use vstd::hash_set::StringHashSet;
use vstd::prelude::*;

use crate::extraction::Extracted;
use crate::extraction;
use crate::hls::{EntryView, MasterEntry};
use crate::hls;
use crate::items::{ItemView, TrooznLiveItem};
use crate::items;
use crate::links;
use crate::numbers;
use crate::text;
use crate::ytdlp::ResolvedMediaInput;

verus! {

/// The directory of the stream.
pub const LIVE_DIR: &'static str = "/home/troozn/.kodi/userdata/TROOZN/live";

/// The address under which the stream is served.
pub const PUBLIC_HLS_BASE_URL: &'static str = "http://127.0.0.1:8787/troozn-live";

/// The name of the playlist before the first session.
pub const DEFAULT_PLAYLIST_NAME: &'static str = "Playlist_Troozn.m3u8";

/// The address of the playlist before the first session.
pub const DEFAULT_PUBLIC_HLS_URL: &'static str =
    "http://127.0.0.1:8787/troozn-live/Playlist_Troozn.m3u8";

/// A queue with no more items than this ahead is refilled.
pub const PLAYLIST_REFILL_THRESHOLD: usize = 5;

/// How long an item that is resolved in advance is waited for, in milliseconds.
pub const PREWARM_CACHE_WAIT_MAX_MS: u64 = 90_000;

/// How often it is looked for meanwhile, in milliseconds.
pub const PREWARM_CACHE_WAIT_STEP_MS: u64 = 300;

// ---------------------------------------------------------------------------
// What is produced and played
// ---------------------------------------------------------------------------

/// What is produced or played now.
#[derive(Debug)]
pub struct TrooznLiveNow {
    /// The state in a word.
    pub state: String,
    /// The title.
    pub title: String,
    /// The link.
    pub source_url: String,
    /// The address of the playlist.
    pub hls_url: String,
    /// The identifier of the item.
    pub item_id: String,
    /// The place of the item in the queue, from 1; 0 where there is none.
    pub index: usize,
    /// The position within the item, in seconds.
    pub position: u64,
    /// The duration of the item, in seconds.
    pub duration: Option<u64>,
    /// The link to a picture.
    pub thumbnail: Option<String>,
    /// The channel.
    pub channel: Option<String>,
    /// The description.
    pub description: Option<String>,
    /// The day of the upload.
    pub upload_date: Option<String>,
    /// Who uploaded the medium.
    pub uploader: Option<String>,
    /// When the stream started.
    pub started_at: u64,
    /// When the item started.
    pub item_started_at: u64,
    /// The title of the next item.
    pub next_title: Option<String>,
    /// The last message.
    pub last_error: Option<String>,
    /// `audio` or `video`.
    pub media_type: Option<String>,
    /// The seconds that are buffered: the bits of a double precision number.
    pub buffer_seconds: Option<u64>,
    /// The segments that are buffered.
    pub buffer_segments: Option<usize>,
}

/// The model of what is produced or played now.
#[verifier::ext_equal]
pub struct NowView {
    pub state: Seq<char>,
    pub title: Seq<char>,
    pub source_url: Seq<char>,
    pub hls_url: Seq<char>,
    pub item_id: Seq<char>,
    pub index: usize,
    pub position: u64,
    pub duration: Option<u64>,
    pub thumbnail: Option<Seq<char>>,
    pub channel: Option<Seq<char>>,
    pub description: Option<Seq<char>>,
    pub upload_date: Option<Seq<char>>,
    pub uploader: Option<Seq<char>>,
    pub started_at: u64,
    pub item_started_at: u64,
    pub next_title: Option<Seq<char>>,
    pub last_error: Option<Seq<char>>,
    pub media_type: Option<Seq<char>>,
    pub buffer_seconds: Option<u64>,
    pub buffer_segments: Option<usize>,
}

impl View for TrooznLiveNow {
    type V = NowView;

    open spec fn view(&self) -> NowView {
        NowView {
            state: self.state@,
            title: self.title@,
            source_url: self.source_url@,
            hls_url: self.hls_url@,
            item_id: self.item_id@,
            index: self.index,
            position: self.position,
            duration: self.duration,
            thumbnail: text::text_in(self.thumbnail),
            channel: text::text_in(self.channel),
            description: text::text_in(self.description),
            upload_date: text::text_in(self.upload_date),
            uploader: text::text_in(self.uploader),
            started_at: self.started_at,
            item_started_at: self.item_started_at,
            next_title: text::text_in(self.next_title),
            last_error: text::text_in(self.last_error),
            media_type: text::text_in(self.media_type),
            buffer_seconds: self.buffer_seconds,
            buffer_segments: self.buffer_segments,
        }
    }
}

/// Nothing is produced or played.
pub open spec fn blank_now() -> NowView {
    NowView {
        state: Seq::empty(),
        title: Seq::empty(),
        source_url: Seq::empty(),
        hls_url: Seq::empty(),
        item_id: Seq::empty(),
        index: 0,
        position: 0,
        duration: None,
        thumbnail: None,
        channel: None,
        description: None,
        upload_date: None,
        uploader: None,
        started_at: 0,
        item_started_at: 0,
        next_title: None,
        last_error: None,
        media_type: None,
        buffer_seconds: None,
        buffer_segments: None,
    }
}

impl Default for TrooznLiveNow {
    fn default() -> (r: Self)
        ensures
            r@ == blank_now(),
    {
        TrooznLiveNow {
            state: String::new(),
            title: String::new(),
            source_url: String::new(),
            hls_url: String::new(),
            item_id: String::new(),
            index: 0,
            position: 0,
            duration: None,
            thumbnail: None,
            channel: None,
            description: None,
            upload_date: None,
            uploader: None,
            started_at: 0,
            item_started_at: 0,
            next_title: None,
            last_error: None,
            media_type: None,
            buffer_seconds: None,
            buffer_segments: None,
        }
    }
}

impl Clone for TrooznLiveNow {
    fn clone(&self) -> (r: Self)
        ensures
            r == *self,
    {
        TrooznLiveNow {
            state: self.state.clone(),
            title: self.title.clone(),
            source_url: self.source_url.clone(),
            hls_url: self.hls_url.clone(),
            item_id: self.item_id.clone(),
            index: self.index,
            position: self.position,
            duration: self.duration,
            thumbnail: self.thumbnail.clone(),
            channel: self.channel.clone(),
            description: self.description.clone(),
            upload_date: self.upload_date.clone(),
            uploader: self.uploader.clone(),
            started_at: self.started_at,
            item_started_at: self.item_started_at,
            next_title: self.next_title.clone(),
            last_error: self.last_error.clone(),
            media_type: self.media_type.clone(),
            buffer_seconds: self.buffer_seconds,
            buffer_segments: self.buffer_segments,
        }
    }
}

// ---------------------------------------------------------------------------
// The state
// ---------------------------------------------------------------------------

/// How the queue is refilled from a playlist.
#[derive(Debug)]
pub struct PlaylistRefillState {
    /// The link to the playlist.
    pub source_url: String,
    /// The first entry that was not read yet, from 1.
    pub next_start: usize,
    /// Whether all entries were read.
    pub exhausted: bool,
    /// Whether entries are being read.
    pub active: bool,
}

/// The model of how the queue is refilled.
#[verifier::ext_equal]
pub struct RefillView {
    pub source_url: Seq<char>,
    pub next_start: usize,
    pub exhausted: bool,
    pub active: bool,
}

impl View for PlaylistRefillState {
    type V = RefillView;

    open spec fn view(&self) -> RefillView {
        RefillView {
            source_url: self.source_url@,
            next_start: self.next_start,
            exhausted: self.exhausted,
            active: self.active,
        }
    }
}

/// The encoder that is running.
#[derive(Debug)]
pub struct ActiveFfmpeg {
    /// The generation of the worker that started it.
    pub generation: u64,
    /// The item that it encodes.
    pub item_id: String,
}

/// The state of the live stream.
pub struct TrooznLive {
    /// The directory of the stream.
    pub root_dir: String,
    /// The encoder that is running.
    pub active_ffmpeg: Option<ActiveFfmpeg>,
    /// What is produced.
    pub producer_now: TrooznLiveNow,
    /// What is played.
    pub playback_now: TrooznLiveNow,
    /// The queue.
    pub queue: Vec<TrooznLiveItem>,
    /// The segments of the stream.
    pub master_entries: Vec<MasterEntry>,
    /// The item and the segment that were served last.
    pub last_served_segment: Option<(usize, usize)>,
    /// How many segments were dropped from the start of the stream.
    pub media_sequence_base: u64,
    /// How many discontinuities were dropped with them.
    pub discontinuity_sequence_base: u64,
    /// When old files were removed last.
    pub last_cleanup_at: u64,
    /// How the queue is refilled.
    pub playlist_refill: Option<PlaylistRefillState>,
    /// What was found in advance for items of the queue, by their identifiers.
    pub resolved_inputs: StringHashMap<ResolvedMediaInput>,
    /// The identifiers of the items for which it is being looked for.
    pub resolving_inputs: StringHashSet,
    /// The session.
    pub session_id: String,
    /// Whether a worker is running.
    pub worker_running: bool,
    /// The generation of the current worker.
    pub generation_id: u64,
    /// The item from which the stream is played.
    pub playback_anchor_item: usize,
    /// The name of the playlist.
    pub playlist_name: String,
    /// Whether commands may run at the same time because a session is starting.
    pub startup_boost: bool,
}

/// The model of the state.
#[verifier::ext_equal]
pub struct LiveView {
    pub root_dir: Seq<char>,
    pub active_ffmpeg: Option<(u64, Seq<char>)>,
    pub producer_now: NowView,
    pub playback_now: NowView,
    pub queue: Seq<ItemView>,
    pub master_entries: Seq<EntryView>,
    pub last_served_segment: Option<(usize, usize)>,
    pub media_sequence_base: u64,
    pub discontinuity_sequence_base: u64,
    pub last_cleanup_at: u64,
    pub playlist_refill: Option<RefillView>,
    pub resolved_inputs: Map<Seq<char>, ResolvedMediaInput>,
    pub resolving_inputs: Set<Seq<char>>,
    pub session_id: Seq<char>,
    pub worker_running: bool,
    pub generation_id: u64,
    pub playback_anchor_item: usize,
    pub playlist_name: Seq<char>,
    pub startup_boost: bool,
}

/// The generation and the item of an encoder.
pub open spec fn ffmpeg_view(o: Option<ActiveFfmpeg>) -> Option<(u64, Seq<char>)> {
    match o {
        Some(a) => Some((a.generation, a.item_id@)),
        None => None,
    }
}

/// The model of how the queue is refilled, if it is.
pub open spec fn refill_view(o: Option<PlaylistRefillState>) -> Option<RefillView> {
    match o {
        Some(s) => Some(s@),
        None => None,
    }
}

impl View for TrooznLive {
    type V = LiveView;

    open spec fn view(&self) -> LiveView {
        LiveView {
            root_dir: self.root_dir@,
            active_ffmpeg: ffmpeg_view(self.active_ffmpeg),
            producer_now: self.producer_now@,
            playback_now: self.playback_now@,
            queue: items::item_views(self.queue@),
            master_entries: hls::entry_views(self.master_entries@),
            last_served_segment: self.last_served_segment,
            media_sequence_base: self.media_sequence_base,
            discontinuity_sequence_base: self.discontinuity_sequence_base,
            last_cleanup_at: self.last_cleanup_at,
            playlist_refill: refill_view(self.playlist_refill),
            resolved_inputs: self.resolved_inputs@,
            resolving_inputs: self.resolving_inputs@,
            session_id: self.session_id@,
            worker_running: self.worker_running,
            generation_id: self.generation_id,
            playback_anchor_item: self.playback_anchor_item,
            playlist_name: self.playlist_name@,
            startup_boost: self.startup_boost,
        }
    }
}

/// Nothing is played, and the playlist has its first name.
pub open spec fn idle_now() -> NowView {
    NowView { state: "idle"@, hls_url: DEFAULT_PUBLIC_HLS_URL@, ..blank_now() }
}

/// The state before the first session.
pub open spec fn initial_state(now: u64) -> LiveView {
    LiveView {
        root_dir: LIVE_DIR@,
        active_ffmpeg: None,
        producer_now: idle_now(),
        playback_now: idle_now(),
        queue: Seq::empty(),
        master_entries: Seq::empty(),
        last_served_segment: None,
        media_sequence_base: 0,
        discontinuity_sequence_base: 0,
        last_cleanup_at: 0,
        playlist_refill: None,
        resolved_inputs: Map::empty(),
        resolving_inputs: Set::empty(),
        session_id: numbers::dec(now as nat),
        worker_running: false,
        generation_id: 0,
        playback_anchor_item: 1,
        playlist_name: DEFAULT_PLAYLIST_NAME@,
        startup_boost: false,
    }
}

/// The address of the playlist with the given name.
pub open spec fn public_url(name: Seq<char>) -> Seq<char> {
    PUBLIC_HLS_BASE_URL@ + "/"@ + name
}

/// The items, numbered on from a queue of `base` items.
pub open spec fn numbered_from(base: nat, items: Seq<ItemView>) -> Seq<ItemView> {
    Seq::new(items.len(), |i: int| ItemView { index: (base + i + 1) as usize, ..items[i] })
}

/// The title of the first item behind the given place.
pub open spec fn next_title_in(queue: Seq<ItemView>, index: usize) -> Option<Seq<char>>
    decreases queue.len(),
{
    if queue.len() == 0 {
        None
    } else if queue[0].index > index {
        Some(queue[0].title)
    } else {
        next_title_in(queue.skip(1), index)
    }
}

/// The refill of a playlist of which the first page was read.
pub open spec fn fresh_refill(url: Seq<char>) -> RefillView {
    RefillView {
        source_url: url,
        next_start: (extraction::PLAYLIST_PAGE_SIZE + 1) as usize,
        exhausted: false,
        active: false,
    }
}

/// The refill of a playlist of which the first page was read.
fn new_refill(source_url: &str) -> (r: PlaylistRefillState)
    ensures
        r@ == fresh_refill(source_url@),
{
    PlaylistRefillState {
        source_url: source_url.to_string(),
        next_start: extraction::PLAYLIST_PAGE_SIZE + 1,
        exhausted: false,
        active: false,
    }
}

impl TrooznLive {
    /// The state before the first session, at the time `now`.
    pub fn new_default(now: u64) -> (r: Self)
        ensures
            r@ == initial_state(now),
    {
        let mut producer = TrooznLiveNow::default();
        producer.state = "idle".to_string();
        producer.hls_url = DEFAULT_PUBLIC_HLS_URL.to_string();
        let playback = producer.clone();
        let r = TrooznLive {
            root_dir: LIVE_DIR.to_string(),
            active_ffmpeg: None,
            producer_now: producer,
            playback_now: playback,
            queue: Vec::new(),
            master_entries: Vec::new(),
            last_served_segment: None,
            media_sequence_base: 0,
            discontinuity_sequence_base: 0,
            last_cleanup_at: 0,
            playlist_refill: None,
            resolved_inputs: StringHashMap::new(),
            resolving_inputs: StringHashSet::new(),
            session_id: numbers::decimal(now),
            worker_running: false,
            generation_id: 0,
            playback_anchor_item: 1,
            playlist_name: DEFAULT_PLAYLIST_NAME.to_string(),
            startup_boost: false,
        };
        proof {
            assert(r@ =~= initial_state(now));
        }
        r
    }

    /// The address of the playlist.
    pub fn current_public_hls_url(&self) -> (r: String)
        ensures
            r@ == public_url(self@.playlist_name),
    {
        text::concat3(PUBLIC_HLS_BASE_URL, "/", &self.playlist_name)
    }

    /// The address of the playlist in this session.
    pub fn current_hls_url(&self) -> (r: String)
        ensures
            r@ == public_url(self@.playlist_name) + "?session="@ + self@.session_id,
    {
        text::concat3(&self.current_public_hls_url(), "?session=", &self.session_id)
    }

    /// The name of the playlist.
    pub fn current_playlist_name(&self) -> (r: String)
        ensures
            r@ == self@.playlist_name,
    {
        self.playlist_name.clone()
    }

    /// The queue.
    pub fn current_queue(&self) -> (r: Vec<TrooznLiveItem>)
        ensures
            r@ == self.queue@,
    {
        items::clone_items(&self.queue)
    }

    /// What is played, where an item is, else what is produced.
    pub fn current_now(&self) -> (r: TrooznLiveNow)
        ensures
            r@ == if self@.playback_now.state == "playing"@ && self@.playback_now.index > 0 {
                self@.playback_now
            } else {
                self@.producer_now
            },
    {
        if text::same(&self.playback_now.state, "playing") && self.playback_now.index > 0 {
            self.playback_now.clone()
        } else {
            self.producer_now.clone()
        }
    }

    /// What is produced.
    pub fn producer_now(&self) -> (r: TrooznLiveNow)
        ensures
            r@ == self@.producer_now,
    {
        self.producer_now.clone()
    }

    /// The generation of the current worker.
    pub fn current_generation(&self) -> (r: u64)
        ensures
            r == self@.generation_id,
    {
        self.generation_id
    }

    // -----------------------------------------------------------------------
    // The queue
    // -----------------------------------------------------------------------

    /// Appends the items to the queue, numbered on from it, and gives them back as they stand
    /// there.
    pub fn append_items_to_queue(&mut self, list: Vec<TrooznLiveItem>) -> (r: Vec<TrooznLiveItem>)
        requires
            old(self).queue@.len() + list@.len() <= usize::MAX,
        ensures
            items::item_views(r@) == numbered_from(
                old(self)@.queue.len(),
                items::item_views(list@),
            ),
            final(self)@ == (LiveView {
                queue: old(self)@.queue + items::item_views(r@),
                ..old(self)@
            }),
    {
        let base: usize = self.queue.len();
        let ghost lv = items::item_views(list@);
        let ghost start = *self;
        let mut added: Vec<TrooznLiveItem> = Vec::new();
        let mut i: usize = 0;
        proof {
            assert(items::item_views(added@) =~= numbered_from(base as nat, lv).take(0));
            assert(start@.queue + items::item_views(added@) =~= start@.queue);
        }
        while i < list.len()
            invariant
                i <= list@.len(),
                base == start@.queue.len(),
                base + list@.len() <= usize::MAX,
                lv == items::item_views(list@),
                items::item_views(added@) == numbered_from(base as nat, lv).take(i as int),
                self@ == (LiveView {
                    queue: start@.queue + items::item_views(added@),
                    ..start@
                }),
            decreases list@.len() - i,
        {
            let ghost before = items::item_views(added@);
            let ghost queue_before = items::item_views(self.queue@);
            let mut item = list[i].clone();
            item.index = base + i + 1;
            let ghost iv = item@;
            added.push(item.clone());
            self.queue.push(item);
            proof {
                assert(iv =~= numbered_from(base as nat, lv)[i as int]);
                assert(items::item_views(added@) =~= before.push(iv));
                assert(items::item_views(self.queue@) =~= queue_before.push(iv));
                assert(numbered_from(base as nat, lv).take(i + 1) =~= numbered_from(
                    base as nat,
                    lv,
                ).take(i as int).push(iv));
                assert(start@.queue + before.push(iv) =~= (start@.queue + before).push(iv));
                assert(self@ =~= (LiveView {
                    queue: start@.queue + items::item_views(added@),
                    ..start@
                }));
            }
            i += 1;
        }
        proof {
            assert(numbered_from(base as nat, lv).take(i as int) =~= numbered_from(
                base as nat,
                lv,
            ));
        }
        added
    }

    /// The title of the first item behind the given place.
    pub fn next_title_after(&self, index: usize) -> (r: Option<String>)
        ensures
            text::text_in(r) == next_title_in(self@.queue, index),
    {
        let ghost q = self@.queue;
        let mut i: usize = 0;
        proof {
            assert(q.skip(0) =~= q);
        }
        while i < self.queue.len()
            invariant
                q == items::item_views(self.queue@),
                i <= self.queue@.len(),
                next_title_in(q, index) == next_title_in(q.skip(i as int), index),
            decreases self.queue@.len() - i,
        {
            proof {
                assert(q.skip(i as int)[0] == self.queue@[i as int]@);
                assert(q.skip(i as int).skip(1) =~= q.skip(i + 1));
            }
            if self.queue[i].index > index {
                return Some(self.queue[i].title.clone());
            }
            i += 1;
        }
        None
    }

    /// Puts an item with what was learned of it in the place of the first item of the queue that
    /// has the same identifier.
    pub fn replace_item(&mut self, item: &TrooznLiveItem)
        ensures
            final(self)@ == (LiveView {
                queue: replaced_item(old(self)@.queue, item@),
                ..old(self)@
            }),
    {
        let ghost start = *self;
        let ghost q = items::item_views(self.queue@);
        let mut i: usize = 0;
        proof {
            assert(q.skip(0) =~= q);
            assert(q.take(0) + replaced_item(q, item@) =~= replaced_item(q, item@));
        }
        while i < self.queue.len() && !text::same(&self.queue[i].item_id, &item.item_id)
            invariant
                *self == start,
                q == items::item_views(self.queue@),
                i <= self.queue@.len(),
                replaced_item(q, item@) == q.take(i as int) + replaced_item(
                    q.skip(i as int),
                    item@,
                ),
            decreases self.queue@.len() - i,
        {
            proof {
                let rest = q.skip(i as int);
                assert(rest[0] == self.queue@[i as int]@);
                assert(rest.skip(1) =~= q.skip(i + 1));
                assert(q.take(i as int) + (seq![rest[0]] + replaced_item(q.skip(i + 1), item@))
                    =~= q.take(i + 1) + replaced_item(q.skip(i + 1), item@));
            }
            i += 1;
        }
        if i < self.queue.len() {
            self.queue.set(i, item.clone());
            proof {
                let rest = q.skip(i as int);
                assert(rest[0] == start.queue@[i as int]@);
                assert(items::item_views(self.queue@) =~= q.update(i as int, item@));
                assert(q.update(i as int, item@) =~= q.take(i as int) + (seq![item@] + rest.skip(
                    1,
                )));
            }
        } else {
            proof {
                assert(q.skip(i as int) =~= Seq::<ItemView>::empty());
                assert(q.take(i as int) + Seq::<ItemView>::empty() =~= q);
            }
        }
        proof {
            assert(self@ =~= (LiveView { queue: replaced_item(q, item@), ..start@ }));
        }
    }

    // -----------------------------------------------------------------------
    // Refilling the queue
    // -----------------------------------------------------------------------

    /// The entries of the playlist that are to be read because the queue runs short behind the
    /// item `current_index`: the first and the last of them, and the link. They are then being
    /// read.
    pub fn begin_refill(&mut self, current_index: usize) -> (r: Option<(usize, usize, String)>)
        requires
            old(self).playlist_refill matches Some(s) ==> s.next_start
                + extraction::PLAYLIST_PAGE_SIZE <= usize::MAX,
        ensures
            match refill_due(old(self)@, current_index) {
                Some(s) => {
                    &&& r matches Some((start, end, url)) && start == s.next_start && end
                        == s.next_start + extraction::PLAYLIST_PAGE_SIZE - 1 && url@
                        == s.source_url
                    &&& final(self)@ == (LiveView {
                        playlist_refill: Some(RefillView { active: true, ..s }),
                        ..old(self)@
                    })
                },
                None => r is None && final(self)@ == old(self)@,
            },
    {
        let ghost start = self@;
        let queue_len: usize = self.queue.len();
        proof {
            assert(start.queue.len() == queue_len);
        }
        if queue_len <= current_index {
            return None;
        }
        if queue_len - current_index > PLAYLIST_REFILL_THRESHOLD {
            return None;
        }
        let mut state = match self.playlist_refill.take() {
            Some(state) => state,
            None => {
                return None;
            },
        };
        let ghost sv = state@;
        if state.exhausted || state.active {
            self.playlist_refill = Some(state);
            return None;
        }
        state.active = true;
        let first: usize = state.next_start;
        let url = state.source_url.clone();
        self.playlist_refill = Some(state);
        proof {
            assert(self@ =~= (LiveView {
                playlist_refill: Some(RefillView { active: true, ..sv }),
                ..start
            }));
        }
        Some((first, first + extraction::PLAYLIST_PAGE_SIZE - 1, url))
    }

    /// Goes on after the entries from number `start` on were read: items are appended to the
    /// queue; a page that is not full, and more so an empty one, is the last; after an error the
    /// same page can be read again.
    pub fn finish_refill(&mut self, start: usize, outcome: Extracted)
        requires
            outcome matches Ok(list) ==> old(self).queue@.len() + list@.len() <= usize::MAX
                && start + list@.len() <= usize::MAX,
        ensures
            final(self)@ == refilled(old(self)@, start, outcome),
    {
        let ghost before = self@;
        match outcome {
            Ok(list) => {
                let count: usize = list.len();
                proof {
                    assert(items::item_views(list@).len() == count);
                }
                if count > 0 {
                    let added = self.append_items_to_queue(list);
                    let ghost mid = self@;
                    if let Some(state) = self.playlist_refill.take() {
                        let mut state = state;
                        state.next_start = start + count;
                        state.active = false;
                        if count < extraction::PLAYLIST_PAGE_SIZE {
                            state.exhausted = true;
                        }
                        self.playlist_refill = Some(state);
                    }
                    proof {
                        assert(self@ =~= refilled(before, start, outcome));
                    }
                } else if let Some(state) = self.playlist_refill.take() {
                    let mut state = state;
                    state.exhausted = true;
                    state.active = false;
                    self.playlist_refill = Some(state);
                    proof {
                        assert(self@ =~= refilled(before, start, outcome));
                    }
                }
            },
            Err(_) => {
                if let Some(state) = self.playlist_refill.take() {
                    let mut state = state;
                    state.active = false;
                    self.playlist_refill = Some(state);
                    proof {
                        assert(self@ =~= refilled(before, start, outcome));
                    }
                }
            },
        }
    }

    // -----------------------------------------------------------------------
    // Items that are resolved in advance
    // -----------------------------------------------------------------------

    /// Takes out what was found in advance for an item.
    pub fn take_resolved(&mut self, item_id: &str) -> (r: Option<ResolvedMediaInput>)
        ensures
            match r {
                Some(input) => old(self)@.resolved_inputs.contains_key(item_id@) && input == old(
                    self,
                )@.resolved_inputs[item_id@],
                None => !old(self)@.resolved_inputs.contains_key(item_id@),
            },
            final(self)@ == (LiveView {
                resolved_inputs: old(self)@.resolved_inputs.remove(item_id@),
                ..old(self)@
            }),
    {
        let found = match self.resolved_inputs.get(item_id) {
            Some(input) => Some(input.clone()),
            None => None,
        };
        let ghost before = self@;
        self.resolved_inputs.remove(item_id);
        proof {
            assert(self@ =~= (LiveView {
                resolved_inputs: before.resolved_inputs.remove(item_id@),
                ..before
            }));
        }
        found
    }

    /// Whether an item is being resolved in advance.
    pub fn is_resolving(&self, item_id: &str) -> (r: bool)
        ensures
            r == self@.resolving_inputs.contains(item_id@),
    {
        self.resolving_inputs.contains(item_id)
    }

    /// How the wait for an item that is being resolved in advance goes on, after `waited_ms`
    /// milliseconds of it.
    pub fn prewarm_wait(&mut self, item_id: &str, waited_ms: u64) -> (r: PrewarmWait)
        ensures
            if old(self)@.resolved_inputs.contains_key(item_id@) {
                &&& r == PrewarmWait::Ready(old(self)@.resolved_inputs[item_id@])
                &&& final(self)@ == (LiveView {
                    resolved_inputs: old(self)@.resolved_inputs.remove(item_id@),
                    ..old(self)@
                })
            } else {
                &&& final(self)@ == old(self)@
                &&& r == if old(self)@.resolving_inputs.contains(item_id@) && waited_ms
                    < PREWARM_CACHE_WAIT_MAX_MS {
                    PrewarmWait::Wait
                } else {
                    PrewarmWait::Missed
                }
            },
    {
        let ghost before = self@;
        match self.take_resolved(item_id) {
            Some(input) => PrewarmWait::Ready(input),
            None => {
                proof {
                    assert(before.resolved_inputs.remove(item_id@) =~= before.resolved_inputs);
                }
                if self.is_resolving(item_id) && waited_ms < PREWARM_CACHE_WAIT_MAX_MS {
                    PrewarmWait::Wait
                } else {
                    PrewarmWait::Missed
                }
            },
        }
    }

    /// The item behind the given place that is to be resolved in advance: the first, where it
    /// neither was nor is being resolved. It is being resolved from then on.
    pub fn begin_prewarm(&mut self, index: usize) -> (r: Option<TrooznLiveItem>)
        ensures
            match prewarm_candidate(old(self)@, index) {
                Some(item) => {
                    &&& r matches Some(i) && i@ == item
                    &&& final(self)@ == (LiveView {
                        resolving_inputs: old(self)@.resolving_inputs.insert(item.item_id),
                        ..old(self)@
                    })
                },
                None => r is None && final(self)@ == old(self)@,
            },
    {
        let ghost before = self@;
        let ghost q = self@.queue;
        let mut i: usize = 0;
        proof {
            assert(q.skip(0) =~= q);
        }
        while i < self.queue.len() && !(self.queue[i].index > index)
            invariant
                self@ == before,
                q == items::item_views(self.queue@),
                i <= self.queue@.len(),
                first_behind(q, index) == first_behind(q.skip(i as int), index),
            decreases self.queue@.len() - i,
        {
            proof {
                assert(q.skip(i as int)[0] == self.queue@[i as int]@);
                assert(q.skip(i as int).skip(1) =~= q.skip(i + 1));
            }
            i += 1;
        }
        if i == self.queue.len() {
            return None;
        }
        let item = self.queue[i].clone();
        proof {
            assert(q.skip(i as int)[0] == item@);
        }
        if self.resolved_inputs.contains_key(&item.item_id) {
            return None;
        }
        let fresh = self.resolving_inputs.insert(item.item_id.clone());
        if !fresh {
            proof {
                assert(self@.resolving_inputs =~= before.resolving_inputs);
                assert(self@ =~= before);
            }
            return None;
        }
        proof {
            assert(self@ =~= (LiveView {
                resolving_inputs: before.resolving_inputs.insert(item@.item_id),
                ..before
            }));
        }
        Some(item)
    }

    /// Goes on after an item was resolved in advance, or could not be.
    pub fn finish_prewarm(&mut self, item_id: &str, found: Option<ResolvedMediaInput>)
        ensures
            final(self)@ == (LiveView {
                resolving_inputs: old(self)@.resolving_inputs.remove(item_id@),
                resolved_inputs: match found {
                    Some(input) => old(self)@.resolved_inputs.insert(item_id@, input),
                    None => old(self)@.resolved_inputs,
                },
                ..old(self)@
            }),
    {
        let ghost before = self@;
        let _ = self.resolving_inputs.remove(item_id);
        if let Some(input) = found {
            self.resolved_inputs.insert(item_id.to_string(), input);
        }
        proof {
            assert(self@ =~= (LiveView {
                resolving_inputs: before.resolving_inputs.remove(item_id@),
                resolved_inputs: match found {
                    Some(input) => before.resolved_inputs.insert(item_id@, input),
                    None => before.resolved_inputs,
                },
                ..before
            }));
        }
    }

    // -----------------------------------------------------------------------
    // Workers
    // -----------------------------------------------------------------------

    /// Makes every worker so far one of the past, and gives the generation of the next.
    pub fn bump_generation(&mut self) -> (r: u64)
        ensures
            final(self)@ == (LiveView { generation_id: r, ..old(self)@ }),
            r == if old(self)@.generation_id == u64::MAX {
                u64::MAX
            } else {
                (old(self)@.generation_id + 1) as u64
            },
    {
        let ghost before = self@;
        self.generation_id = self.generation_id.saturating_add(1);
        proof {
            assert(self@ =~= (LiveView { generation_id: self.generation_id, ..before }));
        }
        self.generation_id
    }

    /// The generation of the worker that is to be started, where none is running.
    pub fn claim_worker(&mut self) -> (r: Option<u64>)
        ensures
            r == if old(self)@.worker_running {
                None
            } else {
                Some(old(self)@.generation_id)
            },
            final(self)@ == (LiveView { worker_running: true, ..old(self)@ }),
    {
        let ghost before = self@;
        if self.worker_running {
            proof {
                assert(self@ =~= (LiveView { worker_running: true, ..before }));
            }
            return None;
        }
        self.worker_running = true;
        proof {
            assert(self@ =~= (LiveView { worker_running: true, ..before }));
        }
        Some(self.generation_id)
    }

    /// Notes that a worker failed.
    pub fn worker_failed(&mut self, message: &str)
        ensures
            final(self)@ == (LiveView {
                producer_now: NowView {
                    state: "error"@,
                    last_error: Some(message@),
                    ..old(self)@.producer_now
                },
                ..old(self)@
            }),
    {
        let ghost before = self@;
        self.producer_now.state = "error".to_string();
        self.producer_now.last_error = Some(message.to_string());
        proof {
            assert(self@ =~= (LiveView {
                producer_now: NowView {
                    state: "error"@,
                    last_error: Some(message@),
                    ..before.producer_now
                },
                ..before
            }));
        }
    }

    /// Notes that a worker ended: only that of the current generation counts.
    pub fn worker_exited(&mut self, generation: u64)
        ensures
            final(self)@ == if old(self)@.generation_id == generation {
                LiveView { worker_running: false, ..old(self)@ }
            } else {
                old(self)@
            },
    {
        let ghost before = self@;
        if self.generation_id == generation {
            self.worker_running = false;
            proof {
                assert(self@ =~= (LiveView { worker_running: false, ..before }));
            }
        }
    }

    /// Takes the encoder that is running, so that it can be stopped.
    pub fn take_ffmpeg(&mut self) -> (r: Option<ActiveFfmpeg>)
        ensures
            ffmpeg_view(r) == old(self)@.active_ffmpeg,
            final(self)@ == (LiveView { active_ffmpeg: None, ..old(self)@ }),
    {
        let ghost before = self@;
        let r = self.active_ffmpeg.take();
        proof {
            assert(self@ =~= (LiveView { active_ffmpeg: None, ..before }));
        }
        r
    }

    /// Takes the encoder that is running, where a worker of the given generation started it.
    pub fn take_ffmpeg_of(&mut self, generation: u64) -> (r: Option<ActiveFfmpeg>)
        ensures
            match old(self)@.active_ffmpeg {
                Some((g, _)) if g == generation => {
                    &&& ffmpeg_view(r) == old(self)@.active_ffmpeg
                    &&& final(self)@ == (LiveView { active_ffmpeg: None, ..old(self)@ })
                },
                _ => r is None && final(self)@ == old(self)@,
            },
    {
        let mine = match &self.active_ffmpeg {
            Some(a) => a.generation == generation,
            None => false,
        };
        if mine {
            self.take_ffmpeg()
        } else {
            None
        }
    }

    // -----------------------------------------------------------------------
    // Sessions
    // -----------------------------------------------------------------------

    /// Ends what is running because a session starts: workers are of the past, commands may run
    /// at the same time, and the encoder is given back so that it can be stopped.
    pub fn interrupt(&mut self) -> (r: Option<ActiveFfmpeg>)
        ensures
            ffmpeg_view(r) == old(self)@.active_ffmpeg,
            final(self)@ == interrupted(old(self)@),
    {
        let ghost before = self@;
        let r = self.take_ffmpeg();
        self.startup_boost = true;
        let _ = self.bump_generation();
        self.worker_running = false;
        proof {
            assert(self@ =~= interrupted(before));
        }
        r
    }

    /// Starts a session on an empty directory: nothing of the last one is kept but the queue,
    /// which stays until its successor is known.
    pub fn begin_session(&mut self, source_url: &str, now: u64)
        ensures
            final(self)@ == session_begun(old(self)@, source_url@, now),
    {
        let ghost before = self@;
        self.master_entries.clear();
        self.resolved_inputs.clear();
        self.resolving_inputs.clear();
        self.last_served_segment = None;
        self.media_sequence_base = 0;
        self.discontinuity_sequence_base = 0;
        self.last_cleanup_at = 0;
        self.session_id = numbers::decimal(now);
        self.playlist_name = links::playlist_name_for_source(source_url);
        self.playback_anchor_item = 1;
        proof {
            assert(self@ =~= session_begun(before, source_url@, now));
        }
    }

    /// Gives the session its queue, given whether the link looks like one to a playlist.
    pub fn fill_session(
        &mut self,
        source_url: &str,
        title: Option<String>,
        list: Vec<TrooznLiveItem>,
        playlist_like: bool,
        now: u64,
    )
        ensures
            final(self)@ == session_filled(
                old(self)@,
                source_url@,
                text::text_in(title),
                items::item_views(list@),
                playlist_like,
                now,
            ),
    {
        let ghost before = self@;
        let name = links::playlist_name_for_source(source_url);
        let full = list.len() >= extraction::PLAYLIST_PAGE_SIZE;
        proof {
            assert(items::item_views(list@).len() == list@.len());
        }
        let mut starting = TrooznLiveNow::default();
        starting.state = "starting".to_string();
        starting.title = match title {
            Some(t) => t,
            None => links::playlist_title_from_name(&name),
        };
        starting.source_url = source_url.to_string();
        starting.hls_url = text::concat3(PUBLIC_HLS_BASE_URL, "/", &name);
        starting.started_at = now;
        starting.media_type = links::media_type_text(source_url);
        self.queue = list;
        self.playback_now = starting.clone();
        self.producer_now = starting;
        self.playlist_refill = if playlist_like && full {
            Some(new_refill(source_url))
        } else {
            None
        };
        proof {
            assert(self@ =~= session_filled(
                before,
                source_url@,
                text::text_in(title),
                items::item_views(list@),
                playlist_like,
                now,
            ));
        }
    }

    /// Gives the session its queue: the items of the link, which start to be produced.
    pub fn start_youtube_live_queue(
        &mut self,
        source_url: &str,
        title: Option<String>,
        list: Vec<TrooznLiveItem>,
        now: u64,
    )
        ensures
            final(self)@ == session_filled(
                old(self)@,
                source_url@,
                text::text_in(title),
                items::item_views(list@),
                links::playlist_marked(text::unicode_lowercase(source_url@)),
                now,
            ),
    {
        let playlist_like = links::is_probably_playlist_url(source_url);
        self.fill_session(source_url, title, list, playlist_like, now)
    }

    /// Appends the items of a link to the queue and plays from the first of them, given whether
    /// the link looks like one to a playlist. No items are an error.
    pub fn extend_session(
        &mut self,
        source_url: &str,
        list: Vec<TrooznLiveItem>,
        playlist_like: bool,
    ) -> (r: Result<Vec<TrooznLiveItem>, String>)
        requires
            old(self).queue@.len() + list@.len() <= usize::MAX,
        ensures
            if list@.len() == 0 {
                &&& r matches Err(m) && m@ == "Aucun item ajouté à TROOZN Live"@
                &&& final(self)@ == old(self)@
            } else {
                &&& r matches Ok(added) && items::item_views(added@) == numbered_from(
                    old(self)@.queue.len(),
                    items::item_views(list@),
                )
                &&& final(self)@ == session_extended(
                    old(self)@,
                    source_url@,
                    items::item_views(list@),
                    playlist_like,
                )
            },
    {
        let ghost before = self@;
        let ghost lv = items::item_views(list@);
        let count: usize = list.len();
        proof {
            assert(lv.len() == count);
            assert(before.queue.len() == self.queue@.len());
        }
        if count == 0 {
            return Err("Aucun item ajouté à TROOZN Live".to_string());
        }
        let first: usize = self.queue.len() + 1;
        let added = self.append_items_to_queue(list);
        if playlist_like && count >= extraction::PLAYLIST_PAGE_SIZE {
            self.playlist_refill = Some(new_refill(source_url));
        }
        self.playback_anchor_item = first;
        if text::same(&self.producer_now.state, "ended") || text::same(
            &self.producer_now.state,
            "idle",
        ) {
            self.producer_now.state = "waiting".to_string();
            self.producer_now.last_error = Some("Nouveaux items ajoutés".to_string());
        }
        proof {
            assert(self@ =~= session_extended(before, source_url@, lv, playlist_like));
        }
        Ok(added)
    }

    /// Appends the items of a link to the queue and plays from the first of them. No items are an
    /// error.
    pub fn add_youtube_live_queue(
        &mut self,
        source_url: &str,
        list: Vec<TrooznLiveItem>,
    ) -> (r: Result<Vec<TrooznLiveItem>, String>)
        requires
            old(self).queue@.len() + list@.len() <= usize::MAX,
        ensures
            if list@.len() == 0 {
                &&& r matches Err(m) && m@ == "Aucun item ajouté à TROOZN Live"@
                &&& final(self)@ == old(self)@
            } else {
                &&& r matches Ok(added) && items::item_views(added@) == numbered_from(
                    old(self)@.queue.len(),
                    items::item_views(list@),
                )
                &&& final(self)@ == session_extended(
                    old(self)@,
                    source_url@,
                    items::item_views(list@),
                    links::playlist_marked(text::unicode_lowercase(source_url@)),
                )
            },
    {
        let playlist_like = links::is_probably_playlist_url(source_url);
        self.extend_session(source_url, list, playlist_like)
    }

    /// The answer to a request that started a session or extended one.
    pub fn submit_response(&self, queue: Vec<TrooznLiveItem>) -> (r: TrooznLiveSubmitResponse)
        ensures
            r.ok,
            r.hls_url@ == public_url(self@.playlist_name) + "?session="@ + self@.session_id,
            r.live_dir@ == self@.root_dir,
            r.count == queue@.len(),
            r.queue@ == queue@,
            r.now@ == if self@.playback_now.state == "playing"@ && self@.playback_now.index > 0 {
                self@.playback_now
            } else {
                self@.producer_now
            },
    {
        TrooznLiveSubmitResponse {
            ok: true,
            hls_url: self.current_hls_url(),
            live_dir: self.root_dir.clone(),
            count: queue.len(),
            queue,
            now: self.current_now(),
        }
    }

    // -----------------------------------------------------------------------
    // The start of a session
    // -----------------------------------------------------------------------

    /// Whether commands may run at the same time because a session is starting.
    pub fn ytdlp_startup_boost_active(&self) -> (r: bool)
        ensures
            r == self@.startup_boost,
    {
        self.startup_boost
    }

    /// Ends the start of a session where enough of it was produced: the second item has begun
    /// or, of a single item, three segments are there. Says whether it ended.
    pub fn maybe_finish_startup_boost(&mut self, item_index: usize, imported_segments: usize) -> (r:
        bool)
        ensures
            r == (old(self)@.startup_boost && session_started(
                old(self)@.queue.len(),
                item_index,
                imported_segments,
            )),
            final(self)@ == if r {
                LiveView { startup_boost: false, ..old(self)@ }
            } else {
                old(self)@
            },
    {
        let ghost before = self@;
        let n: usize = self.queue.len();
        proof {
            assert(before.queue.len() == n);
        }
        if !self.startup_boost {
            return false;
        }
        let ready = if n > 1 {
            item_index >= 2
        } else {
            imported_segments >= 3
        };
        if !ready {
            return false;
        }
        self.startup_boost = false;
        proof {
            assert(self@ =~= (LiveView { startup_boost: false, ..before }));
        }
        true
    }
}

/// The queue with an item in the place of the first that has the same identifier.
pub open spec fn replaced_item(queue: Seq<ItemView>, item: ItemView) -> Seq<ItemView>
    decreases queue.len(),
{
    if queue.len() == 0 {
        queue
    } else if queue[0].item_id == item.item_id {
        seq![item] + queue.skip(1)
    } else {
        seq![queue[0]] + replaced_item(queue.skip(1), item)
    }
}

/// The refill that is due behind the item `current_index`: where the queue goes on, but not by
/// more than a few items, and entries of the playlist are left and not being read.
pub open spec fn refill_due(s: LiveView, current_index: usize) -> Option<RefillView> {
    if s.queue.len() <= current_index || s.queue.len() - current_index
        > PLAYLIST_REFILL_THRESHOLD {
        None
    } else {
        match s.playlist_refill {
            Some(f) if !f.exhausted && !f.active => Some(f),
            _ => None,
        }
    }
}

/// The state after entries of the playlist were read.
pub open spec fn refilled(s: LiveView, start: usize, outcome: Extracted) -> LiveView {
    match outcome {
        Ok(list) if list@.len() > 0 => LiveView {
            queue: s.queue + numbered_from(s.queue.len(), items::item_views(list@)),
            playlist_refill: match s.playlist_refill {
                Some(f) => Some(
                    RefillView {
                        next_start: (start + list@.len()) as usize,
                        active: false,
                        exhausted: f.exhausted || list@.len() < extraction::PLAYLIST_PAGE_SIZE,
                        ..f
                    },
                ),
                None => None,
            },
            ..s
        },
        Ok(_) => LiveView {
            playlist_refill: match s.playlist_refill {
                Some(f) => Some(RefillView { exhausted: true, active: false, ..f }),
                None => None,
            },
            ..s
        },
        Err(_) => LiveView {
            playlist_refill: match s.playlist_refill {
                Some(f) => Some(RefillView { active: false, ..f }),
                None => None,
            },
            ..s
        },
    }
}

/// How the wait for an item that is being resolved in advance goes on.
pub enum PrewarmWait {
    /// The item was resolved.
    Ready(ResolvedMediaInput),
    /// The item is still being resolved.
    Wait,
    /// The item was not resolved, or not in time.
    Missed,
}

/// The first item behind the given place.
pub open spec fn first_behind(queue: Seq<ItemView>, index: usize) -> Option<ItemView>
    decreases queue.len(),
{
    if queue.len() == 0 {
        None
    } else if queue[0].index > index {
        Some(queue[0])
    } else {
        first_behind(queue.skip(1), index)
    }
}

/// The item that is to be resolved in advance.
pub open spec fn prewarm_candidate(s: LiveView, index: usize) -> Option<ItemView> {
    match first_behind(s.queue, index) {
        Some(item) if !s.resolved_inputs.contains_key(item.item_id)
            && !s.resolving_inputs.contains(item.item_id) => Some(item),
        _ => None,
    }
}

/// The state once what was running has ended because a session starts.
pub open spec fn interrupted(s: LiveView) -> LiveView {
    LiveView {
        active_ffmpeg: None,
        startup_boost: true,
        worker_running: false,
        generation_id: if s.generation_id == u64::MAX {
            u64::MAX
        } else {
            (s.generation_id + 1) as u64
        },
        ..s
    }
}

/// The state once a session has started on an empty directory.
pub open spec fn session_begun(s: LiveView, source_url: Seq<char>, now: u64) -> LiveView {
    LiveView {
        master_entries: Seq::empty(),
        resolved_inputs: Map::empty(),
        resolving_inputs: Set::empty(),
        last_served_segment: None,
        media_sequence_base: 0,
        discontinuity_sequence_base: 0,
        last_cleanup_at: 0,
        session_id: numbers::dec(now as nat),
        playlist_name: links::playlist_name(source_url),
        playback_anchor_item: 1,
        ..s
    }
}

/// The state of a session that got its queue.
pub open spec fn session_filled(
    s: LiveView,
    url: Seq<char>,
    title: Option<Seq<char>>,
    list: Seq<ItemView>,
    playlist_like: bool,
    now: u64,
) -> LiveView {
    let name = links::playlist_name(url);
    let starting = NowView {
        state: "starting"@,
        title: items::text_or(title, links::playlist_title(name)),
        source_url: url,
        hls_url: public_url(name),
        started_at: now,
        media_type: links::media_type_of_link(url),
        ..blank_now()
    };
    LiveView {
        queue: list,
        producer_now: starting,
        playback_now: starting,
        playlist_refill: if playlist_like && list.len() >= extraction::PLAYLIST_PAGE_SIZE {
            Some(fresh_refill(url))
        } else {
            None
        },
        ..s
    }
}

/// The state of a session that got further items.
pub open spec fn session_extended(
    s: LiveView,
    url: Seq<char>,
    list: Seq<ItemView>,
    playlist_like: bool,
) -> LiveView {
    LiveView {
        queue: s.queue + numbered_from(s.queue.len(), list),
        playlist_refill: if playlist_like && list.len() >= extraction::PLAYLIST_PAGE_SIZE {
            Some(fresh_refill(url))
        } else {
            s.playlist_refill
        },
        playback_anchor_item: (s.queue.len() + 1) as usize,
        producer_now: if s.producer_now.state == "ended"@ || s.producer_now.state == "idle"@ {
            NowView {
                state: "waiting"@,
                last_error: Some("Nouveaux items ajoutés"@),
                ..s.producer_now
            }
        } else {
            s.producer_now
        },
        ..s
    }
}

/// Enough of a session was produced that it is no longer starting.
pub open spec fn session_started(
    queue_len: nat,
    item_index: usize,
    imported_segments: usize,
) -> bool {
    if queue_len > 1 {
        item_index >= 2
    } else {
        imported_segments >= 3
    }
}

/// A request to start a session or to extend one.
#[derive(Debug)]
pub struct TrooznLiveSubmitRequest {
    /// The link.
    pub url: String,
    /// The title of the session.
    pub title: Option<String>,
    /// How many items are queued at most.
    pub limit: Option<usize>,
}

/// The answer to a request that started a session or extended one.
pub struct TrooznLiveSubmitResponse {
    /// Whether the request was met.
    pub ok: bool,
    /// The address of the playlist.
    pub hls_url: String,
    /// The directory of the stream.
    pub live_dir: String,
    /// How many items were queued.
    pub count: usize,
    /// The items that were queued.
    pub queue: Vec<TrooznLiveItem>,
    /// What is produced or played.
    pub now: TrooznLiveNow,
}

// ---------------------------------------------------------------------------
// Laws
// ---------------------------------------------------------------------------

/// The items of the queue are numbered from 1 without a gap.
pub open spec fn queue_numbered(queue: Seq<ItemView>) -> bool {
    forall|i: int| 0 <= i < queue.len() ==> (#[trigger] queue[i]).index == i + 1
}

/// A queue stays numbered without a gap when items are appended, by a request or by a refill.
pub proof fn law_queue_stays_numbered(
    s: LiveView,
    url: Seq<char>,
    list: Seq<ItemView>,
    playlist_like: bool,
    start: usize,
    outcome: Extracted,
)
    requires
        queue_numbered(s.queue),
        s.queue.len() + list.len() <= usize::MAX,
        outcome matches Ok(l) ==> s.queue.len() + l@.len() <= usize::MAX,
    ensures
        queue_numbered(session_extended(s, url, list, playlist_like).queue),
        queue_numbered(refilled(s, start, outcome).queue),
{
}

/// A refill that is being read is not started again: it is due only once until it is finished.
pub proof fn law_refill_is_not_doubled(s: LiveView, current_index: usize, other_index: usize)
    requires
        refill_due(s, current_index) is Some,
    ensures
        refill_due(
            LiveView {
                playlist_refill: Some(
                    RefillView { active: true, ..refill_due(s, current_index)->0 },
                ),
                ..s
            },
            other_index,
        ) is None,
{
}

/// A playlist that was read to its end is not read again, whatever comes.
pub proof fn law_exhausted_stays(s: LiveView, start: usize, outcome: Extracted, index: usize)
    requires
        s.playlist_refill matches Some(f) && f.exhausted,
    ensures
        refilled(s, start, outcome).playlist_refill matches Some(f) && f.exhausted,
        refill_due(refilled(s, start, outcome), index) is None,
{
}

/// Without errors the pages of a playlist follow one another without gap or overlap: the next
/// page starts behind the last entry that was queued.
pub proof fn law_pages_follow(s: LiveView, start: usize, outcome: Extracted)
    requires
        s.playlist_refill is Some,
        outcome matches Ok(list) && list@.len() > 0 && start + list@.len() <= usize::MAX,
    ensures
        refilled(s, start, outcome).playlist_refill->0.next_start == start + outcome->Ok_0@.len(),
        refilled(s, start, outcome).queue.len() == s.queue.len() + outcome->Ok_0@.len(),
{
}

/// Items that are queued keep what they are and their order; they get the numbers that follow
/// those of the queue.
pub proof fn law_queued_items_are_numbered_on(base: nat, list: Seq<ItemView>, i: int)
    requires
        0 <= i < list.len(),
        base + list.len() <= usize::MAX,
    ensures
        numbered_from(base, list).len() == list.len(),
        numbered_from(base, list)[i].index == base + i + 1,
        numbered_from(base, list)[i].title == list[i].title,
        numbered_from(base, list)[i].source_url == list[i].source_url,
        numbered_from(base, list)[i].item_id == list[i].item_id,
        numbered_from(base, list)[i].duration == list[i].duration,
        numbered_from(base, list)[i].thumbnail == list[i].thumbnail,
        numbered_from(base, list)[i].channel == list[i].channel,
        numbered_from(base, list)[i].description == list[i].description,
        numbered_from(base, list)[i].upload_date == list[i].upload_date,
        numbered_from(base, list)[i].uploader == list[i].uploader,
{
}

/// The item behind a place is the first of the queue with a greater number, and its title is the
/// title that follows; there is none exactly where no item has a greater number.
pub proof fn law_first_behind(queue: Seq<ItemView>, index: usize)
    ensures
        match first_behind(queue, index) {
            Some(item) => exists|k: int|
                0 <= k < queue.len() && #[trigger] queue[k] == item && item.index > index && (
                forall|j: int| 0 <= j < k ==> (#[trigger] queue[j]).index <= index),
            None => forall|j: int| 0 <= j < queue.len() ==> (#[trigger] queue[j]).index <= index,
        },
        match first_behind(queue, index) {
            Some(item) => next_title_in(queue, index) == Some(item.title),
            None => next_title_in(queue, index) is None,
        },
    decreases queue.len(),
{
    if queue.len() > 0 {
        if queue[0].index <= index {
            let rest = queue.skip(1);
            law_first_behind(rest, index);
            match first_behind(rest, index) {
                Some(item) => {
                    let k = choose|k: int|
                        0 <= k < rest.len() && #[trigger] rest[k] == item && item.index > index && (
                        forall|j: int| 0 <= j < k ==> (#[trigger] rest[j]).index <= index);
                    assert(queue[k + 1] == item);
                    assert forall|j: int| 0 <= j < k + 1 implies (#[trigger] queue[j]).index
                        <= index by {
                        if j > 0 {
                            assert(rest[j - 1] == queue[j]);
                        }
                    }
                },
                None => {
                    assert forall|j: int| 0 <= j < queue.len() implies (#[trigger] queue[j]).index
                        <= index by {
                        if j > 0 {
                            assert(rest[j - 1] == queue[j]);
                        }
                    }
                },
            }
        } else {
            assert(queue[0] == first_behind(queue, index)->0);
        }
    }
}

/// In a queue that is numbered without a gap the item behind a place is the next one.
pub proof fn law_next_item_follows(queue: Seq<ItemView>, index: usize)
    requires
        queue_numbered(queue),
    ensures
        index < queue.len() ==> first_behind(queue, index) == Some(queue[index as int]),
        index >= queue.len() ==> first_behind(queue, index) is None,
{
    law_first_behind(queue, index);
    if index < queue.len() {
        assert(queue[index as int].index == index + 1);
        let item = first_behind(queue, index)->0;
        let k = choose|k: int|
            0 <= k < queue.len() && #[trigger] queue[k] == item && item.index > index && (forall|
                j: int,
            | 0 <= j < k ==> (#[trigger] queue[j]).index <= index);
        assert(queue[k].index == k + 1);
    } else if first_behind(queue, index) is Some {
        let item = first_behind(queue, index)->0;
        let k = choose|k: int| 0 <= k < queue.len() && #[trigger] queue[k] == item;
        assert(queue[k].index == k + 1);
    }
}

/// An item takes the place of the first that has its identifier; the others stay where and what
/// they are.
pub proof fn law_replaced_item(queue: Seq<ItemView>, item: ItemView, k: int)
    requires
        0 <= k < queue.len(),
    ensures
        replaced_item(queue, item).len() == queue.len(),
        queue[k].item_id != item.item_id ==> replaced_item(queue, item)[k] == queue[k],
        queue[k].item_id == item.item_id && (forall|j: int|
            0 <= j < k ==> (#[trigger] queue[j]).item_id != item.item_id) ==> replaced_item(
            queue,
            item,
        )[k] == item,
        (exists|j: int| 0 <= j < k && (#[trigger] queue[j]).item_id == item.item_id)
            ==> replaced_item(queue, item)[k] == queue[k],
    decreases queue.len(),
{
    lemma_replaced_len(queue, item);
    let rest = queue.skip(1);
    let r = replaced_item(queue, item);
    if queue[0].item_id == item.item_id {
        assert(r =~= seq![item] + rest);
    } else if k > 0 {
        law_replaced_item(rest, item, k - 1);
        assert(r =~= seq![queue[0]] + replaced_item(rest, item));
        assert(rest[k - 1] == queue[k]);
        if exists|j: int| 0 <= j < k && (#[trigger] queue[j]).item_id == item.item_id {
            let j = choose|j: int| 0 <= j < k && (#[trigger] queue[j]).item_id == item.item_id;
            assert(rest[j - 1].item_id == item.item_id);
        }
        if forall|j: int| 0 <= j < k ==> (#[trigger] queue[j]).item_id != item.item_id {
            assert forall|j: int| 0 <= j < k - 1 implies (#[trigger] rest[j]).item_id
                != item.item_id by {
                assert(queue[j + 1] == rest[j]);
            }
        }
    }
}

proof fn lemma_replaced_len(queue: Seq<ItemView>, item: ItemView)
    ensures
        replaced_item(queue, item).len() == queue.len(),
    decreases queue.len(),
{
    if queue.len() > 0 {
        lemma_replaced_len(queue.skip(1), item);
    }
}

/// Further entries of a playlist are read while one to five items of the queue are left, and there
/// are entries that were neither read nor are being read.
pub proof fn law_refill_is_due(s: LiveView, current_index: usize)
    ensures
        refill_due(s, current_index) is Some <==> ({
            &&& 1 <= s.queue.len() - current_index <= 5
            &&& s.playlist_refill matches Some(f) && !f.exhausted && !f.active
        }),
        refill_due(s, current_index) is Some ==> refill_due(s, current_index) == s.playlist_refill,
{
}

/// What was read is appended to the queue. A page that is not full ends the playlist, and so does
/// an empty one; an error ends nothing and is tried again from the same place.
pub proof fn law_refill_appends(s: LiveView, start: usize, outcome: Extracted)
    requires
        s.playlist_refill is Some,
        outcome matches Ok(list) ==> start + list@.len() <= usize::MAX,
    ensures
        ({
            let t = refilled(s, start, outcome);
            &&& t.playlist_refill matches Some(f) && !f.active && f.source_url
                == s.playlist_refill->0.source_url
            &&& s.queue.is_prefix_of(t.queue)
            &&& t.master_entries == s.master_entries && t.generation_id == s.generation_id
            &&& outcome is Err ==> t.queue == s.queue && t.playlist_refill->0.next_start
                == s.playlist_refill->0.next_start && t.playlist_refill->0.exhausted
                == s.playlist_refill->0.exhausted
            &&& outcome matches Ok(list) ==> {
                &&& t.queue.len() == s.queue.len() + list@.len()
                &&& list@.len() < 20 ==> t.playlist_refill->0.exhausted
                &&& list@.len() >= 20 ==> t.playlist_refill->0.exhausted
                    == s.playlist_refill->0.exhausted
                &&& forall|i: int|
                    0 <= i < list@.len() ==> t.queue[s.queue.len() + i].title
                        == (#[trigger] list@[i])@.title && t.queue[s.queue.len() + i].source_url
                        == list@[i]@.source_url
            }
        }),
{
    if let Ok(list) = outcome {
        let t = refilled(s, start, outcome);
        assert(items::item_views(list@).len() == list@.len());
        assert forall|i: int| 0 <= i < list@.len() implies t.queue[s.queue.len() + i].title
            == (#[trigger] list@[i])@.title && t.queue[s.queue.len() + i].source_url
            == list@[i]@.source_url by {
            assert(items::item_views(list@)[i] == list@[i]@);
        }
    }
}

/// The item that is resolved in advance is the next one of the queue, unless that was resolved or
/// is being resolved.
pub proof fn law_next_item_is_prewarmed(s: LiveView, index: usize)
    requires
        queue_numbered(s.queue),
    ensures
        index >= s.queue.len() ==> prewarm_candidate(s, index) is None,
        index < s.queue.len() ==> ({
            let next = s.queue[index as int];
            if s.resolved_inputs.contains_key(next.item_id) || s.resolving_inputs.contains(
                next.item_id,
            ) {
                prewarm_candidate(s, index) is None
            } else {
                prewarm_candidate(s, index) == Some(next)
            }
        }),
{
    law_next_item_follows(s.queue, index);
}

/// A session that starts ends what was running and begins with nothing: no segment, nothing
/// served, nothing resolved, and the counts of what was dropped at zero.
pub proof fn law_session_starts_empty(s: LiveView, url: Seq<char>, now: u64)
    ensures
        ({
            let t = session_begun(interrupted(s), url, now);
            &&& t.active_ffmpeg is None && !t.worker_running && t.startup_boost
            &&& s.generation_id < u64::MAX ==> t.generation_id == s.generation_id + 1
            &&& t.master_entries.len() == 0
            &&& t.resolved_inputs.dom() =~= Set::empty() && t.resolving_inputs =~= Set::empty()
            &&& t.last_served_segment is None
            &&& t.media_sequence_base == 0 && t.discontinuity_sequence_base == 0
            &&& t.playback_anchor_item == 1
            &&& t.session_id == numbers::dec(now as nat)
            &&& t.playlist_name == links::playlist_name(url)
            &&& t.root_dir == s.root_dir
        }),
{
}

/// A session that got its queue holds exactly the items of the request, is told of under the title
/// of the request where there is one, and goes on reading where the link leads to a playlist of
/// which a whole page was read.
pub proof fn law_session_is_filled(
    s: LiveView,
    url: Seq<char>,
    title: Option<Seq<char>>,
    list: Seq<ItemView>,
    playlist_like: bool,
    now: u64,
)
    ensures
        ({
            let t = session_filled(s, url, title, list, playlist_like, now);
            &&& t.queue == list
            &&& t.producer_now == t.playback_now
            &&& t.producer_now.state == "starting"@
            &&& t.producer_now.source_url == url
            &&& t.producer_now.hls_url == public_url(links::playlist_name(url))
            &&& t.producer_now.started_at == now
            &&& title matches Some(x) ==> t.producer_now.title == x
            &&& t.master_entries == s.master_entries && t.generation_id == s.generation_id
            &&& t.playlist_refill is Some <==> playlist_like && list.len() >= 20
            &&& t.playlist_refill matches Some(f) ==> f.source_url == url && f.next_start == 21
                && !f.exhausted && !f.active
        }),
{
}

/// A request that extends a session appends its items and moves the start of playback to the first
/// of them; what was queued stays.
pub proof fn law_session_is_extended(
    s: LiveView,
    url: Seq<char>,
    list: Seq<ItemView>,
    playlist_like: bool,
)
    requires
        s.queue.len() + list.len() < usize::MAX,
    ensures
        ({
            let t = session_extended(s, url, list, playlist_like);
            &&& s.queue.is_prefix_of(t.queue)
            &&& t.queue.len() == s.queue.len() + list.len()
            &&& t.playback_anchor_item == s.queue.len() + 1
            &&& list.len() > 0 ==> t.queue[s.queue.len() as int].index == t.playback_anchor_item
                && t.queue[s.queue.len() as int].title == list[0].title
            &&& t.master_entries == s.master_entries && t.playback_now == s.playback_now
            &&& s.producer_now.state == "ended"@ ==> t.producer_now.state == "waiting"@
            &&& s.producer_now.state == "idle"@ ==> t.producer_now.state == "waiting"@
            &&& s.producer_now.state != "ended"@ && s.producer_now.state != "idle"@
                ==> t.producer_now == s.producer_now
            &&& playlist_like && list.len() >= 20 ==> t.playlist_refill == Some(
                RefillView { source_url: url, next_start: 21, exhausted: false, active: false },
            )
            &&& !playlist_like || list.len() < 20 ==> t.playlist_refill == s.playlist_refill
        }),
{
}

/// A session of several items is past its start with its second item, and one of a single item
/// with its third segment.
pub proof fn law_session_start_ends(queue_len: nat, item_index: usize, imported_segments: usize)
    ensures
        queue_len >= 2 ==> (session_started(queue_len, item_index, imported_segments) <==> item_index
            >= 2),
        queue_len <= 1 ==> (session_started(queue_len, item_index, imported_segments)
            <==> imported_segments >= 3),
{
}

/// The address of a playlist is that of the directory, with the name behind a slash.
pub proof fn law_public_url(name: Seq<char>)
    ensures
        public_url(name) == "http://127.0.0.1:8787/troozn-live/"@ + name,
        public_url(DEFAULT_PLAYLIST_NAME@) == DEFAULT_PUBLIC_HLS_URL@,
{
    reveal_strlit("http://127.0.0.1:8787/troozn-live");
    reveal_strlit("/");
    reveal_strlit("http://127.0.0.1:8787/troozn-live/");
    reveal_strlit("Playlist_Troozn.m3u8");
    reveal_strlit("http://127.0.0.1:8787/troozn-live/Playlist_Troozn.m3u8");
    let base = "http://127.0.0.1:8787/troozn-live/"@;
    assert(base =~= PUBLIC_HLS_BASE_URL@ + "/"@);
    assert(public_url(name) =~= base + name);
    assert(base + DEFAULT_PLAYLIST_NAME@ =~= DEFAULT_PUBLIC_HLS_URL@);
}

/// Before the first session nothing is queued, nothing runs and nothing was served, and nothing is
/// produced or played.
pub proof fn law_nothing_at_first(now: u64)
    ensures
        ({
            let s = initial_state(now);
            &&& s.queue.len() == 0 && s.master_entries.len() == 0
            &&& s.active_ffmpeg is None && !s.worker_running && !s.startup_boost
            &&& s.last_served_segment is None && s.playlist_refill is None
            &&& s.media_sequence_base == 0 && s.discontinuity_sequence_base == 0
            &&& s.generation_id == 0 && s.playback_anchor_item == 1
            &&& s.producer_now == s.playback_now
            &&& s.producer_now.state == "idle"@ && s.producer_now.title.len() == 0
            &&& s.producer_now.hls_url == public_url(s.playlist_name)
            &&& s.producer_now.index == 0 && s.producer_now.position == 0
            &&& s.session_id == numbers::dec(now as nat)
            &&& queue_numbered(s.queue)
        }),
{
    law_public_url(DEFAULT_PLAYLIST_NAME@);
}

} // verus!
