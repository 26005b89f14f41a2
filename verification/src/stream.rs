//! The segments of the live stream: taking them over from the encoder, serving them, and removing
//! those that were played.
use vstd::prelude::*;

use crate::hls::{EntryView, MasterEntry};
use crate::hls;
use crate::items::ItemView;
use crate::items;
use crate::links;
use crate::live::{LiveView, NowView, TrooznLive, TrooznLiveNow};
use crate::live;
use crate::numbers;
use crate::order::SortKey;
use crate::order;
use crate::text;
use crate::text::CharSet;

verus! {

/// More than this in the directory of the stream is too much, in bytes.
pub const LIVE_MAX_DIR_BYTES: u64 = 536_870_912;

/// To this a directory that holds too much is brought down, in bytes.
pub const LIVE_TARGET_DIR_BYTES: u64 = 402_653_184;

/// How often old files are removed, in seconds.
pub const LIVE_CLEANUP_INTERVAL_SECONDS: u64 = 3;

/// How old a file that nothing refers to becomes, in seconds.
pub const LIVE_ORPHAN_GRACE_SECONDS: u64 = 45;

/// How old a temporary file becomes, in seconds.
pub const LIVE_TMP_GRACE_SECONDS: u64 = 20;

/// How long the producer waits for the player, in seconds.
pub const LIVE_AHEAD_WAIT_MAX_SECONDS: u64 = 90;

/// The items up to this place are produced without waiting for the player.
pub const STARTUP_BOOST_PREPARE_THROUGH_ITEM_INDEX: usize = 2;

// ---------------------------------------------------------------------------
// The buffer
// ---------------------------------------------------------------------------

/// The segment is still to be played: it belongs to the played item or a later one, and lies
/// behind the segment that was served last.
pub open spec fn is_ahead(s: LiveView, e: EntryView) -> bool {
    let anchor = if s.playback_now.index > 0 {
        s.playback_now.index
    } else {
        s.playback_anchor_item
    };
    &&& e.item_index >= anchor
    &&& match s.last_served_segment {
        None => true,
        Some((item, segment)) => if e.item_index == item {
            match hls::segment_numbers(e.segment) {
                Some((_, n)) => n > segment,
                None => false,
            }
        } else {
            e.item_index > item
        },
    }
}

/// The durations of segments.
pub open spec fn durations_of(entries: Seq<EntryView>) -> Seq<Seq<char>> {
    entries.map_values(|e: EntryView| e.duration)
}

/// The segments of an item that lie before the one with the given name; all of them where none
/// has it.
pub open spec fn before_segment(
    entries: Seq<EntryView>,
    item_index: usize,
    name: Seq<char>,
) -> Seq<EntryView>
    decreases entries.len(),
{
    if entries.len() == 0 {
        Seq::empty()
    } else if entries[0].item_index != item_index {
        before_segment(entries.skip(1), item_index, name)
    } else if entries[0].segment == name {
        Seq::empty()
    } else {
        seq![entries[0]] + before_segment(entries.skip(1), item_index, name)
    }
}

/// The first item with the given place.
pub open spec fn item_at(queue: Seq<ItemView>, index: nat) -> Option<ItemView>
    decreases queue.len(),
{
    if queue.len() == 0 {
        None
    } else if queue[0].index == index {
        Some(queue[0])
    } else {
        item_at(queue.skip(1), index)
    }
}

/// An item is played from the position, in seconds.
pub open spec fn playing_now(s: LiveView, item: ItemView, position: u64, now: u64) -> NowView {
    NowView {
        state: "playing"@,
        title: item.title,
        source_url: item.source_url,
        hls_url: live::public_url(s.playlist_name),
        item_id: item.item_id,
        index: item.index,
        position,
        duration: item.duration,
        thumbnail: item.thumbnail,
        channel: item.channel,
        description: item.description,
        upload_date: item.upload_date,
        uploader: item.uploader,
        started_at: now,
        item_started_at: if now < position {
            0
        } else {
            (now - position) as u64
        },
        next_title: live::next_title_in(s.queue, item.index),
        last_error: None,
        media_type: Some(items::text_or(links::media_type_of_link(item.source_url), "video"@)),
        buffer_seconds: None,
        buffer_segments: None,
    }
}

/// The state after a file was served: the name of a segment moves what is played there.
pub open spec fn served(s: LiveView, relative: Seq<char>, position: u64, now: u64) -> LiveView {
    match hls::segment_numbers(relative) {
        None => s,
        Some((item, segment)) => {
            let t = LiveView {
                last_served_segment: Some((item as usize, segment as usize)),
                ..s
            };
            match item_at(s.queue, item) {
                None => t,
                Some(found) => LiveView {
                    playback_now: playing_now(s, found, position, now),
                    ..t
                },
            }
        },
    }
}

impl TrooznLive {
    /// Whether a segment is still to be played.
    fn entry_is_ahead(&self, e: &MasterEntry) -> (r: bool)
        ensures
            r == is_ahead(self@, e@),
    {
        let anchor: usize = if self.playback_now.index > 0 {
            self.playback_now.index
        } else {
            self.playback_anchor_item
        };
        if e.item_index < anchor {
            return false;
        }
        match self.last_served_segment {
            None => true,
            Some((item, segment)) => {
                if e.item_index < item {
                    return false;
                }
                if e.item_index == item {
                    match hls::parse_item_segment_name(&e.segment) {
                        Some((_, n)) => n > segment,
                        None => false,
                    }
                } else {
                    true
                }
            },
        }
    }

    /// The durations of the segments that are still to be played, as the encoder wrote them.
    pub fn buffered_durations(&self) -> (r: Vec<String>)
        ensures
            text::texts(r@) == durations_of(
                self@.master_entries.filter(|e: EntryView| is_ahead(self@, e)),
            ),
    {
        let ghost keep = |e: EntryView| is_ahead(self@, e);
        let ghost v = self@.master_entries;
        let mut r: Vec<String> = Vec::new();
        let mut i: usize = 0;
        proof {
            text::lemma_filter_all(v.take(0), keep);
            assert(text::texts(r@) =~= durations_of(v.take(0).filter(keep)));
        }
        while i < self.master_entries.len()
            invariant
                keep == (|e: EntryView| is_ahead(self@, e)),
                v == hls::entry_views(self.master_entries@),
                i <= self.master_entries@.len(),
                text::texts(r@) == durations_of(v.take(i as int).filter(keep)),
            decreases self.master_entries@.len() - i,
        {
            let ghost before = text::texts(r@);
            proof {
                text::lemma_filter_push(v.take(i as int), v[i as int], keep);
                assert(v.take(i + 1) =~= v.take(i as int).push(v[i as int]));
            }
            if self.entry_is_ahead(&self.master_entries[i]) {
                r.push(self.master_entries[i].duration.clone());
                proof {
                    assert(text::texts(r@) =~= before.push(v[i as int].duration));
                    assert(durations_of(v.take(i as int).filter(keep).push(v[i as int]))
                        =~= durations_of(v.take(i as int).filter(keep)).push(
                        v[i as int].duration,
                    ));
                }
            }
            i += 1;
        }
        proof {
            assert(v.take(i as int) =~= v);
        }
        r
    }

    /// Notes how much is buffered: the bits of a number of seconds, and segments.
    pub fn refresh_buffer_status(&mut self, buffer_seconds: u64, buffer_segments: usize)
        ensures
            final(self)@ == (LiveView {
                producer_now: NowView {
                    buffer_seconds: Some(buffer_seconds),
                    buffer_segments: Some(buffer_segments),
                    ..old(self)@.producer_now
                },
                playback_now: NowView {
                    buffer_seconds: Some(buffer_seconds),
                    buffer_segments: Some(buffer_segments),
                    ..old(self)@.playback_now
                },
                ..old(self)@
            }),
    {
        let ghost before = self@;
        self.producer_now.buffer_seconds = Some(buffer_seconds);
        self.producer_now.buffer_segments = Some(buffer_segments);
        self.playback_now.buffer_seconds = Some(buffer_seconds);
        self.playback_now.buffer_segments = Some(buffer_segments);
        proof {
            assert(self@ =~= (LiveView {
                producer_now: NowView {
                    buffer_seconds: Some(buffer_seconds),
                    buffer_segments: Some(buffer_segments),
                    ..before.producer_now
                },
                playback_now: NowView {
                    buffer_seconds: Some(buffer_seconds),
                    buffer_segments: Some(buffer_segments),
                    ..before.playback_now
                },
                ..before
            }));
        }
    }

    /// The durations of the segments of an item that lie before the one with the given name.
    pub fn durations_before(&self, item_index: usize, relative: &str) -> (r: Vec<String>)
        ensures
            text::texts(r@) == durations_of(
                before_segment(self@.master_entries, item_index, relative@),
            ),
    {
        let ghost v = self@.master_entries;
        let mut r: Vec<String> = Vec::new();
        let mut i: usize = 0;
        proof {
            assert(v.skip(0) =~= v);
            assert(text::texts(r@) + durations_of(before_segment(v, item_index, relative@))
                =~= durations_of(before_segment(v, item_index, relative@)));
        }
        while i < self.master_entries.len()
            invariant
                v == hls::entry_views(self.master_entries@),
                i <= self.master_entries@.len(),
                text::texts(r@) + durations_of(
                    before_segment(v.skip(i as int), item_index, relative@),
                ) == durations_of(before_segment(v, item_index, relative@)),
            decreases self.master_entries@.len() - i,
        {
            let ghost before = text::texts(r@);
            let ghost rest = v.skip(i as int);
            proof {
                assert(rest[0] == self.master_entries@[i as int]@);
                assert(rest.skip(1) =~= v.skip(i + 1));
            }
            if self.master_entries[i].item_index == item_index {
                if text::same(&self.master_entries[i].segment, relative) {
                    proof {
                        assert(before + durations_of(Seq::<EntryView>::empty()) =~= before);
                    }
                    return r;
                }
                r.push(self.master_entries[i].duration.clone());
                proof {
                    let tail = before_segment(v.skip(i + 1), item_index, relative@);
                    assert(text::texts(r@) =~= before.push(rest[0].duration));
                    assert(before + durations_of(seq![rest[0]] + tail) =~= text::texts(r@)
                        + durations_of(tail));
                }
            }
            i += 1;
        }
        proof {
            assert(v.skip(i as int) =~= Seq::<EntryView>::empty());
            assert(text::texts(r@) + durations_of(Seq::<EntryView>::empty()) =~= text::texts(r@));
        }
        r
    }

    /// Notes that a file was served: the name of a segment moves what is played there. `position`
    /// is where the segment starts within its item, in seconds.
    pub fn note_segment_served(&mut self, relative: &str, position: u64, now: u64)
        ensures
            final(self)@ == served(old(self)@, relative@, position, now),
    {
        let ghost before = self@;
        let (item_index, segment) = match hls::parse_item_segment_name(relative) {
            Some(numbers) => numbers,
            None => {
                return;
            },
        };
        self.last_served_segment = Some((item_index, segment));
        let ghost q = before.queue;
        let mut i: usize = 0;
        proof {
            assert(q.skip(0) =~= q);
        }
        while i < self.queue.len() && self.queue[i].index != item_index
            invariant
                q == items::item_views(self.queue@),
                i <= self.queue@.len(),
                item_at(q, item_index as nat) == item_at(q.skip(i as int), item_index as nat),
                self@ == (LiveView {
                    last_served_segment: Some((item_index, segment)),
                    ..before
                }),
            decreases self.queue@.len() - i,
        {
            proof {
                assert(q.skip(i as int)[0] == self.queue@[i as int]@);
                assert(q.skip(i as int).skip(1) =~= q.skip(i + 1));
            }
            i += 1;
        }
        if i == self.queue.len() {
            proof {
                assert(self@ =~= served(before, relative@, position, now));
            }
            return;
        }
        let item = self.queue[i].clone();
        proof {
            assert(q.skip(i as int)[0] == item@);
        }
        let media_type = match links::media_type_text(&item.source_url) {
            Some(t) => t,
            None => "video".to_string(),
        };
        let next_title = self.next_title_after(item.index);
        let hls_url = self.current_public_hls_url();
        self.playback_now = TrooznLiveNow {
            state: "playing".to_string(),
            title: item.title,
            source_url: item.source_url,
            hls_url,
            item_id: item.item_id,
            index: item.index,
            position,
            duration: item.duration,
            thumbnail: item.thumbnail,
            channel: item.channel,
            description: item.description,
            upload_date: item.upload_date,
            uploader: item.uploader,
            started_at: now,
            item_started_at: now.saturating_sub(position),
            next_title,
            last_error: None,
            media_type: Some(media_type),
            buffer_seconds: None,
            buffer_segments: None,
        };
        proof {
            assert(self.playback_now@ =~= playing_now(before, q.skip(i as int)[0], position, now));
            assert(self@ =~= served(before, relative@, position, now));
        }
    }

    // -----------------------------------------------------------------------
    // Segments of the encoder
    // -----------------------------------------------------------------------

    /// Takes over the segments that the playlist of an item lists beyond those that were taken
    /// over before, and gives the number of the item's segments. A playlist that cannot be read
    /// or lists no segment gives 0.
    pub fn import_item_manifest_incremental(
        &mut self,
        item_index: usize,
        content: Option<&str>,
        has_previous_item: bool,
    ) -> (r: usize)
        ensures
            ({
                let parsed = match content {
                    Some(c) => hls::item_entries(item_index, c@, has_previous_item),
                    None => Seq::empty(),
                };
                let known = entries_of(old(self)@.master_entries, item_index).len();
                &&& r == if parsed.len() == 0 {
                    0
                } else if parsed.len() <= known {
                    known
                } else {
                    parsed.len()
                }
                &&& final(self)@ == if parsed.len() > known {
                    LiveView {
                        master_entries: old(self)@.master_entries + parsed.skip(known as int),
                        ..old(self)@
                    }
                } else {
                    old(self)@
                }
            }),
    {
        let ghost before = self@;
        let ghost v = self@.master_entries;
        let text_of = match content {
            Some(c) => c,
            None => {
                return 0;
            },
        };
        let parsed = hls::parse_item_hls_entries(item_index, text_of, has_previous_item);
        let ghost pv = hls::entry_views(parsed@);
        proof {
            assert(pv.len() == parsed@.len());
        }
        if parsed.len() == 0 {
            return 0;
        }
        let ghost keep = |e: EntryView| e.item_index == item_index;
        let mut known: usize = 0;
        let mut i: usize = 0;
        proof {
            text::lemma_filter_all(v.take(0), keep);
        }
        while i < self.master_entries.len()
            invariant
                self@ == before,
                keep == (|e: EntryView| e.item_index == item_index),
                v == hls::entry_views(self.master_entries@),
                i <= self.master_entries@.len(),
                known <= i,
                known == v.take(i as int).filter(keep).len(),
            decreases self.master_entries@.len() - i,
        {
            proof {
                text::lemma_filter_push(v.take(i as int), v[i as int], keep);
                assert(v.take(i + 1) =~= v.take(i as int).push(v[i as int]));
            }
            if self.master_entries[i].item_index == item_index {
                known += 1;
            }
            i += 1;
        }
        proof {
            assert(v.take(i as int) =~= v);
        }
        if parsed.len() <= known {
            return known;
        }
        let mut k: usize = known;
        proof {
            assert(v + pv.subrange(known as int, known as int) =~= v);
            assert(self@ =~= (LiveView {
                master_entries: v + pv.subrange(known as int, k as int),
                ..before
            }));
        }
        while k < parsed.len()
            invariant
                pv == hls::entry_views(parsed@),
                known <= k <= parsed@.len(),
                self@ == (LiveView {
                    master_entries: v + pv.subrange(known as int, k as int),
                    ..before
                }),
            decreases parsed@.len() - k,
        {
            let ghost held = self@.master_entries;
            self.master_entries.push(parsed[k].clone());
            proof {
                assert(hls::entry_views(self.master_entries@) =~= held.push(pv[k as int]));
                assert(v + pv.subrange(known as int, k + 1) =~= (v + pv.subrange(
                    known as int,
                    k as int,
                )).push(pv[k as int]));
                assert(self@ =~= (LiveView {
                    master_entries: v + pv.subrange(known as int, k + 1),
                    ..before
                }));
            }
            k += 1;
        }
        proof {
            assert(pv.subrange(known as int, k as int) =~= pv.skip(known as int));
        }
        parsed.len()
    }

    /// Writes the stream's playlist. `ceilings` holds for each segment its duration rounded up to
    /// whole seconds, where its duration is a number.
    pub fn rewrite_master_playlist(&self, ceilings: &Vec<Option<u64>>, ended: bool) -> (r: String)
        ensures
            r@ == hls::master_playlist(
                self@.master_entries,
                ceilings@,
                self@.media_sequence_base,
                self@.discontinuity_sequence_base,
                ended,
            ),
    {
        hls::render_master_playlist(
            &self.master_entries,
            ceilings,
            self.media_sequence_base,
            self.discontinuity_sequence_base,
            ended,
        )
    }

    /// The segments that are played from the anchor on.
    pub fn played_entries(&self) -> (r: Vec<MasterEntry>)
        ensures
            hls::entry_views(r@) == hls::played(
                self@.master_entries,
                self@.playback_anchor_item,
            ),
    {
        hls::select_played(&self.master_entries, self.playback_anchor_item)
    }

    /// Writes the playlist of the segments that are played from the anchor on. `ceilings` holds
    /// for each of them its duration rounded up to whole seconds, where it is a number.
    pub fn render_playback_playlist_from_anchor(&self, ceilings: &Vec<Option<u64>>) -> (r: String)
        ensures
            r@ == hls::playlist_head(
                hls::target_duration(ceilings@, 6),
                self@.media_sequence_base,
                self@.discontinuity_sequence_base,
            ) + hls::playback_lines(
                hls::played(self@.master_entries, self@.playback_anchor_item),
            ),
    {
        hls::render_playback_playlist(
            &self.played_entries(),
            ceilings,
            self.media_sequence_base,
            self.discontinuity_sequence_base,
        )
    }

    // -----------------------------------------------------------------------
    // Segments that were played
    // -----------------------------------------------------------------------

    /// Whether old files are to be removed now; if so, it is noted that they are.
    pub fn cleanup_due(&mut self, now: u64, force: bool) -> (r: bool)
        ensures
            r == (force || now >= old(self)@.last_cleanup_at + LIVE_CLEANUP_INTERVAL_SECONDS),
            final(self)@ == if r {
                LiveView { last_cleanup_at: now, ..old(self)@ }
            } else {
                old(self)@
            },
    {
        let ghost before = self@;
        if !force && now.saturating_sub(self.last_cleanup_at) < LIVE_CLEANUP_INTERVAL_SECONDS {
            return false;
        }
        self.last_cleanup_at = now;
        proof {
            assert(self@ =~= (LiveView { last_cleanup_at: now, ..before }));
        }
        true
    }

    /// The number of segments that lie before the item that is played, where the segment that
    /// was served last is still in the stream.
    pub fn prune_window(&self) -> (r: Option<usize>)
        ensures
            match r {
                Some(n) => played_item_start(self@) == Some(n as int) && n <= self@.master_entries.len(),
                None => played_item_start(self@) is None,
            },
    {
        let (item, segment) = match self.last_served_segment {
            Some(served_segment) => served_segment,
            None => {
                return None;
            },
        };
        let ghost v = self@.master_entries;
        let mut at: usize = 0;
        while at < self.master_entries.len() && !names_segment(
            &self.master_entries[at].segment,
            item,
            segment,
        )
            invariant
                v == hls::entry_views(self.master_entries@),
                at <= self.master_entries@.len(),
                forall|j: int| 0 <= j < at ==> !is_segment(#[trigger] v[j], item, segment),
            decreases self.master_entries@.len() - at,
        {
            at += 1;
        }
        if at == self.master_entries.len() {
            proof {
                lemma_first_where_none(v, |e: EntryView| is_segment(e, item, segment));
            }
            return None;
        }
        proof {
            lemma_first_where(v, |e: EntryView| is_segment(e, item, segment), at as int);
        }
        let mut first: usize = 0;
        while first < self.master_entries.len() && self.master_entries[first].item_index != item
            invariant
                v == hls::entry_views(self.master_entries@),
                first <= self.master_entries@.len(),
                forall|j: int| 0 <= j < first ==> (#[trigger] v[j]).item_index != item,
            decreases self.master_entries@.len() - first,
        {
            first += 1;
        }
        if first == self.master_entries.len() {
            proof {
                lemma_first_where_none(v, |e: EntryView| e.item_index == item);
            }
            return Some(at);
        }
        proof {
            lemma_first_where(v, |e: EntryView| e.item_index == item, first as int);
        }
        Some(first)
    }

    /// The durations of the first `n` segments.
    pub fn first_durations(&self, n: usize) -> (r: Vec<String>)
        requires
            n <= self.master_entries@.len(),
        ensures
            text::texts(r@) == durations_of(self@.master_entries.take(n as int)),
    {
        let ghost v = self@.master_entries;
        let mut r: Vec<String> = Vec::new();
        let mut i: usize = 0;
        while i < n
            invariant
                v == hls::entry_views(self.master_entries@),
                i <= n <= self.master_entries@.len(),
                text::texts(r@) == durations_of(v.take(i as int)),
            decreases n - i,
        {
            let ghost before = text::texts(r@);
            r.push(self.master_entries[i].duration.clone());
            proof {
                assert(text::texts(r@) =~= before.push(v[i as int].duration));
                assert(durations_of(v.take(i + 1)) =~= durations_of(v.take(i as int)).push(
                    v[i as int].duration,
                ));
            }
            i += 1;
        }
        r
    }

    /// Drops the segments that were played from the start of the stream. `enough` says for each
    /// segment before the item that is played whether it and those between it and that item last
    /// long enough to be kept behind; the last for which they do, and all behind it, are kept.
    pub fn prune_served_master_entries(&mut self, enough: &Vec<bool>) -> (r: Pruned)
        requires
            played_item_start(old(self)@) matches Some(n) ==> n <= enough@.len(),
        ensures
            ({
                let k = prune_count(old(self)@, enough@);
                let gone = old(self)@.master_entries.take(k);
                let kept = old(self)@.master_entries.skip(k);
                &&& 0 <= k <= old(self)@.master_entries.len()
                &&& final(self)@ == pruned(old(self)@, k)
                &&& text::texts(r.segments@) == gone.map_values(|e: EntryView| e.segment)
                &&& text::texts(r.manifests@) == orphan_manifests(gone, kept)
            }),
    {
        let ghost before = self@;
        let ghost v = self@.master_entries;
        let mut segments: Vec<String> = Vec::new();
        let mut manifests: Vec<String> = Vec::new();
        let window = self.prune_window();
        let first: usize = match window {
            Some(n) => n,
            None => 0,
        };
        let mut k: usize = first;
        let mut stop = false;
        while k > 0 && !stop
            invariant
                window matches Some(n) ==> first == n && played_item_start(before) == Some(n as int),
                window is None ==> first == 0 && played_item_start(before) is None,
                first <= enough@.len(),
                k <= first,
                kept_from(first as int, enough@) == if stop {
                    k as int
                } else {
                    kept_from(k as int, enough@)
                },
            decreases k,
        {
            k -= 1;
            if enough[k] {
                stop = true;
            }
        }
        proof {
            lemma_kept_from(first as int, enough@);
            assert(prune_count(before, enough@) == k);
            assert(text::texts(segments@) =~= v.take(0).map_values(|e: EntryView| e.segment));
            assert(text::texts(manifests@) =~= orphan_manifests(v.take(0), v.skip(k as int)));
        }
        let mut marks: u64 = 0;
        let mut i: usize = 0;
        while i < k
            invariant
                v == hls::entry_views(self.master_entries@),
                self@ == before,
                before.master_entries == v,
                i <= k <= self.master_entries@.len(),
                marks <= i,
                marks == marked_count(v.take(i as int)),
                text::texts(segments@) == v.take(i as int).map_values(|e: EntryView| e.segment),
                text::texts(manifests@) == orphan_manifests(v.take(i as int), v.skip(k as int)),
            decreases k - i,
        {
            let ghost segments_before = text::texts(segments@);
            let ghost manifests_before = text::texts(manifests@);
            let entry = &self.master_entries[i];
            segments.push(entry.segment.clone());
            if entry.discontinuity_before {
                marks += 1;
            }
            let name = hls::item_manifest_name(entry.item_index);
            let ghost nv = name@;
            let orphan = !holds_item(&self.master_entries, k, self.master_entries.len(), entry.item_index)
                && !holds_item(&self.master_entries, 0, i, entry.item_index);
            if orphan {
                manifests.push(name);
                proof {
                    assert(text::texts(manifests@) =~= manifests_before.push(nv));
                }
            }
            proof {
                assert(v.take(i + 1).drop_last() =~= v.take(i as int));
                assert(v.take(i + 1).last() == v[i as int]);
                assert(text::texts(segments@) =~= segments_before.push(v[i as int].segment));
                assert(v.take(i + 1).map_values(|e: EntryView| e.segment) =~= v.take(
                    i as int,
                ).map_values(|e: EntryView| e.segment).push(v[i as int].segment));
                assert(v.subrange(k as int, v.len() as int) =~= v.skip(k as int));
                assert(v.subrange(0, i as int) =~= v.take(i as int));
            }
            i += 1;
        }
        if k > 0 {
            let rest = self.master_entries.split_off(k);
            self.master_entries = rest;
            self.media_sequence_base = self.media_sequence_base.saturating_add(k as u64);
            self.discontinuity_sequence_base = self.discontinuity_sequence_base.saturating_add(
                marks,
            );
            proof {
                assert(hls::entry_views(self.master_entries@) =~= v.skip(k as int));
                assert(self@ =~= pruned(before, k as int));
            }
        } else {
            proof {
                assert(v.skip(0) =~= v);
                assert(marked_count(v.take(0)) == 0);
                assert(self@ =~= pruned(before, 0));
            }
        }
        Pruned { segments, manifests }
    }

    /// What becomes of a file of the directory that is `age` seconds old, where the directory
    /// holds too much or not.
    pub fn live_file_fate(&self, name: &str, age: u64, pressure: bool) -> (r: FileFate)
        ensures
            r == fate_of(self@, name@, age, pressure),
    {
        if !is_stream_file(name) || self.is_protected(name) {
            return FileFate::Keep;
        }
        let producer: usize = self.producer_now.index;
        if producer > 0 && age < LIVE_ORPHAN_GRACE_SECONDS && text::starts_with(
            name,
            &text::concat2(&hls::item_file_prefix(producer), "-"),
        ) {
            return FileFate::Keep;
        }
        if (text::ends_with(name, ".tmp") && age >= LIVE_TMP_GRACE_SECONDS) || age
            >= LIVE_ORPHAN_GRACE_SECONDS {
            return FileFate::Remove;
        }
        if pressure {
            FileFate::Candidate
        } else {
            FileFate::Keep
        }
    }

    /// Whether a file of the directory is in use.
    pub fn is_protected(&self, name: &str) -> (r: bool)
        ensures
            r == protected(self@, name@),
    {
        if text::same(name, "index.m3u8") || text::same(name, "playlist-youtube.m3u8")
            || text::same(name, "audit.log") {
            return true;
        }
        if self.producer_now.index > 0 && text::same(
            name,
            &hls::item_manifest_name(self.producer_now.index),
        ) {
            return true;
        }
        let ghost v = self@.master_entries;
        let mut i: usize = 0;
        while i < self.master_entries.len()
            invariant
                v == hls::entry_views(self.master_entries@),
                i <= self.master_entries@.len(),
                forall|j: int| 0 <= j < i ==> !refers_to(#[trigger] v[j], name@),
            decreases self.master_entries@.len() - i,
        {
            if text::same(name, &self.master_entries[i].segment) || text::same(
                name,
                &hls::item_manifest_name(self.master_entries[i].item_index),
            ) {
                proof {
                    assert(refers_to(self@.master_entries[i as int], name@));
                }
                return true;
            }
            i += 1;
        }
        false
    }
}

/// The segments of one item.
pub open spec fn entries_of(entries: Seq<EntryView>, item_index: usize) -> Seq<EntryView> {
    entries.filter(|e: EntryView| e.item_index == item_index)
}

/// The first place where the condition holds.
pub open spec fn first_where(
    entries: Seq<EntryView>,
    cond: spec_fn(EntryView) -> bool,
) -> Option<int>
    decreases entries.len(),
{
    if entries.len() == 0 {
        None
    } else {
        match first_where(entries.drop_last(), cond) {
            Some(i) => Some(i),
            None => if cond(entries.last()) {
                Some(entries.len() - 1)
            } else {
                None
            },
        }
    }
}

proof fn lemma_first_where_none(entries: Seq<EntryView>, cond: spec_fn(EntryView) -> bool)
    requires
        forall|j: int| 0 <= j < entries.len() ==> !cond(#[trigger] entries[j]),
    ensures
        first_where(entries, cond) is None,
    decreases entries.len(),
{
    if entries.len() > 0 {
        let front = entries.drop_last();
        assert forall|j: int| 0 <= j < front.len() implies !cond(#[trigger] front[j]) by {
            assert(front[j] == entries[j]);
        }
        lemma_first_where_none(front, cond);
        assert(!cond(entries[entries.len() - 1]));
    }
}

proof fn lemma_first_where(entries: Seq<EntryView>, cond: spec_fn(EntryView) -> bool, at: int)
    requires
        0 <= at < entries.len(),
        cond(entries[at]),
        forall|j: int| 0 <= j < at ==> !cond(#[trigger] entries[j]),
    ensures
        first_where(entries, cond) == Some(at),
    decreases entries.len(),
{
    let front = entries.drop_last();
    if at < front.len() {
        assert(front[at] == entries[at]);
        assert forall|j: int| 0 <= j < at implies !cond(#[trigger] front[j]) by {
            assert(front[j] == entries[j]);
        }
        lemma_first_where(front, cond, at);
    } else {
        assert forall|j: int| 0 <= j < front.len() implies !cond(#[trigger] front[j]) by {
            assert(front[j] == entries[j]);
        }
        lemma_first_where_none(front, cond);
    }
}

/// What the first place where a condition holds is.
pub proof fn lemma_first_where_is(entries: Seq<EntryView>, cond: spec_fn(EntryView) -> bool)
    ensures
        match first_where(entries, cond) {
            Some(i) => 0 <= i < entries.len() && cond(entries[i]) && forall|j: int|
                0 <= j < i ==> !cond(#[trigger] entries[j]),
            None => forall|j: int| 0 <= j < entries.len() ==> !cond(#[trigger] entries[j]),
        },
    decreases entries.len(),
{
    if entries.len() > 0 {
        let front = entries.drop_last();
        lemma_first_where_is(front, cond);
        match first_where(front, cond) {
            Some(i) => {
                assert(front[i] == entries[i]);
                assert forall|j: int| 0 <= j < i implies !cond(#[trigger] entries[j]) by {
                    assert(front[j] == entries[j]);
                }
            },
            None => {
                assert forall|j: int| 0 <= j < front.len() implies !cond(#[trigger] entries[j]) by {
                    assert(front[j] == entries[j]);
                }
            },
        }
    }
}

/// The entry is the given segment of the given item, by its name.
pub open spec fn is_segment(e: EntryView, item: usize, segment: usize) -> bool {
    hls::segment_numbers(e.segment) == Some((item as nat, segment as nat))
}

/// Whether the name is that of the given segment of the given item.
fn names_segment(name: &str, item: usize, segment: usize) -> (r: bool)
    ensures
        r == (hls::segment_numbers(name@) == Some((item as nat, segment as nat))),
{
    match hls::parse_item_segment_name(name) {
        Some((i, s)) => i == item && s == segment,
        None => false,
    }
}

/// The place where the item that is played starts: its first segment, or the segment that was
/// served last where none carries the item's number; nowhere where that segment is gone.
pub open spec fn played_item_start(s: LiveView) -> Option<int> {
    match s.last_served_segment {
        None => None,
        Some((item, segment)) => match first_where(
            s.master_entries,
            |e: EntryView| is_segment(e, item, segment),
        ) {
            None => None,
            Some(at) => match first_where(s.master_entries, |e: EntryView| e.item_index == item) {
                Some(first) => Some(first),
                None => Some(at),
            },
        },
    }
}

/// The first segment that is kept of those before the item that is played: the last for which
/// enough is kept, or the first of all.
pub open spec fn kept_from(first: int, enough: Seq<bool>) -> int
    decreases first,
{
    if first <= 0 {
        0
    } else if enough[first - 1] {
        first - 1
    } else {
        kept_from(first - 1, enough)
    }
}

proof fn lemma_kept_from(first: int, enough: Seq<bool>)
    requires
        0 <= first,
    ensures
        0 <= kept_from(first, enough) <= first,
        first > 0 ==> kept_from(first, enough) < first,
    decreases first,
{
    if first > 0 && !enough[first - 1] {
        lemma_kept_from(first - 1, enough);
    }
}

/// The number of segments that are dropped.
pub open spec fn prune_count(s: LiveView, enough: Seq<bool>) -> int {
    match played_item_start(s) {
        Some(first) => kept_from(first, enough),
        None => 0,
    }
}

/// The number of marked segments.
pub open spec fn marked_count(entries: Seq<EntryView>) -> nat
    decreases entries.len(),
{
    if entries.len() == 0 {
        0
    } else {
        marked_count(entries.drop_last()) + if entries.last().discontinuity_before {
            1nat
        } else {
            0nat
        }
    }
}

/// The sum, kept within 64 bits.
pub open spec fn capped(a: u64, b: nat) -> u64 {
    if a + b > u64::MAX {
        u64::MAX
    } else {
        (a + b) as u64
    }
}

/// The state without the first `k` segments: their number and that of their marks are added to
/// what was dropped before.
pub open spec fn pruned(s: LiveView, k: int) -> LiveView {
    LiveView {
        master_entries: s.master_entries.skip(k),
        media_sequence_base: capped(s.media_sequence_base, k as nat),
        discontinuity_sequence_base: capped(
            s.discontinuity_sequence_base,
            marked_count(s.master_entries.take(k)),
        ),
        ..s
    }
}

/// A segment belongs to the item.
pub open spec fn has_item(entries: Seq<EntryView>, item_index: usize) -> bool {
    exists|j: int| 0 <= j < entries.len() && (#[trigger] entries[j]).item_index == item_index
}

/// The playlists of the items of which no segment is left, each once.
pub open spec fn orphan_manifests(gone: Seq<EntryView>, kept: Seq<EntryView>) -> Seq<Seq<char>>
    decreases gone.len(),
{
    if gone.len() == 0 {
        Seq::empty()
    } else {
        let front = orphan_manifests(gone.drop_last(), kept);
        let item = gone.last().item_index;
        if has_item(kept, item) || has_item(gone.drop_last(), item) {
            front
        } else {
            front.push(hls::item_manifest(item as nat))
        }
    }
}

/// Whether one of the segments `from..to` belongs to the item.
fn holds_item(entries: &Vec<MasterEntry>, from: usize, to: usize, item_index: usize) -> (r: bool)
    requires
        from <= to <= entries@.len(),
    ensures
        r == has_item(hls::entry_views(entries@).subrange(from as int, to as int), item_index),
{
    let ghost part = hls::entry_views(entries@).subrange(from as int, to as int);
    let mut i: usize = from;
    while i < to
        invariant
            part == hls::entry_views(entries@).subrange(from as int, to as int),
            from <= i <= to <= entries@.len(),
            forall|j: int| 0 <= j < i - from ==> (#[trigger] part[j]).item_index != item_index,
        decreases to - i,
    {
        if entries[i].item_index == item_index {
            proof {
                assert(part[i - from].item_index == item_index);
            }
            return true;
        }
        i += 1;
    }
    false
}

/// The files that dropping segments makes superfluous.
pub struct Pruned {
    /// The files of the dropped segments.
    pub segments: Vec<String>,
    /// The playlists of the items of which no segment is left.
    pub manifests: Vec<String>,
}

// ---------------------------------------------------------------------------
// Files
// ---------------------------------------------------------------------------

/// What becomes of a file of the directory.
#[derive(Clone, Copy, Debug, PartialEq, Eq, Structural)]
pub enum FileFate {
    /// It stays.
    Keep,
    /// It is removed.
    Remove,
    /// It is removed where the directory holds too much, the oldest first.
    Candidate,
}

/// The name is that of a file of a stream.
pub open spec fn stream_file(name: Seq<char>) -> bool {
    text::ends(name, ".ts"@) || text::ends(name, ".m3u8"@) || text::ends(name, ".tmp"@)
}

/// Whether the name is that of a file of a stream.
fn is_stream_file(name: &str) -> (r: bool)
    ensures
        r == stream_file(name@),
{
    text::ends_with(name, ".ts") || text::ends_with(name, ".m3u8") || text::ends_with(name, ".tmp")
}

/// The segment is in the file, or belongs to the item whose playlist the file is.
pub open spec fn refers_to(e: EntryView, name: Seq<char>) -> bool {
    name == e.segment || name == hls::item_manifest(e.item_index as nat)
}

/// The file is in use.
pub open spec fn protected(s: LiveView, name: Seq<char>) -> bool {
    ||| name == "index.m3u8"@
    ||| name == "playlist-youtube.m3u8"@
    ||| name == "audit.log"@
    ||| s.producer_now.index > 0 && name == hls::item_manifest(s.producer_now.index as nat)
    ||| exists|i: int| 0 <= i < s.master_entries.len() && refers_to(#[trigger] s.master_entries[i], name)
}

/// What becomes of a file of the directory.
pub open spec fn fate_of(s: LiveView, name: Seq<char>, age: u64, pressure: bool) -> FileFate {
    if !stream_file(name) || protected(s, name) {
        FileFate::Keep
    } else if s.producer_now.index > 0 && age < LIVE_ORPHAN_GRACE_SECONDS && text::begins(
        name,
        hls::item_prefix(s.producer_now.index as nat) + "-"@,
    ) {
        FileFate::Keep
    } else if (text::ends(name, ".tmp"@) && age >= LIVE_TMP_GRACE_SECONDS) || age
        >= LIVE_ORPHAN_GRACE_SECONDS {
        FileFate::Remove
    } else if pressure {
        FileFate::Candidate
    } else {
        FileFate::Keep
    }
}

/// What removing files achieved.
#[derive(Clone, Copy, Debug, PartialEq, Eq, Structural)]
pub struct CleanupStats {
    /// How many files were removed.
    pub removed_files: usize,
    /// How many bytes they held.
    pub removed_bytes: u64,
    /// How many segments were dropped from the stream.
    pub removed_playlist_entries: usize,
}

impl Default for CleanupStats {
    fn default() -> (r: Self)
        ensures
            r == (CleanupStats { removed_files: 0, removed_bytes: 0, removed_playlist_entries: 0 }),
    {
        CleanupStats { removed_files: 0, removed_bytes: 0, removed_playlist_entries: 0 }
    }
}

impl CleanupStats {
    /// Adds what a further step achieved.
    pub fn merge(&mut self, other: CleanupStats)
        requires
            countable(*old(self), other),
        ensures
            *final(self) == merged(*old(self), other),
    {
        self.removed_files += other.removed_files;
        self.removed_bytes = self.removed_bytes.saturating_add(other.removed_bytes);
        self.removed_playlist_entries += other.removed_playlist_entries;
    }

    /// Notes that a file was removed, with its size, or could not be.
    pub fn note_removed(&mut self, removed: Option<u64>)
        requires
            old(self).removed_files < usize::MAX,
        ensures
            *final(self) == match removed {
                Some(bytes) => CleanupStats {
                    removed_files: (old(self).removed_files + 1) as usize,
                    removed_bytes: capped(old(self).removed_bytes, bytes as nat),
                    ..*old(self)
                },
                None => *old(self),
            },
    {
        if let Some(bytes) = removed {
            self.removed_files += 1;
            self.removed_bytes = self.removed_bytes.saturating_add(bytes);
        }
    }
}

/// What a directory holds.
#[derive(Clone, Copy, Debug, PartialEq, Eq, Structural)]
pub struct LiveDirUsage {
    /// The bytes of its files.
    pub bytes: u64,
    /// The number of its files.
    pub files: usize,
    /// The number of its segments.
    pub ts_files: usize,
}

impl Default for LiveDirUsage {
    fn default() -> (r: Self)
        ensures
            r == (LiveDirUsage { bytes: 0, files: 0, ts_files: 0 }),
    {
        LiveDirUsage { bytes: 0, files: 0, ts_files: 0 }
    }
}

impl LiveDirUsage {
    /// Adds a file.
    pub fn add_file(&mut self, name: &str, len: u64)
        requires
            old(self).files < usize::MAX,
            old(self).ts_files < usize::MAX,
        ensures
            *final(self) == (LiveDirUsage {
                bytes: capped(old(self).bytes, len as nat),
                files: (old(self).files + 1) as usize,
                ts_files: if text::ends(name@, ".ts"@) {
                    (old(self).ts_files + 1) as usize
                } else {
                    old(self).ts_files
                },
            }),
    {
        self.files += 1;
        self.bytes = self.bytes.saturating_add(len);
        if text::ends_with(name, ".ts") {
            self.ts_files += 1;
        }
    }

    /// Whether the directory holds too much.
    pub fn under_pressure(&self) -> (r: bool)
        ensures
            r == (self.bytes > LIVE_MAX_DIR_BYTES),
    {
        self.bytes > LIVE_MAX_DIR_BYTES
    }
}

/// Removing files, the oldest first, until what is left is within a limit.
pub struct Sweep {
    /// The files, the oldest first.
    pub order: Vec<usize>,
    /// How many of them were tried.
    pub next: usize,
    /// What is left, in bytes.
    pub total: u64,
    /// The limit, in bytes.
    pub limit: u64,
}

/// The keys by which files are ordered by age.
pub open spec fn age_keys(modified: Seq<u128>) -> Seq<(u128, Seq<char>)> {
    modified.map_values(|t: u128| (t, Seq::<char>::empty()))
}

impl Sweep {
    /// The next file is one of the list.
    pub open spec fn well_formed(self) -> bool {
        self.next <= self.order@.len()
    }

    /// Orders files by the times at which they were modified; files of one time stay in their
    /// order.
    pub fn new(modified: &Vec<u128>, total: u64, limit: u64) -> (r: Self)
        ensures
            r.well_formed(),
            order::stable_order(age_keys(modified@), r.order@),
            r.next == 0,
            r.total == total,
            r.limit == limit,
    {
        let mut keys: Vec<SortKey> = Vec::new();
        let mut i: usize = 0;
        while i < modified.len()
            invariant
                i <= modified@.len(),
                order::key_views(keys@) == age_keys(modified@).take(i as int),
            decreases modified@.len() - i,
        {
            let ghost before = order::key_views(keys@);
            let key = SortKey { number: modified[i], text: String::new() };
            let ghost kv = key@;
            keys.push(key);
            proof {
                assert(order::key_views(keys@) =~= before.push(kv));
                assert(kv == age_keys(modified@)[i as int]);
                assert(age_keys(modified@).take(i + 1) =~= age_keys(modified@).take(
                    i as int,
                ).push(kv));
            }
            i += 1;
        }
        proof {
            assert(age_keys(modified@).take(i as int) =~= age_keys(modified@));
        }
        Sweep { order: order::sort_positions(&keys), next: 0, total, limit }
    }

    /// The file that is to be removed next, where what is left is beyond the limit.
    pub fn next_victim(&mut self) -> (r: Option<usize>)
        requires
            old(self).well_formed(),
        ensures
            final(self).well_formed(),
            final(self).order == old(self).order,
            final(self).total == old(self).total,
            final(self).limit == old(self).limit,
            if old(self).total > old(self).limit && old(self).next < old(self).order@.len() {
                r == Some(old(self).order@[old(self).next as int]) && final(self).next
                    == old(self).next + 1
            } else {
                r is None && final(self).next == old(self).next
            },
    {
        if self.total <= self.limit || self.next >= self.order.len() {
            return None;
        }
        let i: usize = self.order[self.next];
        self.next = self.next + 1;
        Some(i)
    }

    /// Notes that a file of this size was removed.
    pub fn removed(&mut self, size: u64)
        requires
            old(self).well_formed(),
        ensures
            final(self).well_formed(),
            *final(self) == (Sweep {
                total: if old(self).total < size {
                    0
                } else {
                    (old(self).total - size) as u64
                },
                ..*old(self)
            }),
    {
        self.total = self.total.saturating_sub(size);
    }
}

/// Where the removal of old files stands.
#[derive(Clone, Copy, Debug, PartialEq, Eq, Structural)]
pub enum CleanupPhase {
    /// The segments that were played are being dropped.
    Pruning,
    /// The directory is being measured.
    Measuring,
    /// More of the segments that were played are being dropped.
    PruningMore,
    /// The files that are not needed are being removed.
    Sweeping,
    /// All is done.
    Ended,
}

/// What was done of the removal of old files.
#[derive(Clone, Copy, Debug, PartialEq, Eq, Structural)]
pub enum CleanupEvent {
    /// Segments that were played were dropped.
    Pruned(CleanupStats),
    /// The directory holds so many bytes.
    Measured(u64),
    /// Files that are not needed were removed.
    Swept(CleanupStats),
}

/// What is done next of the removal of old files.
#[derive(Clone, Copy, Debug, PartialEq, Eq, Structural)]
pub enum CleanupAction {
    /// The directory is measured.
    Measure,
    /// More of the segments that were played are dropped.
    PruneMore,
    /// The files that are not needed are removed; under pressure also young ones.
    Sweep {
        /// Whether the directory holds too much.
        pressure: bool,
    },
    /// The playlist is written again.
    Publish,
    /// Nothing.
    Rest,
}

/// The removal of old files: the segments that were played are dropped, more of them where the
/// directory still holds too much, and then the files that are not needed.
#[derive(Clone, Copy, Debug, PartialEq, Eq, Structural)]
pub struct CleanupRun {
    /// Where it stands.
    pub phase: CleanupPhase,
    /// Whether the directory holds too much.
    pub pressure: bool,
    /// What it has achieved.
    pub stats: CleanupStats,
}

/// Whether what two steps achieved can be counted together.
pub open spec fn countable(a: CleanupStats, b: CleanupStats) -> bool {
    &&& a.removed_files + b.removed_files <= usize::MAX
    &&& a.removed_playlist_entries + b.removed_playlist_entries <= usize::MAX
}

/// What two steps achieved together.
pub open spec fn merged(a: CleanupStats, b: CleanupStats) -> CleanupStats {
    CleanupStats {
        removed_files: (a.removed_files + b.removed_files) as usize,
        removed_bytes: capped(a.removed_bytes, b.removed_bytes as nat),
        removed_playlist_entries: (a.removed_playlist_entries + b.removed_playlist_entries) as usize,
    }
}

/// How the removal of old files goes on.
pub open spec fn cleanup_next(run: CleanupRun, event: CleanupEvent) -> (CleanupRun, CleanupAction) {
    match (run.phase, event) {
        (CleanupPhase::Pruning, CleanupEvent::Pruned(s)) => (
            CleanupRun { phase: CleanupPhase::Measuring, stats: merged(run.stats, s), ..run },
            CleanupAction::Measure,
        ),
        (CleanupPhase::Measuring, CleanupEvent::Measured(bytes)) => if bytes > LIVE_MAX_DIR_BYTES {
            (
                CleanupRun { phase: CleanupPhase::PruningMore, pressure: true, ..run },
                CleanupAction::PruneMore,
            )
        } else {
            (
                CleanupRun { phase: CleanupPhase::Sweeping, pressure: false, ..run },
                CleanupAction::Sweep { pressure: false },
            )
        },
        (CleanupPhase::PruningMore, CleanupEvent::Pruned(s)) => (
            CleanupRun { phase: CleanupPhase::Sweeping, stats: merged(run.stats, s), ..run },
            CleanupAction::Sweep { pressure: run.pressure },
        ),
        (CleanupPhase::Sweeping, CleanupEvent::Swept(s)) => (
            CleanupRun { phase: CleanupPhase::Ended, stats: merged(run.stats, s), ..run },
            if merged(run.stats, s).removed_files > 0 || merged(
                run.stats,
                s,
            ).removed_playlist_entries > 0 {
                CleanupAction::Publish
            } else {
                CleanupAction::Rest
            },
        ),
        _ => (run, CleanupAction::Rest),
    }
}

impl CleanupRun {
    /// Segments that were played are dropped first.
    pub fn new() -> (r: Self)
        ensures
            r == (CleanupRun {
                phase: CleanupPhase::Pruning,
                pressure: false,
                stats: CleanupStats {
                    removed_files: 0,
                    removed_bytes: 0,
                    removed_playlist_entries: 0,
                },
            }),
    {
        CleanupRun {
            phase: CleanupPhase::Pruning,
            pressure: false,
            stats: CleanupStats {
                removed_files: 0,
                removed_bytes: 0,
                removed_playlist_entries: 0,
            },
        }
    }

    /// Goes on after a step.
    pub fn maybe_cleanup_live_files(&mut self, event: CleanupEvent) -> (r: CleanupAction)
        requires
            event matches CleanupEvent::Pruned(s) ==> countable(old(self).stats, s),
            event matches CleanupEvent::Swept(s) ==> countable(old(self).stats, s),
        ensures
            (*final(self), r) == cleanup_next(*old(self), event),
    {
        match (self.phase, event) {
            (CleanupPhase::Pruning, CleanupEvent::Pruned(s)) => {
                self.stats.merge(s);
                self.phase = CleanupPhase::Measuring;
                CleanupAction::Measure
            },
            (CleanupPhase::Measuring, CleanupEvent::Measured(bytes)) => {
                self.pressure = bytes > LIVE_MAX_DIR_BYTES;
                if self.pressure {
                    self.phase = CleanupPhase::PruningMore;
                    CleanupAction::PruneMore
                } else {
                    self.phase = CleanupPhase::Sweeping;
                    CleanupAction::Sweep { pressure: false }
                }
            },
            (CleanupPhase::PruningMore, CleanupEvent::Pruned(s)) => {
                self.stats.merge(s);
                self.phase = CleanupPhase::Sweeping;
                CleanupAction::Sweep { pressure: self.pressure }
            },
            (CleanupPhase::Sweeping, CleanupEvent::Swept(s)) => {
                self.stats.merge(s);
                self.phase = CleanupPhase::Ended;
                if self.stats.removed_files > 0 || self.stats.removed_playlist_entries > 0 {
                    CleanupAction::Publish
                } else {
                    CleanupAction::Rest
                }
            },
            _ => CleanupAction::Rest,
        }
    }
}

/// What a request for a file of the stream asks for.
#[derive(Debug)]
pub enum FileRequest {
    /// A file outside the directory, which is refused.
    Refused,
    /// A file of the directory.
    File {
        /// Its name.
        relative: String,
        /// Its type.
        content_type: &'static str,
        /// Whether it is a segment.
        is_segment: bool,
    },
}

/// The file that a request names: the stream's playlist under each of its names.
pub open spec fn requested_file(path: Seq<char>, current: Seq<char>) -> Seq<char> {
    let name = text::trim_start(path, CharSet::Only('/'));
    if name.len() == 0 || links::playlist_alias(name, current) {
        "index.m3u8"@
    } else {
        name
    }
}

/// The type of a file of the stream.
pub open spec fn stream_type(name: Seq<char>) -> Seq<char> {
    if text::ends(name, ".m3u8"@) {
        "application/vnd.apple.mpegurl"@
    } else if text::ends(name, ".ts"@) {
        "video/mp2t"@
    } else {
        "application/octet-stream"@
    }
}

/// What a request for a file of the stream asks for. Slashes before the name are left out; a name
/// with two dots in a row is refused.
pub fn file_request(path: &str, current_playlist_name: &str) -> (r: FileRequest)
    ensures
        ({
            let name = requested_file(path@, current_playlist_name@);
            match r {
                FileRequest::Refused => text::has_part(name, ".."@),
                FileRequest::File { relative, content_type, is_segment } => {
                    &&& !text::has_part(name, ".."@)
                    &&& relative@ == name
                    &&& content_type@ == stream_type(name)
                    &&& is_segment == text::ends(name, ".ts"@)
                },
            }
        }),
{
    let name = text::strip_start(path, CharSet::Only('/'));
    let relative = if name.as_str().is_empty() || links::is_public_playlist_alias(
        &name,
        current_playlist_name,
    ) {
        "index.m3u8".to_string()
    } else {
        name
    };
    if text::contains(&relative, "..") {
        return FileRequest::Refused;
    }
    let is_segment = text::ends_with(&relative, ".ts");
    let content_type = if text::ends_with(&relative, ".m3u8") {
        "application/vnd.apple.mpegurl"
    } else if is_segment {
        "video/mp2t"
    } else {
        "application/octet-stream"
    };
    FileRequest::File { relative, content_type, is_segment }
}

// ---------------------------------------------------------------------------
// Waiting for the player
// ---------------------------------------------------------------------------

/// How the producer goes on before an item.
#[derive(Clone, Copy, Debug, PartialEq, Eq, Structural)]
pub enum AheadStep {
    /// It produces the item.
    Proceed,
    /// It produces the item because it has waited long enough.
    TimedOut,
    /// It waits.
    Wait,
}

/// Whether the item is produced without waiting for the player.
pub fn starts_at_once(next_item_index: usize) -> (r: bool)
    ensures
        r == (next_item_index <= STARTUP_BOOST_PREPARE_THROUGH_ITEM_INDEX),
{
    next_item_index <= STARTUP_BOOST_PREPARE_THROUGH_ITEM_INDEX
}

/// How the producer goes on before an item, given whether it is too far ahead of the player, what
/// the directory holds, and for how many seconds it has waited.
pub fn ahead_step(too_far_ahead: bool, usage_bytes: u64, waited: u64) -> (r: AheadStep)
    ensures
        r == if !too_far_ahead && usage_bytes <= LIVE_MAX_DIR_BYTES {
            AheadStep::Proceed
        } else if waited >= LIVE_AHEAD_WAIT_MAX_SECONDS {
            AheadStep::TimedOut
        } else {
            AheadStep::Wait
        },
{
    if !too_far_ahead && usage_bytes <= LIVE_MAX_DIR_BYTES {
        AheadStep::Proceed
    } else if waited >= LIVE_AHEAD_WAIT_MAX_SECONDS {
        AheadStep::TimedOut
    } else {
        AheadStep::Wait
    }
}

/// Whether the producer goes on after a wait: the player has caught up and the directory holds
/// little.
pub fn may_resume(caught_up: bool, usage_bytes: u64) -> (r: bool)
    ensures
        r == (caught_up && usage_bytes <= LIVE_TARGET_DIR_BYTES),
{
    caught_up && usage_bytes <= LIVE_TARGET_DIR_BYTES
}

// ---------------------------------------------------------------------------
// Laws
// ---------------------------------------------------------------------------

/// Taking over a playlist that grew leaves what was taken over before: the item's segments are
/// then those of the playlist, and those of the other items stay as they were.
pub proof fn law_import_extends(
    entries: Seq<EntryView>,
    parsed: Seq<EntryView>,
    item_index: usize,
    other: usize,
)
    requires
        entries_of(entries, item_index).is_prefix_of(parsed),
        forall|k: int| 0 <= k < parsed.len() ==> (#[trigger] parsed[k]).item_index == item_index,
        other != item_index,
    ensures
        ({
            let known = entries_of(entries, item_index).len() as int;
            let after = entries + parsed.skip(known);
            &&& entries_of(after, item_index) == parsed
            &&& entries_of(after, other) == entries_of(entries, other)
            &&& entries.is_prefix_of(after)
        }),
{
    let known = entries_of(entries, item_index).len() as int;
    let more = parsed.skip(known);
    let mine = |e: EntryView| e.item_index == item_index;
    let others = |e: EntryView| e.item_index == other;
    Seq::filter_distributes_over_add(entries, more, mine);
    Seq::filter_distributes_over_add(entries, more, others);
    assert forall|k: int| 0 <= k < more.len() implies mine(#[trigger] more[k]) by {
        assert(parsed[k + known].item_index == item_index);
    }
    text::lemma_filter_all(more, mine);
    assert(more.filter(others) =~= Seq::<EntryView>::empty()) by {
        text::lemma_filter_members(more, others);
        if more.filter(others).len() > 0 {
            let e = more.filter(others)[0];
            assert(others(e) && more.contains(e));
            let k = choose|k: int| 0 <= k < more.len() && more[k] == e;
            assert(mine(more[k]));
        }
    }
    assert(entries_of(entries, item_index) + more =~= parsed);
    assert(entries_of(entries, other) + Seq::<EntryView>::empty() =~= entries_of(entries, other));
}

/// Dropping segments does not renumber those that stay: the number of a segment in the stream,
/// that of the dropped segments and its place, is the same before and after.
pub proof fn law_prune_keeps_numbers(s: LiveView, k: int, j: int)
    requires
        0 <= k <= j < s.master_entries.len(),
        s.media_sequence_base + s.master_entries.len() <= u64::MAX,
    ensures
        pruned(s, k).master_entries[j - k] == s.master_entries[j],
        pruned(s, k).media_sequence_base + (j - k) == s.media_sequence_base + j,
{
}

/// The discontinuities that were dropped and those that are left stay the same in sum.
pub proof fn law_prune_keeps_discontinuities(s: LiveView, k: int)
    requires
        0 <= k <= s.master_entries.len(),
        s.discontinuity_sequence_base + s.master_entries.len() <= u64::MAX,
    ensures
        pruned(s, k).discontinuity_sequence_base + marked_count(pruned(s, k).master_entries)
            == s.discontinuity_sequence_base + marked_count(s.master_entries),
{
    let v = s.master_entries;
    lemma_marked_split(v.take(k), v.skip(k));
    assert(v.take(k) + v.skip(k) =~= v);
    lemma_marked_bound(v);
}

proof fn lemma_marked_split(a: Seq<EntryView>, b: Seq<EntryView>)
    ensures
        marked_count(a + b) == marked_count(a) + marked_count(b),
    decreases b.len(),
{
    if b.len() == 0 {
        assert(a + b =~= a);
    } else {
        assert((a + b).drop_last() =~= a + b.drop_last());
        lemma_marked_split(a, b.drop_last());
    }
}

proof fn lemma_marked_bound(v: Seq<EntryView>)
    ensures
        marked_count(v) <= v.len(),
    decreases v.len(),
{
    if v.len() > 0 {
        lemma_marked_bound(v.drop_last());
    }
}

/// The segment that was served last, and every segment of its item, stay in the stream, wherever
/// the segment carries the number of the item that its name gives.
pub proof fn law_prune_keeps_played_item(s: LiveView, enough: Seq<bool>, j: int)
    requires
        s.last_served_segment matches Some((item, _)) && 0 <= j < s.master_entries.len()
            && s.master_entries[j].item_index == item,
    ensures
        prune_count(s, enough) <= j,
{
    let item = (s.last_served_segment->0).0;
    let segment = (s.last_served_segment->0).1;
    let mine = |e: EntryView| e.item_index == item;
    let it = |e: EntryView| is_segment(e, item, segment);
    lemma_first_where_is(s.master_entries, mine);
    lemma_first_where_is(s.master_entries, it);
    assert(mine(s.master_entries[j]));
    if let Some(first) = played_item_start(s) {
        lemma_kept_from(first, enough);
    }
}

proof fn lemma_orphan_manifests(gone: Seq<EntryView>, kept: Seq<EntryView>, name: Seq<char>)
    requires
        orphan_manifests(gone, kept).contains(name),
    ensures
        exists|item: usize|
            name == hls::item_manifest(item as nat) && !#[trigger] has_item(kept, item),
    decreases gone.len(),
{
    let front = orphan_manifests(gone.drop_last(), kept);
    let all = orphan_manifests(gone, kept);
    let i = choose|i: int| 0 <= i < all.len() && all[i] == name;
    if i < front.len() {
        assert(front[i] == name);
        assert(front.contains(name));
        lemma_orphan_manifests(gone.drop_last(), kept, name);
    } else {
        assert(!has_item(kept, gone.last().item_index));
    }
}

/// Items with one playlist are one item.
proof fn lemma_manifest_names_item(a: usize, b: usize)
    requires
        hls::item_manifest(a as nat) == hls::item_manifest(b as nat),
    ensures
        a == b,
{
    let x = numbers::dec_padded(a as nat, 4);
    let y = numbers::dec_padded(b as nat, 4);
    let m = hls::item_manifest(a as nat);
    let n = hls::item_manifest(b as nat);
    let head = "item-"@.len() as int;
    let tail = ".m3u8"@.len() as int;
    assert(m.subrange(head, m.len() - tail) =~= x);
    assert(n.subrange(head, n.len() - tail) =~= y);
    numbers::law_parse_of_dec(a as nat, 4, usize::MAX as nat);
    numbers::law_parse_of_dec(b as nat, 4, usize::MAX as nat);
}

/// The files that are removed because segments were dropped are none that the playlist still
/// leads to: not the segments that stay, where no two segments have one name, and not the
/// playlists of their items.
pub proof fn law_dropped_files_are_not_listed(s: LiveView, k: int, j: int)
    requires
        0 <= k <= j < s.master_entries.len(),
        forall|a: int, b: int|
            0 <= a < b < s.master_entries.len() ==> (#[trigger] s.master_entries[a]).segment != (
            #[trigger] s.master_entries[b]).segment,
    ensures
        !s.master_entries.take(k).map_values(|e: EntryView| e.segment).contains(
            s.master_entries[j].segment,
        ),
        !orphan_manifests(s.master_entries.take(k), s.master_entries.skip(k)).contains(
            hls::item_manifest(s.master_entries[j].item_index as nat),
        ),
{
    let gone = s.master_entries.take(k);
    let kept = s.master_entries.skip(k);
    let names = gone.map_values(|e: EntryView| e.segment);
    if names.contains(s.master_entries[j].segment) {
        let i = choose|i: int| 0 <= i < names.len() && names[i] == s.master_entries[j].segment;
        assert(s.master_entries[i].segment != s.master_entries[j].segment);
    }
    let item = s.master_entries[j].item_index;
    assert(kept[j - k].item_index == item);
    let name = hls::item_manifest(item as nat);
    if orphan_manifests(gone, kept).contains(name) {
        lemma_orphan_manifests(gone, kept, name);
        let other = choose|other: usize|
            name == hls::item_manifest(other as nat) && !#[trigger] has_item(kept, other);
        lemma_manifest_names_item(item, other);
    }
}

/// A file that the stream refers to, the stream's own playlist and the log are never removed,
/// however old they are and however much the directory holds.
pub proof fn law_protected_files_stay(s: LiveView, name: Seq<char>, age: u64, pressure: bool)
    requires
        protected(s, name),
    ensures
        fate_of(s, name, age, pressure) == FileFate::Keep,
{
}

/// A file that is not a temporary one stays for the time of grace, unless the directory holds too
/// much.
pub proof fn law_young_files_stay(s: LiveView, name: Seq<char>, age: u64)
    requires
        age < LIVE_ORPHAN_GRACE_SECONDS,
        !text::ends(name, ".tmp"@),
    ensures
        fate_of(s, name, age, false) == FileFate::Keep,
{
}

/// The file that a request names is never given by a path that starts with a slash.
pub proof fn law_requested_file_is_relative(path: Seq<char>, current: Seq<char>)
    ensures
        !text::begins(requested_file(path, current), "/"@),
{
    reveal_strlit("/");
    reveal_strlit("index.m3u8");
    let name = text::trim_start(path, CharSet::Only('/'));
    lemma_trim_start_first(path, CharSet::Only('/'));
    let f = requested_file(path, current);
    if text::begins(f, "/"@) {
        assert(f.subrange(0, 1)[0] == f[0]);
    }
}

proof fn lemma_trim_start_first(s: Seq<char>, set: CharSet)
    ensures
        text::trim_start(s, set).len() > 0 ==> !set.has(text::trim_start(s, set)[0]),
    decreases s.len(),
{
    if s.len() > 0 && set.has(s[0]) {
        lemma_trim_start_first(s.skip(1), set);
    }
}

/// A segment is still to be played where its item comes behind the one of the segment that was
/// served last, or where it comes behind that segment in the same item; no segment of an item
/// before the one that is played is.
pub proof fn law_segments_ahead(s: LiveView, e: EntryView, item: usize, segment: usize, n: nat)
    requires
        s.last_served_segment == Some((item, segment)),
        s.playback_now.index > 0,
    ensures
        e.item_index < s.playback_now.index ==> !is_ahead(s, e),
        e.item_index < item ==> !is_ahead(s, e),
        e.item_index >= s.playback_now.index && e.item_index > item ==> is_ahead(s, e),
        e.item_index == item >= s.playback_now.index && hls::segment_numbers(e.segment) == Some(
            (item as nat, n),
        ) ==> (is_ahead(s, e) <==> n > segment),
{
}

/// Before anything is served, all segments from the place where playback starts are still to be
/// played.
pub proof fn law_all_is_ahead_at_first(s: LiveView, e: EntryView)
    requires
        s.last_served_segment is None,
    ensures
        s.playback_now.index == 0 ==> (is_ahead(s, e) <==> e.item_index >= s.playback_anchor_item),
        s.playback_now.index > 0 ==> (is_ahead(s, e) <==> e.item_index >= s.playback_now.index),
{
}

/// The item at a place is the first of the queue with that number; there is none exactly where no
/// item has it.
pub proof fn law_item_at(queue: Seq<ItemView>, index: nat)
    ensures
        match item_at(queue, index) {
            Some(item) => exists|k: int|
                0 <= k < queue.len() && #[trigger] queue[k] == item && item.index == index && (
                forall|j: int| 0 <= j < k ==> (#[trigger] queue[j]).index != index),
            None => forall|j: int| 0 <= j < queue.len() ==> (#[trigger] queue[j]).index != index,
        },
    decreases queue.len(),
{
    if queue.len() > 0 {
        if queue[0].index != index {
            let rest = queue.skip(1);
            law_item_at(rest, index);
            assert forall|j: int| 0 < j < queue.len() implies #[trigger] queue[j] == rest[j - 1] by {}
            if let Some(item) = item_at(rest, index) {
                let k = choose|k: int|
                    0 <= k < rest.len() && #[trigger] rest[k] == item && item.index == index && (
                    forall|j: int| 0 <= j < k ==> (#[trigger] rest[j]).index != index);
                assert(queue[k + 1] == item);
            }
        } else {
            assert(queue[0] == item_at(queue, index)->0);
        }
    }
}

/// When a segment of an item of the queue is served, that item is what is played, from the given
/// position on; a file that is no segment moves nothing.
pub proof fn law_served_segment_is_played(
    s: LiveView,
    k: int,
    segment: nat,
    position: u64,
    now: u64,
)
    requires
        live::queue_numbered(s.queue),
        0 <= k < s.queue.len() < usize::MAX,
        segment <= usize::MAX,
    ensures
        ({
            let item = s.queue[k];
            let t = served(s, hls::segment_name(item.index as nat, segment), position, now);
            &&& t.last_served_segment == Some((item.index, segment as usize))
            &&& t.playback_now.state == "playing"@
            &&& t.playback_now.title == item.title
            &&& t.playback_now.source_url == item.source_url
            &&& t.playback_now.item_id == item.item_id
            &&& t.playback_now.index == item.index
            &&& t.playback_now.position == position
            &&& t.playback_now.duration == item.duration
            &&& t.playback_now.thumbnail == item.thumbnail
            &&& t.playback_now.channel == item.channel
            &&& t.playback_now.description == item.description
            &&& t.playback_now.upload_date == item.upload_date
            &&& t.playback_now.uploader == item.uploader
            &&& t.playback_now.hls_url == live::public_url(s.playlist_name)
            &&& t.playback_now.started_at == now
            &&& position <= now ==> t.playback_now.item_started_at + position == now
            &&& k + 1 < s.queue.len() ==> t.playback_now.next_title == Some(s.queue[k + 1].title)
            &&& t.queue == s.queue && t.master_entries == s.master_entries
            &&& t.producer_now == s.producer_now
        }),
{
    let item = s.queue[k];
    assert(item.index == k + 1);
    hls::law_segment_name_round_trip(item.index as nat, segment, Seq::empty());
    law_item_at(s.queue, item.index as nat);
    let found = item_at(s.queue, item.index as nat);
    assert(found is Some) by {
        if found is None {
            assert(s.queue[k].index != item.index);
        }
    }
    let i = choose|i: int|
        0 <= i < s.queue.len() && #[trigger] s.queue[i] == found->0 && (found->0).index
            == item.index;
    assert(s.queue[i].index == i + 1);
    live::law_first_behind(s.queue, item.index);
    live::law_next_item_follows(s.queue, item.index);
}

/// A file that is no segment moves nothing.
pub proof fn law_other_files_move_nothing(s: LiveView, name: Seq<char>, position: u64, now: u64)
    requires
        hls::segment_numbers(name) is None,
    ensures
        served(s, name, position, now) == s,
{
}

/// The segments of an item before a segment are all those of the item that come before it in the
/// stream, and none of another item.
pub proof fn law_segments_before(a: Seq<EntryView>, e: EntryView, b: Seq<EntryView>)
    requires
        forall|j: int|
            0 <= j < a.len() ==> (#[trigger] a[j]).item_index != e.item_index || a[j].segment
                != e.segment,
    ensures
        before_segment(a + seq![e] + b, e.item_index, e.segment) == entries_of(a, e.item_index),
        before_segment(a, e.item_index, e.segment) == entries_of(a, e.item_index),
    decreases a.len(),
{
    let keep = |x: EntryView| x.item_index == e.item_index;
    let all = a + seq![e] + b;
    if a.len() == 0 {
        text::lemma_filter_all(a, keep);
        assert(all[0] == e);
    } else {
        let rest = a.skip(1);
        assert forall|j: int| 0 <= j < rest.len() implies (#[trigger] rest[j]).item_index
            != e.item_index || rest[j].segment != e.segment by {
            assert(rest[j] == a[j + 1]);
        }
        law_segments_before(rest, e, b);
        assert(all.skip(1) =~= rest + seq![e] + b);
        assert(all[0] == a[0]);
        Seq::filter_distributes_over_add(seq![a[0]], rest, keep);
        assert(a =~= seq![a[0]] + rest);
        text::lemma_filter_push(Seq::<EntryView>::empty(), a[0], keep);
        text::lemma_filter_all(Seq::<EntryView>::empty(), keep);
        assert(Seq::<EntryView>::empty().push(a[0]) =~= seq![a[0]]);
        assert(entries_of(a, e.item_index) =~= seq![a[0]].filter(keep) + rest.filter(keep));
        if keep(a[0]) {
            assert(seq![a[0]].filter(keep) =~= seq![a[0]]);
        } else {
            assert(seq![a[0]].filter(keep) =~= Seq::empty());
            assert(Seq::<EntryView>::empty() + rest.filter(keep) =~= rest.filter(keep));
        }
    }
}

/// Of the segments before the item that is played as few are kept as there have to be: enough is
/// kept from the first that stays, and not from any later one. Where enough is never kept, all
/// stay.
pub proof fn law_enough_is_kept(first: int, enough: Seq<bool>, j: int)
    requires
        0 < first <= enough.len(),
    ensures
        ({
            let k = kept_from(first, enough);
            &&& 0 <= k < first
            &&& enough[k] || k == 0
            &&& k < j < first ==> !enough[j]
        }),
    decreases first,
{
    if !enough[first - 1] && first > 1 {
        if j < first - 1 {
            law_enough_is_kept(first - 1, enough, j);
        } else {
            law_enough_is_kept(first - 1, enough, first - 2);
        }
    } else if !enough[first - 1] {
        assert(kept_from(0, enough) == 0);
    }
}

/// Nothing is dropped before something was served, nor when the segment that was served last is
/// gone; otherwise no segment of the item that it belongs to is dropped, nor any behind them.
pub proof fn law_only_played_segments_are_dropped(s: LiveView, enough: Seq<bool>)
    ensures
        s.last_served_segment is None ==> prune_count(s, enough) == 0,
        s.last_served_segment matches Some((item, segment)) ==> (forall|j: int|
            0 <= j < s.master_entries.len() ==> !is_segment(
                #[trigger] s.master_entries[j],
                item,
                segment,
            )) ==> prune_count(s, enough) == 0,
        0 <= prune_count(s, enough) <= s.master_entries.len(),
        prune_count(s, enough) > 0 ==> played_item_start(s) is Some && prune_count(s, enough)
            < played_item_start(s)->0,
{
    if let Some((item, segment)) = s.last_served_segment {
        let it = |e: EntryView| is_segment(e, item, segment);
        lemma_first_where_is(s.master_entries, it);
        lemma_first_where_is(s.master_entries, |e: EntryView| e.item_index == item);
        if let Some(first) = played_item_start(s) {
            lemma_kept_from(first, enough);
        }
        if forall|j: int|
            0 <= j < s.master_entries.len() ==> !is_segment(
                #[trigger] s.master_entries[j],
                item,
                segment,
            ) {
            assert(forall|j: int|
                0 <= j < s.master_entries.len() ==> !it(#[trigger] s.master_entries[j]));
        }
    }
}

/// Each marked segment counts once.
pub proof fn law_marks_are_counted(entries: Seq<EntryView>, e: EntryView)
    ensures
        marked_count(Seq::empty()) == 0,
        e.discontinuity_before ==> marked_count(entries.push(e)) == marked_count(entries) + 1,
        !e.discontinuity_before ==> marked_count(entries.push(e)) == marked_count(entries),
{
    assert(entries.push(e).drop_last() =~= entries);
}

/// The playlist of an item is superfluous exactly where segments of the item were dropped and none
/// is left.
pub proof fn law_orphaned_playlists(gone: Seq<EntryView>, kept: Seq<EntryView>, item: usize)
    ensures
        has_item(gone, item) && !has_item(kept, item) ==> orphan_manifests(gone, kept).contains(
            hls::item_manifest(item as nat),
        ),
        orphan_manifests(Seq::empty(), kept).len() == 0,
    decreases gone.len(),
{
    if gone.len() > 0 && has_item(gone, item) && !has_item(kept, item) {
        let front = gone.drop_last();
        law_orphaned_playlists(front, kept, item);
        let name = hls::item_manifest(item as nat);
        let before = orphan_manifests(front, kept);
        let j = choose|j: int| 0 <= j < gone.len() && (#[trigger] gone[j]).item_index == item;
        if j < front.len() {
            assert(front[j].item_index == item);
            let i = choose|i: int| 0 <= i < before.len() && before[i] == name;
            assert(orphan_manifests(gone, kept)[i] == name);
        } else if has_item(front, item) {
            let i = choose|i: int| 0 <= i < before.len() && before[i] == name;
            assert(orphan_manifests(gone, kept)[i] == name);
        } else {
            assert(orphan_manifests(gone, kept)[before.len() as int] == name);
        }
    }
}

/// A file of a stream that is not in use is removed when it is 45 seconds old, a temporary one
/// when it is 20 seconds old, unless it belongs to the item that is produced; a younger one only
/// where the directory holds too much. Other files stay.
pub proof fn law_old_files_are_removed(s: LiveView, name: Seq<char>, age: u64, pressure: bool)
    ensures
        !stream_file(name) ==> fate_of(s, name, age, pressure) == FileFate::Keep,
        stream_file(name) && !protected(s, name) && age >= 45 ==> fate_of(s, name, age, pressure)
            == FileFate::Remove,
        text::ends(name, ".tmp"@) && !protected(s, name) && age >= 20 && s.producer_now.index == 0
            ==> fate_of(s, name, age, pressure) == FileFate::Remove,
        stream_file(name) && !protected(s, name) && age < 20 && s.producer_now.index == 0
            ==> fate_of(s, name, age, pressure) == (if pressure {
            FileFate::Candidate
        } else {
            FileFate::Keep
        }),
        s.producer_now.index > 0 && age < 45 && text::begins(
            name,
            hls::item_prefix(s.producer_now.index as nat) + "-"@,
        ) ==> fate_of(s, name, age, pressure) == FileFate::Keep,
{
}

/// The files that the stream lists, the playlist of each item that it lists segments of, and that
/// of the item that is produced are in use.
pub proof fn law_listed_files_are_in_use(s: LiveView, i: int)
    ensures
        0 <= i < s.master_entries.len() ==> protected(s, s.master_entries[i].segment) && protected(
            s,
            hls::item_manifest(s.master_entries[i].item_index as nat),
        ),
        s.producer_now.index > 0 ==> protected(s, hls::item_manifest(s.producer_now.index as nat)),
        protected(s, "index.m3u8"@),
        protected(s, "playlist-youtube.m3u8"@),
        protected(s, "audit.log"@),
{
    if 0 <= i < s.master_entries.len() {
        assert(refers_to(s.master_entries[i], s.master_entries[i].segment));
    }
}

/// A file name with one of the three extensions is that of a file of a stream, and the extension
/// says its type.
pub proof fn law_type_of_stream_files(name: Seq<char>)
    ensures
        stream_file(name + ".ts"@) && stream_type(name + ".ts"@) == "video/mp2t"@,
        stream_file(name + ".m3u8"@) && stream_type(name + ".m3u8"@)
            == "application/vnd.apple.mpegurl"@,
        stream_file(name + ".tmp"@) && stream_type(name + ".tmp"@) == "application/octet-stream"@,
{
    reveal_strlit(".ts");
    reveal_strlit(".m3u8");
    reveal_strlit(".tmp");
    let a = name + ".ts"@;
    let b = name + ".m3u8"@;
    let c = name + ".tmp"@;
    assert(a.subrange(name.len() as int, a.len() as int) =~= ".ts"@);
    assert(b.subrange(name.len() as int, b.len() as int) =~= ".m3u8"@);
    assert(c.subrange(name.len() as int, c.len() as int) =~= ".tmp"@);
    if text::ends(a, ".m3u8"@) {
        assert(a.subrange(a.len() - 5, a.len() as int)[4] == a.last());
    }
    if text::ends(c, ".m3u8"@) {
        assert(c.subrange(c.len() - 5, c.len() as int)[4] == c.last());
    }
    if text::ends(c, ".ts"@) {
        assert(c.subrange(c.len() - 3, c.len() as int)[2] == c.last());
    }
}

/// The playlist is served under its current name, under the fixed one, under that of any playlist
/// and under no name at all; any other name is that of the file itself. Slashes before a name do
/// not matter.
pub proof fn law_playlist_is_served_under_its_names(name: Seq<char>, current: Seq<char>)
    requires
        name.len() > 0 ==> name[0] != '/',
    ensures
        requested_file(Seq::empty(), current) == "index.m3u8"@,
        name.len() > 0 && name == current ==> requested_file(name, current) == "index.m3u8"@,
        name.len() > 0 && text::begins(name, "Playlist_"@) && text::ends(name, ".m3u8"@)
            ==> requested_file(name, current) == "index.m3u8"@,
        name.len() > 0 && text::ascii_lower(name) == "playlist-youtube.m3u8"@ ==> requested_file(
            name,
            current,
        ) == "index.m3u8"@,
        name.len() > 0 && !links::playlist_alias(name, current) ==> requested_file(name, current)
            == name,
        requested_file("/"@ + name, current) == requested_file(name, current),
{
    reveal_strlit("/");
    let path = "/"@ + name;
    assert(path[0] == '/');
    assert(path.skip(1) =~= name);
    assert(text::trim_start(path, CharSet::Only('/')) == text::trim_start(
        path.skip(1),
        CharSet::Only('/'),
    ));
}

/// Old files are removed in three steps, and in four where the directory holds too much: segments
/// that were played, then more of them, then the files that are not needed. What the steps removed
/// is counted together, and the playlist is written anew where anything was removed.
pub proof fn law_cleanup_steps(run: CleanupRun, s: CleanupStats, bytes: u64)
    requires
        countable(run.stats, s),
    ensures
        ({
            let total = merged(run.stats, s);
            let a = cleanup_next(
                CleanupRun { phase: CleanupPhase::Pruning, ..run },
                CleanupEvent::Pruned(s),
            );
            let b = cleanup_next(
                CleanupRun { phase: CleanupPhase::Measuring, ..run },
                CleanupEvent::Measured(bytes),
            );
            let c = cleanup_next(
                CleanupRun { phase: CleanupPhase::PruningMore, ..run },
                CleanupEvent::Pruned(s),
            );
            let d = cleanup_next(
                CleanupRun { phase: CleanupPhase::Sweeping, ..run },
                CleanupEvent::Swept(s),
            );
            &&& total.removed_files == run.stats.removed_files + s.removed_files
            &&& total.removed_playlist_entries == run.stats.removed_playlist_entries
                + s.removed_playlist_entries
            &&& run.stats.removed_bytes + s.removed_bytes <= u64::MAX ==> total.removed_bytes
                == run.stats.removed_bytes + s.removed_bytes
            &&& a.1 == CleanupAction::Measure && a.0.phase == CleanupPhase::Measuring && a.0.stats
                == total
            &&& bytes > 536_870_912 ==> b.1 == CleanupAction::PruneMore && b.0.phase
                == CleanupPhase::PruningMore && b.0.pressure && b.0.stats == run.stats
            &&& bytes <= 536_870_912 ==> b.1 == (CleanupAction::Sweep { pressure: false })
                && b.0.phase == CleanupPhase::Sweeping && b.0.stats == run.stats
            &&& c.1 == (CleanupAction::Sweep { pressure: run.pressure }) && c.0.phase
                == CleanupPhase::Sweeping && c.0.stats == total
            &&& d.0.phase == CleanupPhase::Ended && d.0.stats == total
            &&& total.removed_files + total.removed_playlist_entries > 0 ==> d.1
                == CleanupAction::Publish
            &&& total.removed_files + total.removed_playlist_entries == 0 ==> d.1
                == CleanupAction::Rest
        }),
{
}

/// Files are tried for removal by age, the oldest first.
pub proof fn law_oldest_files_first(modified: Seq<u128>, places: Seq<usize>, i: int, j: int)
    requires
        order::stable_order(age_keys(modified), places),
        0 <= i < j < places.len(),
    ensures
        places.len() == modified.len(),
        modified[places[i] as int] <= modified[places[j] as int],
{
    order::law_stable_order_sorts(age_keys(modified), places, i, j);
    assert(age_keys(modified)[places[i] as int].0 == modified[places[i] as int]);
    assert(age_keys(modified)[places[j] as int].0 == modified[places[j] as int]);
}

/// The durations of segments are theirs, in their order.
pub proof fn law_durations_follow_segments(entries: Seq<EntryView>, i: int)
    requires
        0 <= i < entries.len(),
    ensures
        durations_of(entries).len() == entries.len(),
        durations_of(entries)[i] == entries[i].duration,
{
}

/// What is played starts with the first segment of its item, as long as the segment that was served
/// last is still there; where it is gone, nothing is known to be played.
pub proof fn law_played_item_is_found(s: LiveView, item: usize, segment: usize, k: int, first: int)
    requires
        s.last_served_segment == Some((item, segment)),
        0 <= k < s.master_entries.len(),
        s.master_entries[k].segment == hls::segment_name(item as nat, segment as nat),
        0 <= first < s.master_entries.len(),
        s.master_entries[first].item_index == item,
        forall|j: int| 0 <= j < first ==> (#[trigger] s.master_entries[j]).item_index != item,
    ensures
        played_item_start(s) == Some(first),
        played_item_start(LiveView { master_entries: Seq::empty(), ..s }) is None,
{
    hls::law_segment_name_round_trip(item as nat, segment as nat, Seq::empty());
    let it = |e: EntryView| is_segment(e, item, segment);
    let mine = |e: EntryView| e.item_index == item;
    lemma_first_where_is(s.master_entries, it);
    assert(it(s.master_entries[k]));
    assert(mine(s.master_entries[first]));
    assert forall|j: int| 0 <= j < first implies !mine(#[trigger] s.master_entries[j]) by {}
    lemma_first_where(s.master_entries, mine, first);
}

/// What two steps achieved can be counted together exactly where the sums can be counted.
pub proof fn law_countable(a: CleanupStats, b: CleanupStats)
    ensures
        countable(a, b) <==> a.removed_files + b.removed_files <= usize::MAX
            && a.removed_playlist_entries + b.removed_playlist_entries <= usize::MAX,
        countable(a, b) == countable(b, a),
{
}

} // verus!
