//! Finding the items of a link: which links are tried, how many entries are read, and which of
//! them are worth queueing.
use vstd::prelude::*;

use crate::items::{ItemView, TrooznLiveItem};
use crate::items;
use crate::links;
use crate::text;

verus! {

/// The most items that one request can queue.
pub const MAX_ITEMS: usize = 20;

/// The number of entries of a page of a playlist.
pub const PLAYLIST_PAGE_SIZE: usize = 20;

/// How many entries of a YouTube playlist are read beyond those that are wanted.
pub const PLAYLIST_ACTIVE_SCAN_EXTRA: usize = 6;

/// The most entries of a YouTube playlist that are read.
pub const PLAYLIST_ACTIVE_SCAN_MAX: usize = 26;

/// How many playable items end the search for them.
pub const PLAYLIST_INITIAL_ACTIVE_TARGET: usize = 2;

/// How many items are checked at a time.
pub const YOUTUBE_QUICK_VALIDATE_CONCURRENCY: usize = 2;

/// `n`, kept within 1 and `max`.
pub open spec fn clamped(n: usize, max: usize) -> usize {
    if n < 1 {
        1
    } else if n > max {
        max
    } else {
        n
    }
}

/// The number of items that a request can queue.
pub fn clamp_limit(limit: usize) -> (r: usize)
    ensures
        r == clamped(limit, MAX_ITEMS),
{
    if limit < 1 {
        1
    } else if limit > MAX_ITEMS {
        MAX_ITEMS
    } else {
        limit
    }
}

/// The number of entries to read for `limit` items of a link in lower case.
pub open spec fn entries_to_read(lower: Seq<char>, limit: usize) -> usize {
    if links::youtube_marked(lower) && links::playlist_marked(lower) {
        if limit > PLAYLIST_ACTIVE_SCAN_MAX - PLAYLIST_ACTIVE_SCAN_EXTRA {
            PLAYLIST_ACTIVE_SCAN_MAX
        } else {
            (limit + PLAYLIST_ACTIVE_SCAN_EXTRA) as usize
        }
    } else {
        limit
    }
}

/// The number of entries to read for `limit` items of a link in lower case.
pub fn scan_limit_for(lower: &str, limit: usize) -> (r: usize)
    ensures
        r == entries_to_read(lower@, limit),
{
    if links::has_youtube_mark(lower) && links::has_playlist_mark(lower) {
        if limit > PLAYLIST_ACTIVE_SCAN_MAX - PLAYLIST_ACTIVE_SCAN_EXTRA {
            PLAYLIST_ACTIVE_SCAN_MAX
        } else {
            limit + PLAYLIST_ACTIVE_SCAN_EXTRA
        }
    } else {
        limit
    }
}

/// The number of entries to read for `limit` items of a link: some more than that where the link
/// leads to a YouTube playlist, of which some entries may not be playable.
pub fn scan_limit(source_url: &str, limit: usize) -> (r: usize)
    ensures
        r == entries_to_read(text::unicode_lowercase(source_url@), limit),
{
    scan_limit_for(&text::lowercase(source_url), limit)
}

// ---------------------------------------------------------------------------
// Playable items
// ---------------------------------------------------------------------------

/// What checking an item found.
#[derive(Clone, Copy, Debug, PartialEq, Eq, Structural)]
pub enum Verdict {
    /// The item can be played.
    Active,
    /// The item cannot be played.
    Inactive,
    /// The check was lost.
    Lost,
}

/// The items of a playlist, and what the checks of the first of them found.
pub struct ActiveFilter {
    /// The items.
    pub items: Vec<TrooznLiveItem>,
    /// The verdicts on the first items, in their order.
    pub verdicts: Vec<Verdict>,
    /// How many items are wanted.
    pub wanted: usize,
}

/// The number of verdicts that say that an item can be played.
pub open spec fn active_count(verdicts: Seq<Verdict>) -> nat
    decreases verdicts.len(),
{
    if verdicts.len() == 0 {
        0
    } else {
        active_count(verdicts.drop_last()) + if verdicts.last() == Verdict::Active {
            1nat
        } else {
            0nat
        }
    }
}

/// How many playable items end the search for them.
pub open spec fn target_active(wanted: usize) -> usize {
    if wanted < 1 {
        1
    } else if wanted > PLAYLIST_INITIAL_ACTIVE_TARGET {
        PLAYLIST_INITIAL_ACTIVE_TARGET
    } else {
        wanted
    }
}

/// The items that were found playable.
pub open spec fn active_items(all: Seq<ItemView>, verdicts: Seq<Verdict>) -> Seq<ItemView>
    decreases verdicts.len(),
{
    if verdicts.len() == 0 {
        Seq::empty()
    } else {
        let front = active_items(all, verdicts.drop_last());
        if verdicts.last() == Verdict::Active {
            front.push(all[verdicts.len() - 1])
        } else {
            front
        }
    }
}

/// Whether an item with this identifier was found not to be playable.
pub open spec fn rejected(all: Seq<ItemView>, verdicts: Seq<Verdict>, id: Seq<char>) -> bool {
    exists|j: int|
        0 <= j < verdicts.len() && #[trigger] verdicts[j] == Verdict::Inactive && all[j].item_id
            == id
}

/// At most the first `n` of the items.
pub open spec fn first_items(s: Seq<ItemView>, n: nat) -> Seq<ItemView> {
    if s.len() <= n {
        s
    } else {
        s.take(n as int)
    }
}

/// The items, numbered from 1.
pub open spec fn numbered(s: Seq<ItemView>) -> Seq<ItemView> {
    Seq::new(s.len(), |i: int| ItemView { index: (i + 1) as usize, ..s[i] })
}

/// The items that are queued: the playable ones and those that were not checked; where none was
/// found playable, those that were not rejected; and where all were, the first.
pub open spec fn filtered_items(
    all: Seq<ItemView>,
    verdicts: Seq<Verdict>,
    wanted: nat,
) -> Seq<ItemView> {
    let active = active_items(all, verdicts);
    let chosen = if active.len() > 0 {
        first_items(active + all.skip(verdicts.len() as int), wanted)
    } else {
        let kept = first_items(
            all.filter(|item: ItemView| !rejected(all, verdicts, item.item_id)),
            wanted,
        );
        if kept.len() == 0 {
            first_items(all, wanted)
        } else {
            kept
        }
    };
    numbered(chosen)
}

impl ActiveFilter {
    /// No more verdicts than items.
    pub open spec fn well_formed(self) -> bool {
        self.verdicts@.len() <= self.items@.len()
    }

    /// Starts with no item checked.
    pub fn new(items: Vec<TrooznLiveItem>, wanted: usize) -> (r: Self)
        ensures
            r.well_formed(),
            r.items@ == items@,
            r.verdicts@.len() == 0,
            r.wanted == wanted,
    {
        ActiveFilter { items, verdicts: Vec::new(), wanted }
    }

    /// Whether fewer items than wanted at first were found playable.
    pub fn wants_more(&self) -> (r: bool)
        ensures
            r == (active_count(self.verdicts@) < target_active(self.wanted)),
    {
        let mut active: usize = 0;
        let mut i: usize = 0;
        while i < self.verdicts.len()
            invariant
                i <= self.verdicts@.len(),
                active <= i,
                active == active_count(self.verdicts@.take(i as int)),
            decreases self.verdicts@.len() - i,
        {
            proof {
                assert(self.verdicts@.take(i + 1).drop_last() =~= self.verdicts@.take(i as int));
            }
            if self.verdicts[i] == Verdict::Active {
                active += 1;
            }
            i += 1;
        }
        proof {
            assert(self.verdicts@.take(i as int) =~= self.verdicts@);
        }
        let target: usize = if self.wanted < 1 {
            1
        } else if self.wanted > PLAYLIST_INITIAL_ACTIVE_TARGET {
            PLAYLIST_INITIAL_ACTIVE_TARGET
        } else {
            self.wanted
        };
        active < target
    }

    /// The items that are to be checked next, as a range, or none where enough were found
    /// playable or all were checked.
    pub fn next_batch(&self) -> (r: Option<(usize, usize)>)
        requires
            self.well_formed(),
        ensures
            match r {
                Some((from, to)) => {
                    &&& active_count(self.verdicts@) < target_active(self.wanted)
                    &&& from == self.verdicts@.len()
                    &&& from < to <= self.items@.len()
                    &&& to == from + YOUTUBE_QUICK_VALIDATE_CONCURRENCY || to == self.items@.len()
                        && to < from + YOUTUBE_QUICK_VALIDATE_CONCURRENCY
                },
                None => active_count(self.verdicts@) >= target_active(self.wanted)
                    || self.verdicts@.len() == self.items@.len(),
            },
    {
        let from: usize = self.verdicts.len();
        let total: usize = self.items.len();
        if !self.wants_more() || from == total {
            return None;
        }
        let to: usize = if total - from < YOUTUBE_QUICK_VALIDATE_CONCURRENCY {
            total
        } else {
            from + YOUTUBE_QUICK_VALIDATE_CONCURRENCY
        };
        Some((from, to))
    }

    /// Notes what the check of the next item found.
    pub fn record(&mut self, verdict: Verdict)
        requires
            old(self).well_formed(),
            old(self).verdicts@.len() < old(self).items@.len(),
        ensures
            final(self).well_formed(),
            final(self).items == old(self).items,
            final(self).wanted == old(self).wanted,
            final(self).verdicts@ == old(self).verdicts@.push(verdict),
    {
        self.verdicts.push(verdict);
    }

    /// Whether an item with this identifier was found not to be playable.
    fn is_rejected(&self, id: &str) -> (r: bool)
        requires
            self.well_formed(),
        ensures
            r == rejected(items::item_views(self.items@), self.verdicts@, id@),
    {
        let mut j: usize = 0;
        while j < self.verdicts.len()
            invariant
                self.well_formed(),
                j <= self.verdicts@.len(),
                forall|k: int|
                    0 <= k < j ==> !(#[trigger] self.verdicts@[k] == Verdict::Inactive
                        && self.items@[k].item_id@ == id@),
            decreases self.verdicts@.len() - j,
        {
            if self.verdicts[j] == Verdict::Inactive && text::same(&self.items[j].item_id, id) {
                proof {
                    assert(items::item_views(self.items@)[j as int].item_id == id@);
                }
                return true;
            }
            j += 1;
        }
        proof {
            assert forall|k: int|
                0 <= k < self.verdicts@.len() && #[trigger] self.verdicts@[k]
                    == Verdict::Inactive implies items::item_views(self.items@)[k].item_id
                != id@ by {
                assert(items::item_views(self.items@)[k].item_id == self.items@[k].item_id@);
            }
        }
        false
    }

    /// The items that are queued, numbered from 1.
    pub fn finish(&self) -> (r: Vec<TrooznLiveItem>)
        requires
            self.well_formed(),
        ensures
            items::item_views(r@) == filtered_items(
                items::item_views(self.items@),
                self.verdicts@,
                self.wanted as nat,
            ),
    {
        let ghost all = items::item_views(self.items@);
        let mut chosen: Vec<TrooznLiveItem> = Vec::new();
        let mut i: usize = 0;
        proof {
            assert(items::item_views(chosen@) =~= Seq::<ItemView>::empty());
        }
        while i < self.verdicts.len()
            invariant
                self.well_formed(),
                all == items::item_views(self.items@),
                i <= self.verdicts@.len(),
                items::item_views(chosen@) == active_items(all, self.verdicts@.take(i as int)),
            decreases self.verdicts@.len() - i,
        {
            let ghost before = items::item_views(chosen@);
            proof {
                assert(self.verdicts@.take(i + 1).drop_last() =~= self.verdicts@.take(i as int));
            }
            if self.verdicts[i] == Verdict::Active {
                chosen.push(self.items[i].clone());
                proof {
                    assert(items::item_views(chosen@) =~= before.push(all[i as int]));
                }
            }
            i += 1;
        }
        proof {
            assert(self.verdicts@.take(i as int) =~= self.verdicts@);
            assert(items::item_views(chosen@).len() == chosen@.len());
        }
        if chosen.len() > 0 {
            let ghost active = items::item_views(chosen@);
            while i < self.items.len()
                invariant
                    all == items::item_views(self.items@),
                    self.verdicts@.len() <= i <= self.items@.len(),
                    items::item_views(chosen@) == active + all.subrange(
                        self.verdicts@.len() as int,
                        i as int,
                    ),
                decreases self.items@.len() - i,
            {
                let ghost before = items::item_views(chosen@);
                chosen.push(self.items[i].clone());
                proof {
                    assert(items::item_views(chosen@) =~= before.push(all[i as int]));
                    assert(all.subrange(self.verdicts@.len() as int, i + 1) =~= all.subrange(
                        self.verdicts@.len() as int,
                        i as int,
                    ).push(all[i as int]));
                }
                i += 1;
            }
            proof {
                assert(all.subrange(self.verdicts@.len() as int, i as int) =~= all.skip(
                    self.verdicts@.len() as int,
                ));
            }
            return number_items(take_items(chosen, self.wanted));
        }
        let ghost keep = |item: ItemView| !rejected(all, self.verdicts@, item.item_id);
        let mut kept: Vec<TrooznLiveItem> = Vec::new();
        let mut k: usize = 0;
        proof {
            text::lemma_filter_all(all.take(0), keep);
            assert(items::item_views(kept@) =~= all.take(0).filter(keep));
        }
        while k < self.items.len()
            invariant
                self.well_formed(),
                all == items::item_views(self.items@),
                keep == (|item: ItemView| !rejected(all, self.verdicts@, item.item_id)),
                k <= self.items@.len(),
                items::item_views(kept@) == all.take(k as int).filter(keep),
            decreases self.items@.len() - k,
        {
            let ghost before = items::item_views(kept@);
            proof {
                text::lemma_filter_push(all.take(k as int), all[k as int], keep);
                assert(all.take(k + 1) =~= all.take(k as int).push(all[k as int]));
            }
            if !self.is_rejected(&self.items[k].item_id) {
                kept.push(self.items[k].clone());
                proof {
                    assert(items::item_views(kept@) =~= before.push(all[k as int]));
                }
            }
            k += 1;
        }
        proof {
            assert(all.take(k as int) =~= all);
        }
        let kept = take_items(kept, self.wanted);
        proof {
            assert(items::item_views(kept@).len() == kept@.len());
        }
        if kept.len() == 0 {
            number_items(take_items(items::clone_items(&self.items), self.wanted))
        } else {
            number_items(kept)
        }
    }
}

/// At most the first `n` of the items.
fn take_items(list: Vec<TrooznLiveItem>, n: usize) -> (r: Vec<TrooznLiveItem>)
    ensures
        items::item_views(r@) == first_items(items::item_views(list@), n as nat),
{
    let mut list = list;
    let ghost v = items::item_views(list@);
    if list.len() > n {
        list.truncate(n);
        proof {
            assert(items::item_views(list@) =~= v.take(n as int));
        }
    }
    list
}

/// The items, numbered from 1.
fn number_items(list: Vec<TrooznLiveItem>) -> (r: Vec<TrooznLiveItem>)
    ensures
        items::item_views(r@) == numbered(items::item_views(list@)),
{
    let ghost v = items::item_views(list@);
    let mut r: Vec<TrooznLiveItem> = Vec::new();
    let mut i: usize = 0;
    while i < list.len()
        invariant
            v == items::item_views(list@),
            i <= list@.len(),
            items::item_views(r@) == numbered(v).take(i as int),
        decreases list@.len() - i,
    {
        let ghost before = items::item_views(r@);
        let mut item = list[i].clone();
        item.index = i + 1;
        let ghost iv = item@;
        r.push(item);
        proof {
            assert(iv =~= numbered(v)[i as int]);
            assert(items::item_views(r@) =~= before.push(iv));
            assert(numbered(v).take(i + 1) =~= numbered(v).take(i as int).push(iv));
        }
        i += 1;
    }
    proof {
        assert(numbered(v).take(i as int) =~= numbered(v));
    }
    r
}

/// Whether an item is checked before it is queued: those on YouTube are.
pub fn needs_validation(item: &TrooznLiveItem) -> (r: bool)
    ensures
        r == links::youtube_marked(text::unicode_lowercase(item.source_url@)),
{
    links::is_youtube_url(&item.source_url)
}

/// A line of the text starts like a link.
pub open spec fn has_link_line(s: Seq<char>) -> bool {
    exists|i: int| 0 <= i < text::line_seq(s).len() && links::web_link(#[trigger] text::line_seq(s)[i])
}

/// Whether the check of a video passed: the command succeeded and wrote a link.
pub fn validation_passed(success: bool, stdout: &str) -> (r: bool)
    ensures
        r == (success && has_link_line(stdout@)),
{
    if !success {
        return false;
    }
    let lines = text::lines(stdout);
    let mut i: usize = 0;
    while i < lines.len()
        invariant
            success,
            text::texts(lines@) == text::line_seq(stdout@),
            i <= lines@.len(),
            forall|j: int| 0 <= j < i ==> !links::web_link((#[trigger] lines@[j])@),
        decreases lines@.len() - i,
    {
        if links::is_web_link(&lines[i]) {
            proof {
                assert(text::line_seq(stdout@)[i as int] == lines@[i as int]@);
            }
            return true;
        }
        i += 1;
    }
    proof {
        assert forall|j: int| 0 <= j < text::line_seq(stdout@).len() implies !links::web_link(
            #[trigger] text::line_seq(stdout@)[j],
        ) by {
            assert(text::line_seq(stdout@)[j] == lines@[j]@);
        }
    }
    false
}

// ---------------------------------------------------------------------------
// Trying the links
// ---------------------------------------------------------------------------

/// The links that are tried for a link: the link itself and, for a mix, the link to the video
/// that the mix grew from.
pub open spec fn candidate_urls(url: Seq<char>) -> Seq<Seq<char>> {
    match links::mix_link(url) {
        Some(other) if other != url => seq![url, other],
        _ => seq![url],
    }
}

/// The links that are tried for a link.
pub fn extraction_urls(source_url: &str) -> (r: Vec<String>)
    ensures
        text::texts(r@) == candidate_urls(source_url@),
{
    let mut urls: Vec<String> = Vec::new();
    urls.push(source_url.to_string());
    if let Some(other) = links::normalize_rd_playlist_to_watch_url(source_url) {
        if !text::same(&other, source_url) {
            urls.push(other);
        }
    }
    proof {
        assert(text::texts(urls@) =~= candidate_urls(source_url@));
    }
    urls
}

/// What trying to read the items of a link gave: items, or the message of an error.
pub type Extracted = Result<Vec<TrooznLiveItem>, String>;

/// The search for the items of a link.
pub struct Extraction {
    /// The link.
    pub source_url: String,
    /// The links that are tried, in this order.
    pub urls: Vec<String>,
    /// How many of them were tried.
    pub tried: usize,
    /// The last error.
    pub last_error: Option<String>,
}

/// What the search for the items of a link does next.
pub enum ExtractionStep {
    /// Reads the items of a link.
    Try(String),
    /// The search found items.
    Found(Vec<TrooznLiveItem>),
    /// The search found nothing, and the last error was this.
    Nothing(Option<String>),
}

impl Extraction {
    /// The search is over the candidates of its link.
    pub open spec fn well_formed(self) -> bool {
        &&& text::texts(self.urls@) == candidate_urls(self.source_url@)
        &&& self.tried <= self.urls@.len()
    }

    /// Starts the search.
    pub fn new(source_url: &str) -> (r: Self)
        ensures
            r.well_formed(),
            r.source_url@ == source_url@,
            r.tried == 0,
            r.last_error is None,
    {
        Extraction {
            source_url: source_url.to_string(),
            urls: extraction_urls(source_url),
            tried: 0,
            last_error: None,
        }
    }

    /// What the search does next where no item was found yet: it tries the next link, takes the
    /// link itself for the only item, or gives up.
    pub fn next(&mut self) -> (r: ExtractionStep)
        requires
            old(self).well_formed(),
        ensures
            final(self).well_formed(),
            final(self).source_url == old(self).source_url,
            final(self).urls == old(self).urls,
            final(self).last_error == old(self).last_error,
            if old(self).tried < old(self).urls@.len() {
                &&& final(self).tried == old(self).tried + 1
                &&& r matches ExtractionStep::Try(url) && url@ == candidate_urls(
                    old(self).source_url@,
                )[old(self).tried as int]
            } else {
                &&& final(self).tried == old(self).tried
                &&& match items::fallback_item(old(self).source_url@) {
                    Some(item) => r matches ExtractionStep::Found(found) && items::item_views(
                        found@,
                    ) == seq![item],
                    None => r matches ExtractionStep::Nothing(e) && e == old(self).last_error,
                }
            },
    {
        if self.tried < self.urls.len() {
            let url = self.urls[self.tried].clone();
            proof {
                assert(text::texts(self.urls@)[self.tried as int] == url@);
            }
            self.tried = self.tried + 1;
            return ExtractionStep::Try(url);
        }
        match items::fallback_single_item_from_url(&self.source_url) {
            Some(item) => {
                let ghost iv = item@;
                let mut found: Vec<TrooznLiveItem> = Vec::new();
                found.push(item);
                proof {
                    assert(items::item_views(found@) =~= seq![iv]);
                }
                ExtractionStep::Found(found)
            },
            None => ExtractionStep::Nothing(self.last_error.clone()),
        }
    }

    /// Goes on after a link was tried: items end the search, an error is noted.
    pub fn after(&mut self, outcome: Extracted) -> (r: ExtractionStep)
        requires
            old(self).well_formed(),
            old(self).tried >= 1,
        ensures
            final(self).well_formed(),
            final(self).source_url == old(self).source_url,
            final(self).urls == old(self).urls,
            match outcome {
                Ok(found) if found@.len() > 0 => {
                    &&& r matches ExtractionStep::Found(list) && list@ == found@
                    &&& *final(self) == *old(self)
                },
                _ => {
                    &&& match outcome {
                        Ok(_) => text::text_in(final(self).last_error) == Some(
                            "Extraction vide pour "@ + candidate_urls(
                                old(self).source_url@,
                            )[old(self).tried - 1],
                        ),
                        Err(message) => final(self).last_error == Some(message),
                    }
                    &&& if old(self).tried < old(self).urls@.len() {
                        &&& final(self).tried == old(self).tried + 1
                        &&& r matches ExtractionStep::Try(url) && url@ == candidate_urls(
                            old(self).source_url@,
                        )[old(self).tried as int]
                    } else {
                        &&& final(self).tried == old(self).tried
                        &&& match items::fallback_item(old(self).source_url@) {
                            Some(item) => r matches ExtractionStep::Found(found)
                                && items::item_views(found@) == seq![item],
                            None => r matches ExtractionStep::Nothing(e) && e
                                == final(self).last_error,
                        }
                    }
                },
            },
    {
        match outcome {
            Ok(found) => {
                if found.len() > 0 {
                    return ExtractionStep::Found(found);
                }
                proof {
                    assert(text::texts(self.urls@)[self.tried - 1] == self.urls@[self.tried
                        - 1]@);
                }
                let message = text::concat2(
                    "Extraction vide pour ",
                    &self.urls[self.tried - 1],
                );
                self.last_error = Some(message);
            },
            Err(message) => {
                self.last_error = Some(message);
            },
        }
        self.next()
    }
}

/// What one attempt to read the items of a link gave: finding none is an error.
pub fn require_items(outcome: Extracted) -> (r: Extracted)
    ensures
        match outcome {
            Ok(found) => if found@.len() > 0 {
                r matches Ok(list) && list@ == found@
            } else {
                r matches Err(message) && message@ == "Extraction playlist vide après retries"@
            },
            Err(message) => r == Err::<Vec<TrooznLiveItem>, String>(message),
        },
{
    match outcome {
        Ok(found) => if found.len() > 0 {
            Ok(found)
        } else {
            Err("Extraction playlist vide après retries".to_string())
        },
        Err(message) => Err(message),
    }
}

/// What is said where a session cannot start because its link has no items.
pub const NO_ITEM_FOUND: &'static str = "Aucun item yt-dlp trouvé";

/// What is said where a link has no items to queue, given the last error of the search.
pub fn nothing_extracted(last_error: Option<String>) -> (r: String)
    ensures
        r@ == "Aucun item extractible pour ce lien. Dernière erreur: "@ + match last_error {
            Some(message) => message@,
            None => "inconnue"@,
        },
{
    match last_error {
        Some(message) => text::concat2(
            "Aucun item extractible pour ce lien. Dernière erreur: ",
            &message,
        ),
        None => text::concat2("Aucun item extractible pour ce lien. Dernière erreur: ", "inconnue"),
    }
}

// ---------------------------------------------------------------------------
// Laws
// ---------------------------------------------------------------------------

/// The queued items are numbered from 1 without a gap and are no more than wanted; there is at
/// least one wherever the playlist has one and one is wanted.
pub proof fn law_filtered_items_numbered(all: Seq<ItemView>, verdicts: Seq<Verdict>, wanted: nat)
    requires
        verdicts.len() <= all.len() <= usize::MAX,
    ensures
        filtered_items(all, verdicts, wanted).len() <= wanted,
        all.len() > 0 && wanted > 0 ==> filtered_items(all, verdicts, wanted).len() > 0,
        forall|i: int|
            0 <= i < filtered_items(all, verdicts, wanted).len() ==> (#[trigger] filtered_items(
                all,
                verdicts,
                wanted,
            )[i]).index == i + 1,
{
    lemma_active_bound(all, verdicts);
    let keep = |item: ItemView| !rejected(all, verdicts, item.item_id);
    all.lemma_filter_len(keep);
}

proof fn lemma_active_bound(all: Seq<ItemView>, verdicts: Seq<Verdict>)
    ensures
        active_items(all, verdicts).len() <= verdicts.len(),
    decreases verdicts.len(),
{
    if verdicts.len() > 0 {
        lemma_active_bound(all, verdicts.drop_last());
    }
}

/// Where an item was found playable, no item that was found not to be is queued: each queued item
/// is a playable one or comes from behind those that were checked.
pub proof fn law_no_rejected_item(all: Seq<ItemView>, verdicts: Seq<Verdict>, wanted: nat, i: int)
    requires
        verdicts.len() <= all.len() <= usize::MAX,
        active_items(all, verdicts).len() > 0,
        0 <= i < filtered_items(all, verdicts, wanted).len(),
    ensures
        exists|j: int|
            0 <= j < all.len() && (j < verdicts.len() ==> verdicts[j] == Verdict::Active)
                && filtered_items(all, verdicts, wanted)[i] == (ItemView {
                index: (i + 1) as usize,
                ..#[trigger] all[j]
            }),
{
    let active = active_items(all, verdicts);
    let rest = all.skip(verdicts.len() as int);
    let chosen = first_items(active + rest, wanted);
    assert(chosen[i] == (active + rest)[i]);
    if i < active.len() {
        lemma_active_member(all, verdicts, i);
        let j = choose|j: int|
            0 <= j < verdicts.len() && verdicts[j] == Verdict::Active && active[i]
                == #[trigger] all[j];
        assert(all[j] == chosen[i]);
    } else {
        let j = i - active.len() + verdicts.len();
        assert(rest[i - active.len()] == all[j]);
    }
}

proof fn lemma_active_member(all: Seq<ItemView>, verdicts: Seq<Verdict>, i: int)
    requires
        verdicts.len() <= all.len(),
        0 <= i < active_items(all, verdicts).len(),
    ensures
        exists|j: int|
            0 <= j < verdicts.len() && verdicts[j] == Verdict::Active && active_items(
                all,
                verdicts,
            )[i] == #[trigger] all[j],
    decreases verdicts.len(),
{
    let front = active_items(all, verdicts.drop_last());
    if i < front.len() {
        lemma_active_member(all, verdicts.drop_last(), i);
        let j = choose|j: int|
            0 <= j < verdicts.drop_last().len() && verdicts.drop_last()[j] == Verdict::Active
                && front[i] == #[trigger] all[j];
        assert(verdicts[j] == Verdict::Active);
    } else {
        assert(verdicts[verdicts.len() - 1] == Verdict::Active);
        assert(active_items(all, verdicts)[i] == all[verdicts.len() - 1]);
    }
}

/// A request queues at least one item and at most 20; within that it gets what it asks for.
pub proof fn law_limit_is_kept(n: usize)
    ensures
        1 <= clamped(n, MAX_ITEMS) <= 20,
        1 <= n <= 20 ==> clamped(n, MAX_ITEMS) == n,
        n == 0 ==> clamped(n, MAX_ITEMS) == 1,
        n > 20 ==> clamped(n, MAX_ITEMS) == 20,
{
}

/// Of a YouTube playlist six entries more than wanted are read, up to 26; of another link as many
/// as wanted.
pub proof fn law_some_more_entries_are_read(lower: Seq<char>, limit: usize)
    ensures
        links::youtube_marked(lower) && links::playlist_marked(lower) && limit <= 20
            ==> entries_to_read(lower, limit) == limit + 6,
        links::youtube_marked(lower) && links::playlist_marked(lower) && limit > 20
            ==> entries_to_read(lower, limit) == 26,
        !links::youtube_marked(lower) ==> entries_to_read(lower, limit) == limit,
        !links::playlist_marked(lower) ==> entries_to_read(lower, limit) == limit,
{
}

/// The search for playable items ends with the second of them, or with the first where only one is
/// wanted; a further item counts exactly where it was found playable.
pub proof fn law_playable_items_are_counted(verdicts: Seq<Verdict>, verdict: Verdict, wanted: usize)
    ensures
        active_count(Seq::empty()) == 0,
        verdict == Verdict::Active ==> active_count(verdicts.push(verdict)) == active_count(
            verdicts,
        ) + 1,
        verdict != Verdict::Active ==> active_count(verdicts.push(verdict)) == active_count(
            verdicts,
        ),
        wanted <= 1 ==> target_active(wanted) == 1,
        wanted >= 2 ==> target_active(wanted) == 2,
{
    assert(verdicts.push(verdict).drop_last() =~= verdicts);
}

/// The playable items stand in the order of the playlist: a further item comes last among them
/// where it was found playable, and not at all where it was not.
pub proof fn law_playable_items_in_order(
    all: Seq<ItemView>,
    verdicts: Seq<Verdict>,
    verdict: Verdict,
)
    requires
        verdicts.len() < all.len(),
    ensures
        active_items(all, Seq::empty()).len() == 0,
        verdict == Verdict::Active ==> active_items(all, verdicts.push(verdict)) == active_items(
            all,
            verdicts,
        ).push(all[verdicts.len() as int]),
        verdict != Verdict::Active ==> active_items(all, verdicts.push(verdict)) == active_items(
            all,
            verdicts,
        ),
        active_items(all, verdicts).len() == active_count(verdicts),
    decreases verdicts.len(),
{
    assert(verdicts.push(verdict).drop_last() =~= verdicts);
    lemma_active_len(all, verdicts);
}

proof fn lemma_active_len(all: Seq<ItemView>, verdicts: Seq<Verdict>)
    ensures
        active_items(all, verdicts).len() == active_count(verdicts),
    decreases verdicts.len(),
{
    if verdicts.len() > 0 {
        lemma_active_len(all, verdicts.drop_last());
    }
}

/// Where an item was found playable, the playable items are queued first and then those behind the
/// checked ones, as many as wanted. Where none was, the items that were not rejected are queued,
/// and where all were rejected, the first ones.
pub proof fn law_queued_items(all: Seq<ItemView>, verdicts: Seq<Verdict>, wanted: nat, i: int)
    requires
        verdicts.len() <= all.len() < usize::MAX,
        0 <= i < filtered_items(all, verdicts, wanted).len(),
    ensures
        ({
            let item = filtered_items(all, verdicts, wanted)[i];
            let active = active_items(all, verdicts);
            &&& item.index == i + 1
            &&& i < active.len() ==> item == (ItemView { index: item.index, ..active[i] })
            &&& 0 < active.len() <= i ==> item == (ItemView {
                index: item.index,
                ..all[verdicts.len() + (i - active.len())]
            })
            &&& active.len() == 0 && (forall|k: int|
                0 <= k < verdicts.len() ==> #[trigger] verdicts[k] != Verdict::Inactive) ==> item
                == (ItemView { index: item.index, ..all[i] })
            &&& active.len() == 0 ==> (exists|k: int|
                0 <= k < all.len() && item.item_id == (#[trigger] all[k]).item_id)
        }),
        active_items(all, verdicts).len() > 0 ==> filtered_items(all, verdicts, wanted).len() == (if active_items(
            all,
            verdicts,
        ).len() + all.len() - verdicts.len() <= wanted {
            active_items(all, verdicts).len() + all.len() - verdicts.len()
        } else {
            wanted as int
        }),
{
    let active = active_items(all, verdicts);
    lemma_active_bound(all, verdicts);
    let keep = |item: ItemView| !rejected(all, verdicts, item.item_id);
    let kept = all.filter(keep);
    all.lemma_filter_len(keep);
    if active.len() == 0 {
        if forall|k: int| 0 <= k < verdicts.len() ==> #[trigger] verdicts[k] != Verdict::Inactive {
            assert forall|k: int| 0 <= k < all.len() implies keep(#[trigger] all[k]) by {}
            text::lemma_filter_all(all, keep);
        }
        text::lemma_filter_members(all, keep);
        if first_items(kept, wanted).len() == 0 {
            assert(all[i].item_id == filtered_items(all, verdicts, wanted)[i].item_id);
        } else {
            assert(kept[i].item_id == filtered_items(all, verdicts, wanted)[i].item_id);
            assert(kept.contains(kept[i]));
            assert(all.contains(kept[i]));
            let k = choose|k: int| 0 <= k < all.len() && all[k] == kept[i];
            assert(all[k].item_id == filtered_items(all, verdicts, wanted)[i].item_id);
        }
    }
}

/// A link that is no mix is the only one that is tried; for a mix the link itself comes first.
pub proof fn law_link_itself_is_tried_first(url: Seq<char>)
    ensures
        candidate_urls(url).len() >= 1,
        candidate_urls(url)[0] == url,
        links::mix_link(url) is None ==> candidate_urls(url).len() == 1,
        links::mix_link(url) matches Some(other) ==> other != url ==> candidate_urls(url) == seq![
            url,
            other,
        ],
{
}

/// A video passes the check where one of the lines is a link, wherever the line stands.
pub proof fn law_link_line_is_found(before: Seq<char>, link: Seq<char>, after: Seq<char>)
    requires
        before.len() == 0 || before.last() == '\n',
        links::web_link(link),
        text::free_of(link, text::CharSet::Pair('\n', '\r')),
    ensures
        has_link_line(before + (link + "\n"@) + after),
        !has_link_line(Seq::empty()),
{
    reveal_strlit("\n");
    text::lemma_one_line(link);
    text::lemma_lines_concat(before, link + "\n"@);
    text::lemma_lines_concat(before + (link + "\n"@), after);
    let all = text::line_seq(before + (link + "\n"@) + after);
    assert(all[text::line_seq(before).len() as int] == link);
    text::lemma_lines_concat(Seq::empty(), Seq::empty());
    assert(Seq::<char>::empty() + Seq::<char>::empty() =~= Seq::empty());
}

} // verus!
