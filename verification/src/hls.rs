//! HLS playlists: reading those that the encoder writes, item by item, and writing the one that
//! is played, over all items.
use vstd::prelude::*;

use crate::media_path;
use crate::numbers;
use crate::text;
use crate::text::CharSet;

verus! {

/// One segment of the stream.
#[derive(Debug)]
pub struct MasterEntry {
    /// The number of the item that the segment belongs to.
    pub item_index: usize,
    /// The duration in seconds, as the encoder wrote it.
    pub duration: String,
    /// The time at which the segment was made, as the encoder wrote it.
    pub program_date_time: Option<String>,
    /// The name of the file.
    pub segment: String,
    /// Whether the segment is the first of an item that follows another.
    pub discontinuity_before: bool,
}

/// The model of a segment of the stream.
#[verifier::ext_equal]
pub struct EntryView {
    pub item_index: usize,
    pub duration: Seq<char>,
    pub program_date_time: Option<Seq<char>>,
    pub segment: Seq<char>,
    pub discontinuity_before: bool,
}

impl View for MasterEntry {
    type V = EntryView;

    open spec fn view(&self) -> EntryView {
        EntryView {
            item_index: self.item_index,
            duration: self.duration@,
            program_date_time: text::text_in(self.program_date_time),
            segment: self.segment@,
            discontinuity_before: self.discontinuity_before,
        }
    }
}

impl Clone for MasterEntry {
    fn clone(&self) -> (r: Self)
        ensures
            r == *self,
    {
        MasterEntry {
            item_index: self.item_index,
            duration: self.duration.clone(),
            program_date_time: self.program_date_time.clone(),
            segment: self.segment.clone(),
            discontinuity_before: self.discontinuity_before,
        }
    }
}

/// The models of a list of segments.
pub open spec fn entry_views(entries: Seq<MasterEntry>) -> Seq<EntryView> {
    entries.map_values(|e: MasterEntry| e@)
}

// ---------------------------------------------------------------------------
// Names of files
// ---------------------------------------------------------------------------

/// The start of the names of an item's files.
pub open spec fn item_prefix(index: nat) -> Seq<char> {
    "item-"@ + numbers::dec_padded(index, 4)
}

/// The name of an item's playlist.
pub open spec fn item_manifest(index: nat) -> Seq<char> {
    item_prefix(index) + ".m3u8"@
}

/// The name of a segment of an item.
pub open spec fn segment_name(index: nat, segment: nat) -> Seq<char> {
    item_prefix(index) + "-"@ + numbers::dec_padded(segment, 5) + ".ts"@
}

/// The start of the names of an item's files.
pub fn item_file_prefix(index: usize) -> (r: String)
    ensures
        r@ == item_prefix(index as nat),
{
    text::concat2("item-", &numbers::padded_decimal(index as u64, 4))
}

/// The name of an item's playlist.
pub fn item_manifest_name(index: usize) -> (r: String)
    ensures
        r@ == item_manifest(index as nat),
{
    text::concat2(&item_file_prefix(index), ".m3u8")
}

/// The numbers of the item and of the segment that the name of a segment's file holds.
pub open spec fn segment_numbers(relative: Seq<char>) -> Option<(nat, nat)> {
    match media_path::file_name_of(relative) {
        None => None,
        Some(name) => if !text::begins(name, "item-"@) || !text::ends(name, ".ts"@) {
            None
        } else {
            let parts = text::parts(text::without_suffixes(name, ".ts"@), CharSet::Only('-'));
            if parts.len() != 3 {
                None
            } else {
                match (
                    numbers::parse_uint(parts[1], 10, usize::MAX as nat),
                    numbers::parse_uint(parts[2], 10, usize::MAX as nat),
                ) {
                    (Some(item), Some(segment)) => Some((item, segment)),
                    _ => None,
                }
            }
        },
    }
}

/// The numbers of the item and of the segment that the name of a segment's file holds:
/// `item-<item>-<segment>.ts`.
pub fn parse_item_segment_name(relative: &str) -> (r: Option<(usize, usize)>)
    ensures
        match r {
            Some((item, segment)) => segment_numbers(relative@) == Some(
                (item as nat, segment as nat),
            ),
            None => segment_numbers(relative@) is None,
        },
{
    let name = match media_path::file_name(relative) {
        Some(name) => name,
        None => {
            return None;
        },
    };
    if !text::starts_with(&name, "item-") || !text::ends_with(&name, ".ts") {
        return None;
    }
    proof {
        reveal_strlit(".ts");
    }
    let bare = text::strip_suffixes(&name, ".ts");
    let parts = text::split(&bare, CharSet::Only('-'));
    proof {
        assert(text::texts(parts@).len() == parts@.len());
    }
    if parts.len() != 3 {
        return None;
    }
    proof {
        assert(text::texts(parts@)[1] == parts@[1]@);
        assert(text::texts(parts@)[2] == parts@[2]@);
    }
    match (numbers::parse_usize(&parts[1]), numbers::parse_usize(&parts[2])) {
        (Some(item), Some(segment)) => Some((item, segment)),
        _ => None,
    }
}

/// The number of the item that the name of one of its files holds in the four characters behind
/// `item-`.
pub open spec fn file_item(name: Seq<char>) -> Option<nat> {
    match text::without_prefix(name, "item-"@) {
        Some(rest) if rest.len() >= 4 => numbers::parse_uint(rest.take(4), 10, usize::MAX as nat),
        _ => None,
    }
}

/// The number of the item that the name of one of its files holds.
pub fn parse_item_index_from_live_filename(name: &str) -> (r: Option<usize>)
    ensures
        match r {
            Some(index) => file_item(name@) == Some(index as nat),
            None => file_item(name@) is None,
        },
{
    match text::strip_prefix(name, "item-") {
        Some(rest) => {
            let v = text::chars_of(&rest);
            if v.len() < 4 {
                return None;
            }
            let digits = text::substring(&v, 0, 4);
            proof {
                assert(digits@ =~= rest@.take(4));
            }
            numbers::parse_usize(&digits)
        },
        None => None,
    }
}

/// A file holds a segment of the item.
pub open spec fn is_item_segment(name: Seq<char>, index: nat) -> bool {
    text::begins(name, item_prefix(index) + "-"@) && text::ends(name, ".ts"@)
}

/// The number of the item's segments among the files of a directory.
pub fn count_item_ts_files(names: &Vec<String>, item_index: usize) -> (r: usize)
    ensures
        r == text::texts(names@).filter(|n: Seq<char>| is_item_segment(n, item_index as nat)).len(),
{
    let prefix = text::concat2(&item_file_prefix(item_index), "-");
    let ghost keep = |n: Seq<char>| is_item_segment(n, item_index as nat);
    let ghost t = text::texts(names@);
    let mut count: usize = 0;
    let mut i: usize = 0;
    proof {
        text::lemma_filter_all(t.take(0), keep);
    }
    while i < names.len()
        invariant
            keep == (|n: Seq<char>| is_item_segment(n, item_index as nat)),
            prefix@ == item_prefix(item_index as nat) + "-"@,
            t == text::texts(names@),
            i <= names@.len(),
            count <= i,
            count == t.take(i as int).filter(keep).len(),
        decreases names@.len() - i,
    {
        proof {
            text::lemma_filter_push(t.take(i as int), t[i as int], keep);
            assert(t.take(i + 1) =~= t.take(i as int).push(t[i as int]));
        }
        if text::starts_with(&names[i], &prefix) && text::ends_with(&names[i], ".ts") {
            count += 1;
        }
        i += 1;
    }
    proof {
        assert(t.take(i as int) =~= t);
    }
    count
}

/// A line of a playlist names a segment.
pub open spec fn segment_line(line: Seq<char>) -> bool {
    line.len() > 0 && line[0] != '#' && text::ends(line, ".ts"@)
}

/// Whether a line of a playlist names a segment.
fn is_segment_line(line: &str) -> (r: bool)
    ensures
        r == segment_line(line@),
{
    let v = text::chars_of(line);
    v.len() > 0 && v[0] != '#' && text::ends_with(line, ".ts")
}

/// The number of lines of a playlist that name a segment.
pub fn count_manifest_ts_lines(content: &str) -> (r: usize)
    ensures
        r == text::line_seq(content@).filter(
            |line: Seq<char>| segment_line(text::trimmed(line)),
        ).len(),
{
    let lines = text::lines(content);
    let ghost keep = |line: Seq<char>| segment_line(text::trimmed(line));
    let ghost t = text::texts(lines@);
    let mut count: usize = 0;
    let mut i: usize = 0;
    proof {
        text::lemma_filter_all(t.take(0), keep);
    }
    while i < lines.len()
        invariant
            keep == (|line: Seq<char>| segment_line(text::trimmed(line))),
            t == text::texts(lines@),
            i <= lines@.len(),
            count <= i,
            count == t.take(i as int).filter(keep).len(),
        decreases lines@.len() - i,
    {
        proof {
            text::lemma_filter_push(t.take(i as int), t[i as int], keep);
            assert(t.take(i + 1) =~= t.take(i as int).push(t[i as int]));
        }
        if is_segment_line(&text::trim(&lines[i])) {
            count += 1;
        }
        i += 1;
    }
    proof {
        assert(t.take(i as int) =~= t);
    }
    count
}

// ---------------------------------------------------------------------------
// Reading an item's playlist
// ---------------------------------------------------------------------------

/// What reading the lines of a playlist has found so far.
#[verifier::ext_equal]
pub struct ReadView {
    /// The segments.
    pub entries: Seq<EntryView>,
    /// The duration that waits for its segment.
    pub duration: Option<Seq<char>>,
    /// The time that waits for its segment.
    pub program_date_time: Option<Seq<char>>,
}

/// The name of the file that a line names.
pub open spec fn named_file(line: Seq<char>) -> Seq<char> {
    match media_path::file_name_of(line) {
        Some(name) => name,
        None => line,
    }
}

/// The segment that a line names, with the duration and time that stand before it.
pub open spec fn entry_for(
    before: ReadView,
    line: Seq<char>,
    item_index: usize,
    has_previous_item: bool,
) -> EntryView {
    EntryView {
        item_index,
        duration: match before.duration {
            Some(d) => d,
            None => "4.000000"@,
        },
        program_date_time: before.program_date_time,
        segment: named_file(line),
        discontinuity_before: has_previous_item && before.entries.len() == 0,
    }
}

/// What a line of a playlist adds.
pub open spec fn read_line(
    before: ReadView,
    raw: Seq<char>,
    item_index: usize,
    has_previous_item: bool,
) -> ReadView {
    let line = text::trimmed(raw);
    match text::without_prefix(line, "#EXTINF:"@) {
        Some(rest) => ReadView {
            duration: Some(text::trimmed(text::trim_end(rest, CharSet::Only(',')))),
            ..before
        },
        None => match text::without_prefix(line, "#EXT-X-PROGRAM-DATE-TIME:"@) {
            Some(rest) => ReadView { program_date_time: Some(text::trimmed(rest)), ..before },
            None => if segment_line(line) {
                ReadView {
                    entries: before.entries.push(
                        entry_for(before, line, item_index, has_previous_item),
                    ),
                    duration: None,
                    program_date_time: None,
                }
            } else {
                before
            },
        },
    }
}

/// What the lines of a playlist hold.
pub open spec fn read_lines(
    lines: Seq<Seq<char>>,
    item_index: usize,
    has_previous_item: bool,
) -> ReadView
    decreases lines.len(),
{
    if lines.len() == 0 {
        ReadView { entries: Seq::empty(), duration: None, program_date_time: None }
    } else {
        read_line(
            read_lines(lines.drop_last(), item_index, has_previous_item),
            lines.last(),
            item_index,
            has_previous_item,
        )
    }
}

/// The segments that the playlist of an item lists.
pub open spec fn item_entries(
    item_index: usize,
    content: Seq<char>,
    has_previous_item: bool,
) -> Seq<EntryView> {
    read_lines(text::line_seq(content), item_index, has_previous_item).entries
}

/// The segments that the playlist of an item lists, each with the duration and the time that
/// stand before it. The first is marked where another item came before.
pub fn parse_item_hls_entries(
    item_index: usize,
    content: &str,
    has_previous_item: bool,
) -> (r: Vec<MasterEntry>)
    ensures
        entry_views(r@) == item_entries(item_index, content@, has_previous_item),
{
    let lines = text::lines(content);
    let ghost t = text::texts(lines@);
    let mut out: Vec<MasterEntry> = Vec::new();
    let mut duration: Option<String> = None;
    let mut program_date_time: Option<String> = None;
    let mut i: usize = 0;
    proof {
        assert(entry_views(out@) =~= Seq::<EntryView>::empty());
    }
    while i < lines.len()
        invariant
            t == text::texts(lines@),
            i <= lines@.len(),
            read_lines(t.take(i as int), item_index, has_previous_item) == (ReadView {
                entries: entry_views(out@),
                duration: text::text_in(duration),
                program_date_time: text::text_in(program_date_time),
            }),
        decreases lines@.len() - i,
    {
        let ghost before = read_lines(t.take(i as int), item_index, has_previous_item);
        proof {
            assert(t.take(i + 1).drop_last() =~= t.take(i as int));
            assert(t.take(i + 1).last() == lines@[i as int]@);
        }
        let line = text::trim(&lines[i]);
        i += 1;
        if let Some(rest) = text::strip_prefix(&line, "#EXTINF:") {
            duration = Some(text::trim(&text::strip_end(&rest, CharSet::Only(','))));
            continue ;
        }
        if let Some(rest) = text::strip_prefix(&line, "#EXT-X-PROGRAM-DATE-TIME:") {
            program_date_time = Some(text::trim(&rest));
            continue ;
        }
        if !is_segment_line(&line) {
            continue ;
        }
        let segment = match media_path::file_name(&line) {
            Some(name) => name,
            None => line.clone(),
        };
        let length = match duration.take() {
            Some(d) => d,
            None => "4.000000".to_string(),
        };
        let entry = MasterEntry {
            item_index,
            duration: length,
            program_date_time: program_date_time.take(),
            segment,
            discontinuity_before: has_previous_item && out.len() == 0,
        };
        let ghost old_views = entry_views(out@);
        out.push(entry);
        proof {
            assert(entry@ =~= entry_for(before, line@, item_index, has_previous_item));
            assert(entry_views(out@) =~= old_views.push(entry@));
        }
    }
    proof {
        assert(t.take(i as int) =~= t);
    }
    out
}

// ---------------------------------------------------------------------------
// Writing the stream's playlist
// ---------------------------------------------------------------------------

/// The longest of the given whole durations, `none` where there is none, but at least 2.
pub open spec fn target_duration(ceilings: Seq<Option<u64>>, none: u64) -> u64 {
    let longest = longest_of(ceilings);
    let value = match longest {
        Some(n) => n,
        None => none,
    };
    if value < 2 {
        2
    } else {
        value
    }
}

/// The largest of the numbers that are there.
pub open spec fn longest_of(ceilings: Seq<Option<u64>>) -> Option<u64>
    decreases ceilings.len(),
{
    if ceilings.len() == 0 {
        None
    } else {
        match (longest_of(ceilings.drop_last()), ceilings.last()) {
            (Some(a), Some(b)) => Some(
                if a < b {
                    b
                } else {
                    a
                },
            ),
            (None, b) => b,
            (a, None) => a,
        }
    }
}

/// The longest of the given whole durations, `none` where there is none, but at least 2.
fn longest_duration(ceilings: &Vec<Option<u64>>, none: u64) -> (r: u64)
    ensures
        r == target_duration(ceilings@, none),
{
    let mut longest: Option<u64> = None;
    let mut i: usize = 0;
    while i < ceilings.len()
        invariant
            i <= ceilings@.len(),
            longest == longest_of(ceilings@.take(i as int)),
        decreases ceilings@.len() - i,
    {
        proof {
            assert(ceilings@.take(i + 1).drop_last() =~= ceilings@.take(i as int));
        }
        longest = match (longest, ceilings[i]) {
            (Some(a), Some(b)) => Some(
                if a < b {
                    b
                } else {
                    a
                },
            ),
            (None, b) => b,
            (a, None) => a,
        };
        i += 1;
    }
    proof {
        assert(ceilings@.take(i as int) =~= ceilings@);
    }
    let value: u64 = match longest {
        Some(n) => n,
        None => none,
    };
    if value < 2 {
        2
    } else {
        value
    }
}

/// The lines with which the stream's playlist starts.
pub open spec fn playlist_head(
    target: u64,
    media_sequence: u64,
    discontinuity_sequence: u64,
) -> Seq<char> {
    "#EXTM3U\n#EXT-X-VERSION:3\n#EXT-X-TARGETDURATION:"@ + numbers::dec(target as nat)
        + "\n#EXT-X-MEDIA-SEQUENCE:"@ + numbers::dec(media_sequence as nat)
        + "\n#EXT-X-DISCONTINUITY-SEQUENCE:"@ + numbers::dec(discontinuity_sequence as nat)
        + "\n#EXT-X-START:TIME-OFFSET=0,PRECISE=YES\n"@
}

/// The lines with which the stream's playlist starts.
fn write_playlist_head(target: u64, media_sequence: u64, discontinuity_sequence: u64) -> (r: String)
    ensures
        r@ == playlist_head(target, media_sequence, discontinuity_sequence),
{
    let mut out = text::concat2(
        "#EXTM3U\n#EXT-X-VERSION:3\n#EXT-X-TARGETDURATION:",
        &numbers::decimal(target),
    );
    out.push_str("\n#EXT-X-MEDIA-SEQUENCE:");
    out.push_str(&numbers::decimal(media_sequence));
    out.push_str("\n#EXT-X-DISCONTINUITY-SEQUENCE:");
    out.push_str(&numbers::decimal(discontinuity_sequence));
    out.push_str("\n#EXT-X-START:TIME-OFFSET=0,PRECISE=YES\n");
    out
}

/// Whether one of the segments is marked and belongs to the item.
pub open spec fn marked_before(entries: Seq<EntryView>, item_index: usize) -> bool {
    exists|j: int|
        0 <= j < entries.len() && (#[trigger] entries[j]).item_index == item_index
            && entries[j].discontinuity_before
}

/// The lines of one segment of the stream's playlist.
pub open spec fn master_lines_of(before: Seq<EntryView>, e: EntryView) -> Seq<char> {
    let mark = if e.discontinuity_before && !marked_before(before, e.item_index) {
        "#EXT-X-DISCONTINUITY\n"@
    } else {
        Seq::empty()
    };
    let time = match e.program_date_time {
        Some(t) => "#EXT-X-PROGRAM-DATE-TIME:"@ + t + "\n"@,
        None => Seq::empty(),
    };
    mark + "#EXTINF:"@ + e.duration + ",\n"@ + time + e.segment + "\n"@
}

/// The lines of the segments of the stream's playlist: each with its duration and time, and a
/// discontinuity before the first marked segment of each item.
pub open spec fn master_lines(entries: Seq<EntryView>) -> Seq<char>
    decreases entries.len(),
{
    if entries.len() == 0 {
        Seq::empty()
    } else {
        master_lines(entries.drop_last()) + master_lines_of(entries.drop_last(), entries.last())
    }
}

/// The stream's playlist.
pub open spec fn master_playlist(
    entries: Seq<EntryView>,
    ceilings: Seq<Option<u64>>,
    media_sequence: u64,
    discontinuity_sequence: u64,
    ended: bool,
) -> Seq<char> {
    playlist_head(target_duration(ceilings, 2), media_sequence, discontinuity_sequence)
        + master_lines(entries) + if ended {
        "#EXT-X-ENDLIST\n"@
    } else {
        Seq::empty()
    }
}

/// Whether one of the first `n` segments is marked and belongs to the item.
fn is_marked_before(entries: &Vec<MasterEntry>, n: usize, item_index: usize) -> (r: bool)
    requires
        n <= entries@.len(),
    ensures
        r == marked_before(entry_views(entries@).take(n as int), item_index),
{
    let ghost t = entry_views(entries@).take(n as int);
    let mut j: usize = 0;
    while j < n
        invariant
            t == entry_views(entries@).take(n as int),
            j <= n <= entries@.len(),
            forall|k: int|
                0 <= k < j ==> !((#[trigger] t[k]).item_index == item_index
                    && t[k].discontinuity_before),
        decreases n - j,
    {
        if entries[j].item_index == item_index && entries[j].discontinuity_before {
            proof {
                assert(t[j as int].item_index == item_index);
            }
            return true;
        }
        j += 1;
    }
    false
}

/// Writes the stream's playlist. `ceilings` holds for each segment its duration rounded up to
/// whole seconds, where its duration is a number.
pub fn render_master_playlist(
    entries: &Vec<MasterEntry>,
    ceilings: &Vec<Option<u64>>,
    media_sequence: u64,
    discontinuity_sequence: u64,
    ended: bool,
) -> (r: String)
    ensures
        r@ == master_playlist(
            entry_views(entries@),
            ceilings@,
            media_sequence,
            discontinuity_sequence,
            ended,
        ),
{
    let mut out = write_playlist_head(
        longest_duration(ceilings, 2),
        media_sequence,
        discontinuity_sequence,
    );
    let ghost start = out@;
    let ghost v = entry_views(entries@);
    let mut i: usize = 0;
    proof {
        assert(start + Seq::<char>::empty() =~= start);
    }
    while i < entries.len()
        invariant
            v == entry_views(entries@),
            i <= entries@.len(),
            out@ == start + master_lines(v.take(i as int)),
        decreases entries@.len() - i,
    {
        let entry = &entries[i];
        let ghost before = out@;
        let marked = entry.discontinuity_before && !is_marked_before(entries, i, entry.item_index);
        if marked {
            out.push_str("#EXT-X-DISCONTINUITY\n");
        }
        out.push_str("#EXTINF:");
        out.push_str(&entry.duration);
        out.push_str(",\n");
        if let Some(time) = &entry.program_date_time {
            out.push_str("#EXT-X-PROGRAM-DATE-TIME:");
            out.push_str(time);
            out.push_str("\n");
        }
        out.push_str(&entry.segment);
        out.push_str("\n");
        proof {
            assert(v.take(i + 1).drop_last() =~= v.take(i as int));
            assert(v.take(i + 1).last() == entry@);
            let add = master_lines_of(v.take(i as int), entry@);
            assert(out@ =~= before + add);
            assert(start + master_lines(v.take(i as int)) + add =~= start + (master_lines(
                v.take(i as int),
            ) + add));
        }
        i += 1;
    }
    proof {
        assert(v.take(i as int) =~= v);
    }
    if ended {
        out.push_str("#EXT-X-ENDLIST\n");
    } else {
        proof {
            assert(out@ + Seq::<char>::empty() =~= out@);
        }
    }
    out
}

/// The playlist of a stream that has no segment yet.
pub open spec fn empty_playlist() -> Seq<char> {
    "#EXTM3U\n#EXT-X-VERSION:3\n#EXT-X-TARGETDURATION:2\n#EXT-X-MEDIA-SEQUENCE:0\n#EXT-X-START:TIME-OFFSET=0,PRECISE=YES\n"@
}

/// The playlist of a stream that has no segment yet.
pub fn render_empty_master_playlist() -> (r: String)
    ensures
        r@ == empty_playlist(),
{
    "#EXTM3U\n#EXT-X-VERSION:3\n#EXT-X-TARGETDURATION:2\n#EXT-X-MEDIA-SEQUENCE:0\n#EXT-X-START:TIME-OFFSET=0,PRECISE=YES\n".to_string()
}

/// The lines of one segment of the playlist from an anchor.
pub open spec fn playback_lines_of(before: Seq<EntryView>, e: EntryView) -> Seq<char> {
    let mark = if before.len() > 0 && before.last().item_index != e.item_index {
        "#EXT-X-DISCONTINUITY\n"@
    } else {
        Seq::empty()
    };
    mark + "#EXTINF:"@ + text::first_chars(e.duration, 6) + ",\n"@ + e.segment + "\n"@
}

/// The lines of the segments of the playlist from an anchor: each with the first six characters
/// of its duration, and a discontinuity wherever the item changes.
pub open spec fn playback_lines(entries: Seq<EntryView>) -> Seq<char>
    decreases entries.len(),
{
    if entries.len() == 0 {
        Seq::empty()
    } else {
        playback_lines(entries.drop_last()) + playback_lines_of(
            entries.drop_last(),
            entries.last(),
        )
    }
}

/// The segments of the items from number `anchor` on.
pub open spec fn from_anchor(entries: Seq<EntryView>, anchor: usize) -> Seq<EntryView> {
    entries.filter(|e: EntryView| e.item_index >= anchor)
}

/// The segments that are played: those from the anchor on, or all where there is none.
pub open spec fn played(entries: Seq<EntryView>, anchor: usize) -> Seq<EntryView> {
    if from_anchor(entries, anchor).len() == 0 {
        entries
    } else {
        from_anchor(entries, anchor)
    }
}

/// The segments that are played: those from the anchor on, or all where there is none.
pub fn select_played(entries: &Vec<MasterEntry>, anchor: usize) -> (r: Vec<MasterEntry>)
    ensures
        entry_views(r@) == played(entry_views(entries@), anchor),
{
    let ghost keep = |e: EntryView| e.item_index >= anchor;
    let ghost v = entry_views(entries@);
    let mut out: Vec<MasterEntry> = Vec::new();
    let mut i: usize = 0;
    proof {
        text::lemma_filter_all(v.take(0), keep);
        assert(entry_views(out@) =~= v.take(0).filter(keep));
    }
    while i < entries.len()
        invariant
            keep == (|e: EntryView| e.item_index >= anchor),
            v == entry_views(entries@),
            i <= entries@.len(),
            entry_views(out@) == v.take(i as int).filter(keep),
        decreases entries@.len() - i,
    {
        let ghost before = entry_views(out@);
        proof {
            text::lemma_filter_push(v.take(i as int), v[i as int], keep);
            assert(v.take(i + 1) =~= v.take(i as int).push(v[i as int]));
        }
        if entries[i].item_index >= anchor {
            out.push(entries[i].clone());
            proof {
                assert(entry_views(out@) =~= before.push(v[i as int]));
            }
        }
        i += 1;
    }
    proof {
        assert(v.take(i as int) =~= v);
        assert(entry_views(out@).len() == out@.len());
    }
    if out.len() == 0 {
        let all = entries.clone();
        proof {
            assert forall|k: int| 0 <= k < entries@.len() implies all@[k] == entries@[k] by {
                assert(vstd::pervasive::cloned(entries@[k], all@[k]));
            }
            assert(entry_views(all@) =~= v);
        }
        all
    } else {
        out
    }
}

/// Writes the playlist of the segments that are played from an anchor. `ceilings` holds for each
/// of them its duration rounded up to whole seconds, where its duration is a number.
pub fn render_playback_playlist(
    selected: &Vec<MasterEntry>,
    ceilings: &Vec<Option<u64>>,
    media_sequence: u64,
    discontinuity_sequence: u64,
) -> (r: String)
    ensures
        r@ == playlist_head(target_duration(ceilings@, 6), media_sequence, discontinuity_sequence)
            + playback_lines(entry_views(selected@)),
{
    let mut out = write_playlist_head(
        longest_duration(ceilings, 6),
        media_sequence,
        discontinuity_sequence,
    );
    let ghost start = out@;
    let ghost v = entry_views(selected@);
    let mut i: usize = 0;
    proof {
        assert(start + Seq::<char>::empty() =~= start);
    }
    while i < selected.len()
        invariant
            v == entry_views(selected@),
            i <= selected@.len(),
            out@ == start + playback_lines(v.take(i as int)),
        decreases selected@.len() - i,
    {
        let entry = &selected[i];
        let ghost before = out@;
        if i > 0 && selected[i - 1].item_index != entry.item_index {
            out.push_str("#EXT-X-DISCONTINUITY\n");
        }
        out.push_str("#EXTINF:");
        out.push_str(&text::take_chars(&entry.duration, 6));
        out.push_str(",\n");
        out.push_str(&entry.segment);
        out.push_str("\n");
        proof {
            assert(v.take(i + 1).drop_last() =~= v.take(i as int));
            assert(v.take(i + 1).last() == entry@);
            let add = playback_lines_of(v.take(i as int), entry@);
            assert(out@ =~= before + add);
            assert(start + playback_lines(v.take(i as int)) + add =~= start + (playback_lines(
                v.take(i as int),
            ) + add));
        }
        i += 1;
    }
    proof {
        assert(v.take(i as int) =~= v);
    }
    out
}

// ---------------------------------------------------------------------------
// Laws
// ---------------------------------------------------------------------------

/// The segments of the first lines are the first of the segments of all lines.
proof fn lemma_entries_grow(
    lines: Seq<Seq<char>>,
    n: int,
    item_index: usize,
    has_previous_item: bool,
)
    requires
        0 <= n <= lines.len(),
    ensures
        read_lines(lines.take(n), item_index, has_previous_item).entries.is_prefix_of(
            read_lines(lines, item_index, has_previous_item).entries,
        ),
    decreases lines.len() - n,
{
    if n == lines.len() {
        assert(lines.take(n) =~= lines);
    } else {
        lemma_entries_grow(lines, n + 1, item_index, has_previous_item);
        assert(lines.take(n + 1).drop_last() =~= lines.take(n));
    }
}

/// What is read behind the end of a line leaves the lines before it as they were.
proof fn lemma_lines_grow(content: Seq<char>, more: Seq<char>)
    requires
        content.len() > 0,
        content.last() == '\n',
    ensures
        text::line_seq(content).len() <= text::line_seq(content + more).len(),
        text::line_seq(content + more).take(text::line_seq(content).len() as int)
            == text::line_seq(content),
{
    let feed = CharSet::Only('\n');
    let c = content.drop_last();
    let none = Seq::<char>::empty();
    assert(content =~= c + seq!['\n'] + none);
    assert(content + more =~= c + seq!['\n'] + more);
    text::lemma_parts_concat(c, '\n', none, feed);
    text::lemma_parts_concat(c, '\n', more, feed);
    text::lemma_parts_free(none, feed);
    text::lemma_parts_nonempty(more, feed);
    let p = text::parts(c, feed);
    let a = text::parts(content, feed);
    let b = text::parts(content + more, feed);
    assert(a.len() == p.len() + 1);
    assert(a[a.len() - 1] == none);
    let short = text::line_seq(content);
    let long = text::line_seq(content + more);
    assert(short.len() == p.len());
    assert forall|i: int| 0 <= i < p.len() implies short[i] == long[i] by {
        assert(a[i] == p[i]);
        assert(b[i] == p[i]);
    }
    assert(long.take(short.len() as int) =~= short);
}

/// A playlist that ends with the end of a line and grows keeps its segments: those that were read
/// before are the first of those that are read then.
pub proof fn law_growing_playlist_keeps_entries(
    item_index: usize,
    content: Seq<char>,
    more: Seq<char>,
    has_previous_item: bool,
)
    requires
        content.len() > 0,
        content.last() == '\n',
    ensures
        item_entries(item_index, content, has_previous_item).is_prefix_of(
            item_entries(item_index, content + more, has_previous_item),
        ),
{
    lemma_lines_grow(content, more);
    lemma_entries_grow(
        text::line_seq(content + more),
        text::line_seq(content).len() as int,
        item_index,
        has_previous_item,
    );
}

/// The lines that name a segment, without white space around them.
pub open spec fn segment_lines(lines: Seq<Seq<char>>) -> Seq<Seq<char>> {
    lines.map_values(|line: Seq<char>| text::trimmed(line)).filter(
        |line: Seq<char>| segment_line(line),
    )
}

/// One more line.
proof fn lemma_segment_lines(lines: Seq<Seq<char>>)
    requires
        lines.len() > 0,
    ensures
        segment_lines(lines) == (if segment_line(text::trimmed(lines.last())) {
            segment_lines(lines.drop_last()).push(text::trimmed(lines.last()))
        } else {
            segment_lines(lines.drop_last())
        }),
{
    let f = |line: Seq<char>| text::trimmed(line);
    let keep = |line: Seq<char>| segment_line(line);
    let front = lines.drop_last().map_values(f);
    assert(lines.map_values(f) =~= front.push(text::trimmed(lines.last())));
    text::lemma_filter_push(front, text::trimmed(lines.last()), keep);
}

/// A line that names a segment is no line of another kind.
proof fn lemma_segment_line_alone(line: Seq<char>)
    requires
        segment_line(line),
    ensures
        !text::begins(line, "#EXTINF:"@),
        !text::begins(line, "#EXT-X-PROGRAM-DATE-TIME:"@),
{
    reveal_strlit("#EXTINF:");
    reveal_strlit("#EXT-X-PROGRAM-DATE-TIME:");
    if text::begins(line, "#EXTINF:"@) {
        assert(line.subrange(0, 8)[0] == '#');
    }
    if text::begins(line, "#EXT-X-PROGRAM-DATE-TIME:"@) {
        assert(line.subrange(0, 25)[0] == '#');
    }
}

/// There is one segment for each line that names one, in the order of the lines.
proof fn lemma_one_entry_per_segment_line(
    lines: Seq<Seq<char>>,
    item_index: usize,
    has_previous_item: bool,
)
    ensures
        read_lines(lines, item_index, has_previous_item).entries.len() == segment_lines(lines).len(),
        forall|k: int|
            0 <= k < segment_lines(lines).len() ==> {
                let entry = #[trigger] read_lines(
                    lines,
                    item_index,
                    has_previous_item,
                ).entries[k];
                &&& entry.segment == named_file(segment_lines(lines)[k])
                &&& entry.item_index == item_index
                &&& entry.discontinuity_before == (has_previous_item && k == 0)
            },
    decreases lines.len(),
{
    if lines.len() > 0 {
        let front = lines.drop_last();
        lemma_one_entry_per_segment_line(front, item_index, has_previous_item);
        lemma_segment_lines(lines);
        let line = text::trimmed(lines.last());
        if segment_line(line) {
            lemma_segment_line_alone(line);
        }
    } else {
        assert(lines.map_values(|line: Seq<char>| text::trimmed(line)) =~= Seq::empty());
        text::lemma_filter_all(Seq::<Seq<char>>::empty(), |line: Seq<char>| segment_line(line));
    }
}

/// There is one segment for each line that names one, in the order of the lines: it has the name
/// of the file of that line and the number of the item, and only the first is marked, where another
/// item came before.
pub proof fn law_one_entry_per_segment_line(
    item_index: usize,
    content: Seq<char>,
    has_previous_item: bool,
)
    ensures
        item_entries(item_index, content, has_previous_item).len() == segment_lines(
            text::line_seq(content),
        ).len(),
        forall|k: int|
            0 <= k < item_entries(item_index, content, has_previous_item).len() ==> {
                let entry = #[trigger] item_entries(item_index, content, has_previous_item)[k];
                &&& entry.segment == named_file(segment_lines(text::line_seq(content))[k])
                &&& entry.item_index == item_index
                &&& entry.discontinuity_before == (has_previous_item && k == 0)
            },
{
    lemma_one_entry_per_segment_line(text::line_seq(content), item_index, has_previous_item);
}

/// Whether a line gives a duration.
pub open spec fn duration_line(line: Seq<char>) -> bool {
    text::begins(text::trimmed(line), "#EXTINF:"@)
}

/// No duration waits where none was given since none waited.
proof fn lemma_no_duration(
    lines: Seq<Seq<char>>,
    m: int,
    n: int,
    item_index: usize,
    has_previous_item: bool,
)
    requires
        0 <= m <= n <= lines.len(),
        read_lines(lines.take(m), item_index, has_previous_item).duration is None,
        forall|j: int| m <= j < n ==> !duration_line(#[trigger] lines[j]),
    ensures
        read_lines(lines.take(n), item_index, has_previous_item).duration is None,
    decreases n - m,
{
    if m < n {
        lemma_no_duration(lines, m, n - 1, item_index, has_previous_item);
        assert(lines.take(n).drop_last() =~= lines.take(n - 1));
        assert(lines.take(n).last() == lines[n - 1]);
        assert(!duration_line(lines[n - 1]));
    }
}

/// A segment for which no duration was given since the segment before it, or since the start, has
/// the default duration. The segment is that of the line `n`, and `m` is the place behind the line
/// of the segment before it, or the start.
pub proof fn law_default_duration(
    item_index: usize,
    content: Seq<char>,
    has_previous_item: bool,
    m: int,
    n: int,
)
    requires
        0 <= m <= n < text::line_seq(content).len(),
        m == 0 || segment_line(text::trimmed(text::line_seq(content)[m - 1])),
        segment_line(text::trimmed(text::line_seq(content)[n])),
        forall|j: int| m <= j < n ==> !duration_line(#[trigger] text::line_seq(content)[j]),
    ensures
        ({
            let k = segment_lines(text::line_seq(content).take(n)).len() as int;
            let entries = item_entries(item_index, content, has_previous_item);
            &&& k < entries.len()
            &&& segment_lines(text::line_seq(content))[k] == text::trimmed(
                text::line_seq(content)[n],
            )
            &&& entries[k].duration == "4.000000"@
        }),
{
    let lines = text::line_seq(content);
    if m > 0 {
        assert(lines.take(m).drop_last() =~= lines.take(m - 1));
        assert(lines.take(m).last() == lines[m - 1]);
        lemma_segment_line_alone(text::trimmed(lines[m - 1]));
    }
    lemma_no_duration(lines, m, n, item_index, has_previous_item);
    let until = lines.take(n + 1);
    let k = segment_lines(lines.take(n)).len() as int;
    assert(until.drop_last() =~= lines.take(n));
    assert(until.last() == lines[n]);
    lemma_segment_line_alone(text::trimmed(lines[n]));
    lemma_segment_lines(until);
    lemma_one_entry_per_segment_line(lines.take(n), item_index, has_previous_item);
    lemma_one_entry_per_segment_line(lines, item_index, has_previous_item);
    lemma_entries_grow(lines, n + 1, item_index, has_previous_item);
    lemma_segment_lines_grow(lines, n + 1);
    let some = read_lines(until, item_index, has_previous_item).entries;
    let all = read_lines(lines, item_index, has_previous_item).entries;
    assert(some[k].duration == "4.000000"@);
    assert(all.subrange(0, some.len() as int)[k] == all[k]);
    let named = segment_lines(lines);
    assert(named.subrange(0, segment_lines(until).len() as int)[k] == named[k]);
}

/// The lines that name a segment among the first lines are the first of those among all.
proof fn lemma_segment_lines_grow(lines: Seq<Seq<char>>, n: int)
    requires
        0 <= n <= lines.len(),
    ensures
        segment_lines(lines.take(n)).is_prefix_of(segment_lines(lines)),
    decreases lines.len() - n,
{
    if n == lines.len() {
        assert(lines.take(n) =~= lines);
    } else {
        lemma_segment_lines_grow(lines, n + 1);
        lemma_segment_lines(lines.take(n + 1));
        assert(lines.take(n + 1).drop_last() =~= lines.take(n));
    }
}

/// Reading the name of a segment gives back the numbers that it was made of, alone and in any
/// directory.
pub proof fn law_segment_name_round_trip(index: nat, segment: nat, directory: Seq<char>)
    requires
        index <= usize::MAX,
        segment <= usize::MAX,
    ensures
        segment_numbers(segment_name(index, segment)) == Some((index, segment)),
        segment_numbers(directory + "/"@ + segment_name(index, segment)) == Some((index, segment)),
        is_item_segment(segment_name(index, segment), index),
{
    let a = numbers::dec_padded(index, 4);
    let b = numbers::dec_padded(segment, 5);
    numbers::lemma_digits_of(index, 10);
    numbers::lemma_digits_of(segment, 10);
    numbers::lemma_zero_padded(numbers::dec(index), 4, 10);
    numbers::lemma_zero_padded(numbers::dec(segment), 5, 10);
    numbers::law_parse_of_dec(index, 4, usize::MAX as nat);
    numbers::law_parse_of_dec(segment, 5, usize::MAX as nat);
    lemma_segment_is_file_name(a, b, directory);
    lemma_segment_ends(a, b);
    lemma_segment_parts(a, b);
    let name = segment_name(index, segment);
    assert(name == "item-"@ + a + "-"@ + b + ".ts"@);
    let prefix = item_prefix(index) + "-"@;
    assert(name.subrange(0, prefix.len() as int) =~= prefix);
}

/// The name of a segment is the name of a file, alone and in any directory.
proof fn lemma_segment_is_file_name(a: Seq<char>, b: Seq<char>, directory: Seq<char>)
    requires
        numbers::all_digits(a, 10),
        numbers::all_digits(b, 10),
    ensures
        ({
            let name = "item-"@ + a + "-"@ + b + ".ts"@;
            &&& media_path::file_name_of(name) == Some(name)
            &&& media_path::file_name_of(directory + "/"@ + name) == Some(name)
        }),
{
    let name = "item-"@ + a + "-"@ + b + ".ts"@;
    let slash = CharSet::Only('/');
    reveal_strlit("item-");
    reveal_strlit("-");
    reveal_strlit(".ts");
    reveal_strlit("..");
    lemma_digits_free(a, slash);
    lemma_digits_free(b, slash);
    assert(text::free_of(name, slash)) by {
        assert forall|i: int| 0 <= i < name.len() implies !slash.has(#[trigger] name[i]) by {
            if i < 5 {
            } else if i < 5 + a.len() {
                assert(name[i] == a[i - 5]);
            } else if i == 5 + a.len() {
            } else if i < 6 + a.len() + b.len() {
                assert(name[i] == b[i - 6 - a.len()]);
            }
        }
    }
    text::lemma_parts_free(name, slash);
    let keep = |p: Seq<char>| media_path::is_name(p);
    assert(keep(seq![name][0]));
    text::lemma_filter_all(seq![name], keep);
    assert(seq![name].last() == name);
    assert(name.len() > 2);
    reveal_strlit("/");
    assert(directory + "/"@ + name =~= directory + seq!['/'] + name);
    text::lemma_parts_concat(directory, '/', name, slash);
    let above = text::parts(directory, slash);
    assert(above + seq![name] =~= above.push(name));
    text::lemma_filter_push(above, name, keep);
}

/// The name of a segment begins and ends as such names do.
proof fn lemma_segment_ends(a: Seq<char>, b: Seq<char>)
    requires
        b.len() > 0,
        numbers::all_digits(b, 10),
    ensures
        ({
            let bare = "item-"@ + a + "-"@ + b;
            let name = bare + ".ts"@;
            &&& text::begins(name, "item-"@)
            &&& text::ends(name, ".ts"@)
            &&& text::without_suffixes(name, ".ts"@) == bare
        }),
{
    let bare = "item-"@ + a + "-"@ + b;
    let name = bare + ".ts"@;
    reveal_strlit("item-");
    reveal_strlit(".ts");
    assert(name.subrange(0, 5) =~= "item-"@);
    assert(name.subrange(name.len() - 3, name.len() - 3 + 3) =~= ".ts"@);
    assert(name.take(name.len() - 3) =~= bare);
    assert(bare.last() == b.last());
    lemma_not_ts(bare, b);
    assert(text::without_suffixes(bare, ".ts"@) == bare);
}

/// The parts of the name of a segment.
proof fn lemma_segment_parts(a: Seq<char>, b: Seq<char>)
    requires
        numbers::all_digits(a, 10),
        numbers::all_digits(b, 10),
    ensures
        text::parts("item-"@ + a + "-"@ + b, CharSet::Only('-')) == seq!["item"@, a, b],
{
    let bare = "item-"@ + a + "-"@ + b;
    let hyphen = CharSet::Only('-');
    reveal_strlit("item-");
    reveal_strlit("item");
    reveal_strlit("-");
    lemma_digits_free(a, hyphen);
    lemma_digits_free(b, hyphen);
    let front = "item"@ + seq!['-'] + a;
    assert(bare =~= front + seq!['-'] + b);
    text::lemma_parts_concat(front, '-', b, hyphen);
    text::lemma_parts_concat("item"@, '-', a, hyphen);
    assert(text::free_of("item"@, hyphen));
    text::lemma_parts_free("item"@, hyphen);
    text::lemma_parts_free(a, hyphen);
    text::lemma_parts_free(b, hyphen);
    assert(text::parts(bare, hyphen) =~= seq!["item"@, a, b]);
}

/// Digits are neither hyphens nor slashes.
proof fn lemma_digits_free(s: Seq<char>, set: CharSet)
    requires
        numbers::all_digits(s, 10),
        set == CharSet::Only('-') || set == CharSet::Only('/'),
    ensures
        text::free_of(s, set),
{
    assert forall|i: int| 0 <= i < s.len() implies !set.has(#[trigger] s[i]) by {
        assert(numbers::digit_value(s[i]) < 10);
    }
}

/// A name that ends in a digit does not end in `.ts`.
proof fn lemma_not_ts(bare: Seq<char>, b: Seq<char>)
    requires
        b.len() > 0,
        numbers::all_digits(b, 10),
        bare.len() >= b.len(),
        bare.last() == b.last(),
    ensures
        !text::ends(bare, ".ts"@),
{
    reveal_strlit(".ts");
    assert(numbers::digit_value(b[b.len() - 1]) < 10);
    if text::ends(bare, ".ts"@) {
        assert(bare.subrange(bare.len() - 3, bare.len() - 3 + 3)[2] == bare.last());
    }
}

/// A segment is announced behind those that were there before: what was written of them stays as
/// it is, and a discontinuity stands before it exactly where it is marked and no marked segment of
/// its item came before, however many segments there are.
pub proof fn law_next_segment_is_announced(
    before: Seq<EntryView>,
    e: EntryView,
    ceilings: Seq<Option<u64>>,
    media_sequence: u64,
    discontinuity_sequence: u64,
)
    ensures
        ({
            let old_text = master_playlist(
                before,
                ceilings,
                media_sequence,
                discontinuity_sequence,
                false,
            );
            let new_text = master_playlist(
                before.push(e),
                ceilings,
                media_sequence,
                discontinuity_sequence,
                false,
            );
            let again = exists|j: int|
                0 <= j < before.len() && (#[trigger] before[j]).item_index == e.item_index
                    && before[j].discontinuity_before;
            let plain = "#EXTINF:"@ + e.duration + ",\n"@;
            let start = if e.discontinuity_before && !again {
                "#EXT-X-DISCONTINUITY\n"@ + plain
            } else {
                plain
            };
            match e.program_date_time {
                None => new_text == old_text + start + e.segment + "\n"@,
                Some(t) => new_text == old_text + start + "#EXT-X-PROGRAM-DATE-TIME:"@ + t + "\n"@
                    + e.segment + "\n"@,
            }
        }),
{
    let head = playlist_head(
        target_duration(ceilings, 2),
        media_sequence,
        discontinuity_sequence,
    );
    assert(before.push(e).drop_last() =~= before);
    lemma_behind(head, master_lines(before), master_lines_of(before, e));
    lemma_lines_of_segment(
        master_playlist(before, ceilings, media_sequence, discontinuity_sequence, false),
        before,
        e,
    );
}

/// What is appended in the middle of nothing is appended at the end.
proof fn lemma_behind(a: Seq<char>, b: Seq<char>, c: Seq<char>)
    ensures
        a + (b + c) + Seq::<char>::empty() == a + b + Seq::<char>::empty() + c,
{
    assert(a + (b + c) + Seq::<char>::empty() =~= a + b + Seq::<char>::empty() + c);
}

/// The lines of a segment behind others.
proof fn lemma_lines_of_segment(old_text: Seq<char>, before: Seq<EntryView>, e: EntryView)
    ensures
        ({
            let plain = "#EXTINF:"@ + e.duration + ",\n"@;
            let start = if e.discontinuity_before && !marked_before(before, e.item_index) {
                "#EXT-X-DISCONTINUITY\n"@ + plain
            } else {
                plain
            };
            let all = old_text + master_lines_of(before, e);
            match e.program_date_time {
                None => all == old_text + start + e.segment + "\n"@,
                Some(t) => all == old_text + start + "#EXT-X-PROGRAM-DATE-TIME:"@ + t + "\n"@
                    + e.segment + "\n"@,
            }
        }),
{
    let plain = "#EXTINF:"@ + e.duration + ",\n"@;
    let start = if e.discontinuity_before && !marked_before(before, e.item_index) {
        "#EXT-X-DISCONTINUITY\n"@ + plain
    } else {
        plain
    };
    let all = old_text + master_lines_of(before, e);
    match e.program_date_time {
        None => {
            assert(all =~= old_text + start + e.segment + "\n"@);
        },
        Some(t) => {
            assert(all =~= old_text + start + "#EXT-X-PROGRAM-DATE-TIME:"@ + t + "\n"@ + e.segment
                + "\n"@);
        },
    }
}

/// What is written of the first segments is how what is written of all of them begins.
proof fn lemma_master_grows(a: Seq<EntryView>, b: Seq<EntryView>)
    ensures
        master_lines(a).is_prefix_of(master_lines(a + b)),
    decreases b.len(),
{
    if b.len() == 0 {
        assert(a + b =~= a);
    } else {
        lemma_master_grows(a, b.drop_last());
        assert((a + b).drop_last() =~= a + b.drop_last());
    }
}

/// The change to another item is announced: before the first segment of an item, where it is
/// marked, stands a discontinuity, whatever segments come before it and behind it.
pub proof fn law_item_change_is_announced(
    a: Seq<EntryView>,
    e: EntryView,
    b: Seq<EntryView>,
    ceilings: Seq<Option<u64>>,
    media_sequence: u64,
    discontinuity_sequence: u64,
    ended: bool,
)
    requires
        e.discontinuity_before,
        forall|j: int| 0 <= j < a.len() ==> (#[trigger] a[j]).item_index != e.item_index,
    ensures
        (master_playlist(a, ceilings, media_sequence, discontinuity_sequence, false)
            + "#EXT-X-DISCONTINUITY\n"@ + "#EXTINF:"@ + e.duration + ",\n"@).is_prefix_of(
            master_playlist(
                a.push(e) + b,
                ceilings,
                media_sequence,
                discontinuity_sequence,
                ended,
            ),
        ),
{
    law_next_segment_is_announced(a, e, ceilings, media_sequence, discontinuity_sequence);
    lemma_master_grows(a.push(e), b);
    let head = playlist_head(
        target_duration(ceilings, 2),
        media_sequence,
        discontinuity_sequence,
    );
    let old_text = master_playlist(a, ceilings, media_sequence, discontinuity_sequence, false);
    let with_e = master_playlist(
        a.push(e),
        ceilings,
        media_sequence,
        discontinuity_sequence,
        false,
    );
    let all = master_playlist(
        a.push(e) + b,
        ceilings,
        media_sequence,
        discontinuity_sequence,
        ended,
    );
    let start = old_text + "#EXT-X-DISCONTINUITY\n"@ + "#EXTINF:"@ + e.duration + ",\n"@;
    let m = master_lines(a.push(e));
    let w = master_lines(a.push(e) + b);
    assert(with_e =~= head + m);
    assert(m =~= w.subrange(0, m.len() as int));
    assert(all.subrange(0, with_e.len() as int) =~= with_e);
    let mark = "#EXT-X-DISCONTINUITY\n"@ + ("#EXTINF:"@ + e.duration + ",\n"@);
    assert(start =~= old_text + mark);
    assert(start.len() <= with_e.len());
    assert(with_e.subrange(0, start.len() as int) =~= start);
    assert(all.subrange(0, start.len() as int) =~= start);
}

/// A playlist without segments tells the target duration and the numbers of the first segment and
/// of the first discontinuity, and one that ended says so behind everything else.
pub proof fn law_playlist_begins_and_ends(
    entries: Seq<EntryView>,
    ceilings: Seq<Option<u64>>,
    media_sequence: u64,
    discontinuity_sequence: u64,
)
    ensures
        master_playlist(Seq::empty(), ceilings, media_sequence, discontinuity_sequence, false)
            == "#EXTM3U\n#EXT-X-VERSION:3\n#EXT-X-TARGETDURATION:"@ + numbers::dec(
            target_duration(ceilings, 2) as nat,
        ) + "\n#EXT-X-MEDIA-SEQUENCE:"@ + numbers::dec(media_sequence as nat)
            + "\n#EXT-X-DISCONTINUITY-SEQUENCE:"@ + numbers::dec(discontinuity_sequence as nat)
            + "\n#EXT-X-START:TIME-OFFSET=0,PRECISE=YES\n"@,
        master_playlist(entries, ceilings, media_sequence, discontinuity_sequence, true)
            == master_playlist(entries, ceilings, media_sequence, discontinuity_sequence, false)
            + "#EXT-X-ENDLIST\n"@,
{
    let open = master_playlist(entries, ceilings, media_sequence, discontinuity_sequence, false);
    assert(master_playlist(entries, ceilings, media_sequence, discontinuity_sequence, true)
        =~= open + "#EXT-X-ENDLIST\n"@);
    let head = playlist_head(
        target_duration(ceilings, 2),
        media_sequence,
        discontinuity_sequence,
    );
    assert(master_playlist(Seq::empty(), ceilings, media_sequence, discontinuity_sequence, false)
        =~= head);
}

/// The target duration is no shorter than any segment and than two seconds, and no longer than
/// that needs.
pub proof fn law_target_duration_fits(ceilings: Seq<Option<u64>>, none: u64)
    ensures
        target_duration(ceilings, none) >= 2,
        forall|i: int|
            0 <= i < ceilings.len() && (#[trigger] ceilings[i]) is Some ==> ceilings[i]->0
                <= target_duration(ceilings, none),
        target_duration(ceilings, none) == 2 || target_duration(ceilings, none) == none || exists|
            i: int,
        |
            0 <= i < ceilings.len() && #[trigger] ceilings[i] == Some(
                target_duration(ceilings, none),
            ),
        (exists|i: int| 0 <= i < ceilings.len() && (#[trigger] ceilings[i]) is Some) || none < 2
            || target_duration(ceilings, none) == none,
{
    lemma_longest(ceilings);
}

proof fn lemma_longest(ceilings: Seq<Option<u64>>)
    ensures
        match longest_of(ceilings) {
            Some(n) => (exists|i: int| 0 <= i < ceilings.len() && #[trigger] ceilings[i] == Some(n))
                && forall|i: int|
                0 <= i < ceilings.len() && (#[trigger] ceilings[i]) is Some ==> ceilings[i]->0 <= n,
            None => forall|i: int| 0 <= i < ceilings.len() ==> (#[trigger] ceilings[i]) is None,
        },
    decreases ceilings.len(),
{
    if ceilings.len() > 0 {
        let front = ceilings.drop_last();
        lemma_longest(front);
        assert(ceilings[ceilings.len() - 1] == ceilings.last());
        match longest_of(front) {
            Some(n) => {
                let i = choose|i: int| 0 <= i < front.len() && front[i] == Some(n);
                assert(ceilings[i] == Some(n));
            },
            None => {},
        }
        match longest_of(ceilings) {
            Some(n) => {
                assert forall|i: int|
                    0 <= i < ceilings.len() && (#[trigger] ceilings[i]) is Some implies ceilings[i]->0
                    <= n by {
                    if i < front.len() {
                        assert(front[i] == ceilings[i]);
                    }
                }
            },
            None => {
                assert forall|i: int| 0 <= i < ceilings.len() implies (
                #[trigger] ceilings[i]) is None by {
                    if i < front.len() {
                        assert(front[i] == ceilings[i]);
                    }
                }
            },
        }
    }
}

/// What a player reads from an anchor on grows segment by segment: the first six characters of the
/// duration and the name of the file, and a discontinuity exactly where the item is another one
/// than that of the segment before.
pub proof fn law_playback_announces_changes(before: Seq<EntryView>, e: EntryView)
    ensures
        playback_lines(Seq::empty()) == Seq::<char>::empty(),
        playback_lines(before.push(e)) == playback_lines(before) + (if before.len() > 0
            && before[before.len() - 1].item_index != e.item_index {
            "#EXT-X-DISCONTINUITY\n#EXTINF:"@
        } else {
            "#EXTINF:"@
        }) + (if e.duration.len() <= 6 {
            e.duration
        } else {
            e.duration.take(6)
        }) + ",\n"@ + e.segment + "\n"@,
{
    assert(before.push(e).drop_last() =~= before);
    reveal_strlit("#EXT-X-DISCONTINUITY\n");
    reveal_strlit("#EXTINF:");
    reveal_strlit("#EXT-X-DISCONTINUITY\n#EXTINF:");
    assert("#EXT-X-DISCONTINUITY\n#EXTINF:"@ =~= "#EXT-X-DISCONTINUITY\n"@ + "#EXTINF:"@);
    let d = if e.duration.len() <= 6 {
        e.duration
    } else {
        e.duration.take(6)
    };
    assert(text::first_chars(e.duration, 6) =~= d);
    let mark = if before.len() > 0 && before[before.len() - 1].item_index != e.item_index {
        "#EXT-X-DISCONTINUITY\n#EXTINF:"@
    } else {
        "#EXTINF:"@
    };
    assert(playback_lines(before.push(e)) =~= playback_lines(before) + mark + d + ",\n"@ + e.segment
        + "\n"@);
}

/// What is played from an anchor on are the segments of the items from there on, in their order;
/// where there is none, all segments are.
pub proof fn law_played_from_anchor(entries: Seq<EntryView>, anchor: usize)
    ensures
        (exists|i: int| 0 <= i < entries.len() && (#[trigger] entries[i]).item_index >= anchor)
            ==> forall|e: EntryView| #[trigger]
            played(entries, anchor).contains(e) <==> entries.contains(e) && e.item_index >= anchor,
        (forall|i: int| 0 <= i < entries.len() ==> (#[trigger] entries[i]).item_index < anchor)
            ==> played(entries, anchor) == entries,
        (forall|i: int| 0 <= i < entries.len() ==> (#[trigger] entries[i]).item_index >= anchor)
            ==> played(entries, anchor) == entries,
{
    let keep = |e: EntryView| e.item_index >= anchor;
    let kept = entries.filter(keep);
    text::lemma_filter_members(entries, keep);
    assert forall|e: EntryView| kept.contains(e) implies entries.contains(e) && e.item_index
        >= anchor by {
        let k = choose|k: int| 0 <= k < kept.len() && kept[k] == e;
        assert(keep(kept[k]));
    }
    assert forall|e: EntryView| entries.contains(e) && e.item_index >= anchor implies
        kept.contains(e) by {
        entries.lemma_filter_contains(keep, entries.index_of(e));
    }
    if exists|i: int| 0 <= i < entries.len() && (#[trigger] entries[i]).item_index >= anchor {
        let i = choose|i: int| 0 <= i < entries.len() && (#[trigger] entries[i]).item_index >= anchor;
        assert(entries.contains(entries[i]));
        assert(kept.contains(entries[i]));
    }
    if forall|i: int| 0 <= i < entries.len() ==> (#[trigger] entries[i]).item_index < anchor {
        if kept.len() > 0 {
            assert(kept.contains(kept[0]));
        }
    }
    if forall|i: int| 0 <= i < entries.len() ==> (#[trigger] entries[i]).item_index >= anchor {
        text::lemma_filter_all(entries, keep);
    }
}

/// The number of lines that announce a discontinuity.
pub open spec fn announcements(s: Seq<char>) -> nat {
    text::line_seq(s).filter(|line: Seq<char>| line == "#EXT-X-DISCONTINUITY"@).len()
}

/// The items that have a marked segment.
pub open spec fn marked_items(entries: Seq<EntryView>) -> Set<usize> {
    Set::new(
        |item: usize|
            exists|j: int|
                0 <= j < entries.len() && (#[trigger] entries[j]).item_index == item
                    && entries[j].discontinuity_before,
    )
}

/// The parts of a segment are each on one line, and its name is none of the lines of a playlist
/// that start with a number sign.
pub open spec fn on_one_line(e: EntryView) -> bool {
    let set = CharSet::Pair('\n', '\r');
    &&& text::free_of(e.duration, set)
    &&& text::free_of(e.segment, set)
    &&& e.program_date_time matches Some(t) ==> text::free_of(t, set)
    &&& e.segment.len() == 0 || e.segment[0] != '#'
}

/// A line and what follows it.
proof fn lemma_line_before(line: Seq<char>, rest: Seq<char>)
    requires
        text::free_of(line, CharSet::Pair('\n', '\r')),
    ensures
        announcements(line + "\n"@ + rest) == announcements(rest) + (if line
            == "#EXT-X-DISCONTINUITY"@ {
            1nat
        } else {
            0nat
        }),
{
    reveal_strlit("\n");
    let keep = |l: Seq<char>| l == "#EXT-X-DISCONTINUITY"@;
    text::lemma_one_line(line);
    text::lemma_lines_concat(line + "\n"@, rest);
    lemma_filter_concat(seq![line], text::line_seq(rest), keep);
    let none = Seq::<Seq<char>>::empty();
    text::lemma_filter_push(none, line, keep);
    text::lemma_filter_all(none, keep);
    assert(none.push(line) =~= seq![line]);
}

/// A filter keeps of two lists one after the other what it keeps of each.
proof fn lemma_filter_concat<A>(a: Seq<A>, b: Seq<A>, keep: spec_fn(A) -> bool)
    ensures
        (a + b).filter(keep) == a.filter(keep) + b.filter(keep),
    decreases b.len(),
{
    if b.len() == 0 {
        assert(a + b =~= a);
        text::lemma_filter_all(b, keep);
        assert(a.filter(keep) + b.filter(keep) =~= a.filter(keep));
    } else {
        let front = b.drop_last();
        lemma_filter_concat(a, front, keep);
        assert(a + b =~= (a + front).push(b.last()));
        assert(b =~= front.push(b.last()));
        text::lemma_filter_push(a + front, b.last(), keep);
        text::lemma_filter_push(front, b.last(), keep);
        assert((a + b).filter(keep) =~= a.filter(keep) + b.filter(keep));
    }
}

/// The lines of two texts, the first of which ends with the end of a line.
proof fn lemma_announcements_concat(a: Seq<char>, b: Seq<char>)
    requires
        a.len() == 0 || a.last() == '\n',
    ensures
        announcements(a + b) == announcements(a) + announcements(b),
{
    text::lemma_lines_concat(a, b);
    lemma_filter_concat(
        text::line_seq(a),
        text::line_seq(b),
        |l: Seq<char>| l == "#EXT-X-DISCONTINUITY"@,
    );
}

/// A text without lines announces nothing.
proof fn lemma_no_lines()
    ensures
        announcements(Seq::empty()) == 0,
{
    text::lemma_parts_free(Seq::empty(), CharSet::Only('\n'));
    assert(text::line_seq(Seq::empty()) =~= Seq::<Seq<char>>::empty());
    text::lemma_filter_all(
        Seq::<Seq<char>>::empty(),
        |l: Seq<char>| l == "#EXT-X-DISCONTINUITY"@,
    );
}

/// A text with a text on one line before and behind it is on one line.
proof fn lemma_line_free(a: Seq<char>, b: Seq<char>, c: Seq<char>)
    requires
        text::free_of(a, CharSet::Pair('\n', '\r')),
        text::free_of(b, CharSet::Pair('\n', '\r')),
        text::free_of(c, CharSet::Pair('\n', '\r')),
    ensures
        text::free_of(a + b + c, CharSet::Pair('\n', '\r')),
{
    let set = CharSet::Pair('\n', '\r');
    let s = a + b + c;
    assert forall|i: int| 0 <= i < s.len() implies !set.has(#[trigger] s[i]) by {
        if i < a.len() {
            assert(s[i] == a[i]);
        } else if i < a.len() + b.len() {
            assert(s[i] == b[i - a.len()]);
        } else {
            assert(s[i] == c[i - a.len() - b.len()]);
        }
    }
}

/// What is written of a segment announces a discontinuity at most once.
proof fn lemma_entry_announces(before: Seq<EntryView>, e: EntryView)
    requires
        on_one_line(e),
    ensures
        announcements(master_lines_of(before, e)) == (if e.discontinuity_before && !marked_before(
            before,
            e.item_index,
        ) {
            1nat
        } else {
            0nat
        }),
        master_lines_of(before, e).len() > 0,
        master_lines_of(before, e).last() == '\n',
{
    let set = CharSet::Pair('\n', '\r');
    let none = Seq::<char>::empty();
    reveal_strlit("\n");
    reveal_strlit(",\n");
    reveal_strlit(",");
    reveal_strlit("#EXTINF:");
    reveal_strlit("#EXT-X-PROGRAM-DATE-TIME:");
    reveal_strlit("#EXT-X-DISCONTINUITY\n");
    reveal_strlit("#EXT-X-DISCONTINUITY");
    let mark = "#EXT-X-DISCONTINUITY"@;
    assert("#EXT-X-DISCONTINUITY\n"@ =~= mark + "\n"@);
    assert(",\n"@ =~= ","@ + "\n"@);
    let first = "#EXTINF:"@ + e.duration + ","@;
    lemma_line_free("#EXTINF:"@, e.duration, ","@);
    assert(first[4] == 'I' && mark[4] == '-');
    assert(e.segment != mark) by {
        assert(mark[0] == '#');
    }
    lemma_no_lines();
    assert(e.segment + "\n"@ + none =~= e.segment + "\n"@);
    lemma_line_before(e.segment, none);
    let behind = match e.program_date_time {
        Some(t) => "#EXT-X-PROGRAM-DATE-TIME:"@ + t + "\n"@ + (e.segment + "\n"@),
        None => e.segment + "\n"@,
    };
    match e.program_date_time {
        Some(t) => {
            let line = "#EXT-X-PROGRAM-DATE-TIME:"@ + t + none;
            lemma_line_free("#EXT-X-PROGRAM-DATE-TIME:"@, t, none);
            assert(line =~= "#EXT-X-PROGRAM-DATE-TIME:"@ + t);
            assert(line[7] == 'P' && mark[7] == 'D');
            lemma_line_before(line, e.segment + "\n"@);
        },
        None => {},
    }
    lemma_line_before(first, behind);
    let rest = first + "\n"@ + behind;
    if e.discontinuity_before && !marked_before(before, e.item_index) {
        assert(text::free_of(mark, set));
        lemma_line_before(mark, rest);
        assert(master_lines_of(before, e) =~= mark + "\n"@ + rest);
    } else {
        assert(master_lines_of(before, e) =~= rest);
    }
}

/// What is written of segments announces as many discontinuities as items have a marked segment.
proof fn lemma_segments_announce(entries: Seq<EntryView>)
    requires
        forall|k: int| 0 <= k < entries.len() ==> on_one_line(#[trigger] entries[k]),
    ensures
        marked_items(entries).finite(),
        announcements(master_lines(entries)) == marked_items(entries).len(),
        master_lines(entries).len() == 0 || master_lines(entries).last() == '\n',
    decreases entries.len(),
{
    if entries.len() == 0 {
        lemma_no_lines();
        assert(marked_items(entries) =~= Set::empty());
    } else {
        let front = entries.drop_last();
        let e = entries.last();
        assert(on_one_line(entries[entries.len() - 1]));
        assert forall|k: int| 0 <= k < front.len() implies on_one_line(#[trigger] front[k]) by {
            assert(on_one_line(entries[k]));
        }
        lemma_segments_announce(front);
        lemma_entry_announces(front, e);
        lemma_announcements_concat(master_lines(front), master_lines_of(front, e));
        assert(marked_before(front, e.item_index) == marked_items(front).contains(e.item_index));
        assert forall|item: usize| marked_items(front).contains(item) implies #[trigger] marked_items(
            entries,
        ).contains(item) by {
            let j = choose|j: int|
                0 <= j < front.len() && (#[trigger] front[j]).item_index == item
                    && front[j].discontinuity_before;
            assert(entries[j] == front[j]);
        }
        assert forall|item: usize| #[trigger] marked_items(entries).contains(item) implies (
        marked_items(front).contains(item) || item == e.item_index && e.discontinuity_before) by {
            let j = choose|j: int|
                0 <= j < entries.len() && (#[trigger] entries[j]).item_index == item
                    && entries[j].discontinuity_before;
            if j < front.len() {
                assert(front[j] == entries[j]);
            }
        }
        if e.discontinuity_before {
            assert(entries[entries.len() - 1] == e);
            assert(marked_items(entries) =~= marked_items(front).insert(e.item_index));
        } else {
            assert(marked_items(entries) =~= marked_items(front));
        }
    }
}

/// A line with a number behind its name is on one line.
proof fn lemma_number_line(name: Seq<char>, n: nat)
    requires
        text::free_of(name, CharSet::Pair('\n', '\r')),
    ensures
        text::free_of(name + numbers::dec(n), CharSet::Pair('\n', '\r')),
{
    let set = CharSet::Pair('\n', '\r');
    let d = numbers::dec(n);
    numbers::lemma_digits_of(n, 10);
    assert forall|i: int| 0 <= i < d.len() implies !set.has(#[trigger] d[i]) by {
        assert(numbers::digit_value(d[i]) < 10);
    }
    lemma_line_free(name, d, Seq::empty());
    assert(name + d + Seq::<char>::empty() =~= name + d);
}

/// The first lines of a playlist announce nothing.
proof fn lemma_head_announces_nothing(target: u64, media: u64, discontinuities: u64)
    ensures
        announcements(playlist_head(target, media, discontinuities)) == 0,
        playlist_head(target, media, discontinuities).len() > 0,
        playlist_head(target, media, discontinuities).last() == '\n',
{
    reveal_strlit("\n");
    reveal_strlit("#EXT-X-DISCONTINUITY");
    reveal_strlit("#EXTM3U\n#EXT-X-VERSION:3\n#EXT-X-TARGETDURATION:");
    reveal_strlit("\n#EXT-X-MEDIA-SEQUENCE:");
    reveal_strlit("\n#EXT-X-DISCONTINUITY-SEQUENCE:");
    reveal_strlit("\n#EXT-X-START:TIME-OFFSET=0,PRECISE=YES\n");
    reveal_strlit("#EXTM3U");
    reveal_strlit("#EXT-X-VERSION:3");
    reveal_strlit("#EXT-X-TARGETDURATION:");
    reveal_strlit("#EXT-X-MEDIA-SEQUENCE:");
    reveal_strlit("#EXT-X-DISCONTINUITY-SEQUENCE:");
    reveal_strlit("#EXT-X-START:TIME-OFFSET=0,PRECISE=YES");
    let mark = "#EXT-X-DISCONTINUITY"@;
    let none = Seq::<char>::empty();
    let l1 = "#EXTM3U"@;
    let l2 = "#EXT-X-VERSION:3"@;
    let l3 = "#EXT-X-TARGETDURATION:"@ + numbers::dec(target as nat);
    let l4 = "#EXT-X-MEDIA-SEQUENCE:"@ + numbers::dec(media as nat);
    let l5 = "#EXT-X-DISCONTINUITY-SEQUENCE:"@ + numbers::dec(discontinuities as nat);
    let l6 = "#EXT-X-START:TIME-OFFSET=0,PRECISE=YES"@;
    lemma_number_line("#EXT-X-TARGETDURATION:"@, target as nat);
    lemma_number_line("#EXT-X-MEDIA-SEQUENCE:"@, media as nat);
    lemma_number_line("#EXT-X-DISCONTINUITY-SEQUENCE:"@, discontinuities as nat);
    assert(l1.len() != mark.len() && l2.len() != mark.len() && l6.len() != mark.len());
    assert(l3[7] == 'T' && l4[7] == 'M' && mark[7] == 'D');
    assert(l5.len() > mark.len());
    lemma_no_lines();
    let t6 = l6 + "\n"@ + none;
    let t5 = l5 + "\n"@ + t6;
    let t4 = l4 + "\n"@ + t5;
    let t3 = l3 + "\n"@ + t4;
    let t2 = l2 + "\n"@ + t3;
    let t1 = l1 + "\n"@ + t2;
    lemma_line_before(l6, none);
    lemma_line_before(l5, t6);
    lemma_line_before(l4, t5);
    lemma_line_before(l3, t4);
    lemma_line_before(l2, t3);
    lemma_line_before(l1, t2);
    assert("#EXTM3U\n#EXT-X-VERSION:3\n#EXT-X-TARGETDURATION:"@ =~= l1 + "\n"@ + l2 + "\n"@
        + "#EXT-X-TARGETDURATION:"@);
    assert("\n#EXT-X-MEDIA-SEQUENCE:"@ =~= "\n"@ + "#EXT-X-MEDIA-SEQUENCE:"@);
    assert("\n#EXT-X-DISCONTINUITY-SEQUENCE:"@ =~= "\n"@ + "#EXT-X-DISCONTINUITY-SEQUENCE:"@);
    assert("\n#EXT-X-START:TIME-OFFSET=0,PRECISE=YES\n"@ =~= "\n"@ + l6 + "\n"@);
    assert(playlist_head(target, media, discontinuities) =~= t1);
}

/// The stream's playlist announces a discontinuity exactly once for each item that has a marked
/// segment.
pub proof fn law_announcements_count_items(
    entries: Seq<EntryView>,
    ceilings: Seq<Option<u64>>,
    media_sequence: u64,
    discontinuity_sequence: u64,
    ended: bool,
)
    requires
        forall|k: int| 0 <= k < entries.len() ==> on_one_line(#[trigger] entries[k]),
    ensures
        announcements(
            master_playlist(entries, ceilings, media_sequence, discontinuity_sequence, ended),
        ) == marked_items(entries).len(),
{
    let target = target_duration(ceilings, 2);
    let head = playlist_head(target, media_sequence, discontinuity_sequence);
    lemma_head_announces_nothing(target, media_sequence, discontinuity_sequence);
    lemma_segments_announce(entries);
    let open = head + master_lines(entries);
    lemma_announcements_concat(head, master_lines(entries));
    lemma_no_lines();
    if ended {
        reveal_strlit("#EXT-X-ENDLIST\n");
        reveal_strlit("#EXT-X-ENDLIST");
        reveal_strlit("#EXT-X-DISCONTINUITY");
        reveal_strlit("\n");
        let none = Seq::<char>::empty();
        assert("#EXT-X-ENDLIST\n"@ =~= "#EXT-X-ENDLIST"@ + "\n"@ + none);
        assert("#EXT-X-ENDLIST"@.len() != "#EXT-X-DISCONTINUITY"@.len());
        lemma_line_before("#EXT-X-ENDLIST"@, none);
        lemma_announcements_concat(open, "#EXT-X-ENDLIST\n"@);
    } else {
        assert(open + Seq::<char>::empty() =~= open);
    }
}

/// A segment has the duration and the time of the lines before it: the duration without the comma
/// behind it.
pub proof fn law_lines_before_segment_tell(
    lines: Seq<Seq<char>>,
    duration: Seq<char>,
    time: Seq<char>,
    segment: Seq<char>,
    item_index: usize,
    has_previous_item: bool,
)
    requires
        duration.len() > 0 && !CharSet::White.has(duration[0]) && !CharSet::White.has(
            duration.last(),
        ) && duration.last() != ',',
        time.len() > 0 && !CharSet::White.has(time[0]) && !CharSet::White.has(time.last()),
        text::trimmed(segment) == segment,
        segment_line(segment),
    ensures
        ({
            let before = read_lines(lines, item_index, has_previous_item).entries;
            let more = read_lines(
                lines.push("#EXTINF:"@ + duration + ","@).push(
                    "#EXT-X-PROGRAM-DATE-TIME:"@ + time,
                ).push(segment),
                item_index,
                has_previous_item,
            ).entries;
            &&& more.len() == before.len() + 1
            &&& before.is_prefix_of(more)
            &&& more.last().duration == duration
            &&& more.last().program_date_time == Some(time)
            &&& more.last().segment == named_file(segment)
            &&& more.last().item_index == item_index
            &&& more.last().discontinuity_before == (has_previous_item && before.len() == 0)
        }),
{
    reveal_strlit("#EXTINF:");
    reveal_strlit(",");
    reveal_strlit("#EXT-X-PROGRAM-DATE-TIME:");
    let a = "#EXTINF:"@ + duration + ","@;
    let b = "#EXT-X-PROGRAM-DATE-TIME:"@ + time;
    let la = lines.push(a);
    let lb = la.push(b);
    let lc = lb.push(segment);
    assert(la.drop_last() =~= lines);
    assert(lb.drop_last() =~= la);
    assert(lc.drop_last() =~= lb);
    // The duration.
    media_path::lemma_trim_nothing(a, CharSet::White);
    assert(text::trimmed(a) == a);
    assert(a.subrange(0, 8) =~= "#EXTINF:"@);
    let rest = a.skip(8);
    assert(rest =~= duration + ","@);
    assert(rest.last() == ',');
    assert(rest.drop_last() =~= duration);
    assert(text::trim_end(duration, CharSet::Only(',')) == duration);
    assert(text::trim_end(rest, CharSet::Only(',')) == text::trim_end(
        rest.drop_last(),
        CharSet::Only(','),
    ));
    media_path::lemma_trim_nothing(duration, CharSet::White);
    let ra = read_lines(la, item_index, has_previous_item);
    assert(ra.duration == Some(duration));
    // The time.
    media_path::lemma_trim_nothing(b, CharSet::White);
    assert(text::trimmed(b) == b);
    assert(b.subrange(0, 25) =~= "#EXT-X-PROGRAM-DATE-TIME:"@);
    assert(!text::begins(b, "#EXTINF:"@)) by {
        if text::begins(b, "#EXTINF:"@) {
            assert(b.subrange(0, 8)[4] == b[4]);
        }
    }
    assert(b.skip(25) =~= time);
    media_path::lemma_trim_nothing(time, CharSet::White);
    let rb = read_lines(lb, item_index, has_previous_item);
    assert(rb.duration == Some(duration));
    assert(rb.program_date_time == Some(time));
    lemma_segment_line_alone(segment);
}

/// The files of an item are named after its number, with at least four digits.
pub proof fn law_names_of_item_files(index: nat, segment: nat)
    ensures
        item_manifest(index) == "item-"@ + numbers::dec_padded(index, 4) + ".m3u8"@,
        segment_name(index, segment) == "item-"@ + numbers::dec_padded(index, 4) + "-"@
            + numbers::dec_padded(segment, 5) + ".ts"@,
        is_item_segment(segment_name(index, segment), index),
{
    reveal_strlit(".ts");
    let s = segment_name(index, segment);
    let start = item_prefix(index) + "-"@;
    assert(s.subrange(0, start.len() as int) =~= start);
    assert(s.subrange(s.len() - 3, s.len() as int) =~= ".ts"@);
}

/// The number of an item is read from the names of its files: the playlist and the segments.
pub proof fn law_files_tell_item(index: nat, segment: nat)
    requires
        index < 10_000,
    ensures
        file_item(item_manifest(index)) == Some(index),
        file_item(segment_name(index, segment)) == Some(index),
{
    reveal_strlit("item-");
    let d = numbers::dec_padded(index, 4);
    numbers::lemma_digits_of(index, 10);
    lemma_short_number(index);
    assert(d.len() == 4);
    numbers::law_parse_of_dec(index, 4, usize::MAX as nat);
    let a = item_manifest(index);
    let b = segment_name(index, segment);
    assert(a =~= "item-"@ + (d + ".m3u8"@));
    assert(b =~= "item-"@ + (d + ("-"@ + numbers::dec_padded(segment, 5) + ".ts"@)));
    text::law_begins_and_ends("item-"@, d + ".m3u8"@);
    text::law_begins_and_ends("item-"@, d + ("-"@ + numbers::dec_padded(segment, 5) + ".ts"@));
    assert((d + ".m3u8"@).take(4) =~= d);
    assert((d + ("-"@ + numbers::dec_padded(segment, 5) + ".ts"@)).take(4) =~= d);
}

/// A number below ten thousand has at most four digits.
proof fn lemma_short_number(n: nat)
    requires
        n < 10_000,
    ensures
        numbers::dec(n).len() <= 4,
{
    reveal_with_fuel(numbers::digits_of, 5);
}

/// A stream without segments has a playlist that says so: it starts with the first segment and has
/// the least target duration.
pub proof fn law_empty_playlist()
    ensures
        empty_playlist() == "#EXTM3U\n#EXT-X-VERSION:3\n#EXT-X-TARGETDURATION:"@ + numbers::dec(2)
            + "\n#EXT-X-MEDIA-SEQUENCE:"@ + numbers::dec(0)
            + "\n#EXT-X-START:TIME-OFFSET=0,PRECISE=YES\n"@,
{
    reveal_strlit(
        "#EXTM3U\n#EXT-X-VERSION:3\n#EXT-X-TARGETDURATION:2\n#EXT-X-MEDIA-SEQUENCE:0\n#EXT-X-START:TIME-OFFSET=0,PRECISE=YES\n",
    );
    reveal_strlit("#EXTM3U\n#EXT-X-VERSION:3\n#EXT-X-TARGETDURATION:");
    reveal_strlit("\n#EXT-X-MEDIA-SEQUENCE:");
    reveal_strlit("\n#EXT-X-START:TIME-OFFSET=0,PRECISE=YES\n");
    assert(numbers::dec(2) =~= seq!['2']);
    assert(numbers::dec(0) =~= seq!['0']);
    assert(empty_playlist() =~= "#EXTM3U\n#EXT-X-VERSION:3\n#EXT-X-TARGETDURATION:"@
        + numbers::dec(2) + "\n#EXT-X-MEDIA-SEQUENCE:"@ + numbers::dec(0)
        + "\n#EXT-X-START:TIME-OFFSET=0,PRECISE=YES\n"@);
}

} // verus!
