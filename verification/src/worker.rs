//! The worker that produces the live stream: it takes the items of the queue one after the other,
//! has each encoded, and takes over its segments while that runs.
use vstd::prelude::*;

use crate::hls::EntryView;
use crate::hls;
use crate::items::{ItemView, TrooznLiveItem};
use crate::items;
use crate::links;
use crate::live::{ActiveFfmpeg, LiveView, NowView, TrooznLive, TrooznLiveNow};
use crate::live;
use crate::resolve;
use crate::stream;
use crate::text;
use crate::ytdlp::{InputView, ResolvedMediaInput};
use crate::ytdlp;

verus! {

/// The duration that the encoder gives segments, in seconds.
pub const HLS_SEGMENT_SECONDS: &'static str = "2";

// ---------------------------------------------------------------------------
// The encoder
// ---------------------------------------------------------------------------

/// The path of a file in a directory.
pub open spec fn path_in(dir: Seq<char>, name: Seq<char>) -> Seq<char> {
    if dir.len() == 0 || dir.last() == '/' {
        dir + name
    } else {
        dir + "/"@ + name
    }
}

/// The path of the file with a relative name in a directory.
pub fn join_path(dir: &str, name: &str) -> (r: String)
    ensures
        r@ == path_in(dir@, name@),
{
    let v = text::chars_of(dir);
    if v.len() == 0 || v[v.len() - 1] == '/' {
        text::concat2(dir, name)
    } else {
        text::concat3(dir, "/", name)
    }
}

/// The arguments with which the encoder reads a link and reconnects to it.
pub open spec fn source_args(url: Seq<char>) -> Seq<Seq<char>> {
    seq![
        "-reconnect"@,
        "1"@,
        "-reconnect_streamed"@,
        "1"@,
        "-reconnect_on_network_error"@,
        "1"@,
        "-reconnect_delay_max"@,
        "4"@,
        "-rw_timeout"@,
        "15000000"@,
        "-i"@,
        url,
    ]
}

/// The arguments that name what the encoder reads.
pub open spec fn input_args(input: InputView) -> Seq<Seq<char>> {
    match input {
        InputView::Single { url, .. } => source_args(url),
        InputView::SeparateAv { video_url, audio_url, .. } => source_args(video_url)
            + source_args(audio_url) + seq!["-map"@, "0:v:0"@, "-map"@, "1:a:0"@],
        InputView::AudioOnly { url, .. } => source_args(url),
    }
}

/// The arguments that say what the encoder does with it: one link is copied, of two links the
/// picture is copied and the sound encoded, and sound alone is encoded.
pub open spec fn codec_args(input: InputView) -> Seq<Seq<char>> {
    match input {
        InputView::Single { .. } => seq![
            "-map"@,
            "0:v:0?"@,
            "-map"@,
            "0:a:0?"@,
            "-c"@,
            "copy"@,
        ],
        InputView::SeparateAv { .. } => seq![
            "-c:v"@,
            "copy"@,
            "-c:a"@,
            "aac"@,
            "-b:a"@,
            "128k"@,
            "-ar"@,
            "44100"@,
            "-ac"@,
            "2"@,
            "-af"@,
            "aresample=async=1:first_pts=0"@,
        ],
        InputView::AudioOnly { .. } => seq![
            "-vn"@,
            "-c:a"@,
            "aac"@,
            "-b:a"@,
            "160k"@,
            "-ac"@,
            "2"@,
            "-ar"@,
            "44100"@,
        ],
    }
}

/// The arguments with which the encoder writes segments and their playlist.
pub open spec fn output_args(segments: Seq<char>, manifest: Seq<char>) -> Seq<Seq<char>> {
    seq![
        "-f"@,
        "hls"@,
        "-hls_time"@,
        HLS_SEGMENT_SECONDS@,
        "-hls_init_time"@,
        "1"@,
        "-hls_list_size"@,
        "0"@,
        "-hls_flags"@,
        "omit_endlist+program_date_time+temp_file"@,
        "-hls_segment_filename"@,
        segments,
        manifest,
    ]
}

/// The arguments with which the encoder encodes an item.
pub open spec fn ffmpeg_args_of(
    input: InputView,
    segments: Seq<char>,
    manifest: Seq<char>,
) -> Seq<Seq<char>> {
    seq!["-hide_banner"@, "-nostdin"@, "-loglevel"@, "warning"@, "-y"@] + input_args(input) + seq![
        "-fflags"@,
        "+genpts"@,
        "-avoid_negative_ts"@,
        "make_zero"@,
        "-max_muxing_queue_size"@,
        "1024"@,
    ] + codec_args(input) + output_args(segments, manifest)
}

/// Appends the text to the list.
fn put(args: &mut Vec<String>, s: &str)
    ensures
        text::texts(final(args)@) == text::texts(old(args)@).push(s@),
{
    let ghost before = text::texts(args@);
    args.push(s.to_string());
    proof {
        assert(text::texts(args@) =~= before.push(s@));
    }
}

/// Appends the arguments with which the encoder reads a link.
fn put_source(args: &mut Vec<String>, url: &str)
    ensures
        text::texts(final(args)@) == text::texts(old(args)@) + source_args(url@),
{
    let ghost before = text::texts(args@);
    put(args, "-reconnect");
    put(args, "1");
    put(args, "-reconnect_streamed");
    put(args, "1");
    put(args, "-reconnect_on_network_error");
    put(args, "1");
    put(args, "-reconnect_delay_max");
    put(args, "4");
    put(args, "-rw_timeout");
    put(args, "15000000");
    put(args, "-i");
    put(args, url);
    proof {
        assert(text::texts(args@) =~= before + source_args(url@));
    }
}

/// Appends the arguments that name what the encoder reads.
fn put_input(args: &mut Vec<String>, input: &ResolvedMediaInput)
    ensures
        text::texts(final(args)@) == text::texts(old(args)@) + input_args(input@),
{
    let ghost before = text::texts(args@);
    match input {
        ResolvedMediaInput::Single { url, format_selector: _ } => {
            put_source(args, url);
        },
        ResolvedMediaInput::SeparateAv { video_url, audio_url, format_selector: _ } => {
            put_source(args, video_url);
            put_source(args, audio_url);
            put(args, "-map");
            put(args, "0:v:0");
            put(args, "-map");
            put(args, "1:a:0");
            proof {
                assert(text::texts(args@) =~= before + input_args(input@));
            }
        },
        ResolvedMediaInput::AudioOnly { url, format_selector: _ } => {
            put_source(args, url);
        },
    }
}

/// Appends the arguments that say what the encoder does with what it reads.
fn put_codec(args: &mut Vec<String>, input: &ResolvedMediaInput)
    ensures
        text::texts(final(args)@) == text::texts(old(args)@) + codec_args(input@),
{
    let ghost before = text::texts(args@);
    match input {
        ResolvedMediaInput::Single { .. } => {
            put(args, "-map");
            put(args, "0:v:0?");
            put(args, "-map");
            put(args, "0:a:0?");
            put(args, "-c");
            put(args, "copy");
        },
        ResolvedMediaInput::SeparateAv { .. } => {
            put(args, "-c:v");
            put(args, "copy");
            put(args, "-c:a");
            put(args, "aac");
            put(args, "-b:a");
            put(args, "128k");
            put(args, "-ar");
            put(args, "44100");
            put(args, "-ac");
            put(args, "2");
            put(args, "-af");
            put(args, "aresample=async=1:first_pts=0");
        },
        ResolvedMediaInput::AudioOnly { .. } => {
            put(args, "-vn");
            put(args, "-c:a");
            put(args, "aac");
            put(args, "-b:a");
            put(args, "160k");
            put(args, "-ac");
            put(args, "2");
            put(args, "-ar");
            put(args, "44100");
        },
    }
    proof {
        assert(text::texts(args@) =~= before + codec_args(input@));
    }
}

/// The path of an item's playlist.
pub open spec fn manifest_path_of(dir: Seq<char>, index: nat) -> Seq<char> {
    path_in(dir, hls::item_manifest(index))
}

/// The pattern of the paths of an item's segments.
pub open spec fn segment_pattern_of(dir: Seq<char>, index: nat) -> Seq<char> {
    path_in(dir, hls::item_prefix(index) + "-%05d.ts"@)
}

/// The path of an item's playlist.
pub fn manifest_path(dir: &str, index: usize) -> (r: String)
    ensures
        r@ == manifest_path_of(dir@, index as nat),
{
    join_path(dir, &hls::item_manifest_name(index))
}

/// The pattern of the paths of an item's segments.
pub fn segment_pattern(dir: &str, index: usize) -> (r: String)
    ensures
        r@ == segment_pattern_of(dir@, index as nat),
{
    join_path(dir, &text::concat2(&hls::item_file_prefix(index), "-%05d.ts"))
}

/// The arguments with which the encoder encodes an item of the stream.
pub fn ffmpeg_args(input: &ResolvedMediaInput, dir: &str, index: usize) -> (r: Vec<String>)
    ensures
        text::texts(r@) == ffmpeg_args_of(
            input@,
            segment_pattern_of(dir@, index as nat),
            manifest_path_of(dir@, index as nat),
        ),
{
    let segments = segment_pattern(dir, index);
    let manifest = manifest_path(dir, index);
    let mut args: Vec<String> = Vec::new();
    put(&mut args, "-hide_banner");
    put(&mut args, "-nostdin");
    put(&mut args, "-loglevel");
    put(&mut args, "warning");
    put(&mut args, "-y");
    proof {
        assert(text::texts(args@) =~= seq![
            "-hide_banner"@,
            "-nostdin"@,
            "-loglevel"@,
            "warning"@,
            "-y"@,
        ]);
    }
    put_input(&mut args, input);
    let ghost a = text::texts(args@);
    put(&mut args, "-fflags");
    put(&mut args, "+genpts");
    put(&mut args, "-avoid_negative_ts");
    put(&mut args, "make_zero");
    put(&mut args, "-max_muxing_queue_size");
    put(&mut args, "1024");
    proof {
        assert(text::texts(args@) =~= a + seq![
            "-fflags"@,
            "+genpts"@,
            "-avoid_negative_ts"@,
            "make_zero"@,
            "-max_muxing_queue_size"@,
            "1024"@,
        ]);
    }
    put_codec(&mut args, input);
    let ghost b = text::texts(args@);
    put(&mut args, "-f");
    put(&mut args, "hls");
    put(&mut args, "-hls_time");
    put(&mut args, HLS_SEGMENT_SECONDS);
    put(&mut args, "-hls_init_time");
    put(&mut args, "1");
    put(&mut args, "-hls_list_size");
    put(&mut args, "0");
    put(&mut args, "-hls_flags");
    put(&mut args, "omit_endlist+program_date_time+temp_file");
    put(&mut args, "-hls_segment_filename");
    put(&mut args, &segments);
    put(&mut args, &manifest);
    proof {
        assert(text::texts(args@) =~= b + output_args(segments@, manifest@));
    }
    args
}

// ---------------------------------------------------------------------------
// The worker
// ---------------------------------------------------------------------------

/// A worker.
#[derive(Clone, Copy, Debug, PartialEq, Eq, Structural)]
pub struct HlsWorker {
    /// The generation that it belongs to.
    pub generation: u64,
    /// When it started.
    pub stream_started_at: u64,
    /// How many items of the queue it took.
    pub cursor: usize,
    /// Whether the stream has segments.
    pub appended_any: bool,
    /// How many segments of the current item were taken over.
    pub imported_segments: usize,
    /// Whether the next item is being resolved in advance.
    pub prewarm_started: bool,
}

/// What a worker does next about the queue.
pub enum PickStep {
    /// It ends, because it is one of the past.
    Stale,
    /// It takes this item.
    Item(TrooznLiveItem),
    /// It waits for items.
    Wait,
}

/// What a worker does after the playlist of its item was read.
#[derive(Clone, Copy, Debug, PartialEq, Eq, Structural)]
pub enum Progress {
    /// There are no new segments.
    Nothing,
    /// There are new segments: the stream's playlist is written anew.
    Grew {
        /// Whether the next item is to be resolved in advance from now on.
        start_prewarm: bool,
    },
}

/// How the encoder of a worker is.
#[derive(Clone, Copy, Debug, PartialEq, Eq, Structural)]
pub enum ChildPoll {
    /// It has ended.
    Exited,
    /// It is running.
    Running,
    /// That cannot be found out.
    Unknown,
}

/// What a worker does about its encoder.
#[derive(Clone, Copy, Debug, PartialEq, Eq, Structural)]
pub enum PollStep {
    /// The item is finished; where the encoder ended by itself, the queue is refilled.
    Finished {
        /// Whether the encoder ended by itself.
        refill: bool,
    },
    /// The encoder is running.
    Running,
    /// The encoder belongs to another worker: this one ends.
    Lost,
}

impl HlsWorker {
    /// A worker at its start.
    pub fn new(generation: u64, now: u64) -> (r: Self)
        ensures
            r == (HlsWorker {
                generation,
                stream_started_at: now,
                cursor: 0,
                appended_any: false,
                imported_segments: 0,
                prewarm_started: false,
            }),
    {
        HlsWorker {
            generation,
            stream_started_at: now,
            cursor: 0,
            appended_any: false,
            imported_segments: 0,
            prewarm_started: false,
        }
    }

    /// Takes the next item of the queue, or waits for one; a worker of the past ends.
    pub fn pick(&mut self, stream: &mut TrooznLive) -> (r: PickStep)
        ensures
            if old(stream)@.generation_id != old(self).generation {
                &&& r is Stale
                &&& final(stream)@ == old(stream)@
                &&& *final(self) == *old(self)
            } else if old(self).cursor < old(stream)@.queue.len() {
                &&& r matches PickStep::Item(item) && item@ == old(
                    stream,
                )@.queue[old(self).cursor as int]
                &&& final(stream)@ == old(stream)@
                &&& *final(self) == (HlsWorker {
                    cursor: (old(self).cursor + 1) as usize,
                    imported_segments: 0,
                    prewarm_started: false,
                    ..*old(self)
                })
            } else {
                &&& r is Wait
                &&& final(stream)@ == waiting(old(stream)@)
                &&& *final(self) == *old(self)
            },
    {
        let ghost before = stream@;
        if stream.generation_id != self.generation {
            return PickStep::Stale;
        }
        let n: usize = stream.queue.len();
        proof {
            assert(before.queue.len() == n);
        }
        if self.cursor < n {
            let item = stream.queue[self.cursor].clone();
            self.cursor = self.cursor + 1;
            self.imported_segments = 0;
            self.prewarm_started = false;
            return PickStep::Item(item);
        }
        stream.producer_now.state = "waiting".to_string();
        stream.producer_now.last_error = Some("En attente de nouveaux items".to_string());
        proof {
            assert(stream@ =~= waiting(before));
        }
        PickStep::Wait
    }

    /// Whether the worker goes on: one of the past ends, and gives back the encoder that it
    /// started, so that it can be stopped.
    pub fn still_current(&self, stream: &mut TrooznLive) -> (r: Result<(), Option<ActiveFfmpeg>>)
        ensures
            if old(stream)@.generation_id == self.generation {
                r is Ok && final(stream)@ == old(stream)@
            } else {
                match old(stream)@.active_ffmpeg {
                    Some((g, _)) if g == self.generation => {
                        &&& r matches Err(a) && live::ffmpeg_view(a) == old(stream)@.active_ffmpeg
                        &&& final(stream)@ == (LiveView { active_ffmpeg: None, ..old(stream)@ })
                    },
                    _ => r matches Err(a) && a is None && final(stream)@ == old(stream)@,
                }
            },
    {
        if stream.generation_id == self.generation {
            Ok(())
        } else {
            Err(stream.take_ffmpeg_of(self.generation))
        }
    }

    /// Notes how many segments of the item were taken over while it is encoded.
    pub fn progress(&mut self, count: usize) -> (r: Progress)
        ensures
            if count > old(self).imported_segments {
                &&& r == (Progress::Grew { start_prewarm: !old(self).prewarm_started })
                &&& *final(self) == (HlsWorker {
                    imported_segments: count,
                    appended_any: true,
                    prewarm_started: true,
                    ..*old(self)
                })
            } else {
                r == Progress::Nothing && *final(self) == *old(self)
            },
    {
        if count > self.imported_segments {
            let start_prewarm = !self.prewarm_started;
            self.imported_segments = count;
            self.appended_any = true;
            self.prewarm_started = true;
            Progress::Grew { start_prewarm }
        } else {
            Progress::Nothing
        }
    }

    /// Notes how many segments of the item were taken over after it was encoded.
    pub fn finish_item(&mut self, count: usize)
        ensures
            *final(self) == (HlsWorker {
                appended_any: old(self).appended_any || count > old(self).imported_segments,
                ..*old(self)
            }),
    {
        if count > self.imported_segments {
            self.appended_any = true;
        }
    }

    /// What the worker does about the encoder of its item.
    pub fn poll(&self, stream: &mut TrooznLive, item_id: &str, child: ChildPoll) -> (r: PollStep)
        ensures
            match old(stream)@.active_ffmpeg {
                None => r == (PollStep::Finished { refill: false }) && final(stream)@ == old(
                    stream,
                )@,
                Some((g, id)) => if g == self.generation && id == item_id@ {
                    match child {
                        ChildPoll::Running => r == PollStep::Running && final(stream)@ == old(
                            stream,
                        )@,
                        _ => {
                            &&& r == (PollStep::Finished { refill: child == ChildPoll::Exited })
                            &&& final(stream)@ == (LiveView { active_ffmpeg: None, ..old(stream)@ })
                        },
                    }
                } else {
                    r == PollStep::Lost && final(stream)@ == old(stream)@
                },
            },
    {
        let mine = match &stream.active_ffmpeg {
            None => {
                return PollStep::Finished { refill: false };
            },
            Some(a) => a.generation == self.generation && text::same(&a.item_id, item_id),
        };
        if !mine {
            return PollStep::Lost;
        }
        match child {
            ChildPoll::Running => PollStep::Running,
            ChildPoll::Exited => {
                let _ = stream.take_ffmpeg();
                PollStep::Finished { refill: true }
            },
            ChildPoll::Unknown => {
                let _ = stream.take_ffmpeg();
                PollStep::Finished { refill: false }
            },
        }
    }
}

/// The producer waits for items.
pub open spec fn waiting(s: LiveView) -> LiveView {
    LiveView {
        producer_now: NowView {
            state: "waiting"@,
            last_error: Some("En attente de nouveaux items"@),
            ..s.producer_now
        },
        ..s
    }
}

/// The producer with what is known of an item.
pub open spec fn about_item(p: NowView, item: ItemView) -> NowView {
    NowView {
        title: item.title,
        source_url: item.source_url,
        item_id: item.item_id,
        index: item.index,
        position: 0,
        duration: item.duration,
        thumbnail: item.thumbnail,
        channel: item.channel,
        description: item.description,
        upload_date: item.upload_date,
        uploader: item.uploader,
        media_type: links::media_type_of_link(item.source_url),
        ..p
    }
}

/// The producer looks for what is played for an item.
pub open spec fn preparing(s: LiveView, item: ItemView, stream_started_at: u64) -> LiveView {
    LiveView {
        producer_now: NowView {
            state: "preparing"@,
            hls_url: live::public_url(s.playlist_name),
            started_at: stream_started_at,
            item_started_at: 0,
            next_title: live::next_title_in(s.queue, item.index),
            last_error: Some("Résolution URL vidéo 1080p/720p en cours"@),
            ..about_item(s.producer_now, item)
        },
        ..s
    }
}

/// The producer leaves out an item.
pub open spec fn skipping(s: LiveView, item: ItemView) -> LiveView {
    LiveView {
        producer_now: NowView {
            state: "skipping"@,
            buffer_seconds: Some(0),
            buffer_segments: Some(0),
            last_error: Some("Item ignoré: "@ + item.title),
            ..about_item(s.producer_now, item)
        },
        ..s
    }
}

/// The producer encodes an item.
pub open spec fn encoding_now(
    item: ItemView,
    input: InputView,
    next_title: Option<Seq<char>>,
    hls_url: Seq<char>,
    stream_started_at: u64,
    now: u64,
) -> NowView {
    NowView {
        state: "preparing"@,
        title: item.title,
        source_url: item.source_url,
        hls_url,
        item_id: item.item_id,
        index: item.index,
        position: 0,
        duration: item.duration,
        thumbnail: item.thumbnail,
        channel: item.channel,
        description: item.description,
        upload_date: item.upload_date,
        uploader: item.uploader,
        started_at: stream_started_at,
        item_started_at: now,
        next_title,
        last_error: Some("Démarrage FFmpeg HLS en cours"@),
        media_type: Some(ytdlp::input_media_type(input)),
        buffer_seconds: Some(0),
        buffer_segments: Some(0),
    }
}

impl TrooznLive {
    /// Writes what is known of an item into what is produced.
    fn describe_item(&mut self, item: &TrooznLiveItem)
        ensures
            final(self)@ == (LiveView {
                producer_now: about_item(old(self)@.producer_now, item@),
                ..old(self)@
            }),
    {
        let ghost before = self@;
        self.producer_now.title = item.title.clone();
        self.producer_now.source_url = item.source_url.clone();
        self.producer_now.item_id = item.item_id.clone();
        self.producer_now.index = item.index;
        self.producer_now.position = 0;
        self.producer_now.duration = item.duration;
        self.producer_now.thumbnail = item.thumbnail.clone();
        self.producer_now.channel = item.channel.clone();
        self.producer_now.description = item.description.clone();
        self.producer_now.upload_date = item.upload_date.clone();
        self.producer_now.uploader = item.uploader.clone();
        self.producer_now.media_type = links::media_type_text(&item.source_url);
        proof {
            assert(self.producer_now@ =~= about_item(before.producer_now, item@));
            assert(self@ =~= (LiveView {
                producer_now: about_item(before.producer_now, item@),
                ..before
            }));
        }
    }

    /// Notes that it is being looked for what is played for an item.
    pub fn begin_item(&mut self, item: &TrooznLiveItem, stream_started_at: u64)
        ensures
            final(self)@ == preparing(old(self)@, item@, stream_started_at),
    {
        let ghost before = self@;
        self.describe_item(item);
        self.producer_now.state = "preparing".to_string();
        self.producer_now.hls_url = self.current_public_hls_url();
        self.producer_now.started_at = stream_started_at;
        self.producer_now.item_started_at = 0;
        self.producer_now.next_title = self.next_title_after(item.index);
        self.producer_now.last_error = Some(
            "Résolution URL vidéo 1080p/720p en cours".to_string(),
        );
        proof {
            assert(self.producer_now@ =~= preparing(
                before,
                item@,
                stream_started_at,
            ).producer_now);
            assert(self@ =~= preparing(before, item@, stream_started_at));
        }
    }

    /// Notes that an item is left out because nothing was found that could be played for it.
    pub fn skip_item(&mut self, item: &TrooznLiveItem)
        ensures
            final(self)@ == skipping(old(self)@, item@),
    {
        let ghost before = self@;
        self.describe_item(item);
        self.producer_now.state = "skipping".to_string();
        self.producer_now.buffer_seconds = Some(0);
        self.producer_now.buffer_segments = Some(0);
        self.producer_now.last_error = Some(text::concat2("Item ignoré: ", &item.title));
        proof {
            assert(self.producer_now@ =~= skipping(before, item@).producer_now);
            assert(self@ =~= skipping(before, item@));
        }
    }

    /// Notes that an item is being encoded.
    pub fn item_ready(
        &mut self,
        item: &TrooznLiveItem,
        input: &ResolvedMediaInput,
        next_title: Option<String>,
        hls_url: String,
        stream_started_at: u64,
        now: u64,
    )
        ensures
            final(self)@ == (LiveView {
                producer_now: encoding_now(
                    item@,
                    input@,
                    text::text_in(next_title),
                    hls_url@,
                    stream_started_at,
                    now,
                ),
                ..old(self)@
            }),
    {
        let ghost before = self@;
        let ghost next = text::text_in(next_title);
        let ghost address = hls_url@;
        self.producer_now = TrooznLiveNow {
            state: "preparing".to_string(),
            title: item.title.clone(),
            source_url: item.source_url.clone(),
            hls_url,
            item_id: item.item_id.clone(),
            index: item.index,
            position: 0,
            duration: item.duration,
            thumbnail: item.thumbnail.clone(),
            channel: item.channel.clone(),
            description: item.description.clone(),
            upload_date: item.upload_date.clone(),
            uploader: item.uploader.clone(),
            started_at: stream_started_at,
            item_started_at: now,
            next_title,
            last_error: Some("Démarrage FFmpeg HLS en cours".to_string()),
            media_type: Some(ytdlp::media_type_for_input(input).to_string()),
            buffer_seconds: Some(0),
            buffer_segments: Some(0),
        };
        proof {
            assert(self.producer_now@ =~= encoding_now(
                item@,
                input@,
                next,
                address,
                stream_started_at,
                now,
            ));
            assert(self@ =~= (LiveView { producer_now: self.producer_now@, ..before }));
        }
    }

    /// Notes that the encoder of an item was started.
    pub fn ffmpeg_started(&mut self, generation: u64, item_id: &str)
        ensures
            final(self)@ == (LiveView {
                active_ffmpeg: Some((generation, item_id@)),
                ..old(self)@
            }),
    {
        let ghost before = self@;
        self.active_ffmpeg = Some(ActiveFfmpeg { generation, item_id: item_id.to_string() });
        proof {
            assert(self@ =~= (LiveView {
                active_ffmpeg: Some((generation, item_id@)),
                ..before
            }));
        }
    }

    /// Notes for how long the item has been encoded, where it is the one that is produced.
    pub fn update_position(&mut self, item_id: &str, now: u64)
        ensures
            final(self)@ == if old(self)@.producer_now.item_id == item_id@ && old(
                self,
            )@.producer_now.item_started_at > 0 {
                LiveView {
                    producer_now: NowView {
                        position: if now < old(self)@.producer_now.item_started_at {
                            0
                        } else {
                            (now - old(self)@.producer_now.item_started_at) as u64
                        },
                        ..old(self)@.producer_now
                    },
                    ..old(self)@
                }
            } else {
                old(self)@
            },
    {
        let ghost before = self@;
        if text::same(&self.producer_now.item_id, item_id) && self.producer_now.item_started_at
            > 0 {
            self.producer_now.position = now.saturating_sub(self.producer_now.item_started_at);
            proof {
                assert(self@ =~= (LiveView {
                    producer_now: NowView {
                        position: self.producer_now.position,
                        ..before.producer_now
                    },
                    ..before
                }));
            }
        }
    }
}

// ---------------------------------------------------------------------------
// The run of a worker
// ---------------------------------------------------------------------------

/// Where a worker is in its run.
#[derive(Clone, Copy, Debug, PartialEq, Eq, Structural)]
pub enum Phase {
    /// It looks for an item.
    Picking,
    /// It waits for the player before an item.
    Buffering,
    /// It looks for what is played for the item.
    Resolving,
    /// It starts the encoder.
    Spawning,
    /// The encoder runs, and the playlist of the item is read.
    Encoding,
    /// The encoder runs, and it is looked after.
    Polling,
    /// The encoder has ended, and the playlist of the item is read for the last time.
    Finishing,
    /// It has ended.
    Ended,
}

/// A worker in its run.
pub struct WorkerRun {
    /// The worker.
    pub worker: HlsWorker,
    /// Where it is.
    pub phase: Phase,
    /// Its item.
    pub item: Option<TrooznLiveItem>,
    /// The title of the next item.
    pub next_title: Option<String>,
    /// The address of the playlist.
    pub hls_url: String,
}

/// The model of a worker in its run.
#[verifier::ext_equal]
pub struct RunView {
    pub worker: HlsWorker,
    pub phase: Phase,
    pub item: Option<ItemView>,
    pub next_title: Option<Seq<char>>,
    pub hls_url: Seq<char>,
}

impl View for WorkerRun {
    type V = RunView;

    open spec fn view(&self) -> RunView {
        RunView {
            worker: self.worker,
            phase: self.phase,
            item: items::item_in(self.item),
            next_title: text::text_in(self.next_title),
            hls_url: self.hls_url@,
        }
    }
}

/// What a worker learns.
pub enum WorkerEvent {
    /// What it asked for was done.
    Continue,
    /// This is played for its item.
    Resolved(ResolvedMediaInput),
    /// Nothing was found that could be played for its item.
    Unresolved,
    /// The playlist of its item, where it could be read.
    Manifest(Option<String>),
    /// How its encoder is.
    Child(ChildPoll),
}

/// What a worker wants done.
pub enum WorkerAction {
    /// A pause of so many milliseconds; while an item is encoded, its playlist is then read.
    Pause(u64),
    /// A wait until the player needs the item with this number.
    AwaitBuffer(usize),
    /// A search for what is played for the item.
    Resolve(TrooznLiveItem),
    /// The start of the encoder with these arguments.
    Encode(Vec<String>),
    /// A look at the encoder; where there are new segments, they are published before, and the
    /// next item is resolved in advance where that is still to be started.
    Look {
        /// Whether there are new segments.
        grew: bool,
        /// Whether the next item is to be resolved in advance from now on.
        start_prewarm: bool,
    },
    /// A last look at the playlist of the item; where the encoder ended by itself, the queue is
    /// refilled before.
    Finish {
        /// Whether the encoder ended by itself.
        refill: bool,
    },
    /// The publication of the item's last segments, and the removal of old files.
    Publish,
    /// The end of the worker; an encoder that it left behind is stopped.
    Exit(Option<ActiveFfmpeg>),
}

/// The model of what a worker wants done.
#[verifier::ext_equal]
pub enum WantView {
    Pause(u64),
    AwaitBuffer(usize),
    Resolve(ItemView),
    Encode(Seq<Seq<char>>),
    Look { grew: bool, start_prewarm: bool },
    Finish { refill: bool },
    Publish,
    Exit(Option<(u64, Seq<char>)>),
}

impl View for WorkerAction {
    type V = WantView;

    open spec fn view(&self) -> WantView {
        match *self {
            WorkerAction::Pause(ms) => WantView::Pause(ms),
            WorkerAction::AwaitBuffer(index) => WantView::AwaitBuffer(index),
            WorkerAction::Resolve(item) => WantView::Resolve(item@),
            WorkerAction::Encode(args) => WantView::Encode(text::texts(args@)),
            WorkerAction::Look { grew, start_prewarm } => WantView::Look { grew, start_prewarm },
            WorkerAction::Finish { refill } => WantView::Finish { refill },
            WorkerAction::Publish => WantView::Publish,
            WorkerAction::Exit(a) => WantView::Exit(live::ffmpeg_view(a)),
        }
    }
}

/// A worker, the stream, and what the worker wants done.
#[verifier::ext_equal]
pub struct StepView {
    pub run: RunView,
    pub stream: LiveView,
    pub want: WantView,
}

/// The worker ends.
pub open spec fn ended(w: RunView, s: LiveView, left: Option<(u64, Seq<char>)>) -> StepView {
    StepView {
        run: RunView { phase: Phase::Ended, ..w },
        stream: s,
        want: WantView::Exit(left),
    }
}

/// A worker of the past ends; an encoder that it started is no longer the running one.
pub open spec fn ended_stale(w: RunView, s: LiveView) -> StepView {
    match s.active_ffmpeg {
        Some((g, id)) if g == w.worker.generation => ended(
            w,
            LiveView { active_ffmpeg: None, ..s },
            s.active_ffmpeg,
        ),
        _ => ended(w, s, None),
    }
}

/// The worker looks for an item.
pub open spec fn step_pick(w: RunView, s: LiveView) -> StepView {
    if s.generation_id != w.worker.generation {
        ended(w, s, None)
    } else if w.worker.cursor < s.queue.len() {
        let item = s.queue[w.worker.cursor as int];
        StepView {
            run: RunView {
                worker: HlsWorker {
                    cursor: (w.worker.cursor + 1) as usize,
                    imported_segments: 0,
                    prewarm_started: false,
                    ..w.worker
                },
                phase: Phase::Buffering,
                item: Some(item),
                ..w
            },
            stream: s,
            want: WantView::AwaitBuffer(item.index),
        }
    } else {
        StepView { run: w, stream: waiting(s), want: WantView::Pause(1000) }
    }
}

/// The worker looks for what is played for its item.
pub open spec fn step_begin(w: RunView, s: LiveView, item: ItemView) -> StepView {
    StepView {
        run: RunView {
            phase: Phase::Resolving,
            next_title: live::next_title_in(s.queue, item.index),
            hls_url: live::public_url(s.playlist_name),
            ..w
        },
        stream: preparing(s, item, w.worker.stream_started_at),
        want: WantView::Resolve(item),
    }
}

/// The worker starts the encoder.
pub open spec fn step_encode(
    w: RunView,
    s: LiveView,
    item: ItemView,
    input: InputView,
    now: u64,
) -> StepView {
    StepView {
        run: RunView { phase: Phase::Spawning, ..w },
        stream: LiveView {
            producer_now: encoding_now(
                item,
                input,
                w.next_title,
                w.hls_url,
                w.worker.stream_started_at,
                now,
            ),
            ..s
        },
        want: WantView::Encode(
            ffmpeg_args_of(
                input,
                segment_pattern_of(s.root_dir, item.index as nat),
                manifest_path_of(s.root_dir, item.index as nat),
            ),
        ),
    }
}

/// The producer with how long its item has been encoded.
pub open spec fn positioned(s: LiveView, item_id: Seq<char>, now: u64) -> LiveView {
    if s.producer_now.item_id == item_id && s.producer_now.item_started_at > 0 {
        LiveView {
            producer_now: NowView {
                position: if now < s.producer_now.item_started_at {
                    0
                } else {
                    (now - s.producer_now.item_started_at) as u64
                },
                ..s.producer_now
            },
            ..s
        }
    } else {
        s
    }
}

/// The segments that the playlist of an item lists.
pub open spec fn listed_segments(
    w: RunView,
    item: ItemView,
    content: Option<Seq<char>>,
) -> Seq<EntryView> {
    match content {
        Some(c) => hls::item_entries(item.index, c, w.worker.appended_any),
        None => Seq::empty(),
    }
}

/// How many segments of an item are in the stream once those that its playlist lists were taken
/// over.
pub open spec fn known_segments(s: LiveView, item: ItemView, listed: Seq<EntryView>) -> nat {
    let known = stream::entries_of(s.master_entries, item.index).len();
    if listed.len() == 0 {
        0
    } else if listed.len() <= known {
        known
    } else {
        listed.len()
    }
}

/// The stream with the segments that an item's playlist lists.
pub open spec fn taken_over(s: LiveView, item: ItemView, listed: Seq<EntryView>) -> LiveView {
    let known = stream::entries_of(s.master_entries, item.index).len();
    if listed.len() > known {
        LiveView { master_entries: s.master_entries + listed.skip(known as int), ..s }
    } else {
        s
    }
}

/// The worker takes over new segments while its item is encoded.
pub open spec fn step_import(
    w: RunView,
    s: LiveView,
    item: ItemView,
    content: Option<Seq<char>>,
    now: u64,
) -> StepView {
    if s.generation_id != w.worker.generation {
        ended_stale(w, s)
    } else {
        let listed = listed_segments(w, item, content);
        let at = positioned(s, item.item_id, now);
        let count = known_segments(at, item, listed);
        let grew = count > w.worker.imported_segments;
        StepView {
            run: RunView {
                worker: if grew {
                    HlsWorker {
                        imported_segments: count as usize,
                        appended_any: true,
                        prewarm_started: true,
                        ..w.worker
                    }
                } else {
                    w.worker
                },
                phase: Phase::Polling,
                ..w
            },
            stream: taken_over(at, item, listed),
            want: WantView::Look { grew, start_prewarm: grew && !w.worker.prewarm_started },
        }
    }
}

/// The worker looks after its encoder.
pub open spec fn step_poll(w: RunView, s: LiveView, item: ItemView, child: ChildPoll) -> StepView {
    match s.active_ffmpeg {
        None => StepView {
            run: RunView { phase: Phase::Finishing, ..w },
            stream: s,
            want: WantView::Finish { refill: false },
        },
        Some((g, id)) => if g != w.worker.generation || id != item.item_id {
            ended(w, s, None)
        } else if child == ChildPoll::Running {
            StepView {
                run: RunView { phase: Phase::Encoding, ..w },
                stream: s,
                want: WantView::Pause(500),
            }
        } else {
            StepView {
                run: RunView { phase: Phase::Finishing, ..w },
                stream: LiveView { active_ffmpeg: None, ..s },
                want: WantView::Finish { refill: child == ChildPoll::Exited },
            }
        },
    }
}

/// The worker takes over the last segments of its item.
pub open spec fn step_finish(
    w: RunView,
    s: LiveView,
    item: ItemView,
    content: Option<Seq<char>>,
) -> StepView {
    if s.generation_id != w.worker.generation {
        ended(w, s, None)
    } else {
        let listed = listed_segments(w, item, content);
        let count = known_segments(s, item, listed);
        StepView {
            run: RunView {
                worker: HlsWorker {
                    appended_any: w.worker.appended_any || count > w.worker.imported_segments,
                    ..w.worker
                },
                phase: Phase::Picking,
                ..w
            },
            stream: taken_over(s, item, listed),
            want: WantView::Publish,
        }
    }
}

/// How a worker goes on with what it learned. What it did not ask for ends it.
pub open spec fn worker_step(w: RunView, s: LiveView, event: WorkerEvent, now: u64) -> StepView {
    match w.item {
        None => if w.phase == Phase::Picking && event is Continue {
            step_pick(w, s)
        } else {
            ended(w, s, None)
        },
        Some(item) => match (w.phase, event) {
            (Phase::Picking, WorkerEvent::Continue) => step_pick(w, s),
            (Phase::Buffering, WorkerEvent::Continue) => step_begin(w, s, item),
            (Phase::Resolving, WorkerEvent::Resolved(input)) => step_encode(
                w,
                s,
                item,
                input@,
                now,
            ),
            (Phase::Resolving, WorkerEvent::Unresolved) => StepView {
                run: RunView { phase: Phase::Picking, ..w },
                stream: skipping(s, item),
                want: WantView::Pause(150),
            },
            (Phase::Spawning, WorkerEvent::Continue) => StepView {
                run: RunView { phase: Phase::Encoding, ..w },
                stream: LiveView {
                    active_ffmpeg: Some((w.worker.generation, item.item_id)),
                    ..s
                },
                want: WantView::Pause(500),
            },
            (Phase::Encoding, WorkerEvent::Manifest(content)) => step_import(
                w,
                s,
                item,
                text::text_in(content),
                now,
            ),
            (Phase::Polling, WorkerEvent::Child(child)) => step_poll(w, s, item, child),
            (Phase::Finishing, WorkerEvent::Manifest(content)) => step_finish(
                w,
                s,
                item,
                text::text_in(content),
            ),
            _ => ended(w, s, None),
        },
    }
}

impl WorkerRun {
    /// A worker of the given generation at its start.
    pub fn new(generation: u64, now: u64) -> (r: Self)
        ensures
            r@ == (RunView {
                worker: HlsWorker {
                    generation,
                    stream_started_at: now,
                    cursor: 0,
                    appended_any: false,
                    imported_segments: 0,
                    prewarm_started: false,
                },
                phase: Phase::Picking,
                item: None,
                next_title: None,
                hls_url: Seq::empty(),
            }),
    {
        WorkerRun {
            worker: HlsWorker::new(generation, now),
            phase: Phase::Picking,
            item: None,
            next_title: None,
            hls_url: String::new(),
        }
    }

    fn exit(&mut self) -> (r: WorkerAction)
        ensures
            final(self)@ == (RunView { phase: Phase::Ended, ..old(self)@ }),
            r@ == WantView::Exit(None),
    {
        self.phase = Phase::Ended;
        WorkerAction::Exit(None)
    }

    fn pick(&mut self, stream: &mut TrooznLive) -> (r: WorkerAction)
        requires
            old(self).phase == Phase::Picking,
        ensures
            (StepView { run: final(self)@, stream: final(stream)@, want: r@ }) == step_pick(
                old(self)@,
                old(stream)@,
            ),
    {
        match self.worker.pick(stream) {
            PickStep::Stale => self.exit(),
            PickStep::Wait => WorkerAction::Pause(1000),
            PickStep::Item(item) => {
                let index: usize = item.index;
                self.item = Some(item);
                self.phase = Phase::Buffering;
                WorkerAction::AwaitBuffer(index)
            },
        }
    }

    fn import(
        &mut self,
        stream: &mut TrooznLive,
        item: &TrooznLiveItem,
        content: Option<String>,
    ) -> (r: usize)
        ensures
            *final(self) == *old(self),
            ({
                let listed = listed_segments(old(self)@, item@, text::text_in(content));
                &&& r == known_segments(old(stream)@, item@, listed)
                &&& final(stream)@ == taken_over(old(stream)@, item@, listed)
            }),
    {
        let appended = self.worker.appended_any;
        match content {
            Some(c) => stream.import_item_manifest_incremental(
                item.index,
                Some(c.as_str()),
                appended,
            ),
            None => stream.import_item_manifest_incremental(item.index, None, appended),
        }
    }

    fn begin(&mut self, stream: &mut TrooznLive, item: TrooznLiveItem) -> (r: WorkerAction)
        ensures
            (StepView { run: final(self)@, stream: final(stream)@, want: r@ }) == step_begin(
                old(self)@,
                old(stream)@,
                item@,
            ),
    {
        self.next_title = stream.next_title_after(item.index);
        self.hls_url = stream.current_public_hls_url();
        self.phase = Phase::Resolving;
        stream.begin_item(&item, self.worker.stream_started_at);
        WorkerAction::Resolve(item)
    }

    fn encode(
        &mut self,
        stream: &mut TrooznLive,
        item: &TrooznLiveItem,
        input: ResolvedMediaInput,
        now: u64,
    ) -> (r: WorkerAction)
        ensures
            (StepView { run: final(self)@, stream: final(stream)@, want: r@ }) == step_encode(
                old(self)@,
                old(stream)@,
                item@,
                input@,
                now,
            ),
    {
        self.phase = Phase::Spawning;
        let args = ffmpeg_args(&input, &stream.root_dir, item.index);
        stream.item_ready(
            item,
            &input,
            self.next_title.clone(),
            self.hls_url.clone(),
            self.worker.stream_started_at,
            now,
        );
        WorkerAction::Encode(args)
    }

    fn take_over(
        &mut self,
        stream: &mut TrooznLive,
        item: &TrooznLiveItem,
        content: Option<String>,
        now: u64,
    ) -> (r: WorkerAction)
        ensures
            (StepView { run: final(self)@, stream: final(stream)@, want: r@ }) == step_import(
                old(self)@,
                old(stream)@,
                item@,
                text::text_in(content),
                now,
            ),
    {
        match self.worker.still_current(stream) {
            Err(left) => {
                self.phase = Phase::Ended;
                return WorkerAction::Exit(left);
            },
            Ok(_) => {},
        }
        stream.update_position(&item.item_id, now);
        let count: usize = self.import(stream, item, content);
        self.phase = Phase::Polling;
        match self.worker.progress(count) {
            Progress::Nothing => WorkerAction::Look { grew: false, start_prewarm: false },
            Progress::Grew { start_prewarm } => WorkerAction::Look { grew: true, start_prewarm },
        }
    }

    fn look_after(
        &mut self,
        stream: &mut TrooznLive,
        item: &TrooznLiveItem,
        child: ChildPoll,
    ) -> (r: WorkerAction)
        ensures
            (StepView { run: final(self)@, stream: final(stream)@, want: r@ }) == step_poll(
                old(self)@,
                old(stream)@,
                item@,
                child,
            ),
    {
        match self.worker.poll(stream, &item.item_id, child) {
            PollStep::Running => {
                self.phase = Phase::Encoding;
                WorkerAction::Pause(500)
            },
            PollStep::Lost => self.exit(),
            PollStep::Finished { refill } => {
                self.phase = Phase::Finishing;
                WorkerAction::Finish { refill }
            },
        }
    }

    fn finish(
        &mut self,
        stream: &mut TrooznLive,
        item: &TrooznLiveItem,
        content: Option<String>,
    ) -> (r: WorkerAction)
        ensures
            (StepView { run: final(self)@, stream: final(stream)@, want: r@ }) == step_finish(
                old(self)@,
                old(stream)@,
                item@,
                text::text_in(content),
            ),
    {
        if stream.generation_id != self.worker.generation {
            return self.exit();
        }
        let count: usize = self.import(stream, item, content);
        self.worker.finish_item(count);
        self.phase = Phase::Picking;
        WorkerAction::Publish
    }

    /// Goes on with what the worker learned: changes the stream accordingly, and says what the
    /// worker wants done next.
    pub fn run_hls_worker(
        &mut self,
        stream: &mut TrooznLive,
        event: WorkerEvent,
        now: u64,
    ) -> (r: WorkerAction)
        ensures
            (StepView { run: final(self)@, stream: final(stream)@, want: r@ }) == worker_step(
                old(self)@,
                old(stream)@,
                event,
                now,
            ),
    {
        let phase = self.phase;
        let item = match &self.item {
            Some(item) => item.clone(),
            None => {
                return match (phase, event) {
                    (Phase::Picking, WorkerEvent::Continue) => self.pick(stream),
                    _ => self.exit(),
                };
            },
        };
        match (phase, event) {
            (Phase::Picking, WorkerEvent::Continue) => self.pick(stream),
            (Phase::Buffering, WorkerEvent::Continue) => self.begin(stream, item),
            (Phase::Resolving, WorkerEvent::Resolved(input)) => self.encode(
                stream,
                &item,
                input,
                now,
            ),
            (Phase::Resolving, WorkerEvent::Unresolved) => {
                self.phase = Phase::Picking;
                stream.skip_item(&item);
                WorkerAction::Pause(150)
            },
            (Phase::Spawning, WorkerEvent::Continue) => {
                self.phase = Phase::Encoding;
                stream.ffmpeg_started(self.worker.generation, &item.item_id);
                WorkerAction::Pause(500)
            },
            (Phase::Encoding, WorkerEvent::Manifest(content)) => self.take_over(
                stream,
                &item,
                content,
                now,
            ),
            (Phase::Polling, WorkerEvent::Child(child)) => self.look_after(stream, &item, child),
            (Phase::Finishing, WorkerEvent::Manifest(content)) => self.finish(
                stream,
                &item,
                content,
            ),
            _ => self.exit(),
        }
    }
}

// ---------------------------------------------------------------------------
// Laws
// ---------------------------------------------------------------------------

/// A worker of the past does nothing to the stream of its successor when it next looks for an
/// item or at the segments of its own: it ends, and at most gives up the encoder that it started
/// itself.
pub proof fn law_stale_worker_ends(w: RunView, s: LiveView, content: Option<String>, now: u64)
    requires
        s.generation_id != w.worker.generation,
        w.item is Some,
    ensures
        ({
            let a = worker_step(
                RunView { phase: Phase::Picking, ..w },
                s,
                WorkerEvent::Continue,
                now,
            );
            let b = worker_step(
                RunView { phase: Phase::Encoding, ..w },
                s,
                WorkerEvent::Manifest(content),
                now,
            );
            let c = worker_step(
                RunView { phase: Phase::Finishing, ..w },
                s,
                WorkerEvent::Manifest(content),
                now,
            );
            &&& a.want == WantView::Exit(None) && a.stream == s
            &&& c.want == WantView::Exit(None) && c.stream == s
            &&& b.want is Exit
            &&& b.stream == s || (b.stream == (LiveView { active_ffmpeg: None, ..s })
                && s.active_ffmpeg is Some && (s.active_ffmpeg->0).0 == w.worker.generation)
        }),
{
}

/// A session that starts ends the worker of the one before: the stream is empty and nobody works
/// on it, and when that worker next looks for an item, it ends and changes nothing. This holds as
/// long as the number of sessions can still be counted.
pub proof fn law_new_session_ends_worker(
    w: RunView,
    s: LiveView,
    url: Seq<char>,
    started: u64,
    now: u64,
)
    requires
        w.worker.generation == s.generation_id,
        s.generation_id < u64::MAX,
        w.phase == Phase::Picking,
    ensures
        ({
            let t = live::session_begun(live::interrupted(s), url, started);
            let step = worker_step(w, t, WorkerEvent::Continue, now);
            &&& t.master_entries.len() == 0
            &&& !t.worker_running
            &&& step.want == WantView::Exit(None)
            &&& step.stream == t
        }),
{
}

/// No step of a worker touches what is played, the queue, the session or the segments that are
/// already in the stream.
pub proof fn law_worker_only_produces(w: RunView, s: LiveView, event: WorkerEvent, now: u64)
    ensures
        ({
            let t = worker_step(w, s, event, now).stream;
            &&& t.queue == s.queue
            &&& t.playback_now == s.playback_now
            &&& t.session_id == s.session_id
            &&& t.playlist_name == s.playlist_name
            &&& t.generation_id == s.generation_id
            &&& t.media_sequence_base == s.media_sequence_base
            &&& s.master_entries.is_prefix_of(t.master_entries)
        }),
{
}

/// The items of the queue are taken in their order, each once: the place of the next item grows
/// by one with each item that is taken, and otherwise stays.
pub proof fn law_items_in_order(w: RunView, s: LiveView, event: WorkerEvent, now: u64)
    ensures
        ({
            let t = worker_step(w, s, event, now);
            ||| t.run.worker.cursor == w.worker.cursor && t.run.item == w.item
            ||| t.want is AwaitBuffer && w.worker.cursor < s.queue.len() && t.run.item == Some(
                s.queue[w.worker.cursor as int],
            ) && t.run.worker.cursor == (w.worker.cursor + 1) as usize
        }),
{
}

/// An item for which nothing was found does not stop the stream: the worker goes on to the next.
pub proof fn law_failed_item_is_skipped(w: RunView, s: LiveView, now: u64)
    requires
        w.item is Some,
        w.phase == Phase::Resolving,
    ensures
        ({
            let t = worker_step(w, s, WorkerEvent::Unresolved, now);
            &&& t.run.phase == Phase::Picking
            &&& t.stream.producer_now.state == "skipping"@
            &&& t.stream.master_entries == s.master_entries
        }),
{
}

/// The link at this place among the arguments is the first that the encoder is told to read.
pub open spec fn reads_first(args: Seq<Seq<char>>, at: int, url: Seq<char>) -> bool {
    &&& 0 < at < args.len()
    &&& args[at - 1] == "-i"@
    &&& args[at] == url
    &&& forall|i: int| 0 <= i < at - 1 ==> #[trigger] args[i] != "-i"@
}

proof fn lemma_first_input(args: Seq<Seq<char>>, url: Seq<char>, rest: Seq<Seq<char>>)
    requires
        args == seq!["-hide_banner"@, "-nostdin"@, "-loglevel"@, "warning"@, "-y"@] + (source_args(
            url,
        ) + rest),
    ensures
        reads_first(args, 16, url),
{
    reveal_strlit("-i");
    reveal_strlit("-hide_banner");
    reveal_strlit("-nostdin");
    reveal_strlit("-loglevel");
    reveal_strlit("warning");
    reveal_strlit("-y");
    reveal_strlit("-reconnect");
    reveal_strlit("1");
    reveal_strlit("-reconnect_streamed");
    reveal_strlit("-reconnect_on_network_error");
    reveal_strlit("-reconnect_delay_max");
    reveal_strlit("4");
    reveal_strlit("-rw_timeout");
    reveal_strlit("15000000");
    assert("-y"@[1] != "-i"@[1]);
    assert(args[15] == "-i"@);
    assert(args[16] == url);
    assert forall|i: int| 0 <= i < 15 implies #[trigger] args[i] != "-i"@ by {
        if i != 4 {
            assert(args[i].len() != 2);
        }
    }
}

/// The first that the encoder reads is the picture, or the one link where there is one; where
/// picture and sound are apart, the second that it reads is the sound, and it takes the picture
/// from the first and the sound from the second.
pub proof fn law_encoder_reads_links(
    url: Seq<char>,
    other: Seq<char>,
    format_selector: Seq<char>,
    segments: Seq<char>,
    manifest: Seq<char>,
)
    ensures
        reads_first(
            ffmpeg_args_of(InputView::Single { url, format_selector }, segments, manifest),
            16,
            url,
        ),
        reads_first(
            ffmpeg_args_of(InputView::AudioOnly { url, format_selector }, segments, manifest),
            16,
            url,
        ),
        ({
            let args = ffmpeg_args_of(
                InputView::SeparateAv { video_url: url, audio_url: other, format_selector },
                segments,
                manifest,
            );
            &&& reads_first(args, 16, url)
            &&& reads_first(args.skip(17), 11, other)
            &&& args[29] == "-map"@ && args[30] == "0:v:0"@
            &&& args[31] == "-map"@ && args[32] == "1:a:0"@
        }),
{
    let one = InputView::Single { url, format_selector };
    let sound = InputView::AudioOnly { url, format_selector };
    let two = InputView::SeparateAv { video_url: url, audio_url: other, format_selector };
    let head = seq!["-hide_banner"@, "-nostdin"@, "-loglevel"@, "warning"@, "-y"@];
    let a = ffmpeg_args_of(one, segments, manifest);
    let b = ffmpeg_args_of(sound, segments, manifest);
    let c = ffmpeg_args_of(two, segments, manifest);
    assert(a =~= head + (source_args(url) + a.skip(17)));
    assert(b =~= head + (source_args(url) + b.skip(17)));
    assert(c =~= head + (source_args(url) + c.skip(17)));
    lemma_first_input(a, url, a.skip(17));
    lemma_first_input(b, url, b.skip(17));
    lemma_first_input(c, url, c.skip(17));
    let d = c.skip(17);
    assert(d[10] == "-i"@ && d[11] == other);
    assert forall|i: int| 0 <= i < 10 implies #[trigger] d[i] != "-i"@ by {
        assert(d[i] == source_args(other)[i]);
        assert(c[i + 5] == source_args(url)[i]);
        assert(c[i + 5] != "-i"@);
    }
}

/// The encoder writes the segments and the playlist where it is told to, the playlist named last.
/// One link is copied as it is; of two links the picture is copied; sound alone has no picture.
pub proof fn law_encoder_writes_segments(
    input: InputView,
    segments: Seq<char>,
    manifest: Seq<char>,
)
    ensures
        ({
            let args = ffmpeg_args_of(input, segments, manifest);
            let n = args.len() as int;
            &&& args[n - 1] == manifest
            &&& args[n - 2] == segments && args[n - 3] == "-hls_segment_filename"@
            &&& args[n - 13] == "-f"@ && args[n - 12] == "hls"@
            &&& args[n - 11] == "-hls_time"@ && args[n - 10] == HLS_SEGMENT_SECONDS@
            &&& args[n - 9] == "-hls_init_time"@ && args[n - 8] == "1"@
            &&& args[n - 7] == "-hls_list_size"@ && args[n - 6] == "0"@
            &&& args[n - 5] == "-hls_flags"@ && args[n - 4]
                == "omit_endlist+program_date_time+temp_file"@
            &&& input is Single ==> args[n - 19] == "-map"@ && args[n - 18] == "0:v:0?"@ && args[n
                - 17] == "-map"@ && args[n - 16] == "0:a:0?"@ && args[n - 15] == "-c"@ && args[n
                - 14] == "copy"@
            &&& input is SeparateAv ==> args[n - 25] == "-c:v"@ && args[n - 24] == "copy"@ && args[n
                - 23] == "-c:a"@ && args[n - 22] == "aac"@ && args[n - 21] == "-b:a"@ && args[n - 20]
                == "128k"@ && args[n - 19] == "-ar"@ && args[n - 18] == "44100"@ && args[n - 17]
                == "-ac"@ && args[n - 16] == "2"@ && args[n - 15] == "-af"@ && args[n - 14]
                == "aresample=async=1:first_pts=0"@
            &&& input is AudioOnly ==> args[n - 22] == "-vn"@ && args[n - 21] == "-c:a"@ && args[n
                - 20] == "aac"@ && args[n - 19] == "-b:a"@ && args[n - 18] == "160k"@ && args[n
                - 17] == "-ac"@ && args[n - 16] == "2"@ && args[n - 15] == "-ar"@ && args[n - 14]
                == "44100"@
        }),
{
}

/// What was found for an item is what its encoder is told to read first, and the encoder writes
/// into the directory of the stream under the number of the item.
pub proof fn law_found_link_is_encoded(
    w: RunView,
    s: LiveView,
    item: ItemView,
    input: ResolvedMediaInput,
    now: u64,
)
    requires
        w.phase == Phase::Resolving,
        w.item == Some(item),
    ensures
        ({
            let t = worker_step(w, s, WorkerEvent::Resolved(input), now);
            &&& t.run.phase == Phase::Spawning
            &&& t.want matches WantView::Encode(args) && {
                &&& args.last() == path_in(s.root_dir, hls::item_manifest(item.index as nat))
                &&& args[args.len() - 2] == path_in(
                    s.root_dir,
                    hls::item_prefix(item.index as nat) + "-%05d.ts"@,
                )
                &&& input@ matches InputView::Single { url, .. } ==> reads_first(args, 16, url)
                &&& input@ matches InputView::AudioOnly { url, .. } ==> reads_first(args, 16, url)
                &&& input@ matches InputView::SeparateAv { video_url, audio_url, .. }
                    ==> reads_first(args, 16, video_url) && reads_first(
                    args.skip(17),
                    11,
                    audio_url,
                )
            }
            &&& t.stream.producer_now.title == item.title
            &&& t.stream.producer_now.source_url == item.source_url
            &&& t.stream.producer_now.item_id == item.item_id
            &&& t.stream.producer_now.index == item.index
            &&& t.stream.producer_now.duration == item.duration
            &&& t.stream.producer_now.thumbnail == item.thumbnail
            &&& t.stream.producer_now.channel == item.channel
            &&& t.stream.producer_now.description == item.description
            &&& t.stream.producer_now.upload_date == item.upload_date
            &&& t.stream.producer_now.uploader == item.uploader
            &&& t.stream.producer_now.item_started_at == now
            &&& t.stream.producer_now.position == 0
            &&& t.stream.producer_now.next_title == w.next_title
            &&& t.stream.producer_now.hls_url == w.hls_url
            &&& t.stream.producer_now.started_at == w.worker.stream_started_at
        }),
{
    let segments = segment_pattern_of(s.root_dir, item.index as nat);
    let manifest = manifest_path_of(s.root_dir, item.index as nat);
    law_encoder_writes_segments(input@, segments, manifest);
    match input@ {
        InputView::Single { url, format_selector } => law_encoder_reads_links(
            url,
            url,
            format_selector,
            segments,
            manifest,
        ),
        InputView::SeparateAv { video_url, audio_url, format_selector } => law_encoder_reads_links(
            video_url,
            audio_url,
            format_selector,
            segments,
            manifest,
        ),
        InputView::AudioOnly { url, format_selector } => law_encoder_reads_links(
            url,
            url,
            format_selector,
            segments,
            manifest,
        ),
    }
}

/// A file of a directory has a path that starts with the directory and ends with the name, with
/// one slash between them.
pub proof fn law_path_in(dir: Seq<char>, name: Seq<char>)
    ensures
        path_in(dir + "/"@, name) == dir + "/"@ + name,
        dir.len() > 0 && dir.last() != '/' ==> path_in(dir, name) == dir + "/"@ + name,
{
    reveal_strlit("/");
    assert((dir + "/"@).last() == '/');
}

/// The segments that a worker takes over are those that the playlist of its item lists behind the
/// ones that it knows of: none is lost, none comes twice, and they come last. A playlist that
/// lists no more than is known changes nothing.
pub proof fn law_new_segments_are_taken_over(
    w: RunView,
    s: LiveView,
    item: ItemView,
    content: Option<String>,
    now: u64,
)
    requires
        w.item == Some(item),
        s.generation_id == w.worker.generation,
    ensures
        ({
            let listed = match content {
                Some(c) => hls::item_entries(item.index, c@, w.worker.appended_any),
                None => Seq::empty(),
            };
            let known = stream::entries_of(s.master_entries, item.index).len();
            let a = worker_step(
                RunView { phase: Phase::Encoding, ..w },
                s,
                WorkerEvent::Manifest(content),
                now,
            );
            let b = worker_step(
                RunView { phase: Phase::Finishing, ..w },
                s,
                WorkerEvent::Manifest(content),
                now,
            );
            let had = s.master_entries.len() as int;
            &&& a.stream.master_entries == b.stream.master_entries
            &&& s.master_entries.is_prefix_of(a.stream.master_entries)
            &&& listed.len() <= known ==> a.stream.master_entries == s.master_entries
            &&& listed.len() > known ==> a.stream.master_entries.len() == had + listed.len() - known
            &&& forall|k: int|
                known <= k < listed.len() ==> a.stream.master_entries[had + k - known]
                    == #[trigger] listed[k]
            &&& b.want == WantView::Publish && b.run.phase == Phase::Picking
            &&& a.run.phase == Phase::Polling
            &&& listed.len() == 0 ==> a.want == (WantView::Look {
                grew: false,
                start_prewarm: false,
            }) && a.run.worker == w.worker
            &&& listed.len() > known && listed.len() > w.worker.imported_segments ==> a.want == (
            WantView::Look { grew: true, start_prewarm: !w.worker.prewarm_started })
                && a.run.worker.appended_any && a.run.worker.prewarm_started
                && b.run.worker.appended_any
        }),
{
}

/// A worker looks at its encoder again and again as long as that runs, is done with the item when
/// it has ended, and then asks for more items; it lets go of an encoder of another worker.
pub proof fn law_encoder_is_looked_after(
    w: RunView,
    s: LiveView,
    item: ItemView,
    generation: u64,
    id: Seq<char>,
    child: ChildPoll,
    now: u64,
)
    requires
        w.item == Some(item),
        w.phase == Phase::Polling,
    ensures
        ({
            let t = worker_step(
                w,
                LiveView { active_ffmpeg: Some((generation, id)), ..s },
                WorkerEvent::Child(child),
                now,
            );
            let mine = generation == w.worker.generation && id == item.item_id;
            &&& mine && child == ChildPoll::Running ==> t.want == WantView::Pause(500)
                && t.run.phase == Phase::Encoding && t.stream.active_ffmpeg == Some(
                (generation, id),
            )
            &&& mine && child == ChildPoll::Exited ==> t.want == (WantView::Finish { refill: true })
                && t.run.phase == Phase::Finishing && t.stream.active_ffmpeg is None
            &&& mine && child == ChildPoll::Unknown ==> t.want == (WantView::Finish {
                refill: false,
            }) && t.run.phase == Phase::Finishing && t.stream.active_ffmpeg is None
            &&& !mine ==> t.want is Exit && t.stream.active_ffmpeg == Some((generation, id))
        }),
        worker_step(
            w,
            LiveView { active_ffmpeg: None, ..s },
            WorkerEvent::Child(child),
            now,
        ).want == (WantView::Finish { refill: false }),
{
}

/// The encoder that was started is noted with the worker and the item that it is for, and an item
/// that is looked for is the one that was taken.
pub proof fn law_steps_are_noted(w: RunView, s: LiveView, item: ItemView, now: u64)
    requires
        w.item == Some(item),
    ensures
        worker_step(
            RunView { phase: Phase::Spawning, ..w },
            s,
            WorkerEvent::Continue,
            now,
        ).stream.active_ffmpeg == Some((w.worker.generation, item.item_id)),
        ({
            let t = worker_step(
                RunView { phase: Phase::Buffering, ..w },
                s,
                WorkerEvent::Continue,
                now,
            );
            &&& t.want == WantView::Resolve(item)
            &&& t.run.phase == Phase::Resolving
            &&& t.run.hls_url == live::public_url(s.playlist_name)
            &&& t.run.next_title == live::next_title_in(s.queue, item.index)
            &&& t.stream.producer_now.state == "preparing"@
            &&& t.stream.producer_now.title == item.title
            &&& t.stream.producer_now.item_id == item.item_id
            &&& t.stream.producer_now.index == item.index
            &&& t.stream.producer_now.source_url == item.source_url
            &&& t.stream.producer_now.duration == item.duration
            &&& t.stream.producer_now.thumbnail == item.thumbnail
            &&& t.stream.producer_now.channel == item.channel
            &&& t.stream.producer_now.description == item.description
            &&& t.stream.producer_now.upload_date == item.upload_date
            &&& t.stream.producer_now.uploader == item.uploader
            &&& t.stream.producer_now.position == 0
            &&& t.stream.producer_now.item_started_at == 0
            &&& t.stream.producer_now.started_at == w.worker.stream_started_at
            &&& t.stream.producer_now.hls_url == live::public_url(s.playlist_name)
            &&& t.stream.producer_now.next_title == live::next_title_in(s.queue, item.index)
            &&& t.stream.producer_now.media_type == links::media_type_of_link(item.source_url)
        }),
        ({
            let t = worker_step(
                RunView { phase: Phase::Resolving, ..w },
                s,
                WorkerEvent::Unresolved,
                now,
            );
            &&& t.stream.producer_now.title == item.title
            &&& t.stream.producer_now.item_id == item.item_id
            &&& t.stream.producer_now.last_error == Some("Item ignoré: "@ + item.title)
            &&& t.stream.producer_now.buffer_seconds == Some(0u64)
            &&& t.stream.producer_now.buffer_segments == Some(0usize)
            &&& t.want == WantView::Pause(150)
        }),
        s.generation_id == w.worker.generation && w.worker.cursor >= s.queue.len() ==> ({
            let t = worker_step(
                RunView { phase: Phase::Picking, ..w },
                s,
                WorkerEvent::Continue,
                now,
            );
            &&& t.want == WantView::Pause(1000)
            &&& t.run.phase == Phase::Picking
            &&& t.stream.producer_now.state == "waiting"@
        }),
        s.generation_id == w.worker.generation && w.worker.cursor < s.queue.len() ==> ({
            let t = worker_step(
                RunView { phase: Phase::Picking, ..w },
                s,
                WorkerEvent::Continue,
                now,
            );
            &&& t.want == WantView::AwaitBuffer(s.queue[w.worker.cursor as int].index)
            &&& t.run.item == Some(s.queue[w.worker.cursor as int])
            &&& t.run.worker.imported_segments == 0 && !t.run.worker.prewarm_started
        }),
{
}

/// How long an item has been encoded is the time since its encoder was started, while the item is
/// the one that is produced.
pub proof fn law_position_is_time_since_start(s: LiveView, item_id: Seq<char>, now: u64)
    ensures
        s.producer_now.item_id == item_id && 0 < s.producer_now.item_started_at <= now
            ==> s.producer_now.item_started_at + positioned(s, item_id, now).producer_now.position
            == now,
        s.producer_now.item_id != item_id ==> positioned(s, item_id, now) == s,
        s.producer_now.item_started_at == 0 ==> positioned(s, item_id, now) == s,
{
}

/// Where two links were found for a page, the encoder reads the first of them first, and takes the
/// picture from it; the second that it reads is the second link. Where one was found, or sound
/// alone was asked for, the encoder reads the first.
pub proof fn law_encoder_reads_first_link_first(
    stage: resolve::GenericStage,
    links: Seq<Seq<char>>,
    segments: Seq<char>,
    manifest: Seq<char>,
)
    requires
        links.len() > 0,
    ensures
        resolve::generic_input(stage, links) matches Some(input) && reads_first(
            ffmpeg_args_of(input, segments, manifest),
            16,
            links[0],
        ),
        stage != resolve::GenericStage::Audio && links.len() >= 2 ==> ({
            let args = ffmpeg_args_of(
                resolve::generic_input(stage, links)->0,
                segments,
                manifest,
            );
            &&& reads_first(args.skip(17), 11, links[1])
            &&& args[30] == "0:v:0"@ && args[32] == "1:a:0"@
        }),
{
    let second = if links.len() >= 2 {
        links[1]
    } else {
        links[0]
    };
    law_encoder_reads_links(
        links[0],
        second,
        resolve::generic_format_of(stage),
        segments,
        manifest,
    );
}

} // verus!
