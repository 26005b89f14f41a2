//! The commands that find media: their arguments, and what their output means.
use vstd::prelude::*;

use crate::encoding;
use crate::extraction::Extracted;
use crate::items;
use crate::json::{Json, JsonView};
use crate::json;
use crate::links;
use crate::numbers;
use crate::text;

verus! {

/// The program that finds media.
pub const YTDLP_BIN: &'static str = "/home/troozn/.local/bin/yt-dlp";

/// The JavaScript runtime that helps it.
pub const DENO_BIN: &'static str = "/home/troozn/.deno/bin/deno";

/// What is said where a command needs the JavaScript runtime and it is not there.
pub const DENO_MISSING: &'static str = "deno indisponible pour fallback yt-dlp";

/// The build that is named in reports.
pub const TROOZN_LIVE_BUILD_TAG: &'static str = "v2.9-deno-json-resolve-2026-06-03";

/// The YouTube formats that hold picture and sound, the best first.
pub const YTDLP_YOUTUBE_FAST_FORMAT: &'static str = "96/22/95/94";

/// The YouTube formats of picture and sound apart, the best first.
pub const YTDLP_YOUTUBE_DASH_FORMAT: &'static str = "137+140/136+140/135+140";

/// The YouTube formats of which one makes a video playable.
pub const YTDLP_YOUTUBE_VALIDATE_FORMAT: &'static str = "96/22/95/94/137+140/136+140/135+140";

/// Formats of other services that hold picture and sound.
pub const YTDLP_GENERIC_SINGLE_FORMAT: &'static str =
    "best[height<=1080][height>=720][vcodec!=none][acodec!=none]/best[height=1080][vcodec!=none][acodec!=none]/best[height=720][vcodec!=none][acodec!=none]/best[height<=720][height>=480][vcodec!=none][acodec!=none]/best[height=480][vcodec!=none][acodec!=none]";

/// Formats of other services of picture and sound apart.
pub const YTDLP_GENERIC_SEPARATE_FORMAT: &'static str =
    "bv*[height<=1080][height>=720][vcodec!=none]+ba[acodec!=none]/bv*[height=1080][vcodec!=none]+ba[acodec!=none]/bv*[height=720][vcodec!=none]+ba[acodec!=none]/bv*[height<=720][height>=480][vcodec!=none]+ba[acodec!=none]/bv*[height=480][vcodec!=none]+ba[acodec!=none]";

/// Formats of other services that hold sound alone.
pub const YTDLP_GENERIC_AUDIO_FORMAT: &'static str =
    "bestaudio[acodec!=none]/best[acodec!=none]/bestaudio/best";

/// The least height of a picture that is played.
pub const MIN_SELECTED_VIDEO_HEIGHT: u64 = 480;

// ---------------------------------------------------------------------------
// Media that were found
// ---------------------------------------------------------------------------

/// What the encoder reads.
#[derive(Debug)]
pub enum ResolvedMediaInput {
    /// Picture and sound at one link.
    Single {
        /// The link.
        url: String,
        /// The format that was asked for.
        format_selector: String,
    },
    /// Picture and sound at two links.
    SeparateAv {
        /// The link to the picture.
        video_url: String,
        /// The link to the sound.
        audio_url: String,
        /// The format that was asked for.
        format_selector: String,
    },
    /// Sound alone.
    AudioOnly {
        /// The link.
        url: String,
        /// The format that was asked for.
        format_selector: String,
    },
}

/// The model of what the encoder reads.
#[verifier::ext_equal]
pub enum InputView {
    Single { url: Seq<char>, format_selector: Seq<char> },
    SeparateAv { video_url: Seq<char>, audio_url: Seq<char>, format_selector: Seq<char> },
    AudioOnly { url: Seq<char>, format_selector: Seq<char> },
}

impl View for ResolvedMediaInput {
    type V = InputView;

    open spec fn view(&self) -> InputView {
        match *self {
            ResolvedMediaInput::Single { url, format_selector } => InputView::Single {
                url: url@,
                format_selector: format_selector@,
            },
            ResolvedMediaInput::SeparateAv {
                video_url,
                audio_url,
                format_selector,
            } => InputView::SeparateAv {
                video_url: video_url@,
                audio_url: audio_url@,
                format_selector: format_selector@,
            },
            ResolvedMediaInput::AudioOnly { url, format_selector } => InputView::AudioOnly {
                url: url@,
                format_selector: format_selector@,
            },
        }
    }
}

impl Clone for ResolvedMediaInput {
    fn clone(&self) -> (r: Self)
        ensures
            r == *self,
    {
        match self {
            ResolvedMediaInput::Single { url, format_selector } => ResolvedMediaInput::Single {
                url: url.clone(),
                format_selector: format_selector.clone(),
            },
            ResolvedMediaInput::SeparateAv {
                video_url,
                audio_url,
                format_selector,
            } => ResolvedMediaInput::SeparateAv {
                video_url: video_url.clone(),
                audio_url: audio_url.clone(),
                format_selector: format_selector.clone(),
            },
            ResolvedMediaInput::AudioOnly { url, format_selector } => ResolvedMediaInput::AudioOnly {
                url: url.clone(),
                format_selector: format_selector.clone(),
            },
        }
    }
}

/// A line that names the kind, the format and the start of the link.
pub open spec fn input_summary(input: InputView) -> Seq<char> {
    match input {
        InputView::Single { url, format_selector } => "single format="@ + format_selector
            + " url="@ + text::first_chars(url, 80),
        InputView::SeparateAv { video_url, format_selector, .. } => "dash-av format="@
            + format_selector + " video="@ + text::first_chars(video_url, 80),
        InputView::AudioOnly { url, format_selector } => "audio-only format="@ + format_selector
            + " url="@ + text::first_chars(url, 80),
    }
}

/// A line that names the kind, the format and the first 80 characters of the link.
pub fn media_input_summary(input: &ResolvedMediaInput) -> (r: String)
    ensures
        r@ == input_summary(input@),
{
    match input {
        ResolvedMediaInput::Single { url, format_selector } => {
            let mut r = text::concat3("single format=", format_selector, " url=");
            r.push_str(&text::take_chars(url, 80));
            r
        },
        ResolvedMediaInput::SeparateAv { video_url, audio_url: _, format_selector } => {
            let mut r = text::concat3("dash-av format=", format_selector, " video=");
            r.push_str(&text::take_chars(video_url, 80));
            r
        },
        ResolvedMediaInput::AudioOnly { url, format_selector } => {
            let mut r = text::concat3("audio-only format=", format_selector, " url=");
            r.push_str(&text::take_chars(url, 80));
            r
        },
    }
}

/// Whether sound or film is played.
pub open spec fn input_media_type(input: InputView) -> Seq<char> {
    match input {
        InputView::AudioOnly { .. } => "audio"@,
        InputView::Single { url, .. } => items::text_or(
            links::media_type_of_link(url),
            "video"@,
        ),
        InputView::SeparateAv { .. } => "video"@,
    }
}

/// Whether sound or film is played: `audio` or `video`.
pub fn media_type_for_input(input: &ResolvedMediaInput) -> (r: &'static str)
    ensures
        r@ == input_media_type(input@),
{
    match input {
        ResolvedMediaInput::AudioOnly { .. } => "audio",
        ResolvedMediaInput::Single { url, .. } => match links::infer_media_type_from_url(url) {
            Some(t) => t,
            None => "video",
        },
        ResolvedMediaInput::SeparateAv { .. } => "video",
    }
}

// ---------------------------------------------------------------------------
// Running a command
// ---------------------------------------------------------------------------

/// A command of yt-dlp.
#[derive(Debug)]
pub struct YtdlpCommand {
    /// The arguments.
    pub args: Vec<String>,
    /// The name that errors give it.
    pub label: &'static str,
    /// After how many seconds it is stopped.
    pub timeout_seconds: u64,
}

/// The model of a command.
#[verifier::ext_equal]
pub struct CommandView {
    pub args: Seq<Seq<char>>,
    pub label: Seq<char>,
    pub timeout_seconds: u64,
}

impl View for YtdlpCommand {
    type V = CommandView;

    open spec fn view(&self) -> CommandView {
        CommandView {
            args: text::texts(self.args@),
            label: self.label@,
            timeout_seconds: self.timeout_seconds,
        }
    }
}

/// Why a command gave no output.
#[derive(Clone, Copy, Debug, PartialEq, Eq, Structural)]
pub enum RunError {
    /// Another command that runs alone did not end in time.
    SerialTimeout,
    /// Too many commands were running for too long.
    SlotTimeout,
    /// No command can be run any more.
    SlotClosed,
    /// The command could not be started.
    Spawn,
    /// The end of the command could not be awaited.
    Wait,
    /// The command did not end in time.
    Timeout,
}

/// The message of an error of the command with the given label.
pub open spec fn run_error_message(error: RunError, label: Seq<char>) -> Seq<char> {
    (match error {
        RunError::SerialTimeout => "timeout attente série "@,
        RunError::SlotTimeout => "timeout attente slot "@,
        RunError::SlotClosed => "acquisition slot "@,
        RunError::Spawn => "spawn "@,
        RunError::Wait => "wait "@,
        RunError::Timeout => "timeout "@,
    }) + label
}

impl RunError {
    /// The message of the error of the command with the given label.
    pub fn message(&self, label: &str) -> (r: String)
        ensures
            r@ == run_error_message(*self, label@),
    {
        let start = match self {
            RunError::SerialTimeout => "timeout attente série ",
            RunError::SlotTimeout => "timeout attente slot ",
            RunError::SlotClosed => "acquisition slot ",
            RunError::Spawn => "spawn ",
            RunError::Wait => "wait ",
            RunError::Timeout => "timeout ",
        };
        text::concat2(start, label)
    }
}

/// The output of a command.
#[derive(Debug)]
pub struct ProcessOutput {
    /// Whether the command says that it succeeded.
    pub success: bool,
    /// How the command ended, in words.
    pub status: String,
    /// What it wrote.
    pub stdout: Vec<u8>,
    /// What it wrote about errors.
    pub stderr: Vec<u8>,
}

/// The output of a command, as text.
#[derive(Debug)]
pub struct OutputText {
    /// Whether the command says that it succeeded.
    pub success: bool,
    /// How the command ended, in words.
    pub status: String,
    /// What it wrote.
    pub stdout: String,
    /// What it wrote about errors.
    pub stderr: String,
}

impl ProcessOutput {
    /// The output as text; bytes that are not UTF-8 are replaced.
    pub fn text(&self) -> (r: OutputText)
        ensures
            r.success == self.success,
            r.status@ == self.status@,
            r.stdout@ == encoding::lossy_text(self.stdout@),
            r.stderr@ == encoding::lossy_text(self.stderr@),
    {
        OutputText {
            success: self.success,
            status: self.status.clone(),
            stdout: encoding::utf8_text_lossy(&self.stdout),
            stderr: encoding::utf8_text_lossy(&self.stderr),
        }
    }
}

/// Appends the text to the list.
pub(crate) fn put(args: &mut Vec<String>, s: &str)
    ensures
        text::texts(final(args)@) == text::texts(old(args)@).push(s@),
{
    let ghost before = text::texts(args@);
    args.push(s.to_string());
    proof {
        assert(text::texts(args@) =~= before.push(s@));
    }
}

/// The arguments that let yt-dlp use the JavaScript runtime.
pub open spec fn deno_args() -> Seq<Seq<char>> {
    seq![
        "--js-runtimes"@,
        "deno:/home/troozn/.deno/bin/deno"@,
        "--remote-components"@,
        "ejs:github"@,
    ]
}

/// The arguments that let yt-dlp use the JavaScript runtime, or none.
pub open spec fn deno_args_if(use_deno: bool) -> Seq<Seq<char>> {
    if use_deno {
        deno_args()
    } else {
        Seq::empty()
    }
}

/// The arguments that let yt-dlp use the JavaScript runtime, or none.
pub fn deno_arguments(use_deno: bool) -> (r: Vec<String>)
    ensures
        text::texts(r@) == deno_args_if(use_deno),
{
    let mut args: Vec<String> = Vec::new();
    proof {
        assert(text::texts(args@) =~= Seq::<Seq<char>>::empty());
    }
    if use_deno {
        put(&mut args, "--js-runtimes");
        put(&mut args, "deno:/home/troozn/.deno/bin/deno");
        put(&mut args, "--remote-components");
        put(&mut args, "ejs:github");
        proof {
            assert(text::texts(args@) =~= deno_args());
        }
    }
    args
}

/// Whether the setting of the environment asks for the JavaScript runtime.
pub fn deno_requested(setting: Option<&str>) -> (r: bool)
    ensures
        r == match setting {
            Some(s) => s@ == "1"@ || s@ == "true"@ || s@ == "TRUE"@ || s@ == "yes"@ || s@ == "YES"@,
            None => false,
        },
{
    match setting {
        Some(s) => text::same(s, "1") || text::same(s, "true") || text::same(s, "TRUE")
            || text::same(s, "yes") || text::same(s, "YES"),
        None => false,
    }
}

/// The command that lists the first entries of a playlist.
pub open spec fn playlist_command_of(
    url: Seq<char>,
    scan_limit: nat,
    use_deno: bool,
) -> CommandView {
    CommandView {
        args: deno_args_if(use_deno) + seq![
            "--flat-playlist"@,
            "--no-warnings"@,
            "--playlist-end"@,
            numbers::dec(scan_limit),
            "-J"@,
            url,
        ],
        label: "yt-dlp playlist"@,
        timeout_seconds: 30,
    }
}

/// The command that lists the first entries of a playlist.
pub fn playlist_command(source_url: &str, scan_limit: usize, use_deno: bool) -> (r: YtdlpCommand)
    ensures
        r@ == playlist_command_of(source_url@, scan_limit as nat, use_deno),
{
    let mut args = deno_arguments(use_deno);
    put(&mut args, "--flat-playlist");
    put(&mut args, "--no-warnings");
    put(&mut args, "--playlist-end");
    put(&mut args, &numbers::decimal(scan_limit as u64));
    put(&mut args, "-J");
    put(&mut args, source_url);
    let r = YtdlpCommand { args, label: "yt-dlp playlist", timeout_seconds: 30 };
    proof {
        assert(r@.args =~= playlist_command_of(source_url@, scan_limit as nat, use_deno).args);
    }
    r
}

/// The command that lists the entries `start` to `end` of a playlist.
pub open spec fn range_command_of(url: Seq<char>, start: nat, end: nat) -> CommandView {
    CommandView {
        args: seq![
            "--flat-playlist"@,
            "--dump-single-json"@,
            "--no-warnings"@,
            "--force-ipv4"@,
            "--socket-timeout"@,
            "20"@,
            "--playlist-start"@,
            numbers::dec(start),
            "--playlist-end"@,
            numbers::dec(end),
            url,
        ],
        label: "yt-dlp range extract"@,
        timeout_seconds: 45,
    }
}

/// The command that lists the entries `start` to `end` of a playlist.
pub fn range_command(source_url: &str, start: usize, end: usize) -> (r: YtdlpCommand)
    ensures
        r@ == range_command_of(source_url@, start as nat, end as nat),
{
    let mut args: Vec<String> = Vec::new();
    put(&mut args, "--flat-playlist");
    put(&mut args, "--dump-single-json");
    put(&mut args, "--no-warnings");
    put(&mut args, "--force-ipv4");
    put(&mut args, "--socket-timeout");
    put(&mut args, "20");
    put(&mut args, "--playlist-start");
    put(&mut args, &numbers::decimal(start as u64));
    put(&mut args, "--playlist-end");
    put(&mut args, &numbers::decimal(end as u64));
    put(&mut args, source_url);
    let r = YtdlpCommand { args, label: "yt-dlp range extract", timeout_seconds: 45 };
    proof {
        assert(r@.args =~= range_command_of(source_url@, start as nat, end as nat).args);
    }
    r
}

/// Arguments that ask for the links of one video in a format.
pub open spec fn link_args(
    url: Seq<char>,
    format: Seq<char>,
    socket_timeout: Seq<char>,
    retries: Seq<char>,
) -> Seq<Seq<char>> {
    seq![
        "--ignore-config"@,
        "--no-playlist"@,
        "--no-warnings"@,
        "--force-ipv4"@,
        "--socket-timeout"@,
        socket_timeout,
        "--retries"@,
        retries,
        "--fragment-retries"@,
        retries,
        "-f"@,
        format,
        "-g"@,
        url,
    ]
}

/// Appends arguments that ask for the links of one video in a format.
fn put_link_args(
    args: &mut Vec<String>,
    url: &str,
    format: &str,
    socket_timeout: &str,
    retries: &str,
)
    ensures
        text::texts(final(args)@) == text::texts(old(args)@) + link_args(
            url@,
            format@,
            socket_timeout@,
            retries@,
        ),
{
    let ghost before = text::texts(args@);
    put(args, "--ignore-config");
    put(args, "--no-playlist");
    put(args, "--no-warnings");
    put(args, "--force-ipv4");
    put(args, "--socket-timeout");
    put(args, socket_timeout);
    put(args, "--retries");
    put(args, retries);
    put(args, "--fragment-retries");
    put(args, retries);
    put(args, "-f");
    put(args, format);
    put(args, "-g");
    put(args, url);
    proof {
        assert(text::texts(args@) =~= before + link_args(
            url@,
            format@,
            socket_timeout@,
            retries@,
        ));
    }
}

/// The command that checks whether a video is playable.
pub open spec fn validate_command_of(url: Seq<char>) -> CommandView {
    CommandView {
        args: link_args(url, YTDLP_YOUTUBE_VALIDATE_FORMAT@, "5"@, "0"@),
        label: "yt-dlp quick validate"@,
        timeout_seconds: 4,
    }
}

/// The command that checks whether a video is playable.
pub fn validate_command(source_url: &str) -> (r: YtdlpCommand)
    ensures
        r@ == validate_command_of(source_url@),
{
    let mut args: Vec<String> = Vec::new();
    put_link_args(&mut args, source_url, YTDLP_YOUTUBE_VALIDATE_FORMAT, "5", "0");
    let r = YtdlpCommand { args, label: "yt-dlp quick validate", timeout_seconds: 4 };
    proof {
        assert(r@.args =~= validate_command_of(source_url@).args);
    }
    r
}

/// The command that reports on one video in full.
pub open spec fn metadata_command_of(url: Seq<char>, use_deno: bool) -> CommandView {
    CommandView {
        args: deno_args_if(use_deno) + seq![
            "--no-playlist"@,
            "--no-warnings"@,
            "--skip-download"@,
            "-J"@,
            url,
        ],
        label: "yt-dlp metadata"@,
        timeout_seconds: 8,
    }
}

/// The command that reports on one video in full.
pub fn metadata_command(source_url: &str, use_deno: bool) -> (r: YtdlpCommand)
    ensures
        r@ == metadata_command_of(source_url@, use_deno),
{
    let mut args = deno_arguments(use_deno);
    put(&mut args, "--no-playlist");
    put(&mut args, "--no-warnings");
    put(&mut args, "--skip-download");
    put(&mut args, "-J");
    put(&mut args, source_url);
    let r = YtdlpCommand { args, label: "yt-dlp metadata", timeout_seconds: 8 };
    proof {
        assert(r@.args =~= metadata_command_of(source_url@, use_deno).args);
    }
    r
}

/// The command that lists the formats of a video.
pub open spec fn list_formats_command_of(url: Seq<char>, use_deno: bool) -> CommandView {
    CommandView {
        args: deno_args_if(use_deno) + seq![
            "--ignore-config"@,
            "--force-ipv4"@,
            "--no-warnings"@,
            "--socket-timeout"@,
            if use_deno {
                "20"@
            } else {
                "10"@
            },
            "--list-formats"@,
            url,
        ],
        label: if use_deno {
            "yt-dlp list-formats deno"@
        } else {
            "yt-dlp list-formats"@
        },
        timeout_seconds: if use_deno {
            45
        } else {
            15
        },
    }
}

/// The command that lists the formats of a video.
pub fn list_formats_command(source_url: &str, use_deno: bool) -> (r: YtdlpCommand)
    ensures
        r@ == list_formats_command_of(source_url@, use_deno),
{
    let mut args = deno_arguments(use_deno);
    put(&mut args, "--ignore-config");
    put(&mut args, "--force-ipv4");
    put(&mut args, "--no-warnings");
    put(&mut args, "--socket-timeout");
    put(
        &mut args,
        if use_deno {
            "20"
        } else {
            "10"
        },
    );
    put(&mut args, "--list-formats");
    put(&mut args, source_url);
    let r = YtdlpCommand {
        args,
        label: if use_deno {
            "yt-dlp list-formats deno"
        } else {
            "yt-dlp list-formats"
        },
        timeout_seconds: if use_deno {
            45
        } else {
            15
        },
    };
    proof {
        assert(r@.args =~= list_formats_command_of(source_url@, use_deno).args);
    }
    r
}

/// The command that finds the link of a YouTube video in a format that holds picture and sound.
pub open spec fn single_command_of(
    url: Seq<char>,
    format: Seq<char>,
    use_deno: bool,
) -> CommandView {
    CommandView {
        args: deno_args_if(use_deno) + link_args(
            url,
            format,
            if use_deno {
                "20"@
            } else {
                "8"@
            },
            if use_deno {
                "1"@
            } else {
                "0"@
            },
        ),
        label: if use_deno {
            "yt-dlp -g deno"@
        } else {
            "yt-dlp -g"@
        },
        timeout_seconds: if use_deno {
            45
        } else {
            12
        },
    }
}

/// Arguments that ask for the links of a YouTube video.
fn youtube_link_args(source_url: &str, format: &str, use_deno: bool) -> (r: Vec<String>)
    ensures
        text::texts(r@) == single_command_of(source_url@, format@, use_deno).args,
{
    let mut args = deno_arguments(use_deno);
    put_link_args(
        &mut args,
        source_url,
        format,
        if use_deno {
            "20"
        } else {
            "8"
        },
        if use_deno {
            "1"
        } else {
            "0"
        },
    );
    args
}

/// The command that finds the link of a YouTube video in a format that holds picture and sound.
pub fn single_command(source_url: &str, format: &str, use_deno: bool) -> (r: YtdlpCommand)
    ensures
        r@ == single_command_of(source_url@, format@, use_deno),
{
    YtdlpCommand {
        args: youtube_link_args(source_url, format, use_deno),
        label: if use_deno {
            "yt-dlp -g deno"
        } else {
            "yt-dlp -g"
        },
        timeout_seconds: if use_deno {
            45
        } else {
            12
        },
    }
}

/// The command that finds the links of a YouTube video in a format of picture and sound apart.
pub open spec fn dash_command_of(
    url: Seq<char>,
    format: Seq<char>,
    use_deno: bool,
) -> CommandView {
    CommandView {
        args: single_command_of(url, format, use_deno).args,
        label: if use_deno {
            "yt-dlp dash av -g deno"@
        } else {
            "yt-dlp dash av -g"@
        },
        timeout_seconds: if use_deno {
            45
        } else {
            14
        },
    }
}

/// The command that finds the links of a YouTube video in a format of picture and sound apart.
pub fn dash_command(source_url: &str, format: &str, use_deno: bool) -> (r: YtdlpCommand)
    ensures
        r@ == dash_command_of(source_url@, format@, use_deno),
{
    YtdlpCommand {
        args: youtube_link_args(source_url, format, use_deno),
        label: if use_deno {
            "yt-dlp dash av -g deno"
        } else {
            "yt-dlp dash av -g"
        },
        timeout_seconds: if use_deno {
            45
        } else {
            14
        },
    }
}

/// The command that finds the links of a medium of another service.
pub open spec fn generic_command_of(
    url: Seq<char>,
    format: Seq<char>,
    timeout_seconds: u64,
) -> CommandView {
    CommandView {
        args: link_args(url, format, "20"@, "2"@),
        label: "yt-dlp generic -g"@,
        timeout_seconds,
    }
}

/// The command that finds the links of a medium of another service.
pub fn generic_command(source_url: &str, format: &str, timeout_seconds: u64) -> (r: YtdlpCommand)
    ensures
        r@ == generic_command_of(source_url@, format@, timeout_seconds),
{
    let mut args: Vec<String> = Vec::new();
    put_link_args(&mut args, source_url, format, "20", "2");
    let r = YtdlpCommand { args, label: "yt-dlp generic -g", timeout_seconds };
    proof {
        assert(r@.args =~= generic_command_of(source_url@, format@, timeout_seconds).args);
    }
    r
}

/// The command that reports on a YouTube video and its formats with the JavaScript runtime.
pub open spec fn json_command_of(url: Seq<char>) -> CommandView {
    CommandView {
        args: deno_args() + seq![
            "--no-playlist"@,
            "--no-warnings"@,
            "--force-ipv4"@,
            "--socket-timeout"@,
            "25"@,
            "--retries"@,
            "1"@,
            "--fragment-retries"@,
            "1"@,
            "--skip-download"@,
            "-J"@,
            url,
        ],
        label: "yt-dlp json deno"@,
        timeout_seconds: 60,
    }
}

/// The command that reports on a YouTube video and its formats with the JavaScript runtime.
pub fn json_command(source_url: &str) -> (r: YtdlpCommand)
    ensures
        r@ == json_command_of(source_url@),
{
    let mut args = deno_arguments(true);
    put(&mut args, "--no-playlist");
    put(&mut args, "--no-warnings");
    put(&mut args, "--force-ipv4");
    put(&mut args, "--socket-timeout");
    put(&mut args, "25");
    put(&mut args, "--retries");
    put(&mut args, "1");
    put(&mut args, "--fragment-retries");
    put(&mut args, "1");
    put(&mut args, "--skip-download");
    put(&mut args, "-J");
    put(&mut args, source_url);
    let r = YtdlpCommand { args, label: "yt-dlp json deno", timeout_seconds: 60 };
    proof {
        assert(r@.args =~= json_command_of(source_url@).args);
    }
    r
}

/// The arguments with which `ffprobe` reports the height of a film.
pub open spec fn probe_args(url: Seq<char>) -> Seq<Seq<char>> {
    seq![
        "-v"@,
        "error"@,
        "-select_streams"@,
        "v:0"@,
        "-show_entries"@,
        "stream=height"@,
        "-of"@,
        "json"@,
        url,
    ]
}

/// The arguments with which `ffprobe` reports the height of a film.
pub fn probe_arguments(source_url: &str) -> (r: Vec<String>)
    ensures
        text::texts(r@) == probe_args(source_url@),
{
    let mut args: Vec<String> = Vec::new();
    put(&mut args, "-v");
    put(&mut args, "error");
    put(&mut args, "-select_streams");
    put(&mut args, "v:0");
    put(&mut args, "-show_entries");
    put(&mut args, "stream=height");
    put(&mut args, "-of");
    put(&mut args, "json");
    put(&mut args, source_url);
    proof {
        assert(text::texts(args@) =~= probe_args(source_url@));
    }
    args
}

// ---------------------------------------------------------------------------
// Errors that YouTube reports
// ---------------------------------------------------------------------------

/// A message, in lower case, says that YouTube wants to know who asks.
pub open spec fn says_sign_in(lower: Seq<char>) -> bool {
    ||| text::has_part(lower, "sign in to confirm"@)
    ||| text::has_part(lower, "not a bot"@)
    ||| text::has_part(lower, "use --cookies"@)
    ||| text::has_part(lower, "please sign in"@)
    ||| text::has_part(lower, "confirm you're not a bot"@)
    ||| text::has_part(lower, "confirm you’re not a bot"@)
}

/// Whether a message, in lower case, says that YouTube wants to know who asks.
pub fn lower_says_sign_in(lower: &str) -> (r: bool)
    ensures
        r == says_sign_in(lower@),
{
    text::contains(lower, "sign in to confirm") || text::contains(lower, "not a bot")
        || text::contains(lower, "use --cookies") || text::contains(lower, "please sign in")
        || text::contains(lower, "confirm you're not a bot") || text::contains(
        lower,
        "confirm you’re not a bot",
    )
}

/// Whether a message says that YouTube wants to know who asks.
pub fn is_youtube_auth_or_bot_error(message: &str) -> (r: bool)
    ensures
        r == says_sign_in(text::unicode_lowercase(message@)),
{
    lower_says_sign_in(&text::lowercase(message))
}

/// A message, in lower case, says that a video is not to be had.
pub open spec fn says_gone(lower: Seq<char>) -> bool {
    ||| text::has_part(lower, "video unavailable"@)
    ||| text::has_part(lower, "this video is not available"@)
    ||| text::has_part(lower, "private video"@)
    ||| text::has_part(lower, "deleted video"@)
    ||| text::has_part(lower, "has been removed"@)
    ||| text::has_part(lower, "copyright claim"@)
    ||| text::has_part(lower, "blocked in your country"@)
    ||| text::has_part(lower, "not available in your country"@)
}

/// Whether a message, in lower case, says that a video is not to be had.
pub fn lower_says_gone(lower: &str) -> (r: bool)
    ensures
        r == says_gone(lower@),
{
    text::contains(lower, "video unavailable") || text::contains(
        lower,
        "this video is not available",
    ) || text::contains(lower, "private video") || text::contains(lower, "deleted video")
        || text::contains(lower, "has been removed") || text::contains(lower, "copyright claim")
        || text::contains(lower, "blocked in your country") || text::contains(
        lower,
        "not available in your country",
    )
}

/// Whether a message says that a video is not to be had.
pub fn is_youtube_terminal_unavailable_error(message: &str) -> (r: bool)
    ensures
        r == says_gone(text::unicode_lowercase(message@)),
{
    lower_says_gone(&text::lowercase(message))
}

/// A message, in lower case, says that a command took too long.
pub open spec fn says_timeout(lower: Seq<char>) -> bool {
    ||| text::has_part(lower, "timeout yt-dlp"@)
    ||| text::has_part(lower, "deadline has elapsed"@)
    ||| text::has_part(lower, "timeout attente slot"@)
}

/// Whether a message, in lower case, says that a command took too long.
pub fn lower_says_timeout(lower: &str) -> (r: bool)
    ensures
        r == says_timeout(lower@),
{
    text::contains(lower, "timeout yt-dlp") || text::contains(lower, "deadline has elapsed")
        || text::contains(lower, "timeout attente slot")
}

/// Whether a message says that a command took too long.
pub fn is_ytdlp_timeout_error(message: &str) -> (r: bool)
    ensures
        r == says_timeout(text::unicode_lowercase(message@)),
{
    lower_says_timeout(&text::lowercase(message))
}

// ---------------------------------------------------------------------------
// What the output of the commands means
// ---------------------------------------------------------------------------

/// The lines of a text that are links, without white space around them.
pub open spec fn link_lines(lines: Seq<Seq<char>>) -> Seq<Seq<char>>
    decreases lines.len(),
{
    if lines.len() == 0 {
        Seq::empty()
    } else {
        let front = link_lines(lines.drop_last());
        let line = text::trimmed(lines.last());
        if links::web_link(line) {
            front.push(line)
        } else {
            front
        }
    }
}

/// The links that a text lists, one on a line.
pub open spec fn listed_links(s: Seq<char>) -> Seq<Seq<char>> {
    link_lines(text::line_seq(s))
}

/// The links that a text lists, one on a line.
pub fn links_in(s: &str) -> (r: Vec<String>)
    ensures
        text::texts(r@) == listed_links(s@),
{
    let lines = text::lines(s);
    let ghost t = text::texts(lines@);
    let mut out: Vec<String> = Vec::new();
    let mut i: usize = 0;
    proof {
        assert(text::texts(out@) =~= Seq::<Seq<char>>::empty());
    }
    while i < lines.len()
        invariant
            t == text::texts(lines@),
            i <= lines@.len(),
            text::texts(out@) == link_lines(t.take(i as int)),
        decreases lines@.len() - i,
    {
        let ghost before = text::texts(out@);
        proof {
            assert(t.take(i + 1).drop_last() =~= t.take(i as int));
            assert(t.take(i + 1).last() == lines@[i as int]@);
        }
        let line = text::trim(&lines[i]);
        if links::is_web_link(&line) {
            let ghost lv = line@;
            out.push(line);
            proof {
                assert(text::texts(out@) =~= before.push(lv));
            }
        }
        i += 1;
    }
    proof {
        assert(t.take(i as int) =~= t);
    }
    out
}

/// The message of a failed search for a link of a YouTube video.
pub open spec fn single_failure(
    url: Seq<char>,
    format: Seq<char>,
    status: Seq<char>,
    stdout: Seq<char>,
    stderr: Seq<char>,
) -> Seq<char> {
    "yt-dlp -g failed: bin="@ + YTDLP_BIN@ + " format="@ + format + " url="@ + url + " status="@
        + status + " stderr="@ + text::trimmed(stderr) + " stdout="@ + text::trimmed(stdout)
}

/// The link of a YouTube video that a command found, or the message of an error.
pub fn single_outcome(source_url: &str, format: &str, out: &OutputText) -> (r: Result<
    String,
    String,
>)
    ensures
        match r {
            Ok(url) => out.success && listed_links(out.stdout@).len() > 0 && url@ == listed_links(
                out.stdout@,
            )[0],
            Err(message) => if !out.success {
                message@ == single_failure(
                    source_url@,
                    format@,
                    out.status@,
                    out.stdout@,
                    out.stderr@,
                )
            } else {
                listed_links(out.stdout@).len() == 0 && message@
                    == "yt-dlp -g OK mais aucune URL: format="@ + format@ + " stdout="@
                    + text::trimmed(out.stdout@)
            },
        },
{
    if !out.success {
        let mut m = text::concat3("yt-dlp -g failed: bin=", YTDLP_BIN, " format=");
        m.push_str(format);
        m.push_str(" url=");
        m.push_str(source_url);
        m.push_str(" status=");
        m.push_str(&out.status);
        m.push_str(" stderr=");
        m.push_str(&text::trim(&out.stderr));
        m.push_str(" stdout=");
        m.push_str(&text::trim(&out.stdout));
        return Err(m);
    }
    let urls = links_in(&out.stdout);
    proof {
        assert(text::texts(urls@).len() == urls@.len());
    }
    if urls.len() == 0 {
        let mut m = text::concat3(
            "yt-dlp -g OK mais aucune URL: format=",
            format,
            " stdout=",
        );
        m.push_str(&text::trim(&out.stdout));
        return Err(m);
    }
    proof {
        assert(text::texts(urls@)[0] == urls@[0]@);
    }
    Ok(urls[0].clone())
}

/// Picture and sound of a YouTube video that a command found, or the message of an error.
pub fn dash_outcome(format: &str, out: &OutputText) -> (r: Result<ResolvedMediaInput, String>)
    ensures
        match r {
            Ok(input) => {
                let urls = listed_links(out.stdout@);
                &&& out.success
                &&& urls.len() >= 2
                &&& input@ == (InputView::SeparateAv {
                    video_url: urls[0],
                    audio_url: urls[1],
                    format_selector: format@,
                })
            },
            Err(message) => if !out.success {
                message@ == "yt-dlp dash av failed: format="@ + format@ + " status="@ + out.status@
                    + " stderr="@ + text::trimmed(out.stderr@) + " stdout="@ + text::trimmed(
                    out.stdout@,
                )
            } else {
                listed_links(out.stdout@).len() < 2 && message@
                    == "yt-dlp dash av OK mais moins de 2 URLs: format="@ + format@ + " stdout="@
                    + text::trimmed(out.stdout@)
            },
        },
{
    if !out.success {
        let mut m = text::concat3("yt-dlp dash av failed: format=", format, " status=");
        m.push_str(&out.status);
        m.push_str(" stderr=");
        m.push_str(&text::trim(&out.stderr));
        m.push_str(" stdout=");
        m.push_str(&text::trim(&out.stdout));
        return Err(m);
    }
    let urls = links_in(&out.stdout);
    proof {
        assert(text::texts(urls@).len() == urls@.len());
    }
    if urls.len() < 2 {
        let mut m = text::concat3(
            "yt-dlp dash av OK mais moins de 2 URLs: format=",
            format,
            " stdout=",
        );
        m.push_str(&text::trim(&out.stdout));
        return Err(m);
    }
    proof {
        assert(text::texts(urls@)[0] == urls@[0]@);
        assert(text::texts(urls@)[1] == urls@[1]@);
    }
    Ok(
        ResolvedMediaInput::SeparateAv {
            video_url: urls[0].clone(),
            audio_url: urls[1].clone(),
            format_selector: format.to_string(),
        },
    )
}

/// The links of a medium of another service that a command found, or the message of an error.
pub fn generic_outcome(source_url: &str, format: &str, out: &OutputText) -> (r: Result<
    Vec<String>,
    String,
>)
    ensures
        match r {
            Ok(urls) => out.success && urls@.len() > 0 && text::texts(urls@) == listed_links(
                out.stdout@,
            ),
            Err(message) => if !out.success {
                message@ == "yt-dlp generic -g failed: format="@ + format@ + " url="@ + source_url@
                    + " status="@ + out.status@ + " stderr="@ + text::trimmed(out.stderr@)
                    + " stdout="@ + text::trimmed(out.stdout@)
            } else {
                listed_links(out.stdout@).len() == 0 && message@
                    == "yt-dlp generic -g OK mais aucune URL: format="@ + format@ + " stdout="@
                    + text::trimmed(out.stdout@)
            },
        },
{
    if !out.success {
        let mut m = text::concat3("yt-dlp generic -g failed: format=", format, " url=");
        m.push_str(source_url);
        m.push_str(" status=");
        m.push_str(&out.status);
        m.push_str(" stderr=");
        m.push_str(&text::trim(&out.stderr));
        m.push_str(" stdout=");
        m.push_str(&text::trim(&out.stdout));
        return Err(m);
    }
    let urls = links_in(&out.stdout);
    proof {
        assert(text::texts(urls@).len() == urls@.len());
    }
    if urls.len() == 0 {
        let mut m = text::concat3(
            "yt-dlp generic -g OK mais aucune URL: format=",
            format,
            " stdout=",
        );
        m.push_str(&text::trim(&out.stdout));
        return Err(m);
    }
    Ok(urls)
}

/// All that a command wrote: its output, and on a further line what it wrote about errors where
/// that is more than white space.
pub open spec fn combined_output(stdout: Seq<char>, stderr: Seq<char>) -> Seq<char> {
    if text::trimmed(stderr).len() == 0 {
        stdout
    } else {
        stdout + "\n"@ + stderr
    }
}

/// The list of formats that a command wrote, or the message of an error.
pub fn list_formats_outcome(out: &OutputText) -> (r: Result<String, String>)
    ensures
        match r {
            Ok(list) => out.success && list@ == combined_output(out.stdout@, out.stderr@),
            Err(message) => !out.success && message@ == "yt-dlp list-formats failed status="@
                + out.status@ + " output="@ + text::trimmed(
                combined_output(out.stdout@, out.stderr@),
            ),
        },
{
    let combined = if text::trim(&out.stderr).as_str().is_empty() {
        out.stdout.clone()
    } else {
        text::concat3(&out.stdout, "\n", &out.stderr)
    };
    if !out.success {
        let mut m = text::concat3(
            "yt-dlp list-formats failed status=",
            &out.status,
            " output=",
        );
        m.push_str(&text::trim(&combined));
        return Err(m);
    }
    Ok(combined)
}

/// A line of the list starts with the number of a format.
pub open spec fn lists_format(s: Seq<char>, id: Seq<char>) -> bool {
    exists|i: int|
        0 <= i < text::line_seq(s).len() && text::words(#[trigger] text::line_seq(s)[i]).len() > 0
            && text::words(text::line_seq(s)[i])[0] == id
}

/// Whether a line of the list starts with the number of a format.
fn is_format_listed(s: &str, id: &str) -> (r: bool)
    ensures
        r == lists_format(s@, id@),
{
    let lines = text::lines(s);
    let mut i: usize = 0;
    while i < lines.len()
        invariant
            text::texts(lines@) == text::line_seq(s@),
            i <= lines@.len(),
            forall|j: int|
                0 <= j < i ==> !(text::words((#[trigger] lines@[j])@).len() > 0 && text::words(
                    lines@[j]@,
                )[0] == id@),
        decreases lines@.len() - i,
    {
        let words = text::split_whitespace(&lines[i]);
        proof {
            assert(text::line_seq(s@)[i as int] == lines@[i as int]@);
            assert(text::texts(words@).len() == words@.len());
        }
        if words.len() > 0 {
            proof {
                assert(text::texts(words@)[0] == words@[0]@);
            }
            if text::same(&words[0], id) {
                return true;
            }
        }
        i += 1;
    }
    proof {
        assert forall|j: int| 0 <= j < text::line_seq(s@).len() implies !(text::words(
            #[trigger] text::line_seq(s@)[j],
        ).len() > 0 && text::words(text::line_seq(s@)[j])[0] == id@) by {
            assert(text::line_seq(s@)[j] == lines@[j]@);
        }
    }
    false
}

/// The best format of picture and sound that a list of formats holds.
pub open spec fn best_fast_format(s: Seq<char>) -> Option<Seq<char>> {
    if lists_format(s, "96"@) {
        Some("96"@)
    } else if lists_format(s, "95"@) {
        Some("95"@)
    } else if lists_format(s, "94"@) {
        Some("94"@)
    } else if lists_format(s, "22"@) {
        Some("22"@)
    } else {
        None
    }
}

/// The best format of picture and sound that a list of formats holds: 96, 95, 94 or 22, in this
/// order.
pub fn best_youtube_fast_format_from_list_formats(list: &str) -> (r: Option<&'static str>)
    ensures
        match r {
            Some(format) => best_fast_format(list@) == Some(format@),
            None => best_fast_format(list@) is None,
        },
{
    if is_format_listed(list, "96") {
        Some("96")
    } else if is_format_listed(list, "95") {
        Some("95")
    } else if is_format_listed(list, "94") {
        Some("94")
    } else if is_format_listed(list, "22") {
        Some("22")
    } else {
        None
    }
}

/// The best formats of picture and sound apart that a list of formats holds.
pub open spec fn best_dash_format(s: Seq<char>) -> Option<Seq<char>> {
    if lists_format(s, "137"@) && lists_format(s, "140"@) {
        Some("137+140"@)
    } else if lists_format(s, "136"@) && lists_format(s, "140"@) {
        Some("136+140"@)
    } else if lists_format(s, "135"@) && lists_format(s, "140"@) {
        Some("135+140"@)
    } else {
        None
    }
}

/// The best formats of picture and sound apart that a list of formats holds: 137, 136 or 135
/// with 140.
pub fn best_dash_av_format_from_list_formats(list: &str) -> (r: Option<&'static str>)
    ensures
        match r {
            Some(format) => best_dash_format(list@) == Some(format@),
            None => best_dash_format(list@) is None,
        },
{
    if is_format_listed(list, "137") && is_format_listed(list, "140") {
        return Some("137+140");
    }
    if is_format_listed(list, "136") && is_format_listed(list, "140") {
        return Some("136+140");
    }
    if is_format_listed(list, "135") && is_format_listed(list, "140") {
        return Some("135+140");
    }
    None
}

/// The link of the first of the formats with this number that has one.
pub open spec fn format_link(formats: Seq<JsonView>, id: Seq<char>) -> Option<Seq<char>>
    decreases formats.len(),
{
    if formats.len() == 0 {
        None
    } else {
        match (formats[0].text_at("format_id"@), formats[0].text_at("url"@)) {
            (Some(f), Some(url)) if f == id && links::web_link(url) => Some(url),
            _ => format_link(formats.skip(1), id),
        }
    }
}

/// The link that a report on a video gives for a format.
pub open spec fn reported_link(root: JsonView, id: Seq<char>) -> Option<Seq<char>> {
    match root.list_at("formats"@) {
        Some(formats) => format_link(formats, id),
        None => None,
    }
}

/// The link that a report on a video gives for a format.
pub fn youtube_json_format_url(root: &Json, format_id: &str) -> (r: Option<String>)
    ensures
        text::text_in(r) == reported_link(root@, format_id@),
{
    let formats = match root.list_at("formats") {
        Some(formats) => formats,
        None => {
            return None;
        },
    };
    let ghost v = json::views(formats@);
    let mut i: usize = 0;
    proof {
        assert(v.skip(0) =~= v);
    }
    while i < formats.len()
        invariant
            root@.list_at("formats"@) == Some(v),
            v == json::views(formats@),
            i <= formats@.len(),
            format_link(v, format_id@) == format_link(v.skip(i as int), format_id@),
        decreases formats@.len() - i,
    {
        proof {
            assert(v.skip(i as int)[0] == formats@[i as int]@);
            assert(v.skip(i as int).skip(1) =~= v.skip(i + 1));
        }
        if let Some(id) = formats[i].text_at("format_id") {
            if text::same(&id, format_id) {
                if let Some(url) = formats[i].text_at("url") {
                    if links::is_web_link(&url) {
                        return Some(url);
                    }
                }
            }
        }
        i += 1;
    }
    None
}

/// The best format of picture and sound that a report gives a link for, with the link.
pub open spec fn best_single(root: JsonView) -> Option<(Seq<char>, Seq<char>)> {
    if reported_link(root, "96"@) is Some {
        Some(("96"@, reported_link(root, "96"@)->0))
    } else if reported_link(root, "22"@) is Some {
        Some(("22"@, reported_link(root, "22"@)->0))
    } else if reported_link(root, "95"@) is Some {
        Some(("95"@, reported_link(root, "95"@)->0))
    } else if reported_link(root, "94"@) is Some {
        Some(("94"@, reported_link(root, "94"@)->0))
    } else {
        None
    }
}

/// The best format of picture and sound that a report gives a link for, with the link.
pub fn best_youtube_json_single_url(root: &Json) -> (r: Option<(&'static str, String)>)
    ensures
        match r {
            Some((format, url)) => best_single(root@) == Some((format@, url@)),
            None => best_single(root@) is None,
        },
{
    if let Some(url) = youtube_json_format_url(root, "96") {
        return Some(("96", url));
    }
    if let Some(url) = youtube_json_format_url(root, "22") {
        return Some(("22", url));
    }
    if let Some(url) = youtube_json_format_url(root, "95") {
        return Some(("95", url));
    }
    if let Some(url) = youtube_json_format_url(root, "94") {
        return Some(("94", url));
    }
    None
}

/// The best formats of picture and sound apart that a report gives links for, with the links.
pub open spec fn best_dash(root: JsonView) -> Option<(Seq<char>, Seq<char>, Seq<char>)> {
    let audio = reported_link(root, "140"@);
    if audio is None {
        None
    } else if reported_link(root, "137"@) is Some {
        Some(("137+140"@, reported_link(root, "137"@)->0, audio->0))
    } else if reported_link(root, "136"@) is Some {
        Some(("136+140"@, reported_link(root, "136"@)->0, audio->0))
    } else if reported_link(root, "135"@) is Some {
        Some(("135+140"@, reported_link(root, "135"@)->0, audio->0))
    } else {
        None
    }
}

/// The best formats of picture and sound apart that a report gives links for, with the links.
pub fn best_youtube_json_dash_av(root: &Json) -> (r: Option<(&'static str, String, String)>)
    ensures
        match r {
            Some((format, video, audio)) => best_dash(root@) == Some((format@, video@, audio@)),
            None => best_dash(root@) is None,
        },
{
    let audio = match youtube_json_format_url(root, "140") {
        Some(audio) => audio,
        None => {
            return None;
        },
    };
    if let Some(video) = youtube_json_format_url(root, "137") {
        return Some(("137+140", video, audio));
    }
    if let Some(video) = youtube_json_format_url(root, "136") {
        return Some(("136+140", video, audio));
    }
    if let Some(video) = youtube_json_format_url(root, "135") {
        return Some(("135+140", video, audio));
    }
    None
}

/// What is played of a video by a report on it: one link for picture and sound before two.
pub open spec fn picked_input(root: JsonView) -> Option<InputView> {
    match best_single(root) {
        Some((format, url)) => Some(InputView::Single { url, format_selector: format }),
        None => match best_dash(root) {
            Some((format, video, audio)) => Some(
                InputView::SeparateAv {
                    video_url: video,
                    audio_url: audio,
                    format_selector: format,
                },
            ),
            None => None,
        },
    }
}

/// What is played of a video by a report on it.
pub fn pick_input(root: &Json) -> (r: Option<ResolvedMediaInput>)
    ensures
        match r {
            Some(input) => picked_input(root@) == Some(input@),
            None => picked_input(root@) is None,
        },
{
    if let Some((format, url)) = best_youtube_json_single_url(root) {
        return Some(ResolvedMediaInput::Single { url, format_selector: format.to_string() });
    }
    if let Some((format, video_url, audio_url)) = best_youtube_json_dash_av(root) {
        return Some(
            ResolvedMediaInput::SeparateAv {
                video_url,
                audio_url,
                format_selector: format.to_string(),
            },
        );
    }
    None
}

/// What is played of a YouTube video by what the reporting command wrote, or the message of an
/// error.
pub fn json_outcome(out: &OutputText) -> (r: Result<ResolvedMediaInput, String>)
    ensures
        match r {
            Ok(input) => out.success && json::json_text(out.stdout@) is Some && picked_input(
                json::json_text(out.stdout@)->0,
            ) == Some(input@),
            Err(message) => if !out.success {
                message@ == "yt-dlp json deno failed: status="@ + out.status@ + " stderr="@
                    + text::trimmed(out.stderr@) + " stdout="@ + text::trimmed(out.stdout@)
            } else if json::json_text(out.stdout@) is None {
                message@ == "parse yt-dlp json deno"@
            } else {
                picked_input(json::json_text(out.stdout@)->0) is None && message@
                    == "yt-dlp json deno OK mais aucun format 1080p/720p/480p exploitable"@
            },
        },
{
    if !out.success {
        let mut m = text::concat3(
            "yt-dlp json deno failed: status=",
            &out.status,
            " stderr=",
        );
        m.push_str(&text::trim(&out.stderr));
        m.push_str(" stdout=");
        m.push_str(&text::trim(&out.stdout));
        return Err(m);
    }
    let root = match json::parse_json(&out.stdout) {
        Some(root) => root,
        None => {
            return Err("parse yt-dlp json deno".to_string());
        },
    };
    match pick_input(&root) {
        Some(input) => Ok(input),
        None => Err(
            "yt-dlp json deno OK mais aucun format 1080p/720p/480p exploitable".to_string(),
        ),
    }
}

/// The items that the playlist command wrote, or the message of an error.
pub fn playlist_outcome(out: ProcessOutput, scan_limit: usize) -> (r: Extracted)
    ensures
        match r {
            Ok(list) => out.success && json::json_bytes(out.stdout@) is Some
                && items::item_views(list@) == items::items_of_report(
                json::json_bytes(out.stdout@)->0,
                scan_limit as nat,
            ),
            Err(message) => if !out.success {
                message@ == "yt-dlp playlist a échoué: "@ + text::trimmed(
                    encoding::lossy_text(out.stderr@),
                )
            } else {
                json::json_bytes(out.stdout@) is None && message@ == "parse yt-dlp JSON"@
            },
        },
{
    if !out.success {
        let stderr = encoding::utf8_text_lossy(&out.stderr);
        return Err(text::concat2("yt-dlp playlist a échoué: ", &text::trim(&stderr)));
    }
    match json::parse_json_bytes(out.stdout) {
        Some(root) => Ok(items::items_from_report(&root, scan_limit)),
        None => Err("parse yt-dlp JSON".to_string()),
    }
}

/// The items that the command for a further page wrote, or the message of an error.
pub fn range_outcome(out: &OutputText) -> (r: Extracted)
    ensures
        match r {
            Ok(list) => out.success && json::json_text(out.stdout@) is Some && items::item_views(
                list@,
            ) == items::items_of_page(json::json_text(out.stdout@)->0),
            Err(message) => if !out.success {
                message@ == "yt-dlp range extract failed: "@ + text::trimmed(out.stderr@)
            } else {
                json::json_text(out.stdout@) is None && message@ == "parse yt-dlp range json"@
            },
        },
{
    if !out.success {
        return Err(text::concat2("yt-dlp range extract failed: ", &text::trim(&out.stderr)));
    }
    match json::parse_json(&out.stdout) {
        Some(root) => Ok(items::items_from_page(&root)),
        None => Err("parse yt-dlp range json".to_string()),
    }
}

/// The message of a failed report on a video.
pub open spec fn metadata_failure(
    url: Seq<char>,
    status: Seq<char>,
    stdout: Seq<char>,
    stderr: Seq<char>,
) -> Seq<char> {
    "yt-dlp command failed: build_tag="@ + TROOZN_LIVE_BUILD_TAG@ + " bin="@ + YTDLP_BIN@
        + " ignore_config=true format="@ + YTDLP_GENERIC_SINGLE_FORMAT@ + " url="@ + url
        + " status="@ + status + " stderr="@ + text::trimmed(stderr) + " stdout="@ + text::trimmed(
        stdout,
    )
}

/// What one attempt to get a full report on a video gave.
#[derive(Debug)]
pub enum MetadataAttempt {
    /// The report.
    Done(items::FullVideoMetadata),
    /// The attempt failed with this message and can be made again.
    Retry(String),
    /// The report cannot be read.
    Unreadable,
}

/// What one attempt to get a full report on a video gave.
pub fn metadata_outcome(source_url: &str, out: ProcessOutput) -> (r: MetadataAttempt)
    ensures
        match r {
            MetadataAttempt::Done(meta) => out.success && json::json_bytes(out.stdout@) is Some
                && meta@ == items::metadata_of(json::json_bytes(out.stdout@)->0),
            MetadataAttempt::Retry(message) => !out.success && message@ == metadata_failure(
                source_url@,
                out.status@,
                encoding::lossy_text(out.stdout@),
                encoding::lossy_text(out.stderr@),
            ),
            MetadataAttempt::Unreadable => out.success && json::json_bytes(out.stdout@) is None,
        },
{
    if !out.success {
        let t = out.text();
        let mut m = text::concat3(
            "yt-dlp command failed: build_tag=",
            TROOZN_LIVE_BUILD_TAG,
            " bin=",
        );
        m.push_str(YTDLP_BIN);
        m.push_str(" ignore_config=true format=");
        m.push_str(YTDLP_GENERIC_SINGLE_FORMAT);
        m.push_str(" url=");
        m.push_str(source_url);
        m.push_str(" status=");
        m.push_str(&t.status);
        m.push_str(" stderr=");
        m.push_str(&text::trim(&t.stderr));
        m.push_str(" stdout=");
        m.push_str(&text::trim(&t.stdout));
        return MetadataAttempt::Retry(m);
    }
    match json::parse_json_bytes(out.stdout) {
        Some(root) => MetadataAttempt::Done(items::metadata_from_report(&root)),
        None => MetadataAttempt::Unreadable,
    }
}

/// The message that ends the attempts to get a full report on a video.
pub fn metadata_gave_up(last_error: &str) -> (r: String)
    ensures
        r@ == "yt-dlp metadata a échoué après retries: "@ + last_error@,
{
    text::concat2("yt-dlp metadata a échoué après retries: ", last_error)
}

/// How often a full report on a video is asked for.
pub const METADATA_ATTEMPTS: u64 = 3;

/// The search for a full report on a video.
pub struct MetadataSearch {
    /// How many attempts were made.
    pub attempts: u64,
}

/// How the search for a full report on a video goes on.
#[derive(Debug)]
pub enum MetadataStep {
    /// This is the report.
    Done(items::FullVideoMetadata),
    /// The report is asked for again after so many milliseconds.
    Again(u64),
    /// The search failed.
    Failed {
        /// After so many milliseconds it is told.
        pause: u64,
        /// What is told.
        message: String,
    },
}

/// After a failed attempt there is a pause, the longer the more attempts were made; then the
/// report is asked for again, or the search has failed where that was the last attempt.
pub open spec fn tried_again(step: MetadataStep, attempt: int, error: Seq<char>) -> bool {
    if attempt < METADATA_ATTEMPTS {
        step == MetadataStep::Again((500 * attempt) as u64)
    } else {
        step matches MetadataStep::Failed { pause, message } && pause == 500 * attempt && message@
            == "yt-dlp metadata a échoué après retries: "@ + error
    }
}

impl MetadataSearch {
    /// No attempt was made.
    pub fn new() -> (r: Self)
        ensures
            r.attempts == 0,
    {
        MetadataSearch { attempts: 0 }
    }

    /// Goes on after an attempt, which gave the output of the command or the message of an error.
    pub fn extract_full_video_metadata(
        &mut self,
        source_url: &str,
        outcome: Result<ProcessOutput, String>,
    ) -> (r: MetadataStep)
        requires
            old(self).attempts < METADATA_ATTEMPTS,
        ensures
            final(self).attempts == old(self).attempts + 1,
            match outcome {
                Err(message) => tried_again(
                    r,
                    old(self).attempts + 1,
                    "yt-dlp metadata: "@ + message@,
                ),
                Ok(out) => if !out.success {
                    tried_again(
                        r,
                        old(self).attempts + 1,
                        metadata_failure(
                            source_url@,
                            out.status@,
                            encoding::lossy_text(out.stdout@),
                            encoding::lossy_text(out.stderr@),
                        ),
                    )
                } else {
                    match json::json_bytes(out.stdout@) {
                        Some(root) => r matches MetadataStep::Done(meta) && meta@
                            == items::metadata_of(root),
                        None => r matches MetadataStep::Failed { pause, message } && pause == 0
                            && message@ == "parse yt-dlp metadata JSON"@,
                    }
                },
            },
    {
        self.attempts = self.attempts + 1;
        let message = match outcome {
            Err(message) => text::concat2("yt-dlp metadata: ", &message),
            Ok(out) => match metadata_outcome(source_url, out) {
                MetadataAttempt::Done(meta) => {
                    return MetadataStep::Done(meta);
                },
                MetadataAttempt::Unreadable => {
                    return MetadataStep::Failed {
                        pause: 0,
                        message: "parse yt-dlp metadata JSON".to_string(),
                    };
                },
                MetadataAttempt::Retry(message) => message,
            },
        };
        let pause: u64 = 500 * self.attempts;
        if self.attempts < METADATA_ATTEMPTS {
            MetadataStep::Again(pause)
        } else {
            MetadataStep::Failed { pause, message: metadata_gave_up(&message) }
        }
    }
}

/// The height that a report of `ffprobe` gives.
pub open spec fn probed_height(root: JsonView) -> Option<u64> {
    match root.list_at("streams"@) {
        Some(streams) if streams.len() > 0 => streams[0].unsigned_at("height"@),
        _ => None,
    }
}

/// The height that a report of `ffprobe` gives.
pub fn height_from_probe(root: &Json) -> (r: Option<u64>)
    ensures
        r == probed_height(root@),
{
    match root.list_at("streams") {
        Some(streams) => {
            proof {
                assert(json::views(streams@).len() == streams@.len());
            }
            if streams.len() > 0 {
                proof {
                    assert(json::views(streams@)[0] == streams@[0]@);
                }
                streams[0].unsigned_at("height")
            } else {
                None
            }
        },
        None => None,
    }
}

/// The height of a film that `ffprobe` reported, or the message of an error.
pub fn probe_outcome(out: ProcessOutput) -> (r: Result<Option<u64>, String>)
    ensures
        match r {
            Ok(height) => out.success && json::json_bytes(out.stdout@) is Some && height
                == probed_height(json::json_bytes(out.stdout@)->0),
            Err(message) => if !out.success {
                message@ == "ffprobe direct video failed: "@ + text::trimmed(
                    encoding::lossy_text(out.stderr@),
                )
            } else {
                json::json_bytes(out.stdout@) is None && message@
                    == "parse ffprobe direct video JSON"@
            },
        },
{
    if !out.success {
        let stderr = encoding::utf8_text_lossy(&out.stderr);
        return Err(text::concat2("ffprobe direct video failed: ", &text::trim(&stderr)));
    }
    match json::parse_json_bytes(out.stdout) {
        Some(root) => Ok(height_from_probe(&root)),
        None => Err("parse ffprobe direct video JSON".to_string()),
    }
}

// ---------------------------------------------------------------------------
// Laws
// ---------------------------------------------------------------------------

/// The links that a command lists are its lines that are links, in their order: a further line
/// adds itself, without white space around it, where it is a link, and nothing where it is not.
pub proof fn law_links_follow_lines(lines: Seq<Seq<char>>, line: Seq<char>)
    ensures
        link_lines(Seq::empty()) == Seq::<Seq<char>>::empty(),
        links::web_link(text::trimmed(line)) ==> link_lines(lines.push(line)) == link_lines(
            lines,
        ).push(text::trimmed(line)),
        !links::web_link(text::trimmed(line)) ==> link_lines(lines.push(line)) == link_lines(lines),
{
    assert(lines.push(line).drop_last() =~= lines);
}

/// What a command lists are links.
pub proof fn law_listed_links_are_links(lines: Seq<Seq<char>>)
    ensures
        forall|i: int|
            0 <= i < link_lines(lines).len() ==> links::web_link(#[trigger] link_lines(lines)[i]),
    decreases lines.len(),
{
    if lines.len() > 0 {
        let front = lines.drop_last();
        law_listed_links_are_links(front);
        law_links_follow_lines(front, lines.last());
        assert(front.push(lines.last()) =~= lines);
    }
}

/// Two links that a command writes on two lines are read in their order: the first is the first.
pub proof fn law_two_links_are_read(first: Seq<char>, second: Seq<char>)
    requires
        links::web_link(first),
        links::web_link(second),
        text::free_of(first, text::CharSet::Pair('\n', '\r')),
        text::free_of(second, text::CharSet::Pair('\n', '\r')),
        text::trimmed(first) == first,
        text::trimmed(second) == second,
    ensures
        listed_links(first + "\n"@) == seq![first],
        listed_links(first + "\n"@ + (second + "\n"@)) == seq![first, second],
{
    reveal_strlit("\n");
    text::lemma_one_line(first);
    text::lemma_one_line(second);
    text::lemma_lines_concat(first + "\n"@, second + "\n"@);
    let none = Seq::<Seq<char>>::empty();
    law_links_follow_lines(none, first);
    assert(none.push(first) =~= seq![first]);
    law_links_follow_lines(seq![first], second);
    assert(seq![first].push(second) =~= seq![first] + seq![second]);
    assert(listed_links(first + "\n"@ + (second + "\n"@)) =~= seq![first, second]);
}

/// Two arguments that follow each other.
pub open spec fn gives(args: Seq<Seq<char>>, option: Seq<char>, value: Seq<char>) -> bool {
    exists|i: int| 0 <= i < args.len() - 1 && #[trigger] args[i] == option && args[i + 1] == value
}

proof fn lemma_gives(args: Seq<Seq<char>>, i: int)
    requires
        0 <= i < args.len() - 1,
    ensures
        gives(args, args[i], args[i + 1]),
        args.contains(args[i]),
{
}

/// A command asks for the links of one video in the given format, and names its link last.
pub open spec fn asks_for_link(args: Seq<Seq<char>>, url: Seq<char>, format: Seq<char>) -> bool {
    &&& gives(args, "-f"@, format)
    &&& gives(args, "-g"@, url)
    &&& args.contains("--no-playlist"@)
    &&& args.contains("--ignore-config"@)
    &&& args[args.len() - 1] == url
}

proof fn lemma_asks_for_link(args: Seq<Seq<char>>, url: Seq<char>, format: Seq<char>)
    requires
        args.len() >= 14,
        args[args.len() - 14] == "--ignore-config"@,
        args[args.len() - 13] == "--no-playlist"@,
        args[args.len() - 4] == "-f"@,
        args[args.len() - 3] == format,
        args[args.len() - 2] == "-g"@,
        args[args.len() - 1] == url,
    ensures
        asks_for_link(args, url, format),
{
    let n = args.len() as int;
    lemma_gives(args, n - 14);
    lemma_gives(args, n - 13);
    lemma_gives(args, n - 4);
    lemma_gives(args, n - 2);
}

/// Every command that asks for links asks for those of one video in the given format, and names
/// the link last.
pub proof fn law_link_commands(url: Seq<char>, format: Seq<char>, use_deno: bool, seconds: u64)
    ensures
        asks_for_link(single_command_of(url, format, use_deno).args, url, format),
        asks_for_link(dash_command_of(url, format, use_deno).args, url, format),
        asks_for_link(generic_command_of(url, format, seconds).args, url, format),
        gives(validate_command_of(url).args, "-g"@, url),
        gives(validate_command_of(url).args, "-f"@, "96/22/95/94/137+140/136+140/135+140"@),
        generic_command_of(url, format, seconds).timeout_seconds == seconds,
        gives(single_command_of(url, format, true).args, "--js-runtimes"@, "deno:"@ + DENO_BIN@),
        gives(dash_command_of(url, format, true).args, "--js-runtimes"@, "deno:"@ + DENO_BIN@),
        single_command_of(url, format, false).args[0] == "--ignore-config"@,
        dash_command_of(url, format, false).args[0] == "--ignore-config"@,
{
    lemma_asks_for_link(single_command_of(url, format, use_deno).args, url, format);
    lemma_asks_for_link(dash_command_of(url, format, use_deno).args, url, format);
    lemma_asks_for_link(generic_command_of(url, format, seconds).args, url, format);
    let v = validate_command_of(url).args;
    lemma_gives(v, 10);
    lemma_gives(v, 12);
    lemma_gives(single_command_of(url, format, true).args, 0);
    lemma_gives(dash_command_of(url, format, true).args, 0);
    reveal_strlit("deno:");
    reveal_strlit("/home/troozn/.deno/bin/deno");
    reveal_strlit("deno:/home/troozn/.deno/bin/deno");
    assert("deno:/home/troozn/.deno/bin/deno"@ =~= "deno:"@ + DENO_BIN@);
}

/// The commands about playlists ask for no more entries than told, and for none before the first
/// that is wanted; those about one video ask for no playlist. All name the link last.
pub proof fn law_report_commands(
    url: Seq<char>,
    limit: nat,
    start: nat,
    end: nat,
    use_deno: bool,
)
    ensures
        gives(playlist_command_of(url, limit, use_deno).args, "--playlist-end"@, numbers::dec(limit)),
        gives(playlist_command_of(url, limit, use_deno).args, "-J"@, url),
        playlist_command_of(url, limit, use_deno).args.contains("--flat-playlist"@),
        gives(range_command_of(url, start, end).args, "--playlist-start"@, numbers::dec(start)),
        gives(range_command_of(url, start, end).args, "--playlist-end"@, numbers::dec(end)),
        range_command_of(url, start, end).args.contains("--flat-playlist"@),
        range_command_of(url, start, end).args.contains("--dump-single-json"@),
        range_command_of(url, start, end).args.last() == url,
        gives(metadata_command_of(url, use_deno).args, "-J"@, url),
        metadata_command_of(url, use_deno).args.contains("--no-playlist"@),
        metadata_command_of(url, use_deno).args.contains("--skip-download"@),
        gives(list_formats_command_of(url, use_deno).args, "--list-formats"@, url),
        gives(json_command_of(url).args, "-J"@, url),
        json_command_of(url).args.contains("--no-playlist"@),
        gives(json_command_of(url).args, "--js-runtimes"@, "deno:/home/troozn/.deno/bin/deno"@),
        gives(probe_args(url), "-show_entries"@, "stream=height"@),
        gives(probe_args(url), "json"@, url),
{
    let p = playlist_command_of(url, limit, use_deno).args;
    let n = p.len() - 6;
    lemma_gives(p, n);
    assert(p[n] == "--flat-playlist"@);
    lemma_gives(p, n + 2);
    lemma_gives(p, n + 4);
    let r = range_command_of(url, start, end).args;
    lemma_gives(r, 0);
    lemma_gives(r, 1);
    lemma_gives(r, 6);
    lemma_gives(r, 8);
    let m = metadata_command_of(url, use_deno).args;
    let k = m.len() - 5;
    lemma_gives(m, k);
    lemma_gives(m, k + 2);
    lemma_gives(m, k + 3);
    let l = list_formats_command_of(url, use_deno).args;
    lemma_gives(l, l.len() - 2);
    let j = json_command_of(url).args;
    lemma_gives(j, 0);
    lemma_gives(j, 4);
    lemma_gives(j, j.len() - 2);
    let q = probe_args(url);
    lemma_gives(q, 4);
    lemma_gives(q, 7);
}

/// Of the listed formats of picture and sound that with number 96 is taken before 95, that before
/// 94, and that before 22; another one never is.
pub proof fn law_best_listed_format(s: Seq<char>)
    ensures
        lists_format(s, "96"@) ==> best_fast_format(s) == Some("96"@),
        lists_format(s, "95"@) && !lists_format(s, "96"@) ==> best_fast_format(s) == Some("95"@),
        lists_format(s, "94"@) && !lists_format(s, "96"@) && !lists_format(s, "95"@)
            ==> best_fast_format(s) == Some("94"@),
        lists_format(s, "22"@) && !lists_format(s, "96"@) && !lists_format(s, "95"@)
            && !lists_format(s, "94"@) ==> best_fast_format(s) == Some("22"@),
        best_fast_format(s) matches Some(f) ==> lists_format(s, f),
        best_fast_format(s) is None ==> !lists_format(s, "22"@),
        lists_format(s, "140"@) && lists_format(s, "137"@) ==> best_dash_format(s) == Some(
            "137+140"@,
        ),
        lists_format(s, "140"@) && lists_format(s, "136"@) && !lists_format(s, "137"@)
            ==> best_dash_format(s) == Some("136+140"@),
        lists_format(s, "140"@) && lists_format(s, "135"@) && !lists_format(s, "137"@)
            && !lists_format(s, "136"@) ==> best_dash_format(s) == Some("135+140"@),
        !lists_format(s, "140"@) ==> best_dash_format(s) is None,
        !lists_format(s, "137"@) && !lists_format(s, "136"@) && !lists_format(s, "135"@)
            ==> best_dash_format(s) is None,
{
}

/// A list with a line that starts with the number of a format holds that format, wherever the line
/// stands.
pub proof fn law_listed_line_is_found(before: Seq<char>, id: Seq<char>, rest: Seq<char>, after: Seq<char>)
    requires
        before.len() == 0 || before.last() == '\n',
        id.len() > 0,
        text::free_of(id, text::CharSet::White),
        text::free_of(rest, text::CharSet::Pair('\n', '\r')),
    ensures
        lists_format(before + (id + " "@ + rest + "\n"@) + after, id),
{
    reveal_strlit("\n");
    reveal_strlit(" ");
    let line = id + " "@ + rest;
    assert(text::free_of(line, text::CharSet::Pair('\n', '\r'))) by {
        assert forall|i: int| 0 <= i < line.len() implies !text::CharSet::Pair('\n', '\r').has(
            #[trigger] line[i],
        ) by {
            if i < id.len() {
                assert(line[i] == id[i]);
                assert(!text::CharSet::White.has(id[i]));
            } else if i > id.len() {
                assert(line[i] == rest[i - id.len() - 1]);
            }
        }
    }
    text::lemma_one_line(line);
    let front = before + (line + "\n"@);
    text::lemma_lines_concat(before, line + "\n"@);
    text::lemma_lines_concat(front, after);
    let all = text::line_seq(front + after);
    let k = text::line_seq(before).len() as int;
    assert(all[k] == line);
    // The first word of the line.
    let white = text::CharSet::White;
    assert(line =~= id + seq![' '] + rest);
    text::lemma_parts_concat(id, ' ', rest, white);
    text::lemma_parts_free(id, white);
    let keep = |p: Seq<char>| p.len() > 0;
    let ps = text::parts(line, white);
    assert(ps =~= seq![id] + text::parts(rest, white));
    lemma_first_kept(ps, keep);
    assert(text::words(line)[0] == id);
    assert(before + (id + " "@ + rest + "\n"@) + after =~= front + after);
}

/// The first of a list that a filter keeps is the first that it keeps.
proof fn lemma_first_kept(s: Seq<Seq<char>>, keep: spec_fn(Seq<char>) -> bool)
    requires
        s.len() > 0,
        keep(s[0]),
    ensures
        s.filter(keep).len() > 0,
        s.filter(keep)[0] == s[0],
    decreases s.len(),
{
    let front = s.drop_last();
    assert(s =~= front.push(s.last()));
    text::lemma_filter_push(front, s.last(), keep);
    if s.len() > 1 {
        assert(front[0] == s[0]);
        lemma_first_kept(front, keep);
    } else {
        text::lemma_filter_all(front, keep);
        assert(front.len() == 0);
    }
}

/// The link of a format is that of a reported format with this number, and there is one exactly
/// where a reported format with this number has a link.
pub proof fn law_reported_link(formats: Seq<JsonView>, id: Seq<char>)
    ensures
        format_link(formats, id) matches Some(url) ==> links::web_link(url) && exists|k: int|
            0 <= k < formats.len() && (#[trigger] formats[k]).text_at("format_id"@) == Some(id)
                && formats[k].text_at("url"@) == Some(url),
        format_link(formats, id) is None ==> forall|k: int|
            0 <= k < formats.len() && (#[trigger] formats[k]).text_at("format_id"@) == Some(id)
                ==> (formats[k].text_at("url"@) matches Some(url) ==> !links::web_link(url)),
    decreases formats.len(),
{
    if formats.len() > 0 {
        let rest = formats.skip(1);
        law_reported_link(rest, id);
        match format_link(rest, id) {
            Some(url) => {
                let k = choose|k: int|
                    0 <= k < rest.len() && (#[trigger] rest[k]).text_at("format_id"@) == Some(id)
                        && rest[k].text_at("url"@) == Some(url);
                assert(formats[k + 1] == rest[k]);
            },
            None => {
                assert forall|k: int|
                    0 < k < formats.len() && (#[trigger] formats[k]).text_at("format_id"@) == Some(
                        id,
                    ) implies (formats[k].text_at("url"@) matches Some(url) ==> !links::web_link(
                    url,
                )) by {
                    assert(rest[k - 1] == formats[k]);
                }
            },
        }
        assert(formats[0] == formats[0]);
    }
}

/// One link for picture and sound is played before two, and of two the picture is that of the best
/// format and the sound that of format 140. Without any of them nothing is played.
pub proof fn law_report_is_played(root: JsonView)
    ensures
        reported_link(root, "96"@) matches Some(url) ==> picked_input(root) == Some(
            InputView::Single { url, format_selector: "96"@ },
        ),
        reported_link(root, "96"@) is None ==> (reported_link(root, "22"@) matches Some(url)
            ==> picked_input(root) == Some(InputView::Single { url, format_selector: "22"@ })),
        reported_link(root, "96"@) is None && reported_link(root, "22"@) is None ==> (reported_link(
            root,
            "95"@,
        ) matches Some(url) ==> picked_input(root) == Some(
            InputView::Single { url, format_selector: "95"@ },
        )),
        reported_link(root, "96"@) is None && reported_link(root, "22"@) is None && reported_link(
            root,
            "95"@,
        ) is None ==> (reported_link(root, "94"@) matches Some(url) ==> picked_input(root) == Some(
            InputView::Single { url, format_selector: "94"@ },
        )),
        best_single(root) is None ==> (reported_link(root, "140"@) matches Some(sound) ==> (
        reported_link(root, "137"@) matches Some(picture) ==> picked_input(root) == Some(
            InputView::SeparateAv {
                video_url: picture,
                audio_url: sound,
                format_selector: "137+140"@,
            },
        ))),
        picked_input(root) matches Some(InputView::SeparateAv { video_url, audio_url, .. }) ==> {
            &&& Some(audio_url) == reported_link(root, "140"@)
            &&& Some(video_url) == reported_link(root, "137"@) || Some(video_url) == reported_link(
                root,
                "136"@,
            ) || Some(video_url) == reported_link(root, "135"@)
            &&& reported_link(root, "96"@) is None && reported_link(root, "22"@) is None
                && reported_link(root, "95"@) is None && reported_link(root, "94"@) is None
        },
        best_single(root) is None && reported_link(root, "140"@) is None ==> picked_input(
            root,
        ) is None,
        !(picked_input(root) matches Some(InputView::AudioOnly { .. })),
        root.list_at("formats"@) matches Some(formats) ==> reported_link(root, "96"@)
            == format_link(formats, "96"@),
        root.list_at("formats"@) is None ==> picked_input(root) is None,
{
}

/// A message says that YouTube wants to know who asks, that a video is gone, or that a command took
/// too long, wherever in it the words for that stand.
pub proof fn law_messages_hold_phrases(before: Seq<char>, after: Seq<char>)
    ensures
        says_sign_in(before + "sign in to confirm"@ + after),
        says_sign_in(before + "not a bot"@ + after),
        says_sign_in(before + "use --cookies"@ + after),
        says_sign_in(before + "please sign in"@ + after),
        says_gone(before + "video unavailable"@ + after),
        says_gone(before + "this video is not available"@ + after),
        says_gone(before + "private video"@ + after),
        says_gone(before + "deleted video"@ + after),
        says_gone(before + "has been removed"@ + after),
        says_gone(before + "copyright claim"@ + after),
        says_gone(before + "blocked in your country"@ + after),
        says_gone(before + "not available in your country"@ + after),
        says_timeout(before + "timeout yt-dlp"@ + after),
        says_timeout(before + "deadline has elapsed"@ + after),
        says_timeout(before + "timeout attente slot"@ + after),
        !says_sign_in(Seq::empty()) && !says_gone(Seq::empty()) && !says_timeout(Seq::empty()),
{
    text::lemma_phrase_within(before, "sign in to confirm"@, after);
    text::lemma_phrase_within(before, "not a bot"@, after);
    text::lemma_phrase_within(before, "use --cookies"@, after);
    text::lemma_phrase_within(before, "please sign in"@, after);
    text::lemma_phrase_within(before, "video unavailable"@, after);
    text::lemma_phrase_within(before, "this video is not available"@, after);
    text::lemma_phrase_within(before, "private video"@, after);
    text::lemma_phrase_within(before, "deleted video"@, after);
    text::lemma_phrase_within(before, "has been removed"@, after);
    text::lemma_phrase_within(before, "copyright claim"@, after);
    text::lemma_phrase_within(before, "blocked in your country"@, after);
    text::lemma_phrase_within(before, "not available in your country"@, after);
    text::lemma_phrase_within(before, "timeout yt-dlp"@, after);
    text::lemma_phrase_within(before, "deadline has elapsed"@, after);
    text::lemma_phrase_within(before, "timeout attente slot"@, after);
    lemma_empty_says_nothing();
}

proof fn lemma_empty_says_nothing()
    ensures
        !says_sign_in(Seq::empty()) && !says_gone(Seq::empty()) && !says_timeout(Seq::empty()),
{
    reveal_strlit("sign in to confirm");
    reveal_strlit("not a bot");
    reveal_strlit("use --cookies");
    reveal_strlit("please sign in");
    reveal_strlit("confirm you're not a bot");
    reveal_strlit("confirm you’re not a bot");
    reveal_strlit("video unavailable");
    reveal_strlit("this video is not available");
    reveal_strlit("private video");
    reveal_strlit("deleted video");
    reveal_strlit("has been removed");
    reveal_strlit("copyright claim");
    reveal_strlit("blocked in your country");
    reveal_strlit("not available in your country");
    reveal_strlit("timeout yt-dlp");
    reveal_strlit("deadline has elapsed");
    reveal_strlit("timeout attente slot");
}

/// Sound alone is sound, picture and sound apart are a film, and one link is what its extension
/// says, a film where it says nothing.
pub proof fn law_media_type_of_input(url: Seq<char>, other: Seq<char>, format: Seq<char>)
    ensures
        input_media_type(InputView::AudioOnly { url, format_selector: format }) == "audio"@,
        input_media_type(
            InputView::SeparateAv { video_url: url, audio_url: other, format_selector: format },
        ) == "video"@,
        links::media_type_of_link(url) is None ==> input_media_type(
            InputView::Single { url, format_selector: format },
        ) == "video"@,
        links::media_type_of_link(url) matches Some(t) ==> input_media_type(
            InputView::Single { url, format_selector: format },
        ) == t,
{
}

/// A summary names the kind of what is played, its format and how the link of the picture begins.
pub proof fn law_summary_names_input(url: Seq<char>, other: Seq<char>, format: Seq<char>)
    ensures
        url.len() <= 80 ==> input_summary(InputView::Single { url, format_selector: format })
            == "single format="@ + format + " url="@ + url,
        url.len() <= 80 ==> input_summary(InputView::AudioOnly { url, format_selector: format })
            == "audio-only format="@ + format + " url="@ + url,
        url.len() <= 80 ==> input_summary(
            InputView::SeparateAv { video_url: url, audio_url: other, format_selector: format },
        ) == "dash-av format="@ + format + " video="@ + url,
        url.len() > 80 ==> input_summary(InputView::Single { url, format_selector: format })
            == "single format="@ + format + " url="@ + url.take(80),
        url.len() > 80 ==> input_summary(InputView::AudioOnly { url, format_selector: format })
            == "audio-only format="@ + format + " url="@ + url.take(80),
        url.len() > 80 ==> input_summary(
            InputView::SeparateAv { video_url: url, audio_url: other, format_selector: format },
        ) == "dash-av format="@ + format + " video="@ + url.take(80),
{
}

/// A command of yt-dlp that took too long, or waited too long for its turn, says so in a way that
/// is understood.
pub proof fn law_timeouts_are_understood(rest: Seq<char>)
    ensures
        says_timeout(run_error_message(RunError::Timeout, "yt-dlp"@ + rest)),
        says_timeout(run_error_message(RunError::SlotTimeout, rest)),
        run_error_message(RunError::Spawn, rest) == "spawn "@ + rest,
        run_error_message(RunError::Wait, rest) == "wait "@ + rest,
        run_error_message(RunError::SlotClosed, rest) == "acquisition slot "@ + rest,
        run_error_message(RunError::SerialTimeout, rest) == "timeout attente série "@ + rest,
{
    reveal_strlit("timeout ");
    reveal_strlit("yt-dlp");
    reveal_strlit("timeout yt-dlp");
    reveal_strlit("timeout attente slot ");
    reveal_strlit("timeout attente slot");
    let a = run_error_message(RunError::Timeout, "yt-dlp"@ + rest);
    let b = run_error_message(RunError::SlotTimeout, rest);
    text::lemma_part_at(a, "timeout yt-dlp"@, 0);
    text::lemma_part_at(b, "timeout attente slot"@, 0);
}

/// All that a command wrote is kept, its errors behind its output; white space alone is no error.
pub proof fn law_all_output_is_kept(stdout: Seq<char>, stderr: Seq<char>)
    ensures
        stdout.is_prefix_of(combined_output(stdout, stderr)),
        text::trimmed(stderr).len() == 0 ==> combined_output(stdout, stderr) == stdout,
        text::trimmed(stderr).len() > 0 ==> combined_output(stdout, stderr) == stdout + "\n"@
            + stderr,
{
}

/// A report is asked for three times at most, with half a second more of a pause each time.
pub proof fn law_report_is_asked_for_again(step: MetadataStep, attempt: int, error: Seq<char>)
    requires
        1 <= attempt <= METADATA_ATTEMPTS,
        tried_again(step, attempt, error),
    ensures
        attempt < 3 ==> (step matches MetadataStep::Again(pause) && pause == attempt * 500),
        attempt >= 3 ==> (step matches MetadataStep::Failed { pause, message } && pause == attempt
            * 500 && message@ == "yt-dlp metadata a échoué après retries: "@ + error),
{
}

/// The height of a film is that of the first stream that is reported.
pub proof fn law_height_of_first_stream(root: JsonView, streams: Seq<JsonView>)
    requires
        root.list_at("streams"@) == Some(streams),
    ensures
        streams.len() == 0 ==> probed_height(root) is None,
        streams.len() > 0 ==> probed_height(root) == streams[0].unsigned_at("height"@),
{
}

/// What is said of a failure names the format, the link and the state, and tells what was written.
pub proof fn law_failure_tells_command(
    url: Seq<char>,
    format: Seq<char>,
    status: Seq<char>,
    stdout: Seq<char>,
    stderr: Seq<char>,
)
    ensures
        text::holds_all(
            single_failure(url, format, status, stdout, stderr),
            seq![
                " format="@ + format,
                " url="@ + url,
                " status="@ + status,
                " stderr="@ + text::trimmed(stderr),
                " stdout="@ + text::trimmed(stdout),
            ],
        ),
{
    let none = Seq::<Seq<char>>::empty();
    let c0 = "yt-dlp -g failed: bin="@ + YTDLP_BIN@;
    text::lemma_next_field(c0, " format="@, format, none);
    let c1 = c0 + " format="@ + format;
    let p1 = none.push(" format="@ + format);
    text::lemma_next_field(c1, " url="@, url, p1);
    let c2 = c1 + " url="@ + url;
    let p2 = p1.push(" url="@ + url);
    text::lemma_next_field(c2, " status="@, status, p2);
    let c3 = c2 + " status="@ + status;
    let p3 = p2.push(" status="@ + status);
    text::lemma_next_field(c3, " stderr="@, text::trimmed(stderr), p3);
    let c4 = c3 + " stderr="@ + text::trimmed(stderr);
    let p4 = p3.push(" stderr="@ + text::trimmed(stderr));
    text::lemma_next_field(c4, " stdout="@, text::trimmed(stdout), p4);
    assert(p4.push(" stdout="@ + text::trimmed(stdout)) =~= seq![
        " format="@ + format,
        " url="@ + url,
        " status="@ + status,
        " stderr="@ + text::trimmed(stderr),
        " stdout="@ + text::trimmed(stdout),
    ]);
}

/// How long each command may take: the longer with the JavaScript runtime.
pub proof fn law_times_of_commands(
    url: Seq<char>,
    format: Seq<char>,
    limit: nat,
    start: nat,
    end: nat,
)
    ensures
        validate_command_of(url).timeout_seconds == 4,
        metadata_command_of(url, true).timeout_seconds == 8,
        metadata_command_of(url, false).timeout_seconds == 8,
        single_command_of(url, format, false).timeout_seconds == 12,
        single_command_of(url, format, true).timeout_seconds == 45,
        dash_command_of(url, format, false).timeout_seconds == 14,
        dash_command_of(url, format, true).timeout_seconds == 45,
        list_formats_command_of(url, false).timeout_seconds == 15,
        list_formats_command_of(url, true).timeout_seconds == 45,
        json_command_of(url).timeout_seconds == 60,
        range_command_of(url, start, end).timeout_seconds == 45,
        playlist_command_of(url, limit, true).timeout_seconds == 30,
        playlist_command_of(url, limit, false).timeout_seconds == 30,
{
}

/// How long yt-dlp waits for an answer, and how often it tries again: once with the JavaScript
/// runtime, and not at all where a quick answer is wanted.
pub proof fn law_patience_of_commands(
    url: Seq<char>,
    format: Seq<char>,
    seconds: u64,
    start: nat,
    end: nat,
)
    ensures
        gives(validate_command_of(url).args, "--socket-timeout"@, "5"@),
        gives(validate_command_of(url).args, "--retries"@, "0"@),
        gives(single_command_of(url, format, false).args, "--socket-timeout"@, "8"@),
        gives(single_command_of(url, format, false).args, "--retries"@, "0"@),
        gives(single_command_of(url, format, true).args, "--socket-timeout"@, "20"@),
        gives(single_command_of(url, format, true).args, "--retries"@, "1"@),
        gives(generic_command_of(url, format, seconds).args, "--socket-timeout"@, "20"@),
        gives(generic_command_of(url, format, seconds).args, "--retries"@, "2"@),
        gives(generic_command_of(url, format, seconds).args, "--fragment-retries"@, "2"@),
        gives(list_formats_command_of(url, false).args, "--socket-timeout"@, "10"@),
        gives(list_formats_command_of(url, true).args, "--socket-timeout"@, "20"@),
        gives(json_command_of(url).args, "--socket-timeout"@, "25"@),
        gives(json_command_of(url).args, "--retries"@, "1"@),
        gives(range_command_of(url, start, end).args, "--socket-timeout"@, "20"@),
{
    let v = validate_command_of(url).args;
    lemma_gives(v, 4);
    lemma_gives(v, 6);
    let a = single_command_of(url, format, false).args;
    lemma_gives(a, 4);
    lemma_gives(a, 6);
    let b = single_command_of(url, format, true).args;
    lemma_gives(b, 8);
    lemma_gives(b, 10);
    let g = generic_command_of(url, format, seconds).args;
    lemma_gives(g, 4);
    lemma_gives(g, 6);
    lemma_gives(g, 8);
    lemma_gives(list_formats_command_of(url, false).args, 3);
    lemma_gives(list_formats_command_of(url, true).args, 7);
    let j = json_command_of(url).args;
    lemma_gives(j, 7);
    lemma_gives(j, 9);
    lemma_gives(range_command_of(url, start, end).args, 4);
}

/// Every command has a label that begins with the name of yt-dlp, so that it is understood when
/// one took too long.
pub proof fn law_labels_name_ytdlp(
    url: Seq<char>,
    format: Seq<char>,
    use_deno: bool,
    limit: nat,
    seconds: u64,
)
    ensures
        text::begins(validate_command_of(url).label, "yt-dlp"@),
        text::begins(metadata_command_of(url, use_deno).label, "yt-dlp"@),
        text::begins(single_command_of(url, format, use_deno).label, "yt-dlp"@),
        text::begins(dash_command_of(url, format, use_deno).label, "yt-dlp"@),
        text::begins(generic_command_of(url, format, seconds).label, "yt-dlp"@),
        text::begins(list_formats_command_of(url, use_deno).label, "yt-dlp"@),
        text::begins(json_command_of(url).label, "yt-dlp"@),
        text::begins(range_command_of(url, limit, limit).label, "yt-dlp"@),
        text::begins(playlist_command_of(url, limit, use_deno).label, "yt-dlp"@),
{
    reveal_strlit("yt-dlp");
    reveal_strlit("yt-dlp quick validate");
    reveal_strlit("yt-dlp metadata");
    reveal_strlit("yt-dlp -g deno");
    reveal_strlit("yt-dlp -g");
    reveal_strlit("yt-dlp dash av -g deno");
    reveal_strlit("yt-dlp dash av -g");
    reveal_strlit("yt-dlp generic -g");
    reveal_strlit("yt-dlp list-formats deno");
    reveal_strlit("yt-dlp list-formats");
    reveal_strlit("yt-dlp json deno");
    reveal_strlit("yt-dlp range extract");
    reveal_strlit("yt-dlp playlist");
    assert("yt-dlp quick validate"@.subrange(0, 6) =~= "yt-dlp"@);
    assert("yt-dlp metadata"@.subrange(0, 6) =~= "yt-dlp"@);
    assert("yt-dlp -g deno"@.subrange(0, 6) =~= "yt-dlp"@);
    assert("yt-dlp -g"@.subrange(0, 6) =~= "yt-dlp"@);
    assert("yt-dlp dash av -g deno"@.subrange(0, 6) =~= "yt-dlp"@);
    assert("yt-dlp dash av -g"@.subrange(0, 6) =~= "yt-dlp"@);
    assert("yt-dlp generic -g"@.subrange(0, 6) =~= "yt-dlp"@);
    assert("yt-dlp list-formats deno"@.subrange(0, 6) =~= "yt-dlp"@);
    assert("yt-dlp list-formats"@.subrange(0, 6) =~= "yt-dlp"@);
    assert("yt-dlp json deno"@.subrange(0, 6) =~= "yt-dlp"@);
    assert("yt-dlp range extract"@.subrange(0, 6) =~= "yt-dlp"@);
    assert("yt-dlp playlist"@.subrange(0, 6) =~= "yt-dlp"@);
}

} // verus!
