//! Finding what is played for a link: which commands are tried, in which order, and when the
//! search ends.
use vstd::prelude::*;

use crate::links;
use crate::numbers;
use crate::text;
use crate::ytdlp::{InputView, ResolvedMediaInput};
use crate::ytdlp;

verus! {

// ---------------------------------------------------------------------------
// Links that can be played as they are
// ---------------------------------------------------------------------------

/// What a link over HTTP leads to by its extension.
#[derive(Clone, Copy, Debug, PartialEq, Eq, Structural)]
pub enum DirectKind {
    /// Nothing that can be played as it is.
    NotDirect,
    /// A sound file.
    Audio,
    /// A film, whose height is still to be found out.
    Video,
}

/// What a link leads to by its extension.
pub open spec fn direct_kind_of(url: Seq<char>) -> DirectKind {
    if !links::web_link(url) {
        DirectKind::NotDirect
    } else {
        match links::extension_of(url) {
            None => DirectKind::NotDirect,
            Some(e) => if links::audio_extension(e) {
                DirectKind::Audio
            } else if links::video_extension(e) {
                DirectKind::Video
            } else {
                DirectKind::NotDirect
            },
        }
    }
}

/// What a link leads to by its extension.
pub fn direct_kind(source_url: &str) -> (r: DirectKind)
    ensures
        r == direct_kind_of(source_url@),
{
    if !links::is_web_link(source_url) {
        return DirectKind::NotDirect;
    }
    proof {
        reveal_strlit("audio");
        reveal_strlit("video");
        assert("audio"@[0] != "video"@[0]);
    }
    match links::infer_media_type_from_url(source_url) {
        Some(t) => if text::same(t, "audio") {
            DirectKind::Audio
        } else {
            DirectKind::Video
        },
        None => DirectKind::NotDirect,
    }
}

/// A sound file that is played as it is.
pub fn direct_audio(source_url: &str) -> (r: ResolvedMediaInput)
    ensures
        r@ == (InputView::AudioOnly { url: source_url@, format_selector: "direct-audio"@ }),
{
    ResolvedMediaInput::AudioOnly {
        url: source_url.to_string(),
        format_selector: "direct-audio".to_string(),
    }
}

/// A film that is played as it is, where it is known to be high enough.
pub open spec fn direct_film(url: Seq<char>, height: Option<u64>) -> Option<InputView> {
    match height {
        Some(h) if h >= ytdlp::MIN_SELECTED_VIDEO_HEIGHT => Some(
            InputView::Single {
                url,
                format_selector: "direct-video-"@ + numbers::dec(h as nat) + "p"@,
            },
        ),
        _ => None,
    }
}

/// A film that is played as it is, where it is known to be high enough.
pub fn direct_video(source_url: &str, height: Option<u64>) -> (r: Option<ResolvedMediaInput>)
    ensures
        match r {
            Some(input) => direct_film(source_url@, height) == Some(input@),
            None => direct_film(source_url@, height) is None,
        },
{
    match height {
        Some(h) => if h >= ytdlp::MIN_SELECTED_VIDEO_HEIGHT {
            Some(
                ResolvedMediaInput::Single {
                    url: source_url.to_string(),
                    format_selector: text::concat3(
                        "direct-video-",
                        &numbers::decimal(h),
                        "p",
                    ),
                },
            )
        } else {
            None
        },
        None => None,
    }
}

// ---------------------------------------------------------------------------
// YouTube
// ---------------------------------------------------------------------------

/// What an error says of the further search.
#[derive(Clone, Copy, Debug, PartialEq, Eq, Structural)]
pub enum Trouble {
    /// The video is not to be had: every further attempt would fail.
    Unavailable,
    /// The command took too long.
    TimedOut,
    /// Anything else.
    Other,
}

/// What a message, in lower case, says of the further search.
pub open spec fn trouble_of(lower: Seq<char>) -> Trouble {
    if ytdlp::says_gone(lower) || ytdlp::says_sign_in(lower) {
        Trouble::Unavailable
    } else if ytdlp::says_timeout(lower) {
        Trouble::TimedOut
    } else {
        Trouble::Other
    }
}

/// What a message, in lower case, says of the further search.
pub fn classify_lower(lower: &str) -> (r: Trouble)
    ensures
        r == trouble_of(lower@),
{
    if ytdlp::lower_says_gone(lower) || ytdlp::lower_says_sign_in(lower) {
        Trouble::Unavailable
    } else if ytdlp::lower_says_timeout(lower) {
        Trouble::TimedOut
    } else {
        Trouble::Other
    }
}

/// What a message says of the further search.
pub fn classify(message: &str) -> (r: Trouble)
    ensures
        r == trouble_of(text::unicode_lowercase(message@)),
{
    classify_lower(&text::lowercase(message))
}

/// The attempt whose outcome is awaited.
#[derive(Clone, Copy, Debug, PartialEq, Eq, Structural)]
pub enum Stage {
    /// One link for picture and sound.
    Fast,
    /// The report with the JavaScript runtime.
    DenoJson,
    /// One link, with the JavaScript runtime.
    DenoSingle,
    /// Two links, with the JavaScript runtime.
    DenoDash,
    /// Two links.
    DashDirect,
    /// The list of formats.
    ListFormats,
    /// One link, in a format of the list.
    ListSingle,
    /// Two links, in a format of the list.
    ListDash,
    /// The search has ended.
    Ended,
}

/// The search for what is played of a YouTube video.
pub struct YoutubeResolution {
    /// The attempt whose outcome is awaited.
    pub stage: Stage,
    /// The errors so far.
    pub errors: Vec<String>,
    /// Whether the first attempt took too long.
    pub fast_timed_out: bool,
    /// Whether the list of formats was asked for with the JavaScript runtime.
    pub list_with_deno: bool,
    /// The list of formats.
    pub list: String,
    /// The format of the awaited attempt.
    pub format: String,
}

/// The model of the search.
#[verifier::ext_equal]
pub struct SearchView {
    pub stage: Stage,
    pub errors: Seq<Seq<char>>,
    pub fast_timed_out: bool,
    pub list_with_deno: bool,
    pub list: Seq<char>,
    pub format: Seq<char>,
}

impl View for YoutubeResolution {
    type V = SearchView;

    open spec fn view(&self) -> SearchView {
        SearchView {
            stage: self.stage,
            errors: text::texts(self.errors@),
            fast_timed_out: self.fast_timed_out,
            list_with_deno: self.list_with_deno,
            list: self.list@,
            format: self.format@,
        }
    }
}

/// What the search does next.
pub enum ResolveAction {
    /// Asks for one link in a format.
    Single {
        /// The format.
        format: String,
        /// Whether the JavaScript runtime is used.
        use_deno: bool,
    },
    /// Asks for two links in a format.
    Dash {
        /// The format.
        format: String,
        /// Whether the JavaScript runtime is used.
        use_deno: bool,
    },
    /// Asks for a report with the JavaScript runtime.
    Json,
    /// Asks for the list of formats.
    List {
        /// Whether the JavaScript runtime is used.
        use_deno: bool,
    },
    /// The search ends with what is played.
    Done(ResolvedMediaInput),
    /// The search ends with this message.
    Failed(String),
}

/// The model of what the search does next.
#[verifier::ext_equal]
pub enum ActionView {
    Single { format: Seq<char>, use_deno: bool },
    Dash { format: Seq<char>, use_deno: bool },
    Json,
    List { use_deno: bool },
    Done(InputView),
    Failed(Seq<char>),
}

impl View for ResolveAction {
    type V = ActionView;

    open spec fn view(&self) -> ActionView {
        match *self {
            ResolveAction::Single { format, use_deno } => ActionView::Single {
                format: format@,
                use_deno,
            },
            ResolveAction::Dash { format, use_deno } => ActionView::Dash {
                format: format@,
                use_deno,
            },
            ResolveAction::Json => ActionView::Json,
            ResolveAction::List { use_deno } => ActionView::List { use_deno },
            ResolveAction::Done(input) => ActionView::Done(input@),
            ResolveAction::Failed(message) => ActionView::Failed(message@),
        }
    }
}

/// The message that ends a search in which every attempt failed.
pub open spec fn exhausted_message(errors: Seq<Seq<char>>) -> Seq<char> {
    "aucun format YouTube exploitable trouvé: muxé="@ + ytdlp::YTDLP_YOUTUBE_FAST_FORMAT@
        + " DASH="@ + ytdlp::YTDLP_YOUTUBE_DASH_FORMAT@ + " erreurs="@ + text::joined(
        errors,
        " | "@,
    )
}

/// The search with one more error.
pub open spec fn noted(s: SearchView, label: Seq<char>, message: Seq<char>) -> SearchView {
    SearchView { errors: s.errors.push(label + message), ..s }
}

/// The search ends because every attempt failed.
pub open spec fn exhausted(s: SearchView) -> (SearchView, ActionView) {
    (
        SearchView { stage: Stage::Ended, ..s },
        ActionView::Failed(exhausted_message(s.errors)),
    )
}

/// The search goes on with the list of formats.
pub open spec fn to_list(s: SearchView, deno: bool) -> (SearchView, ActionView) {
    (
        SearchView { stage: Stage::ListFormats, list_with_deno: deno, ..s },
        ActionView::List { use_deno: deno },
    )
}

/// The search goes on with two links.
pub open spec fn to_dash(s: SearchView) -> (SearchView, ActionView) {
    (
        SearchView { stage: Stage::DashDirect, ..s },
        ActionView::Dash { format: ytdlp::YTDLP_YOUTUBE_DASH_FORMAT@, use_deno: false },
    )
}

/// The search goes on after the attempts with the JavaScript runtime: with two links where those
/// attempts came first, else with the list of formats.
pub open spec fn after_deno(s: SearchView, deno: bool) -> (SearchView, ActionView) {
    if s.fast_timed_out {
        to_dash(s)
    } else {
        to_list(s, deno)
    }
}

/// The search goes on with the JavaScript runtime, where there is one.
pub open spec fn to_deno(s: SearchView, deno: bool) -> (SearchView, ActionView) {
    if deno {
        (SearchView { stage: Stage::DenoJson, ..s }, ActionView::Json)
    } else {
        after_deno(noted(s, "deno_fallback="@, "deno indisponible"@), deno)
    }
}

/// The search goes on with two links in the best format of the list, where there is one.
pub open spec fn to_list_dash(s: SearchView) -> (SearchView, ActionView) {
    match ytdlp::best_dash_format(s.list) {
        Some(format) => (
            SearchView { stage: Stage::ListDash, format, ..s },
            ActionView::Dash { format, use_deno: s.list_with_deno },
        ),
        None => exhausted(s),
    }
}

/// The search ends because the video is not to be had.
pub open spec fn unavailable(s: SearchView, message: Seq<char>) -> (SearchView, ActionView) {
    (
        SearchView { stage: Stage::Ended, ..s },
        ActionView::Failed("yt-dlp YouTube indisponible: "@ + message),
    )
}

/// How the search goes on after an attempt failed. `deno` says whether the JavaScript runtime is
/// there. An error which says that the video is not to be had ends the search, except for errors
/// in the formats of the list.
pub open spec fn after_failure(
    s: SearchView,
    message: Seq<char>,
    trouble: Trouble,
    deno: bool,
) -> (SearchView, ActionView) {
    match s.stage {
        Stage::Fast => if trouble == Trouble::Unavailable {
            unavailable(s, message)
        } else if trouble == Trouble::TimedOut {
            to_deno(
                SearchView { fast_timed_out: true, ..noted(s, "fast="@, message) },
                deno,
            )
        } else {
            to_dash(noted(s, "fast="@, message))
        },
        Stage::DenoJson => if trouble == Trouble::Unavailable {
            unavailable(s, message)
        } else {
            (
                SearchView { stage: Stage::DenoSingle, ..noted(s, "deno_json="@, message) },
                ActionView::Single {
                    format: ytdlp::YTDLP_YOUTUBE_FAST_FORMAT@,
                    use_deno: true,
                },
            )
        },
        Stage::DenoSingle => if trouble == Trouble::Unavailable {
            unavailable(s, message)
        } else {
            (
                SearchView { stage: Stage::DenoDash, ..noted(s, "deno_single="@, message) },
                ActionView::Dash { format: ytdlp::YTDLP_YOUTUBE_DASH_FORMAT@, use_deno: true },
            )
        },
        Stage::DenoDash => if trouble == Trouble::Unavailable {
            unavailable(s, message)
        } else {
            after_deno(noted(s, "deno_dash="@, message), deno)
        },
        Stage::DashDirect => if trouble == Trouble::Unavailable {
            unavailable(s, message)
        } else if s.fast_timed_out {
            to_list(noted(s, "dash_direct="@, message), deno)
        } else {
            to_deno(noted(s, "dash_direct="@, message), deno)
        },
        Stage::ListFormats => exhausted(noted(s, "list_formats="@, message)),
        Stage::ListSingle => to_list_dash(noted(s, "list_single_"@ + s.format + "="@, message)),
        Stage::ListDash => exhausted(noted(s, "list_dash_"@ + s.format + "="@, message)),
        Stage::Ended => exhausted(s),
    }
}

/// How the search goes on with the list of formats: with one link in the best format of picture
/// and sound, else with two.
pub open spec fn after_list(s: SearchView, list: Seq<char>) -> (SearchView, ActionView) {
    let s = SearchView { list, ..s };
    match ytdlp::best_fast_format(list) {
        Some(format) => (
            SearchView { stage: Stage::ListSingle, format, ..s },
            ActionView::Single { format, use_deno: s.list_with_deno },
        ),
        None => to_list_dash(s),
    }
}

impl YoutubeResolution {
    /// Starts the search: the first attempt asks for one link for picture and sound.
    pub fn start() -> (r: (Self, ResolveAction))
        ensures
            r.0@ == (SearchView {
                stage: Stage::Fast,
                errors: Seq::empty(),
                fast_timed_out: false,
                list_with_deno: false,
                list: Seq::empty(),
                format: ytdlp::YTDLP_YOUTUBE_FAST_FORMAT@,
            }),
            r.1@ == (ActionView::Single {
                format: ytdlp::YTDLP_YOUTUBE_FAST_FORMAT@,
                use_deno: false,
            }),
    {
        let s = YoutubeResolution {
            stage: Stage::Fast,
            errors: Vec::new(),
            fast_timed_out: false,
            list_with_deno: false,
            list: String::new(),
            format: ytdlp::YTDLP_YOUTUBE_FAST_FORMAT.to_string(),
        };
        proof {
            assert(text::texts(s.errors@) =~= Seq::<Seq<char>>::empty());
        }
        (
            s,
            ResolveAction::Single {
                format: ytdlp::YTDLP_YOUTUBE_FAST_FORMAT.to_string(),
                use_deno: false,
            },
        )
    }

    /// Notes an error.
    fn note(&mut self, label: &str, message: &str)
        ensures
            final(self)@ == noted(old(self)@, label@, message@),
    {
        let ghost before = text::texts(self.errors@);
        self.errors.push(text::concat2(label, message));
        proof {
            assert(text::texts(self.errors@) =~= before.push(label@ + message@));
        }
    }

    fn end_exhausted(&mut self) -> (r: ResolveAction)
        ensures
            (final(self)@, r@) == exhausted(old(self)@),
    {
        self.stage = Stage::Ended;
        let mut m = text::concat3(
            "aucun format YouTube exploitable trouvé: muxé=",
            ytdlp::YTDLP_YOUTUBE_FAST_FORMAT,
            " DASH=",
        );
        m.push_str(ytdlp::YTDLP_YOUTUBE_DASH_FORMAT);
        m.push_str(" erreurs=");
        m.push_str(&text::join(&self.errors, " | "));
        ResolveAction::Failed(m)
    }

    fn end_unavailable(&mut self, message: &str) -> (r: ResolveAction)
        ensures
            (final(self)@, r@) == unavailable(old(self)@, message@),
    {
        self.stage = Stage::Ended;
        ResolveAction::Failed(text::concat2("yt-dlp YouTube indisponible: ", message))
    }

    fn go_to_list(&mut self, deno: bool) -> (r: ResolveAction)
        ensures
            (final(self)@, r@) == to_list(old(self)@, deno),
    {
        self.stage = Stage::ListFormats;
        self.list_with_deno = deno;
        ResolveAction::List { use_deno: deno }
    }

    fn go_to_dash(&mut self) -> (r: ResolveAction)
        ensures
            (final(self)@, r@) == to_dash(old(self)@),
    {
        self.stage = Stage::DashDirect;
        ResolveAction::Dash {
            format: ytdlp::YTDLP_YOUTUBE_DASH_FORMAT.to_string(),
            use_deno: false,
        }
    }

    fn go_after_deno(&mut self, deno: bool) -> (r: ResolveAction)
        ensures
            (final(self)@, r@) == after_deno(old(self)@, deno),
    {
        if self.fast_timed_out {
            self.go_to_dash()
        } else {
            self.go_to_list(deno)
        }
    }

    fn go_to_deno(&mut self, deno: bool) -> (r: ResolveAction)
        ensures
            (final(self)@, r@) == to_deno(old(self)@, deno),
    {
        if deno {
            self.stage = Stage::DenoJson;
            ResolveAction::Json
        } else {
            self.note("deno_fallback=", "deno indisponible");
            self.go_after_deno(deno)
        }
    }

    fn go_to_list_dash(&mut self) -> (r: ResolveAction)
        ensures
            (final(self)@, r@) == to_list_dash(old(self)@),
    {
        match ytdlp::best_dash_av_format_from_list_formats(&self.list) {
            Some(format) => {
                self.stage = Stage::ListDash;
                self.format = format.to_string();
                ResolveAction::Dash { format: format.to_string(), use_deno: self.list_with_deno }
            },
            None => self.end_exhausted(),
        }
    }

    /// Goes on after an attempt failed, given what its message says of the further search.
    pub fn step_failed(&mut self, message: &str, trouble: Trouble, deno: bool) -> (r:
        ResolveAction)
        ensures
            (final(self)@, r@) == after_failure(old(self)@, message@, trouble, deno),
    {
        match self.stage {
            Stage::Fast => {
                if trouble == Trouble::Unavailable {
                    return self.end_unavailable(message);
                }
                self.note("fast=", message);
                if trouble == Trouble::TimedOut {
                    self.fast_timed_out = true;
                    self.go_to_deno(deno)
                } else {
                    self.go_to_dash()
                }
            },
            Stage::DenoJson => {
                if trouble == Trouble::Unavailable {
                    return self.end_unavailable(message);
                }
                self.note("deno_json=", message);
                self.stage = Stage::DenoSingle;
                ResolveAction::Single {
                    format: ytdlp::YTDLP_YOUTUBE_FAST_FORMAT.to_string(),
                    use_deno: true,
                }
            },
            Stage::DenoSingle => {
                if trouble == Trouble::Unavailable {
                    return self.end_unavailable(message);
                }
                self.note("deno_single=", message);
                self.stage = Stage::DenoDash;
                ResolveAction::Dash {
                    format: ytdlp::YTDLP_YOUTUBE_DASH_FORMAT.to_string(),
                    use_deno: true,
                }
            },
            Stage::DenoDash => {
                if trouble == Trouble::Unavailable {
                    return self.end_unavailable(message);
                }
                self.note("deno_dash=", message);
                self.go_after_deno(deno)
            },
            Stage::DashDirect => {
                if trouble == Trouble::Unavailable {
                    return self.end_unavailable(message);
                }
                self.note("dash_direct=", message);
                if self.fast_timed_out {
                    self.go_to_list(deno)
                } else {
                    self.go_to_deno(deno)
                }
            },
            Stage::ListFormats => {
                self.note("list_formats=", message);
                self.end_exhausted()
            },
            Stage::ListSingle => {
                let label = text::concat3("list_single_", &self.format, "=");
                self.note(&label, message);
                self.go_to_list_dash()
            },
            Stage::ListDash => {
                let label = text::concat3("list_dash_", &self.format, "=");
                self.note(&label, message);
                self.end_exhausted()
            },
            Stage::Ended => self.end_exhausted(),
        }
    }

    /// Goes on after an attempt failed with this message.
    pub fn on_failure(&mut self, message: &str, deno: bool) -> (r: ResolveAction)
        ensures
            (final(self)@, r@) == after_failure(
                old(self)@,
                message@,
                trouble_of(text::unicode_lowercase(message@)),
                deno,
            ),
    {
        let trouble = classify(message);
        self.step_failed(message, trouble, deno)
    }

    /// Ends the search with the link that the awaited attempt found.
    pub fn on_link(&mut self, url: String) -> (r: ResolveAction)
        ensures
            final(self)@ == (SearchView { stage: Stage::Ended, ..old(self)@ }),
            r@ == ActionView::Done(
                InputView::Single {
                    url: url@,
                    format_selector: if old(self).stage == Stage::ListSingle {
                        old(self).format@
                    } else {
                        ytdlp::YTDLP_YOUTUBE_FAST_FORMAT@
                    },
                },
            ),
    {
        let format_selector = match self.stage {
            Stage::ListSingle => self.format.clone(),
            _ => ytdlp::YTDLP_YOUTUBE_FAST_FORMAT.to_string(),
        };
        self.stage = Stage::Ended;
        ResolveAction::Done(ResolvedMediaInput::Single { url, format_selector })
    }

    /// Ends the search with what the awaited attempt found.
    pub fn on_input(&mut self, input: ResolvedMediaInput) -> (r: ResolveAction)
        ensures
            final(self)@ == (SearchView { stage: Stage::Ended, ..old(self)@ }),
            r == ResolveAction::Done(input),
    {
        self.stage = Stage::Ended;
        ResolveAction::Done(input)
    }

    /// Goes on with the list of formats.
    pub fn on_list(&mut self, list: String) -> (r: ResolveAction)
        ensures
            (final(self)@, r@) == after_list(old(self)@, list@),
    {
        self.list = list;
        match ytdlp::best_youtube_fast_format_from_list_formats(&self.list) {
            Some(format) => {
                self.stage = Stage::ListSingle;
                self.format = format.to_string();
                ResolveAction::Single {
                    format: format.to_string(),
                    use_deno: self.list_with_deno,
                }
            },
            None => self.go_to_list_dash(),
        }
    }
}

// ---------------------------------------------------------------------------
// Other services
// ---------------------------------------------------------------------------

/// The attempt of the search for a medium of another service.
#[derive(Clone, Copy, Debug, PartialEq, Eq, Structural)]
pub enum GenericStage {
    /// Picture and sound together.
    Single,
    /// Picture and sound apart.
    Separate,
    /// Sound alone.
    Audio,
}

/// How the search for a medium of another service goes on.
pub enum GenericStep {
    /// The search ends with what is played.
    Done(ResolvedMediaInput),
    /// The search goes on with this attempt.
    Next(GenericStage),
    /// The search ends without result.
    Failed,
}

/// The format of an attempt.
pub open spec fn generic_format_of(stage: GenericStage) -> Seq<char> {
    match stage {
        GenericStage::Single => ytdlp::YTDLP_GENERIC_SINGLE_FORMAT@,
        GenericStage::Separate => ytdlp::YTDLP_GENERIC_SEPARATE_FORMAT@,
        GenericStage::Audio => ytdlp::YTDLP_GENERIC_AUDIO_FORMAT@,
    }
}

/// The format of an attempt.
pub fn generic_format(stage: GenericStage) -> (r: &'static str)
    ensures
        r@ == generic_format_of(stage),
{
    match stage {
        GenericStage::Single => ytdlp::YTDLP_GENERIC_SINGLE_FORMAT,
        GenericStage::Separate => ytdlp::YTDLP_GENERIC_SEPARATE_FORMAT,
        GenericStage::Audio => ytdlp::YTDLP_GENERIC_AUDIO_FORMAT,
    }
}

/// After how many seconds an attempt is stopped.
pub fn generic_timeout(stage: GenericStage) -> (r: u64)
    ensures
        r == match stage {
            GenericStage::Single => 40u64,
            GenericStage::Separate => 45u64,
            GenericStage::Audio => 35u64,
        },
{
    match stage {
        GenericStage::Single => 40,
        GenericStage::Separate => 45,
        GenericStage::Audio => 35,
    }
}

/// What is played with the links that an attempt found: the first of them for sound alone, else
/// the first two as picture and sound, and one alone as both.
pub open spec fn generic_input(stage: GenericStage, urls: Seq<Seq<char>>) -> Option<InputView> {
    let format = generic_format_of(stage);
    if urls.len() == 0 {
        None
    } else if stage == GenericStage::Audio {
        Some(InputView::AudioOnly { url: urls[0], format_selector: format })
    } else if urls.len() == 1 {
        Some(InputView::Single { url: urls[0], format_selector: format })
    } else {
        Some(
            InputView::SeparateAv {
                video_url: urls[0],
                audio_url: urls[1],
                format_selector: format,
            },
        )
    }
}

/// The attempt that follows one without result.
pub open spec fn generic_next(stage: GenericStage) -> Option<GenericStage> {
    match stage {
        GenericStage::Single => Some(GenericStage::Separate),
        GenericStage::Separate => Some(GenericStage::Audio),
        GenericStage::Audio => None,
    }
}

/// How the search for a medium of another service goes on after an attempt, given the links that
/// it found, if any.
pub fn generic_step(stage: GenericStage, urls: &Vec<String>) -> (r: GenericStep)
    ensures
        match generic_input(stage, text::texts(urls@)) {
            Some(input) => r matches GenericStep::Done(i) && i@ == input,
            None => match generic_next(stage) {
                Some(next) => r == GenericStep::Next(next),
                None => r == GenericStep::Failed,
            },
        },
        stage != GenericStage::Audio && urls@.len() >= 2 ==> (r matches GenericStep::Done(
            ResolvedMediaInput::SeparateAv { video_url, audio_url, .. },
        ) && video_url@ == urls@[0]@ && audio_url@ == urls@[1]@),
        stage != GenericStage::Audio && urls@.len() == 1 ==> (r matches GenericStep::Done(
            ResolvedMediaInput::Single { url, .. },
        ) && url@ == urls@[0]@),
        stage == GenericStage::Audio && urls@.len() >= 1 ==> (r matches GenericStep::Done(
            ResolvedMediaInput::AudioOnly { url, .. },
        ) && url@ == urls@[0]@),
        urls@.len() == 0 && stage == GenericStage::Single ==> r == GenericStep::Next(
            GenericStage::Separate,
        ),
        urls@.len() == 0 && stage == GenericStage::Separate ==> r == GenericStep::Next(
            GenericStage::Audio,
        ),
        urls@.len() == 0 && stage == GenericStage::Audio ==> r == GenericStep::Failed,
{
    proof {
        assert(text::texts(urls@).len() == urls@.len());
        assert(urls@.len() > 0 ==> text::texts(urls@)[0] == urls@[0]@);
        assert(urls@.len() > 1 ==> text::texts(urls@)[1] == urls@[1]@);
    }
    if urls.len() == 0 {
        return match stage {
            GenericStage::Single => GenericStep::Next(GenericStage::Separate),
            GenericStage::Separate => GenericStep::Next(GenericStage::Audio),
            GenericStage::Audio => GenericStep::Failed,
        };
    }
    let format_selector = generic_format(stage).to_string();
    if stage == GenericStage::Audio {
        GenericStep::Done(
            ResolvedMediaInput::AudioOnly { url: urls[0].clone(), format_selector },
        )
    } else if urls.len() == 1 {
        GenericStep::Done(ResolvedMediaInput::Single { url: urls[0].clone(), format_selector })
    } else {
        GenericStep::Done(
            ResolvedMediaInput::SeparateAv {
                video_url: urls[0].clone(),
                audio_url: urls[1].clone(),
                format_selector,
            },
        )
    }
}

/// The message that ends the search for a medium of another service without result.
pub fn generic_failure_message() -> (r: String)
    ensures
        r@ == "aucun format yt-dlp exploitable trouvé pour ce lien"@,
{
    "aucun format yt-dlp exploitable trouvé pour ce lien".to_string()
}

// ---------------------------------------------------------------------------
// Laws
// ---------------------------------------------------------------------------

/// How many attempts can still follow.
pub open spec fn attempts_left(s: SearchView) -> int {
    match s.stage {
        Stage::Fast => 8,
        Stage::DenoJson => if s.fast_timed_out {
            7
        } else {
            6
        },
        Stage::DenoSingle => if s.fast_timed_out {
            6
        } else {
            5
        },
        Stage::DenoDash => if s.fast_timed_out {
            5
        } else {
            4
        },
        Stage::DashDirect => if s.fast_timed_out {
            4
        } else {
            7
        },
        Stage::ListFormats => 3,
        Stage::ListSingle => 2,
        Stage::ListDash => 1,
        Stage::Ended => 0,
    }
}

/// The search ends after at most eight attempts: each outcome leaves fewer of them, whatever it
/// is, and none where the search ended.
pub proof fn law_search_ends(
    s: SearchView,
    message: Seq<char>,
    list: Seq<char>,
    trouble: Trouble,
    deno: bool,
)
    requires
        s.stage != Stage::Ended,
    ensures
        0 <= attempts_left(after_failure(s, message, trouble, deno).0) < attempts_left(s) <= 8,
        s.stage == Stage::ListFormats ==> attempts_left(after_list(s, list).0) < attempts_left(s),
        after_failure(s, message, trouble, deno).1 is Failed <==> after_failure(
            s,
            message,
            trouble,
            deno,
        ).0.stage == Stage::Ended,
{
}

/// No error is forgotten: those of the search so far stay, in their order, at the start.
pub proof fn law_errors_accumulate(
    s: SearchView,
    message: Seq<char>,
    trouble: Trouble,
    deno: bool,
)
    ensures
        s.errors.is_prefix_of(after_failure(s, message, trouble, deno).0.errors),
{
}

/// A video that is not to be had ends the search at once, with the message that says so, in every
/// attempt before the list of formats.
pub proof fn law_unavailable_ends_search(s: SearchView, message: Seq<char>, deno: bool)
    requires
        s.stage == Stage::Fast || s.stage == Stage::DenoJson || s.stage == Stage::DenoSingle
            || s.stage == Stage::DenoDash || s.stage == Stage::DashDirect,
    ensures
        after_failure(s, message, Trouble::Unavailable, deno).1 == ActionView::Failed(
            "yt-dlp YouTube indisponible: "@ + message,
        ),
{
}

/// The formats that a search asks for: those of at least 480 lines.
pub open spec fn allowed_format(format: Seq<char>) -> bool {
    ||| format == ytdlp::YTDLP_YOUTUBE_FAST_FORMAT@
    ||| format == ytdlp::YTDLP_YOUTUBE_DASH_FORMAT@
    ||| format == "96"@
    ||| format == "22"@
    ||| format == "95"@
    ||| format == "94"@
    ||| format == "137+140"@
    ||| format == "136+140"@
    ||| format == "135+140"@
}

/// Whatever the outcomes, a search asks for no other formats.
pub proof fn law_only_allowed_formats(
    s: SearchView,
    message: Seq<char>,
    list: Seq<char>,
    trouble: Trouble,
    deno: bool,
)
    ensures
        after_failure(s, message, trouble, deno).1 matches ActionView::Single { format, .. }
            ==> allowed_format(format),
        after_failure(s, message, trouble, deno).1 matches ActionView::Dash { format, .. }
            ==> allowed_format(format),
        after_list(s, list).1 matches ActionView::Single { format, .. } ==> allowed_format(format),
        after_list(s, list).1 matches ActionView::Dash { format, .. } ==> allowed_format(format),
{
}

/// Whether an attempt runs with the JavaScript runtime.
pub open spec fn with_deno(action: ActionView) -> bool {
    match action {
        ActionView::Json => true,
        ActionView::Single { use_deno, .. } => use_deno,
        ActionView::Dash { use_deno, .. } => use_deno,
        ActionView::List { use_deno } => use_deno,
        _ => false,
    }
}

/// A search that is not at an attempt with the JavaScript runtime and uses no list that was read
/// with it. A search starts so.
pub open spec fn without_deno(s: SearchView) -> bool {
    &&& s.stage != Stage::DenoJson
    &&& s.stage != Stage::DenoSingle
    &&& s.stage != Stage::DenoDash
    &&& !s.list_with_deno
}

/// Without the JavaScript runtime no attempt uses it: neither the next one, nor, since the search
/// stays without it, one after that.
pub proof fn law_no_deno_without_runtime(
    s: SearchView,
    message: Seq<char>,
    list: Seq<char>,
    trouble: Trouble,
)
    requires
        without_deno(s),
    ensures
        !with_deno(after_failure(s, message, trouble, false).1),
        without_deno(after_failure(s, message, trouble, false).0),
        !with_deno(after_list(s, list).1),
        without_deno(after_list(s, list).0),
{
}

/// Of two links the first is the picture and the second the sound, and one link alone is both,
/// unless sound alone was asked for: then the first link is that. The format is the one that was
/// asked for, and without a link there is nothing to play.
pub proof fn law_first_link_is_picture(
    stage: GenericStage,
    first: Seq<char>,
    second: Seq<char>,
    more: Seq<Seq<char>>,
)
    ensures
        stage != GenericStage::Audio ==> generic_input(stage, seq![first, second] + more) == Some(
            InputView::SeparateAv {
                video_url: first,
                audio_url: second,
                format_selector: generic_format_of(stage),
            },
        ),
        stage != GenericStage::Audio ==> generic_input(stage, seq![first]) == Some(
            InputView::Single { url: first, format_selector: generic_format_of(stage) },
        ),
        generic_input(GenericStage::Audio, seq![first] + more) == Some(
            InputView::AudioOnly {
                url: first,
                format_selector: generic_format_of(GenericStage::Audio),
            },
        ),
        generic_input(stage, Seq::empty()) is None,
{
    let two = seq![first, second] + more;
    assert(two[0] == first && two[1] == second);
    let one = seq![first] + more;
    assert(one[0] == first);
}

/// Picture and sound together are asked for first, then apart, and last sound alone.
pub proof fn law_order_of_generic_attempts()
    ensures
        generic_next(GenericStage::Single) == Some(GenericStage::Separate),
        generic_next(GenericStage::Separate) == Some(GenericStage::Audio),
        generic_next(GenericStage::Audio) is None,
        generic_format_of(GenericStage::Single) == ytdlp::YTDLP_GENERIC_SINGLE_FORMAT@,
        generic_format_of(GenericStage::Separate) == ytdlp::YTDLP_GENERIC_SEPARATE_FORMAT@,
        generic_format_of(GenericStage::Audio) == ytdlp::YTDLP_GENERIC_AUDIO_FORMAT@,
{
}

/// The attempts for a YouTube video follow one another: one link, then two, then those with the
/// JavaScript runtime, then the list of formats. Where the first took too long, those with the
/// runtime come before two links.
pub proof fn law_order_of_attempts(s: SearchView, message: Seq<char>, trouble: Trouble, deno: bool)
    requires
        trouble != Trouble::Unavailable,
    ensures
        ({
            let next = after_failure(s, message, trouble, deno);
            let two = ActionView::Dash { format: "137+140/136+140/135+140"@, use_deno: false };
            &&& s.stage == Stage::Fast && trouble == Trouble::Other ==> next.0.stage
                == Stage::DashDirect && next.1 == two
            &&& s.stage == Stage::Fast && trouble == Trouble::TimedOut && deno ==> next.0.stage
                == Stage::DenoJson && next.1 == ActionView::Json && next.0.fast_timed_out
            &&& s.stage == Stage::Fast && trouble == Trouble::TimedOut && !deno ==> next.0.stage
                == Stage::DashDirect && next.1 == two && next.0.fast_timed_out
            &&& s.stage == Stage::DenoJson ==> next.0.stage == Stage::DenoSingle && next.1 == (
            ActionView::Single { format: "96/22/95/94"@, use_deno: true })
            &&& s.stage == Stage::DenoSingle ==> next.0.stage == Stage::DenoDash && next.1 == (
            ActionView::Dash { format: "137+140/136+140/135+140"@, use_deno: true })
            &&& s.stage == Stage::DenoDash && s.fast_timed_out ==> next.0.stage == Stage::DashDirect
                && next.1 == two
            &&& s.stage == Stage::DenoDash && !s.fast_timed_out ==> next.0.stage
                == Stage::ListFormats && next.1 == (ActionView::List { use_deno: deno })
            &&& s.stage == Stage::DashDirect && s.fast_timed_out ==> next.0.stage
                == Stage::ListFormats && next.1 == (ActionView::List { use_deno: deno })
            &&& s.stage == Stage::DashDirect && !s.fast_timed_out && deno ==> next.0.stage
                == Stage::DenoJson && next.1 == ActionView::Json
            &&& s.stage == Stage::DashDirect && !s.fast_timed_out && !deno ==> next.0.stage
                == Stage::ListFormats && next.1 == (ActionView::List { use_deno: false })
            &&& s.stage == Stage::ListFormats ==> next.1 is Failed
            &&& s.stage == Stage::ListDash ==> next.1 is Failed
        }),
{
}

/// A list of formats is followed by its best format of picture and sound; where that fails or
/// where there is none, by its best formats of picture and sound apart; and the search fails where
/// there are none of them either.
pub proof fn law_listed_formats_are_tried(
    s: SearchView,
    list: Seq<char>,
    message: Seq<char>,
    trouble: Trouble,
    deno: bool,
)
    ensures
        ytdlp::best_fast_format(list) matches Some(f) ==> after_list(s, list).1 == (
        ActionView::Single { format: f, use_deno: s.list_with_deno }) && after_list(s, list).0.stage
            == Stage::ListSingle && after_list(s, list).0.list == list,
        ytdlp::best_fast_format(list) is None ==> (ytdlp::best_dash_format(list) matches Some(f)
            ==> after_list(s, list).1 == (ActionView::Dash { format: f, use_deno: s.list_with_deno })
            && after_list(s, list).0.stage == Stage::ListDash),
        ytdlp::best_fast_format(list) is None && ytdlp::best_dash_format(list) is None
            ==> after_list(s, list).1 is Failed,
        s.stage == Stage::ListSingle ==> (ytdlp::best_dash_format(s.list) matches Some(f)
            ==> after_failure(s, message, trouble, deno).1 == (ActionView::Dash {
            format: f,
            use_deno: s.list_with_deno,
        })),
        s.stage == Stage::ListSingle && ytdlp::best_dash_format(s.list) is None ==> after_failure(
            s,
            message,
            trouble,
            deno,
        ).1 is Failed,
{
}

/// Every attempt that failed is told of in the end, with what it was and what it said.
pub proof fn law_failures_are_told(s: SearchView, message: Seq<char>, deno: bool)
    ensures
        s.stage == Stage::Fast ==> after_failure(s, message, Trouble::Other, deno).0.errors
            == s.errors.push("fast="@ + message),
        s.stage == Stage::DenoJson ==> after_failure(s, message, Trouble::Other, deno).0.errors
            == s.errors.push("deno_json="@ + message),
        s.stage == Stage::DenoSingle ==> after_failure(s, message, Trouble::Other, deno).0.errors
            == s.errors.push("deno_single="@ + message),
        s.stage == Stage::DenoDash ==> after_failure(s, message, Trouble::Other, deno).0.errors
            == s.errors.push("deno_dash="@ + message),
        s.stage == Stage::DashDirect && (deno || s.fast_timed_out) ==> after_failure(
            s,
            message,
            Trouble::Other,
            deno,
        ).0.errors == s.errors.push("dash_direct="@ + message),
        s.stage == Stage::DashDirect && !deno && !s.fast_timed_out ==> after_failure(
            s,
            message,
            Trouble::Other,
            deno,
        ).0.errors == s.errors.push("dash_direct="@ + message).push(
            "deno_fallback="@ + "deno indisponible"@,
        ),
        s.stage == Stage::ListSingle ==> after_failure(s, message, Trouble::Other, deno).0.errors
            == s.errors.push("list_single_"@ + s.format + "="@ + message),
        s.stage == Stage::ListDash ==> after_failure(s, message, Trouble::Other, deno).0.errors
            == s.errors.push("list_dash_"@ + s.format + "="@ + message),
        s.stage == Stage::ListFormats ==> after_failure(s, message, Trouble::Other, deno).1
            == ActionView::Failed(
            "aucun format YouTube exploitable trouvé: muxé=96/22/95/94 DASH=137+140/136+140/135+140 erreurs="@
                + text::joined(s.errors.push("list_formats="@ + message), " | "@),
        ),
{
    if s.stage == Stage::ListFormats {
        reveal_strlit("aucun format YouTube exploitable trouvé: muxé=");
        reveal_strlit("96/22/95/94");
        reveal_strlit(" DASH=");
        reveal_strlit("137+140/136+140/135+140");
        reveal_strlit(" erreurs=");
        reveal_strlit(
            "aucun format YouTube exploitable trouvé: muxé=96/22/95/94 DASH=137+140/136+140/135+140 erreurs=",
        );
        let all = "aucun format YouTube exploitable trouvé: muxé=96/22/95/94 DASH=137+140/136+140/135+140 erreurs="@;
        assert(all =~= "aucun format YouTube exploitable trouvé: muxé="@ + "96/22/95/94"@
            + " DASH="@ + "137+140/136+140/135+140"@ + " erreurs="@);
    }
}

/// A message that says that a video is gone or that YouTube wants to know who asks ends the
/// search, whatever else it says; one that only says that a command took too long does not.
pub proof fn law_messages_are_understood(before: Seq<char>, after: Seq<char>, lower: Seq<char>)
    ensures
        trouble_of(before + "private video"@ + after) == Trouble::Unavailable,
        trouble_of(before + "video unavailable"@ + after) == Trouble::Unavailable,
        trouble_of(before + "has been removed"@ + after) == Trouble::Unavailable,
        trouble_of(before + "not a bot"@ + after) == Trouble::Unavailable,
        trouble_of(before + "please sign in"@ + after) == Trouble::Unavailable,
        text::has_part(lower, "timeout yt-dlp"@) && !ytdlp::says_gone(lower)
            && !ytdlp::says_sign_in(lower) ==> trouble_of(lower) == Trouble::TimedOut,
        !text::has_part(lower, "timeout"@) && !text::has_part(lower, "deadline has elapsed"@)
            && !ytdlp::says_gone(lower) && !ytdlp::says_sign_in(lower) ==> trouble_of(lower)
            == Trouble::Other,
{
    text::lemma_phrase_within(before, "private video"@, after);
    text::lemma_phrase_within(before, "video unavailable"@, after);
    text::lemma_phrase_within(before, "has been removed"@, after);
    text::lemma_phrase_within(before, "not a bot"@, after);
    text::lemma_phrase_within(before, "please sign in"@, after);
    reveal_strlit("timeout");
    reveal_strlit("timeout yt-dlp");
    reveal_strlit("timeout attente slot");
    text::lemma_begins_phrase(lower, "timeout yt-dlp"@, "timeout"@);
    text::lemma_begins_phrase(lower, "timeout attente slot"@, "timeout"@);
}

/// A film that is played as it is has at least 480 lines, and a film that has is played as it is;
/// one of unknown height is not.
pub proof fn law_low_films_are_not_direct(url: Seq<char>, height: u64)
    ensures
        direct_film(url, None) is None,
        height < 480 ==> direct_film(url, Some(height)) is None,
        height >= 480 ==> (direct_film(url, Some(height)) matches Some(InputView::Single {
            url: link,
            format_selector,
        }) && link == url && format_selector == "direct-video-"@ + numbers::dec(height as nat)
            + "p"@),
{
}

/// Only a link over HTTP is played as it is, and what it is then is what its extension says.
pub proof fn law_direct_links(url: Seq<char>)
    ensures
        !links::web_link(url) ==> direct_kind_of(url) == DirectKind::NotDirect,
        links::web_link(url) && links::media_type_of_link(url) == Some("audio"@)
            ==> direct_kind_of(url) == DirectKind::Audio,
        links::web_link(url) && links::media_type_of_link(url) == Some("video"@)
            ==> direct_kind_of(url) == DirectKind::Video,
        links::web_link(url) && links::media_type_of_link(url) is None ==> direct_kind_of(url)
            == DirectKind::NotDirect,
{
    reveal_strlit("audio");
    reveal_strlit("video");
    assert("audio"@[0] != "video"@[0]);
}

} // verus!
