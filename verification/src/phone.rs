//! What the proxy and the phones say to each other, and how phones' files are shown over FTP and
//! to controllers.
use vstd::prelude::*;
use vstd::utf8::*;

use crate::encoding;
use crate::json;
use crate::kodi::{KodiPlan, PlanView};
use crate::kodi;
use crate::media_path::PathError;
use crate::media_path;
use crate::numbers;
use crate::registry::{
    PhoneRegister, PhoneRegistry, PhoneSession, PhoneView, RegisterView, RegistryView,
};
use crate::registry;
use crate::text::CharSet;
use crate::text;

verus! {

/// The version of what is said, as a number in decimal.
pub const PROTOCOL_VERSION_TEXT: &'static str = "1";

/// How long a phone may take to describe a file, in seconds.
pub const MEDIA_STAT_TIMEOUT_SECONDS: u64 = 5;

/// How long a phone may take to list a directory, in seconds.
pub const MEDIA_LIST_TIMEOUT_SECONDS: u64 = 10;

// ---------------------------------------------------------------------------
// Requests to a phone
// ---------------------------------------------------------------------------

/// The text of what was sent on a stream, which is in UTF-8.
pub fn stream_text(bytes: Vec<u8>) -> (r: Result<String, String>)
    ensures
        match r {
            Ok(sent) => valid_utf8(bytes@) && sent@ == decode_utf8(bytes@),
            Err(message) => !valid_utf8(bytes@) && message@ == "reponse non UTF-8"@,
        },
{
    match encoding::utf8_text(bytes) {
        Some(sent) => Ok(sent),
        None => Err("reponse non UTF-8".to_string()),
    }
}

/// A request about a path, up to what may follow the path.
pub open spec fn request_start(kind: Seq<char>, path: Seq<char>) -> Seq<char> {
    "{\"type\":\""@ + kind + "\",\"protocolVersion\":"@ + PROTOCOL_VERSION_TEXT@ + ",\"path\":"@
        + json::quoted(path)
}

/// The request for a list of a directory.
pub open spec fn list_request_text(path: Seq<char>) -> Seq<char> {
    request_start("media.list"@, path) + "}"@
}

/// The request for a description of a file.
pub open spec fn stat_request_text(path: Seq<char>) -> Seq<char> {
    request_start("media.stat"@, path) + "}"@
}

/// The request for the bytes of a file from a position on.
pub open spec fn get_request_text(path: Seq<char>, start: nat) -> Seq<char> {
    request_start("media.get"@, path) + ",\"start\":"@ + numbers::dec(start) + "}"@
}

fn start_request(kind: &str, path: &str) -> (r: String)
    ensures
        r@ == request_start(kind@, path@),
{
    let mut r = text::concat3("{\"type\":\"", kind, "\",\"protocolVersion\":");
    r.push_str(PROTOCOL_VERSION_TEXT);
    r.push_str(",\"path\":");
    r.push_str(&json::quote(path));
    r
}

/// The request for a list of a directory.
pub fn media_list_request(path: &str) -> (r: String)
    ensures
        r@ == list_request_text(path@),
{
    let mut r = start_request("media.list", path);
    r.push_str("}");
    r
}

/// The request for a description of a file.
pub fn media_stat_request(path: &str) -> (r: String)
    ensures
        r@ == stat_request_text(path@),
{
    let mut r = start_request("media.stat", path);
    r.push_str("}");
    r
}

/// The request for the bytes of a file from a position on.
pub fn media_get_request(path: &str, start: u64) -> (r: String)
    ensures
        r@ == get_request_text(path@, start as nat),
{
    let mut r = start_request("media.get", path);
    r.push_str(",\"start\":");
    r.push_str(&numbers::decimal(start));
    r.push_str("}");
    r
}

// ---------------------------------------------------------------------------
// Replies of a phone
// ---------------------------------------------------------------------------

/// An entry of a directory.
#[derive(Debug)]
pub struct PhoneEntry {
    /// Its name.
    pub name: String,
    /// Whether it is a directory.
    pub is_directory: bool,
    /// Its size in bytes.
    pub size: u64,
}

/// The model of an entry of a directory.
#[verifier::ext_equal]
pub struct PhoneEntryView {
    pub name: Seq<char>,
    pub is_directory: bool,
    pub size: u64,
}

impl View for PhoneEntry {
    type V = PhoneEntryView;

    open spec fn view(&self) -> PhoneEntryView {
        PhoneEntryView { name: self.name@, is_directory: self.is_directory, size: self.size }
    }
}

impl Clone for PhoneEntry {
    fn clone(&self) -> (r: Self)
        ensures
            r == *self,
    {
        PhoneEntry {
            name: self.name.clone(),
            is_directory: self.is_directory,
            size: self.size,
        }
    }
}

/// The entries of a list.
pub open spec fn entry_views(v: Seq<PhoneEntry>) -> Seq<PhoneEntryView> {
    v.map_values(|e: PhoneEntry| e@)
}

/// A reply of a phone.
#[derive(Debug)]
pub struct PhoneResponse {
    /// Whether the phone could do what it was asked.
    pub ok: Option<bool>,
    /// Why it could not.
    pub error: Option<String>,
    /// The entries of a directory.
    pub entries: Option<Vec<PhoneEntry>>,
    /// Whether a path is a directory.
    pub is_directory: Option<bool>,
    /// The size of a file in bytes.
    pub size: Option<u64>,
}

/// The model of a reply of a phone.
#[verifier::ext_equal]
pub struct ResponseView {
    pub ok: Option<bool>,
    pub error: Option<Seq<char>>,
    pub entries: Option<Seq<PhoneEntryView>>,
    pub is_directory: Option<bool>,
    pub size: Option<u64>,
}

impl View for PhoneResponse {
    type V = ResponseView;

    open spec fn view(&self) -> ResponseView {
        ResponseView {
            ok: self.ok,
            error: text::text_in(self.error),
            entries: match self.entries {
                Some(v) => Some(entry_views(v@)),
                None => None,
            },
            is_directory: self.is_directory,
            size: self.size,
        }
    }
}

/// The reply, or why the phone could not do what it was asked.
pub fn phone_json_request(response: PhoneResponse) -> (r: Result<PhoneResponse, String>)
    ensures
        match r {
            Ok(reply) => response@.ok != Some(false) && reply == response,
            Err(message) => response@.ok == Some(false) && message@ == match response@.error {
                Some(e) => e,
                None => "erreur telephone"@,
            },
        },
{
    let failed = match response.ok {
        Some(ok) => !ok,
        None => false,
    };
    if failed {
        match response.error {
            Some(e) => Err(e),
            None => Err("erreur telephone".to_string()),
        }
    } else {
        Ok(response)
    }
}

/// Whether a name is that of an entry other than the directory itself and its parent.
pub open spec fn real_name(name: Seq<char>) -> bool {
    name != "."@ && name != ".."@
}

/// The entries of a reply, without the directory itself and its parent.
pub open spec fn real_entries(reply: ResponseView) -> Seq<PhoneEntryView> {
    match reply.entries {
        Some(entries) => entries.filter(|e: PhoneEntryView| real_name(e.name)),
        None => Seq::empty(),
    }
}

/// The entries of a reply, without the directory itself and its parent.
pub fn listed_entries(reply: PhoneResponse) -> (r: Vec<PhoneEntry>)
    ensures
        entry_views(r@) == real_entries(reply@),
{
    let entries = match reply.entries {
        Some(entries) => entries,
        None => {
            let none: Vec<PhoneEntry> = Vec::new();
            proof {
                assert(entry_views(none@) =~= Seq::empty());
            }
            return none;
        },
    };
    let ghost all = entry_views(entries@);
    let ghost keep = |e: PhoneEntryView| real_name(e.name);
    let mut r: Vec<PhoneEntry> = Vec::new();
    let mut i: usize = 0;
    proof {
        text::lemma_filter_all(all.take(0), keep);
        assert(entry_views(r@) =~= all.take(0).filter(keep));
    }
    while i < entries.len()
        invariant
            all == entry_views(entries@),
            keep == (|e: PhoneEntryView| real_name(e.name)),
            i <= all.len(),
            entry_views(r@) == all.take(i as int).filter(keep),
        decreases all.len() - i,
    {
        let ghost before = entry_views(r@);
        proof {
            text::lemma_filter_push(all.take(i as int), all[i as int], keep);
            assert(all.take(i + 1) =~= all.take(i as int).push(all[i as int]));
        }
        let name = &entries[i].name;
        if !text::same(name, ".") && !text::same(name, "..") {
            r.push(entries[i].clone());
            proof {
                assert(entry_views(r@) =~= before.push(all[i as int]));
            }
        }
        i += 1;
    }
    proof {
        assert(all.take(i as int) =~= all);
    }
    r
}

// ---------------------------------------------------------------------------
// Files over FTP
// ---------------------------------------------------------------------------

/// What is known of a file.
#[derive(Clone, Copy, Debug, PartialEq, Eq, Structural)]
pub struct ProxyMetadata {
    /// Whether it is a directory.
    pub is_dir: bool,
    /// Its size in bytes.
    pub size: u64,
}

impl ProxyMetadata {
    /// Its size in bytes.
    pub fn len(&self) -> (r: u64)
        ensures
            r == self.size,
    {
        self.size
    }

    /// Whether it is a file.
    pub fn is_file(&self) -> (r: bool)
        ensures
            r == !self.is_dir,
    {
        !self.is_dir
    }
}

/// What a phone says of a file.
pub fn stat_metadata(reply: &PhoneResponse) -> (r: ProxyMetadata)
    ensures
        r.is_dir == match reply@.is_directory {
            Some(d) => d,
            None => true,
        },
        r.size == match reply@.size {
            Some(n) => n,
            None => 0,
        },
{
    let is_dir = match reply.is_directory {
        Some(d) => d,
        None => true,
    };
    let size: u64 = match reply.size {
        Some(n) => n,
        None => 0,
    };
    ProxyMetadata { is_dir, size }
}

/// What an FTP client asks for.
#[derive(Debug)]
pub enum FtpTarget {
    /// The root: the folders of the phones.
    Root,
    /// A path on a phone.
    Phone {
        /// The folder of the phone.
        folder: String,
        /// The path on the phone.
        path: String,
    },
}

/// The model of what an FTP client asks for.
#[verifier::ext_equal]
pub enum TargetView {
    Root,
    Phone { folder: Seq<char>, path: Seq<char> },
}

impl View for FtpTarget {
    type V = TargetView;

    open spec fn view(&self) -> TargetView {
        match *self {
            FtpTarget::Root => TargetView::Root,
            FtpTarget::Phone { folder, path } => TargetView::Phone { folder: folder@, path: path@ },
        }
    }
}

/// What a file system path asks for.
pub open spec fn ftp_target_of(path: Seq<char>) -> Result<TargetView, PathError> {
    if media_path::root_path(path) {
        Ok(TargetView::Root)
    } else {
        match media_path::phone_target(media_path::path_components(path)) {
            Ok((folder, on_phone)) => Ok(TargetView::Phone { folder, path: on_phone }),
            Err(e) => Err(e),
        }
    }
}

/// What a file system path asks for.
pub fn ftp_target(path: &str) -> (r: Result<FtpTarget, PathError>)
    ensures
        match r {
            Ok(target) => ftp_target_of(path@) == Ok::<_, PathError>(target@),
            Err(e) => ftp_target_of(path@) == Err::<TargetView, _>(e),
        },
{
    if media_path::is_root(path) {
        return Ok(FtpTarget::Root);
    }
    match media_path::resolve_path(path) {
        Ok((folder, on_phone)) => Ok(FtpTarget::Phone { folder, path: on_phone }),
        Err(e) => Err(e),
    }
}

impl FtpTarget {
    /// What is known without asking a phone: the root and the folders of the phones are
    /// directories.
    pub fn known_metadata(&self) -> (r: Option<ProxyMetadata>)
        ensures
            r == (match self@ {
                TargetView::Root => Some(ProxyMetadata { is_dir: true, size: 0 }),
                TargetView::Phone { path, .. } => if path == "/"@ {
                    Some(ProxyMetadata { is_dir: true, size: 0 })
                } else {
                    None
                },
            }),
    {
        match self {
            FtpTarget::Root => Some(ProxyMetadata { is_dir: true, size: 0 }),
            FtpTarget::Phone { path, .. } => {
                if text::same(path, "/") {
                    Some(ProxyMetadata { is_dir: true, size: 0 })
                } else {
                    None
                }
            },
        }
    }
}

/// What is said where the folder of a phone is unknown, or the phone is gone.
pub open spec fn phone_gone_text(folder: Seq<char>) -> Seq<char> {
    "telephone WebTransport indisponible: "@ + folder
}

/// What is said where the folder of a phone is unknown, or the phone is gone.
pub fn phone_gone(folder: &str) -> (r: String)
    ensures
        r@ == phone_gone_text(folder@),
{
    text::concat2("telephone WebTransport indisponible: ", folder)
}

/// What is said where a path names no phone.
pub const NO_PHONE_IN_PATH: &'static str = "telephone manquant dans le chemin";

// ---------------------------------------------------------------------------
// Replies to a controller
// ---------------------------------------------------------------------------

/// The reply that something was done.
pub const OK_REPLY: &'static str = "{\"ok\":true}";

/// The reply to a phone that asks for the role of the administrator in vain.
pub const ADMIN_REFUSED_REPLY: &'static str =
    "{\"code\":\"admin_already_claimed\",\"message\":\"Un téléphone admin est déjà connecté à cette session Kodi.\",\"ok\":false}";

/// The reply that something failed.
pub open spec fn error_reply_text(message: Seq<char>) -> Seq<char> {
    "{\"error\":"@ + json::quoted(message) + ",\"ok\":false}"@
}

/// The reply that something failed.
pub fn error_reply(message: &str) -> (r: String)
    ensures
        r@ == error_reply_text(message@),
{
    text::concat3("{\"error\":", &json::quote(message), ",\"ok\":false}")
}

/// A truth value in JSON.
pub open spec fn bool_text(b: bool) -> Seq<char> {
    if b {
        "true"@
    } else {
        "false"@
    }
}

/// A phone among the folders of the root.
pub open spec fn folder_text(p: PhoneView) -> Seq<char> {
    "{\"displayName\":"@ + json::quoted(p.display_name) + ",\"isDirectory\":true,\"name\":"@
        + json::quoted(p.folder_name) + ",\"size\":0}"@
}

/// An entry of a directory.
pub open spec fn entry_text(e: PhoneEntryView) -> Seq<char> {
    "{\"isDirectory\":"@ + bool_text(e.is_directory) + ",\"name\":"@ + json::quoted(e.name)
        + ",\"size\":"@ + numbers::dec(e.size as nat) + "}"@
}

/// The reply with a list of entries.
pub open spec fn listing_text(entries: Seq<Seq<char>>) -> Seq<char> {
    "{\"entries\":["@ + text::joined(entries, ","@) + "],\"ok\":true}"@
}

/// The reply with the folders of the phones.
pub open spec fn folders_reply_text(phones: Seq<PhoneView>) -> Seq<char> {
    listing_text(phones.map_values(|p: PhoneView| folder_text(p)))
}

/// The reply with the entries of a directory.
pub open spec fn entries_reply_text(entries: Seq<PhoneEntryView>) -> Seq<char> {
    listing_text(entries.map_values(|e: PhoneEntryView| entry_text(e)))
}

fn folder_entry(p: &PhoneSession) -> (r: String)
    ensures
        r@ == folder_text(p@),
{
    let mut r = text::concat3(
        "{\"displayName\":",
        &json::quote(&p.display_name),
        ",\"isDirectory\":true,\"name\":",
    );
    r.push_str(&json::quote(&p.folder_name));
    r.push_str(",\"size\":0}");
    r
}

fn directory_entry(e: &PhoneEntry) -> (r: String)
    ensures
        r@ == entry_text(e@),
{
    let flag = if e.is_directory {
        "true"
    } else {
        "false"
    };
    let mut r = text::concat3("{\"isDirectory\":", flag, ",\"name\":");
    r.push_str(&json::quote(&e.name));
    r.push_str(",\"size\":");
    r.push_str(&numbers::decimal(e.size));
    r.push_str("}");
    r
}

/// The reply with the folders of the phones.
pub fn folders_reply(phones: &Vec<PhoneSession>) -> (r: String)
    ensures
        r@ == folders_reply_text(registry::phone_views(phones@)),
{
    let ghost all = registry::phone_views(phones@).map_values(|p: PhoneView| folder_text(p));
    let mut entries: Vec<String> = Vec::new();
    let mut i: usize = 0;
    while i < phones.len()
        invariant
            all == registry::phone_views(phones@).map_values(|p: PhoneView| folder_text(p)),
            i <= phones@.len(),
            text::texts(entries@) == all.take(i as int),
        decreases phones@.len() - i,
    {
        let ghost before = text::texts(entries@);
        let entry = folder_entry(&phones[i]);
        entries.push(entry);
        proof {
            assert(text::texts(entries@) =~= before.push(entry@));
            assert(all.take(i + 1) =~= all.take(i as int).push(all[i as int]));
        }
        i += 1;
    }
    proof {
        assert(all.take(i as int) =~= all);
    }
    text::concat3("{\"entries\":[", &text::join(&entries, ","), "],\"ok\":true}")
}

/// The reply with the entries of a directory.
pub fn entries_reply(entries: &Vec<PhoneEntry>) -> (r: String)
    ensures
        r@ == entries_reply_text(entry_views(entries@)),
{
    let ghost all = entry_views(entries@).map_values(|e: PhoneEntryView| entry_text(e));
    let mut listed: Vec<String> = Vec::new();
    let mut i: usize = 0;
    while i < entries.len()
        invariant
            all == entry_views(entries@).map_values(|e: PhoneEntryView| entry_text(e)),
            i <= entries@.len(),
            text::texts(listed@) == all.take(i as int),
        decreases entries@.len() - i,
    {
        let ghost before = text::texts(listed@);
        let entry = directory_entry(&entries[i]);
        listed.push(entry);
        proof {
            assert(text::texts(listed@) =~= before.push(entry@));
            assert(all.take(i + 1) =~= all.take(i as int).push(all[i as int]));
        }
        i += 1;
    }
    proof {
        assert(all.take(i as int) =~= all);
    }
    text::concat3("{\"entries\":[", &text::join(&listed, ","), "],\"ok\":true}")
}

// ---------------------------------------------------------------------------
// Requests to the proxy
// ---------------------------------------------------------------------------

/// A request that comes in over WebTransport.
#[derive(Debug)]
pub enum RadxaRequest {
    /// A phone registers.
    PhoneRegister(PhoneRegister),
    /// A command for Kodi.
    KodiCommand(String),
    /// A call for Kodi: the method, and the parameters as JSON text.
    KodiJsonRpc(String, Option<String>),
    /// A request for a list of a directory.
    ProxyList(String),
}

/// The model of a request.
#[verifier::ext_equal]
pub enum RequestView {
    PhoneRegister(RegisterView),
    KodiCommand(Seq<char>),
    KodiJsonRpc(Seq<char>, Option<Seq<char>>),
    ProxyList(Seq<char>),
}

impl View for RadxaRequest {
    type V = RequestView;

    open spec fn view(&self) -> RequestView {
        match *self {
            RadxaRequest::PhoneRegister(reg) => RequestView::PhoneRegister(reg@),
            RadxaRequest::KodiCommand(command) => RequestView::KodiCommand(command@),
            RadxaRequest::KodiJsonRpc(method, params) => RequestView::KodiJsonRpc(
                method@,
                text::text_in(params),
            ),
            RadxaRequest::ProxyList(path) => RequestView::ProxyList(path@),
        }
    }
}

/// What is to be done for a request.
#[derive(Debug)]
pub enum RequestStep {
    /// The request is answered with this text.
    Reply(String),
    /// Kodi is called, or asked what is played and then called.
    Kodi(KodiPlan),
    /// This phone is sent this request; its reply is then passed on.
    AskPhone(PhoneSession, String),
}

/// The model of what is to be done for a request.
#[verifier::ext_equal]
pub enum RequestStepView {
    Reply(Seq<char>),
    Kodi(PlanView),
    AskPhone(PhoneView, Seq<char>),
}

impl View for RequestStep {
    type V = RequestStepView;

    open spec fn view(&self) -> RequestStepView {
        match *self {
            RequestStep::Reply(s) => RequestStepView::Reply(s@),
            RequestStep::Kodi(plan) => RequestStepView::Kodi(plan@),
            RequestStep::AskPhone(phone, request) => RequestStepView::AskPhone(
                phone@,
                request@,
            ),
        }
    }
}

/// The phone whose files a folder holds, once lost phones were taken out.
pub open spec fn folder_phone(s: RegistryView, folder: Seq<char>) -> Option<PhoneView> {
    match registry::in_folder(s.phones, folder, 0) {
        Some(p) => Some(p),
        None => registry::with_id(s.phones, folder),
    }
}

/// Whether `step` is what is to be done for a request for a list of a directory.
pub open spec fn lists(s: RegistryView, path: Seq<char>, now: u64, step: RequestStepView) -> bool {
    let names = media_path::media_names(media_path::without_ftp_server(text::trimmed(path)));
    let kept = registry::without_stale(s, now);
    if names.len() == 0 {
        exists|phones: Seq<PhoneView>| #[trigger]
            registry::by_name(registry::shown(kept, now), phones) && step
                == RequestStepView::Reply(folders_reply_text(phones))
    } else {
        step == match folder_phone(kept, names[0]) {
            Some(p) => RequestStepView::AskPhone(
                p,
                list_request_text(media_path::path_of_names(names.skip(1))),
            ),
            None => RequestStepView::Reply(error_reply_text(phone_gone_text(names[0]))),
        }
    }
}

/// Answers a request for a list of a directory: the folders of the phones at the root, and else
/// what the phone says.
pub fn proxy_list(phones: &mut PhoneRegistry, raw_path: &str, now: u64) -> (r: RequestStep)
    ensures
        final(phones)@ == registry::without_stale(old(phones)@, now),
        lists(old(phones)@, raw_path@, now, r@),
{
    let path = media_path::normalize_proxy_path(raw_path);
    let ghost inner = media_path::without_ftp_server(text::trimmed(raw_path@));
    let ghost names = media_path::media_names(inner);
    proof {
        assert(path@ == media_path::normalized(inner));
        media_path::lemma_media_names(inner);
        media_path::lemma_names_of_path(names);
        lemma_root_has_no_names(names);
    }
    if text::same(&path, "/") {
        let shown = phones.list(now);
        return RequestStep::Reply(folders_reply(&shown));
    }
    match media_path::split_proxy_path(&path) {
        Ok((folder, target)) => {
            match phones.get_by_folder(&folder, now) {
                Some(phone) => RequestStep::AskPhone(phone, media_list_request(&target)),
                None => RequestStep::Reply(error_reply(&phone_gone(&folder))),
            }
        },
        Err(_) => RequestStep::Reply(error_reply(NO_PHONE_IN_PATH)),
    }
}

/// The path of names is the root exactly where there are none.
proof fn lemma_root_has_no_names(names: Seq<Seq<char>>)
    requires
        forall|i: int| 0 <= i < names.len() ==> media_path::is_name(#[trigger] names[i]),
    ensures
        media_path::path_of_names(names) == "/"@ <==> names.len() == 0,
{
    reveal_strlit("/");
    assert("/"@ =~= seq!['/']);
    if names.len() == 0 {
        assert(media_path::path_of_names(names) =~= "/"@);
    } else {
        lemma_joined_longer(names, seq!['/']);
        assert(media_path::is_name(names[0]));
    }
}

/// Joined names are at least as long as the first.
proof fn lemma_joined_longer(p: Seq<Seq<char>>, sep: Seq<char>)
    requires
        p.len() > 0,
    ensures
        text::joined(p, sep).len() >= p[0].len(),
    decreases p.len(),
{
    if p.len() > 1 {
        lemma_joined_longer(p.drop_last(), sep);
    }
}

/// Whether `step` is what is to be done for a request, and `t` what the phones are then.
pub open spec fn handles(
    s: RegistryView,
    request: RequestView,
    connection: u64,
    now: u64,
    t: RegistryView,
    step: RequestStepView,
) -> bool {
    match request {
        RequestView::PhoneRegister(reg) => {
            &&& t == registry::registered(s, reg, connection, now)
            &&& step == RequestStepView::Reply(
                if registry::refused(s, reg) {
                    ADMIN_REFUSED_REPLY@
                } else {
                    OK_REPLY@
                },
            )
        },
        RequestView::KodiCommand(command) => {
            &&& t == s
            &&& step == match kodi::plan_of(command) {
                Some(plan) => RequestStepView::Kodi(plan),
                None => RequestStepView::Reply(
                    error_reply_text(
                        "commande inconnue: "@ + text::ascii_upper(text::trimmed(command)),
                    ),
                ),
            }
        },
        RequestView::KodiJsonRpc(method, params) => {
            &&& t == s
            &&& step == RequestStepView::Kodi(PlanView::Call(kodi::given_call(method, params)))
        },
        RequestView::ProxyList(path) => {
            &&& t == registry::without_stale(s, now)
            &&& lists(s, path, now, step)
        },
    }
}

/// Begins to answer a request that came in over a connection.
pub fn handle_webtransport_client(
    phones: &mut PhoneRegistry,
    request: RadxaRequest,
    connection: u64,
    now: u64,
) -> (r: RequestStep)
    ensures
        handles(old(phones)@, request@, connection, now, final(phones)@, r@),
{
    match request {
        RadxaRequest::PhoneRegister(registration) => {
            match phones.register(registration, connection, now) {
                Ok(_) => RequestStep::Reply(OK_REPLY.to_string()),
                Err(_) => RequestStep::Reply(ADMIN_REFUSED_REPLY.to_string()),
            }
        },
        RadxaRequest::KodiCommand(command) => match kodi::run_kodi_command(&command) {
            Ok(plan) => RequestStep::Kodi(plan),
            Err(message) => RequestStep::Reply(error_reply(&message)),
        },
        RadxaRequest::KodiJsonRpc(method, params) => RequestStep::Kodi(
            KodiPlan::Call(kodi::kodi_json_rpc(&method, params)),
        ),
        RadxaRequest::ProxyList(path) => proxy_list(phones, &path, now),
    }
}

/// The reply that passes on what a phone said of a directory.
pub open spec fn phone_listing_text(reply: ResponseView) -> Seq<char> {
    if reply.ok == Some(false) {
        error_reply_text(
            match reply.error {
                Some(e) => e,
                None => "erreur telephone"@,
            },
        )
    } else {
        entries_reply_text(real_entries(reply))
    }
}

/// The reply that passes on what a phone said of a directory.
pub fn phone_listing(response: PhoneResponse) -> (r: String)
    ensures
        r@ == phone_listing_text(response@),
{
    match phone_json_request(response) {
        Ok(reply) => entries_reply(&listed_entries(reply)),
        Err(message) => error_reply(&message),
    }
}

// ---------------------------------------------------------------------------
// Laws
// ---------------------------------------------------------------------------

/// A phone that asks in vain for the role of the administrator is told so, and nothing changes.
pub proof fn law_refused_phone_is_told(
    s: RegistryView,
    reg: RegisterView,
    connection: u64,
    now: u64,
    t: RegistryView,
    step: RequestStepView,
)
    requires
        registry::refused(s, reg),
        handles(s, RequestView::PhoneRegister(reg), connection, now, t, step),
    ensures
        t == s,
        step == RequestStepView::Reply(ADMIN_REFUSED_REPLY@),
{
}

/// What a phone says of why it could not list a directory is what the one who asked is told.
pub proof fn law_refusal_is_passed_on(reply: ResponseView, reason: Seq<char>)
    requires
        reply.ok == Some(false),
        reply.error == Some(reason),
    ensures
        phone_listing_text(reply) == error_reply_text(reason),
{
}

/// A listing shows every entry that the phone named but the directory itself and its parent, and
/// no other.
pub proof fn law_listing_is_complete(reply: ResponseView, entries: Seq<PhoneEntryView>)
    requires
        reply.entries == Some(entries),
    ensures
        forall|e: PhoneEntryView|
            #[trigger] real_entries(reply).contains(e) <==> entries.contains(e) && e.name != "."@
                && e.name != ".."@,
{
    let keep = |e: PhoneEntryView| real_name(e.name);
    text::lemma_filter_members(entries, keep);
    assert forall|e: PhoneEntryView| entries.contains(e) && real_name(e.name) implies #[trigger] real_entries(
        reply,
    ).contains(e) by {
        entries.lemma_filter_contains(keep, entries.index_of(e));
    }
    assert forall|e: PhoneEntryView| #[trigger] real_entries(reply).contains(e) implies entries.contains(e)
        && real_name(e.name) by {
        let i = choose|i: int| 0 <= i < entries.filter(keep).len() && entries.filter(keep)[i] == e;
        assert(keep(entries.filter(keep)[i]));
    }
}

/// A path below the folder of a phone is asked of that phone, by the names behind the folder; the
/// path is one without white space at its ends, which is cut off, and the folder is that of no
/// other phone.
pub proof fn law_folder_is_asked_of_its_phone(
    s: RegistryView,
    k: int,
    names: Seq<Seq<char>>,
    now: u64,
    step: RequestStepView,
)
    requires
        0 <= k < s.phones.len(),
        registry::connected(s.phones[k], now),
        forall|j: int|
            0 <= j < s.phones.len() && j != k ==> (#[trigger] s.phones[j]).folder_name
                != s.phones[k].folder_name,
        names.len() > 0,
        names[0] == s.phones[k].folder_name,
        forall|i: int|
            0 <= i < names.len() ==> media_path::is_name(#[trigger] names[i]) && text::free_of(
                names[i],
                CharSet::Pair('/', '\\'),
            ),
        text::trimmed(media_path::path_of_names(names)) == media_path::path_of_names(names),
    ensures
        lists(s, media_path::path_of_names(names), now, step) <==> step
            == RequestStepView::AskPhone(
            s.phones[k],
            list_request_text(media_path::path_of_names(names.skip(1))),
        ),
{
    let path = media_path::path_of_names(names);
    reveal_strlit("ftp://127.0.0.1:2120");
    reveal_strlit("ftp://localhost:2120");
    assert(path[0] == '/');
    assert(media_path::without_ftp_server(path) == path) by {
        assert forall|pat: Seq<char>| pat.len() > 0 && pat[0] == 'f' implies !#[trigger] text::begins(
            path,
            pat,
        ) by {
            if text::begins(path, pat) {
                assert(path.subrange(0, pat.len() as int)[0] == path[0]);
            }
        }
    }
    media_path::lemma_names_of_path(names);
    registry::law_folder_leads_to_phone(s, k, now);
}

/// A request to a phone names its kind, the version of the protocol and the path, and a request
/// for bytes also where they start.
pub proof fn law_requests_name_path(path: Seq<char>, start: nat)
    ensures
        list_request_text(path) == "{\"type\":\"media.list\",\"protocolVersion\":1,\"path\":"@
            + json::quoted(path) + "}"@,
        stat_request_text(path) == "{\"type\":\"media.stat\",\"protocolVersion\":1,\"path\":"@
            + json::quoted(path) + "}"@,
        get_request_text(path, start)
            == "{\"type\":\"media.get\",\"protocolVersion\":1,\"path\":"@ + json::quoted(path)
            + ",\"start\":"@ + numbers::dec(start) + "}"@,
{
    reveal_strlit("{\"type\":\"");
    reveal_strlit("\",\"protocolVersion\":");
    reveal_strlit("1");
    reveal_strlit(",\"path\":");
    reveal_strlit("media.list");
    reveal_strlit("media.stat");
    reveal_strlit("media.get");
    reveal_strlit("{\"type\":\"media.list\",\"protocolVersion\":1,\"path\":");
    reveal_strlit("{\"type\":\"media.stat\",\"protocolVersion\":1,\"path\":");
    reveal_strlit("{\"type\":\"media.get\",\"protocolVersion\":1,\"path\":");
    let a = "{\"type\":\"media.list\",\"protocolVersion\":1,\"path\":"@;
    let b = "{\"type\":\"media.stat\",\"protocolVersion\":1,\"path\":"@;
    let c = "{\"type\":\"media.get\",\"protocolVersion\":1,\"path\":"@;
    assert(a =~= "{\"type\":\""@ + "media.list"@ + "\",\"protocolVersion\":"@ + "1"@
        + ",\"path\":"@);
    assert(b =~= "{\"type\":\""@ + "media.stat"@ + "\",\"protocolVersion\":"@ + "1"@
        + ",\"path\":"@);
    assert(c =~= "{\"type\":\""@ + "media.get"@ + "\",\"protocolVersion\":"@ + "1"@
        + ",\"path\":"@);
}

/// The entries of a listing stand in the order in which the phone named them: a further one comes
/// last, unless it is the directory itself or its parent.
pub proof fn law_entries_follow_reply(
    reply: ResponseView,
    entries: Seq<PhoneEntryView>,
    e: PhoneEntryView,
)
    ensures
        real_entries(ResponseView { entries: None, ..reply }).len() == 0,
        e.name != "."@ && e.name != ".."@ ==> real_entries(
            ResponseView { entries: Some(entries.push(e)), ..reply },
        ) == real_entries(ResponseView { entries: Some(entries), ..reply }).push(e),
        e.name == "."@ || e.name == ".."@ ==> real_entries(
            ResponseView { entries: Some(entries.push(e)), ..reply },
        ) == real_entries(ResponseView { entries: Some(entries), ..reply }),
{
    text::lemma_filter_push(entries, e, |x: PhoneEntryView| real_name(x.name));
}

/// A listing without entries, with one, and with one more behind others.
pub proof fn law_listing_grows(entries: Seq<PhoneEntryView>, e: PhoneEntryView)
    ensures
        entries_reply_text(Seq::empty()) == "{\"entries\":[],\"ok\":true}"@,
        entries_reply_text(seq![e]) == "{\"entries\":["@ + entry_text(e) + "],\"ok\":true}"@,
        entries.len() > 0 ==> ({
            let before = text::joined(
                entries.map_values(|x: PhoneEntryView| entry_text(x)),
                ","@,
            );
            &&& entries_reply_text(entries) == "{\"entries\":["@ + before + "],\"ok\":true}"@
            &&& entries_reply_text(entries.push(e)) == "{\"entries\":["@ + (before + ","@
                + entry_text(e)) + "],\"ok\":true}"@
        }),
        e.is_directory ==> entry_text(e) == "{\"isDirectory\":true,\"name\":"@ + json::quoted(
            e.name,
        ) + ",\"size\":"@ + numbers::dec(e.size as nat) + "}"@,
        !e.is_directory ==> entry_text(e) == "{\"isDirectory\":false,\"name\":"@ + json::quoted(
            e.name,
        ) + ",\"size\":"@ + numbers::dec(e.size as nat) + "}"@,
{
    reveal_strlit("{\"entries\":[");
    reveal_strlit("],\"ok\":true}");
    reveal_strlit("{\"entries\":[],\"ok\":true}");
    reveal_strlit("{\"isDirectory\":");
    reveal_strlit("true");
    reveal_strlit("false");
    reveal_strlit(",\"name\":");
    reveal_strlit("{\"isDirectory\":true,\"name\":");
    reveal_strlit("{\"isDirectory\":false,\"name\":");
    let f = |x: PhoneEntryView| entry_text(x);
    let none = Seq::<PhoneEntryView>::empty().map_values(f);
    assert(none.len() == 0);
    assert(entries_reply_text(Seq::empty()) =~= "{\"entries\":[],\"ok\":true}"@);
    assert(seq![e].map_values(f) =~= seq![entry_text(e)]);
    assert(entries.push(e).map_values(f) =~= entries.map_values(f).push(entry_text(e)));
    assert(entries.map_values(f).push(entry_text(e)).drop_last() =~= entries.map_values(f));
    assert("{\"isDirectory\":true,\"name\":"@ =~= "{\"isDirectory\":"@ + "true"@
        + ",\"name\":"@);
    assert("{\"isDirectory\":false,\"name\":"@ =~= "{\"isDirectory\":"@ + "false"@
        + ",\"name\":"@);
}

/// The root lists a folder for each phone that is shown, by the name that is shown for it; a folder
/// of no phone is answered with an error that names it.
pub proof fn law_root_lists_shown_phones(
    s: RegistryView,
    path: Seq<char>,
    now: u64,
    step: RequestStepView,
)
    requires
        lists(s, path, now, step),
    ensures
        ({
            let names = media_path::media_names(media_path::without_ftp_server(text::trimmed(path)));
            let kept = registry::without_stale(s, now);
            &&& names.len() == 0 ==> exists|phones: Seq<PhoneView>|
                #[trigger] registry::by_name(registry::shown(kept, now), phones) && step
                    == RequestStepView::Reply(
                    listing_text(phones.map_values(|p: PhoneView| folder_text(p))),
                )
            &&& names.len() > 0 && registry::in_folder(kept.phones, names[0], 0) is None
                && registry::with_id(kept.phones, names[0]) is None ==> step
                == RequestStepView::Reply(
                error_reply_text("telephone WebTransport indisponible: "@ + names[0]),
            )
            &&& names.len() > 0 ==> (registry::in_folder(kept.phones, names[0], 0) matches Some(p)
                ==> step == RequestStepView::AskPhone(
                p,
                list_request_text(media_path::path_of_names(names.skip(1))),
            ))
        }),
{
}

/// What a path asks for: the root, or what the names behind the folder of a phone name on it.
pub proof fn law_target_of_path(names: Seq<Seq<char>>)
    requires
        forall|i: int|
            0 <= i < names.len() ==> media_path::is_name(#[trigger] names[i]) && text::free_of(
                names[i],
                CharSet::Only('/'),
            ),
    ensures
        names.len() == 0 ==> ftp_target_of(media_path::path_of_names(names)) == Ok::<_, PathError>(
            TargetView::Root,
        ),
        names.len() > 0 ==> ftp_target_of(media_path::path_of_names(names)) == Ok::<_, PathError>(
            TargetView::Phone {
                folder: names[0],
                path: media_path::path_of_names(names.skip(1)),
            },
        ),
        ftp_target_of(Seq::empty()) == Ok::<_, PathError>(TargetView::Root),
{
    media_path::law_components_of_path(names);
}

/// A folder is that of the phone with that folder name, and else of the phone with that identifier.
pub proof fn law_phone_of_folder(s: RegistryView, folder: Seq<char>)
    ensures
        registry::in_folder(s.phones, folder, 0) matches Some(p) ==> folder_phone(s, folder) == Some(
            p,
        ),
        registry::in_folder(s.phones, folder, 0) is None ==> folder_phone(s, folder)
            == registry::with_id(s.phones, folder),
        folder_phone(s, folder) matches Some(p) ==> p.folder_name == folder || p.id == folder,
        folder_phone(s, folder) is None ==> forall|k: int|
            0 <= k < s.phones.len() ==> (#[trigger] s.phones[k]).folder_name != folder
                && s.phones[k].id != folder,
{
    registry::law_phones_are_found(s.phones, folder);
}

} // verus!
