//! Commands for Kodi, and its answers.
//!
//! Kodi is spoken to in JSON-RPC over HTTP. A command stands for one call, or for a question about
//! what is being played and then a call that depends on the answer.
use vstd::prelude::*;
use vstd::utf8::*;

use crate::encoding;
use crate::http_client::{BodyError, BodyErrorView};
use crate::http_client;
use crate::json::{Json, JsonView};
use crate::json;
use crate::numbers;
use crate::text::CharSet;
use crate::text;

verus! {

/// Where Kodi is, unless configured otherwise.
pub const DEFAULT_KODI_HOST: &'static str = "127.0.0.1";

/// The port of Kodi, unless configured otherwise.
pub const DEFAULT_KODI_PORT: u16 = 8080;

/// How Kodi is reached.
#[derive(Debug)]
pub struct KodiConfig {
    /// The host.
    pub host: String,
    /// The port.
    pub port: u16,
    /// The name of the user, where there is one.
    pub username: Option<String>,
    /// The password of the user.
    pub password: String,
}

/// The model of how Kodi is reached.
#[verifier::ext_equal]
pub struct KodiConfigView {
    pub host: Seq<char>,
    pub port: u16,
    pub username: Option<Seq<char>>,
    pub password: Seq<char>,
}

impl View for KodiConfig {
    type V = KodiConfigView;

    open spec fn view(&self) -> KodiConfigView {
        KodiConfigView {
            host: self.host@,
            port: self.port,
            username: text::text_in(self.username),
            password: self.password@,
        }
    }
}

impl Clone for KodiConfig {
    fn clone(&self) -> (r: Self)
        ensures
            r == *self,
    {
        KodiConfig {
            host: self.host.clone(),
            port: self.port,
            username: self.username.clone(),
            password: self.password.clone(),
        }
    }
}

/// How Kodi is reached, by what is configured: a port that is no number is not used, and a name
/// that is blank is none.
pub open spec fn configured(
    host: Option<Seq<char>>,
    port: Option<Seq<char>>,
    username: Option<Seq<char>>,
    password: Option<Seq<char>>,
) -> KodiConfigView {
    KodiConfigView {
        host: match host {
            Some(h) => h,
            None => DEFAULT_KODI_HOST@,
        },
        port: match port {
            Some(p) => match numbers::parse_uint(p, 10, u16::MAX as nat) {
                Some(n) => n as u16,
                None => DEFAULT_KODI_PORT,
            },
            None => DEFAULT_KODI_PORT,
        },
        username: match username {
            Some(u) if text::trimmed(u).len() > 0 => Some(text::trimmed(u)),
            _ => None,
        },
        password: match password {
            Some(p) => p,
            None => Seq::empty(),
        },
    }
}

impl KodiConfig {
    /// How Kodi is reached, by what is configured.
    pub fn new(
        host: Option<String>,
        port: Option<String>,
        username: Option<String>,
        password: Option<String>,
    ) -> (r: Self)
        ensures
            r@ == configured(
                text::text_in(host),
                text::text_in(port),
                text::text_in(username),
                text::text_in(password),
            ),
    {
        let host_text = match host {
            Some(h) => h,
            None => DEFAULT_KODI_HOST.to_string(),
        };
        let port_number: u16 = match port {
            Some(p) => match numbers::parse_u16(&p) {
                Some(n) => n,
                None => DEFAULT_KODI_PORT,
            },
            None => DEFAULT_KODI_PORT,
        };
        let user = match username {
            Some(u) => {
                let trimmed = text::trim(&u);
                if trimmed.as_str().is_empty() {
                    None
                } else {
                    Some(trimmed)
                }
            },
            None => None,
        };
        let secret = match password {
            Some(p) => p,
            None => String::new(),
        };
        KodiConfig { host: host_text, port: port_number, username: user, password: secret }
    }
}

// ---------------------------------------------------------------------------
// Calls
// ---------------------------------------------------------------------------

/// The value of the header with which the user is named.
pub open spec fn authorization(kodi: KodiConfigView) -> Option<Seq<char>> {
    match kodi.username {
        Some(user) => Some(
            "Basic "@ + encoding::base64(encode_utf8(user + ":"@ + kodi.password)),
        ),
        None => None,
    }
}

/// The value of the header with which the user is named.
pub fn kodi_authorization_header(kodi: &KodiConfig) -> (r: Option<String>)
    ensures
        text::text_in(r) == authorization(kodi@),
{
    match &kodi.username {
        Some(user) => {
            let pair = text::concat3(user, ":", &kodi.password);
            let encoded = encoding::base64_encode(pair.as_str().as_bytes());
            Some(text::concat2("Basic ", &encoded))
        },
        None => None,
    }
}

/// A call: its method, and its parameters as JSON text, where it has any.
#[derive(Debug)]
pub struct KodiCall {
    /// The method.
    pub method: String,
    /// The parameters.
    pub params: Option<String>,
}

/// The model of a call.
#[verifier::ext_equal]
pub struct CallView {
    pub method: Seq<char>,
    pub params: Option<Seq<char>>,
}

impl View for KodiCall {
    type V = CallView;

    open spec fn view(&self) -> CallView {
        CallView { method: self.method@, params: text::text_in(self.params) }
    }
}

/// The JSON text of a call.
pub open spec fn payload(call: CallView) -> Seq<char> {
    let start = "{\"id\":\"troozn-webtransport\",\"jsonrpc\":\"2.0\",\"method\":"@ + json::quoted(
        call.method,
    );
    match call.params {
        Some(params) => start + ",\"params\":"@ + params + "}"@,
        None => start + "}"@,
    }
}

/// The request with which a call is sent.
pub open spec fn request_text(kodi: KodiConfigView, call: CallView) -> Seq<char> {
    let body = payload(call);
    "POST /jsonrpc HTTP/1.1\r\nHost: "@ + kodi.host + ":"@ + numbers::dec(kodi.port as nat)
        + "\r\n"@ + (match authorization(kodi) {
        Some(value) => "Authorization: "@ + value + "\r\n"@,
        None => Seq::empty(),
    }) + "Content-Type: application/json\r\nContent-Length: "@ + numbers::dec(
        encode_utf8(body).len(),
    ) + "\r\nConnection: close\r\n\r\n"@ + body
}

impl KodiCall {
    /// The JSON text of the call.
    pub fn payload(&self) -> (r: String)
        ensures
            r@ == payload(self@),
    {
        let mut r = "{\"id\":\"troozn-webtransport\",\"jsonrpc\":\"2.0\",\"method\":".to_string();
        r.push_str(&json::quote(&self.method));
        match &self.params {
            Some(params) => {
                r.push_str(",\"params\":");
                r.push_str(params);
            },
            None => {},
        }
        r.push_str("}");
        r
    }

    /// The request with which the call is sent.
    pub fn request(&self, kodi: &KodiConfig) -> (r: String)
        ensures
            r@ == request_text(kodi@, self@),
    {
        let body = self.payload();
        let mut r = "POST /jsonrpc HTTP/1.1\r\nHost: ".to_string();
        r.push_str(&kodi.host);
        r.push_str(":");
        r.push_str(&numbers::decimal(kodi.port as u64));
        r.push_str("\r\n");
        let auth = match kodi_authorization_header(kodi) {
            Some(value) => text::concat3("Authorization: ", &value, "\r\n"),
            None => String::new(),
        };
        r.push_str(&auth);
        r.push_str("Content-Type: application/json\r\nContent-Length: ");
        r.push_str(&numbers::decimal(text::byte_len(&body) as u64));
        r.push_str("\r\nConnection: close\r\n\r\n");
        r.push_str(&body);
        r
    }
}

/// A call of a method with parameters that the caller gives as JSON text; `null` stands for
/// none.
pub open spec fn given_call(method: Seq<char>, params: Option<Seq<char>>) -> CallView {
    CallView {
        method,
        params: match params {
            Some(p) if p != "null"@ => Some(p),
            _ => None,
        },
    }
}

/// A call of a method with parameters that the caller gives as JSON text.
pub fn kodi_json_rpc(method: &str, params: Option<String>) -> (r: KodiCall)
    ensures
        r@ == given_call(method@, text::text_in(params)),
{
    let given = match params {
        Some(p) => {
            if text::same(&p, "null") {
                None
            } else {
                Some(p)
            }
        },
        None => None,
    };
    KodiCall { method: method.to_string(), params: given }
}

// ---------------------------------------------------------------------------
// Commands
// ---------------------------------------------------------------------------

/// What is done with what is being played.
#[derive(Clone, Copy, Debug, PartialEq, Eq, Structural)]
pub enum PlayerCommand {
    /// It is paused, or goes on; where nothing is played, music starts.
    PlayPause,
    /// It stops.
    Stop,
    /// The next item is played.
    Next,
    /// The previous item is played.
    Previous,
    /// It goes on a little later.
    Forward,
    /// It goes on a little earlier.
    Backward,
}

/// What a command asks for.
#[derive(Debug)]
pub enum KodiPlan {
    /// A call.
    Call(KodiCall),
    /// A question about what is being played, and then a call.
    Player(PlayerCommand),
}

/// The model of what a command asks for.
#[verifier::ext_equal]
pub enum PlanView {
    Call(CallView),
    Player(PlayerCommand),
}

impl View for KodiPlan {
    type V = PlanView;

    open spec fn view(&self) -> PlanView {
        match *self {
            KodiPlan::Call(call) => PlanView::Call(call@),
            KodiPlan::Player(command) => PlanView::Player(command),
        }
    }
}

/// The method of a command that needs no player.
pub open spec fn input_method(c: Seq<char>) -> Option<Seq<char>> {
    if c == "CMD_UP"@ {
        Some("Input.Up"@)
    } else if c == "CMD_DOWN"@ {
        Some("Input.Down"@)
    } else if c == "CMD_LEFT"@ {
        Some("Input.Left"@)
    } else if c == "CMD_RIGHT"@ {
        Some("Input.Right"@)
    } else if c == "CMD_SELECT"@ {
        Some("Input.Select"@)
    } else if c == "CMD_BACK"@ {
        Some("Input.Back"@)
    } else if c == "CMD_HOME"@ {
        Some("Input.Home"@)
    } else {
        None
    }
}

/// The command that is about what is being played.
pub open spec fn player_command_of(c: Seq<char>) -> Option<PlayerCommand> {
    if c == "CMD_PLAY_PAUSE"@ || c == "CMD_PLAYPAUSE"@ {
        Some(PlayerCommand::PlayPause)
    } else if c == "CMD_STOP"@ {
        Some(PlayerCommand::Stop)
    } else if c == "CMD_NEXT"@ {
        Some(PlayerCommand::Next)
    } else if c == "CMD_PREVIOUS"@ || c == "CMD_PREV"@ {
        Some(PlayerCommand::Previous)
    } else if c == "CMD_SEEK_FORWARD"@ || c == "CMD_FORWARD"@ {
        Some(PlayerCommand::Forward)
    } else if c == "CMD_SEEK_BACKWARD"@ || c == "CMD_REWIND"@ || c == "CMD_BACKWARD"@ {
        Some(PlayerCommand::Backward)
    } else {
        None
    }
}

/// What a command asks for, in capitals or not; nothing where it is unknown.
pub open spec fn plan_of(command: Seq<char>) -> Option<PlanView> {
    let c = text::ascii_upper(text::trimmed(command));
    match input_method(c) {
        Some(method) => Some(PlanView::Call(CallView { method, params: None })),
        None => match player_command_of(c) {
            Some(player) => Some(PlanView::Player(player)),
            None => None,
        },
    }
}

/// The method of a command that needs no player.
fn find_input_method(c: &str) -> (r: Option<&'static str>)
    ensures
        match r {
            Some(method) => input_method(c@) == Some(method@),
            None => input_method(c@) is None,
        },
{
    if text::same(c, "CMD_UP") {
        Some("Input.Up")
    } else if text::same(c, "CMD_DOWN") {
        Some("Input.Down")
    } else if text::same(c, "CMD_LEFT") {
        Some("Input.Left")
    } else if text::same(c, "CMD_RIGHT") {
        Some("Input.Right")
    } else if text::same(c, "CMD_SELECT") {
        Some("Input.Select")
    } else if text::same(c, "CMD_BACK") {
        Some("Input.Back")
    } else if text::same(c, "CMD_HOME") {
        Some("Input.Home")
    } else {
        None
    }
}

/// The command that is about what is being played.
fn find_player_command(c: &str) -> (r: Option<PlayerCommand>)
    ensures
        r == player_command_of(c@),
{
    if text::same(c, "CMD_PLAY_PAUSE") || text::same(c, "CMD_PLAYPAUSE") {
        Some(PlayerCommand::PlayPause)
    } else if text::same(c, "CMD_STOP") {
        Some(PlayerCommand::Stop)
    } else if text::same(c, "CMD_NEXT") {
        Some(PlayerCommand::Next)
    } else if text::same(c, "CMD_PREVIOUS") || text::same(c, "CMD_PREV") {
        Some(PlayerCommand::Previous)
    } else if text::same(c, "CMD_SEEK_FORWARD") || text::same(c, "CMD_FORWARD") {
        Some(PlayerCommand::Forward)
    } else if text::same(c, "CMD_SEEK_BACKWARD") || text::same(c, "CMD_REWIND") || text::same(
        c,
        "CMD_BACKWARD",
    ) {
        Some(PlayerCommand::Backward)
    } else {
        None
    }
}

/// What a command asks for, or what is said of an unknown one.
pub fn run_kodi_command(command: &str) -> (r: Result<KodiPlan, String>)
    ensures
        match r {
            Ok(plan) => plan_of(command@) == Some(plan@),
            Err(message) => plan_of(command@) is None && message@ == "commande inconnue: "@
                + text::ascii_upper(text::trimmed(command@)),
        },
{
    let c = text::to_ascii_upper(&text::trim(command));
    match find_input_method(&c) {
        Some(method) => Ok(KodiPlan::Call(KodiCall { method: method.to_string(), params: None })),
        None => match find_player_command(&c) {
            Some(player) => Ok(KodiPlan::Player(player)),
            None => Err(text::concat2("commande inconnue: ", &c)),
        },
    }
}

/// The question about what is being played.
pub fn active_players_call() -> (r: KodiCall)
    ensures
        r@ == (CallView { method: "Player.GetActivePlayers"@, params: None }),
{
    KodiCall { method: "Player.GetActivePlayers".to_string(), params: None }
}

/// The number of the first player in the answer to the question about what is being played.
pub open spec fn first_player(answer: JsonView) -> Option<i64> {
    match answer.list_at("result"@) {
        Some(players) => if players.len() == 0 {
            None
        } else {
            match players[0].get("playerid"@) {
                Some(JsonView::Number(n)) => n.signed,
                _ => None,
            }
        },
        None => None,
    }
}

/// The number of the first player in the answer to the question about what is being played.
pub fn active_player_id(answer: &Json) -> (r: Option<i64>)
    ensures
        r == first_player(answer@),
{
    match answer.list_at("result") {
        Some(players) => {
            proof {
                assert(json::views(players@).len() == players@.len());
            }
            if players.len() == 0 {
                return None;
            }
            proof {
                assert(json::views(players@)[0] == players@[0]@);
            }
            match players[0].get("playerid") {
                Some(value) => value.signed(),
                None => None,
            }
        },
        None => None,
    }
}

/// The call for a command about the player with a number.
pub open spec fn player_call(command: PlayerCommand, player: int) -> CallView {
    let id = numbers::signed_dec(player);
    match command {
        PlayerCommand::PlayPause => CallView {
            method: "Player.PlayPause"@,
            params: Some("{\"play\":\"toggle\",\"playerid\":"@ + id + "}"@),
        },
        PlayerCommand::Stop => CallView {
            method: "Player.Stop"@,
            params: Some("{\"playerid\":"@ + id + "}"@),
        },
        PlayerCommand::Next => CallView {
            method: "Player.GoTo"@,
            params: Some("{\"playerid\":"@ + id + ",\"to\":\"next\"}"@),
        },
        PlayerCommand::Previous => CallView {
            method: "Player.GoTo"@,
            params: Some("{\"playerid\":"@ + id + ",\"to\":\"previous\"}"@),
        },
        PlayerCommand::Forward => CallView {
            method: "Player.Seek"@,
            params: Some("{\"playerid\":"@ + id + ",\"value\":{\"step\":\"smallforward\"}}"@),
        },
        PlayerCommand::Backward => CallView {
            method: "Player.Seek"@,
            params: Some("{\"playerid\":"@ + id + ",\"value\":{\"step\":\"smallbackward\"}}"@),
        },
    }
}

/// The call for a command about what is being played; where nothing is, music starts or there is
/// none.
pub open spec fn call_for_player(command: PlayerCommand, player: Option<i64>) -> Option<CallView> {
    match player {
        Some(id) => Some(player_call(command, id as int)),
        None => if command == PlayerCommand::PlayPause {
            Some(
                CallView {
                    method: "Player.Open"@,
                    params: Some("{\"item\":{\"partymode\":\"music\"}}"@),
                },
            )
        } else {
            None
        },
    }
}

/// The call for a command about what is being played, or what is said where nothing is.
pub fn player_command(command: PlayerCommand, player: Option<i64>) -> (r: Result<KodiCall, String>)
    ensures
        match r {
            Ok(call) => call_for_player(command, player) == Some(call@),
            Err(message) => call_for_player(command, player) is None && message@
                == "aucune lecture active"@,
        },
{
    let id = match player {
        Some(id) => numbers::signed_decimal(id),
        None => {
            return match command {
                PlayerCommand::PlayPause => Ok(
                    KodiCall {
                        method: "Player.Open".to_string(),
                        params: Some("{\"item\":{\"partymode\":\"music\"}}".to_string()),
                    },
                ),
                _ => Err("aucune lecture active".to_string()),
            };
        },
    };
    let (method, start, end) = match command {
        PlayerCommand::PlayPause => (
            "Player.PlayPause",
            "{\"play\":\"toggle\",\"playerid\":",
            "}",
        ),
        PlayerCommand::Stop => ("Player.Stop", "{\"playerid\":", "}"),
        PlayerCommand::Next => ("Player.GoTo", "{\"playerid\":", ",\"to\":\"next\"}"),
        PlayerCommand::Previous => ("Player.GoTo", "{\"playerid\":", ",\"to\":\"previous\"}"),
        PlayerCommand::Forward => (
            "Player.Seek",
            "{\"playerid\":",
            ",\"value\":{\"step\":\"smallforward\"}}",
        ),
        PlayerCommand::Backward => (
            "Player.Seek",
            "{\"playerid\":",
            ",\"value\":{\"step\":\"smallbackward\"}}",
        ),
    };
    Ok(KodiCall { method: method.to_string(), params: Some(text::concat3(start, &id, end)) })
}

// ---------------------------------------------------------------------------
// Answers
// ---------------------------------------------------------------------------

/// Why there is no answer.
#[derive(Debug)]
pub enum KodiError {
    /// The HTTP answer has no body.
    Body(BodyError),
    /// The body is not UTF-8.
    NotUtf8,
    /// The body is not JSON; with its start.
    NotJson(String),
}

/// The model of why there is no answer.
#[verifier::ext_equal]
pub enum KodiErrorView {
    Body(BodyErrorView),
    NotUtf8,
    NotJson(Seq<char>),
}

impl View for KodiError {
    type V = KodiErrorView;

    open spec fn view(&self) -> KodiErrorView {
        match *self {
            KodiError::Body(e) => KodiErrorView::Body(e@),
            KodiError::NotUtf8 => KodiErrorView::NotUtf8,
            KodiError::NotJson(start) => KodiErrorView::NotJson(start@),
        }
    }
}

impl KodiErrorView {
    /// What is said of the error.
    pub open spec fn text(self) -> Seq<char> {
        match self {
            KodiErrorView::Body(_) => "reponse HTTP Kodi invalide"@,
            KodiErrorView::NotUtf8 => "reponse Kodi non UTF-8"@,
            KodiErrorView::NotJson(start) => "JSON-RPC Kodi invalide: "@ + start,
        }
    }
}

impl KodiError {
    /// What is said of the error.
    pub fn message(&self) -> (r: String)
        ensures
            r@ == self@.text(),
    {
        match self {
            KodiError::Body(_) => "reponse HTTP Kodi invalide".to_string(),
            KodiError::NotUtf8 => "reponse Kodi non UTF-8".to_string(),
            KodiError::NotJson(start) => text::concat2("JSON-RPC Kodi invalide: ", start),
        }
    }
}

/// What Kodi answered: a JSON value, and its text without white space.
#[derive(Debug)]
pub struct KodiAnswer {
    /// The value.
    pub value: Json,
    /// Its text.
    pub written: String,
}

/// The value that Kodi answered, in the bytes of an HTTP answer.
pub open spec fn answer_in(response: Seq<u8>) -> Result<JsonView, KodiErrorView> {
    match http_client::response_body(response) {
        Err(e) => Err(KodiErrorView::Body(e)),
        Ok(body) => if !valid_utf8(body) {
            Err(KodiErrorView::NotUtf8)
        } else {
            match json::json_text(text::trimmed(decode_utf8(body))) {
                Some(value) => Ok(value),
                None => Err(
                    KodiErrorView::NotJson(http_client::preview_of(decode_utf8(body), 160)),
                ),
            }
        },
    }
}

/// The value that Kodi answered, in the bytes of an HTTP answer.
pub fn kodi_answer(response: &[u8]) -> (r: Result<KodiAnswer, KodiError>)
    ensures
        match r {
            Ok(answer) => answer_in(response@) == Ok::<_, KodiErrorView>(answer.value@)
                && answer.written@ == json::json_written(answer.value@),
            Err(e) => answer_in(response@) == Err::<JsonView, _>(e@),
        },
{
    let body = match http_client::parse_http_response_body(response) {
        Ok(body) => body,
        Err(e) => {
            return Err(KodiError::Body(e));
        },
    };
    let body_text = match encoding::utf8_text(body) {
        Some(s) => s,
        None => {
            return Err(KodiError::NotUtf8);
        },
    };
    match json::parse_and_write(&text::trim(&body_text)) {
        Some((value, written)) => Ok(KodiAnswer { value, written }),
        None => Err(KodiError::NotJson(http_client::preview_text(&body_text, 160))),
    }
}

/// What is said where Kodi cannot be reached.
pub fn kodi_unreachable(kodi: &KodiConfig) -> (r: String)
    ensures
        r@ == "Kodi indisponible sur "@ + kodi.host@ + ":"@ + numbers::dec(kodi.port as nat),
{
    let mut r = text::concat3("Kodi indisponible sur ", &kodi.host, ":");
    r.push_str(&numbers::decimal(kodi.port as u64));
    r
}

/// The reply that passes on what Kodi answered.
pub open spec fn kodi_reply_text(written: Seq<char>) -> Seq<char> {
    "{\"kodi\":"@ + written + ",\"ok\":true}"@
}

impl KodiAnswer {
    /// The reply that passes on what Kodi answered.
    pub fn reply(&self) -> (r: String)
        ensures
            r@ == kodi_reply_text(self.written@),
    {
        text::concat3("{\"kodi\":", &self.written, ",\"ok\":true}")
    }
}

// ---------------------------------------------------------------------------
// Laws
// ---------------------------------------------------------------------------

/// A command means the same in capitals and in small letters.
pub proof fn law_case_does_not_matter(command: Seq<char>)
    ensures
        plan_of(text::ascii_lower(command)) == plan_of(command),
{
    lemma_trim_start_lower(command);
    lemma_trim_end_lower(text::trim_start(command, CharSet::White));
    let t = text::trimmed(command);
    assert(text::ascii_upper(text::ascii_lower(t)) =~= text::ascii_upper(t));
}

proof fn lemma_trim_start_lower(s: Seq<char>)
    ensures
        text::trim_start(text::ascii_lower(s), CharSet::White) == text::ascii_lower(
            text::trim_start(s, CharSet::White),
        ),
    decreases s.len(),
{
    if s.len() > 0 && text::white_space(s[0]) {
        assert(text::ascii_lower(s).skip(1) =~= text::ascii_lower(s.skip(1)));
        lemma_trim_start_lower(s.skip(1));
    }
}

proof fn lemma_trim_end_lower(s: Seq<char>)
    ensures
        text::trim_end(text::ascii_lower(s), CharSet::White) == text::ascii_lower(
            text::trim_end(s, CharSet::White),
        ),
    decreases s.len(),
{
    if s.len() > 0 && text::white_space(s.last()) {
        assert(text::ascii_lower(s).drop_last() =~= text::ascii_lower(s.drop_last()));
        lemma_trim_end_lower(s.drop_last());
    }
}

/// A command about what is being played always leads to a call where something is played; where
/// nothing is, only playing does, and the others are refused.
pub proof fn law_player_commands(command: PlayerCommand, player: Option<i64>)
    ensures
        player is Some ==> call_for_player(command, player) is Some,
        player is None ==> (call_for_player(command, player) is Some <==> command
            == PlayerCommand::PlayPause),
{
}

/// A command is the given one, in capitals or small letters and with white space around it or not.
pub open spec fn means(command: Seq<char>, name: Seq<char>) -> bool {
    text::ascii_upper(text::trimmed(command)) == name
}

/// What each command asks for, in whatever letters it is written.
pub proof fn law_commands_are_understood(command: Seq<char>)
    ensures
        means(command, "CMD_UP"@) ==> plan_of(command) == Some(
            PlanView::Call(CallView { method: "Input.Up"@, params: None }),
        ),
        means(command, "CMD_DOWN"@) ==> plan_of(command) == Some(
            PlanView::Call(CallView { method: "Input.Down"@, params: None }),
        ),
        means(command, "CMD_LEFT"@) ==> plan_of(command) == Some(
            PlanView::Call(CallView { method: "Input.Left"@, params: None }),
        ),
        means(command, "CMD_RIGHT"@) ==> plan_of(command) == Some(
            PlanView::Call(CallView { method: "Input.Right"@, params: None }),
        ),
        means(command, "CMD_SELECT"@) ==> plan_of(command) == Some(
            PlanView::Call(CallView { method: "Input.Select"@, params: None }),
        ),
        means(command, "CMD_BACK"@) ==> plan_of(command) == Some(
            PlanView::Call(CallView { method: "Input.Back"@, params: None }),
        ),
        means(command, "CMD_HOME"@) ==> plan_of(command) == Some(
            PlanView::Call(CallView { method: "Input.Home"@, params: None }),
        ),
        means(command, "CMD_PLAY_PAUSE"@) ==> plan_of(command) == Some(
            PlanView::Player(PlayerCommand::PlayPause),
        ),
        means(command, "CMD_PLAYPAUSE"@) ==> plan_of(command) == Some(
            PlanView::Player(PlayerCommand::PlayPause),
        ),
        means(command, "CMD_STOP"@) ==> plan_of(command) == Some(
            PlanView::Player(PlayerCommand::Stop),
        ),
        means(command, "CMD_NEXT"@) ==> plan_of(command) == Some(
            PlanView::Player(PlayerCommand::Next),
        ),
        means(command, "CMD_PREVIOUS"@) ==> plan_of(command) == Some(
            PlanView::Player(PlayerCommand::Previous),
        ),
        means(command, "CMD_PREV"@) ==> plan_of(command) == Some(
            PlanView::Player(PlayerCommand::Previous),
        ),
        means(command, "CMD_SEEK_FORWARD"@) ==> plan_of(command) == Some(
            PlanView::Player(PlayerCommand::Forward),
        ),
        means(command, "CMD_FORWARD"@) ==> plan_of(command) == Some(
            PlanView::Player(PlayerCommand::Forward),
        ),
        means(command, "CMD_SEEK_BACKWARD"@) ==> plan_of(command) == Some(
            PlanView::Player(PlayerCommand::Backward),
        ),
        means(command, "CMD_REWIND"@) ==> plan_of(command) == Some(
            PlanView::Player(PlayerCommand::Backward),
        ),
        means(command, "CMD_BACKWARD"@) ==> plan_of(command) == Some(
            PlanView::Player(PlayerCommand::Backward),
        ),
{
    reveal_strlit("CMD_UP");
    reveal_strlit("CMD_DOWN");
    reveal_strlit("CMD_LEFT");
    reveal_strlit("CMD_RIGHT");
    reveal_strlit("CMD_SELECT");
    reveal_strlit("CMD_BACK");
    reveal_strlit("CMD_HOME");
    reveal_strlit("CMD_PLAY_PAUSE");
    reveal_strlit("CMD_PLAYPAUSE");
    reveal_strlit("CMD_STOP");
    reveal_strlit("CMD_NEXT");
    reveal_strlit("CMD_PREVIOUS");
    reveal_strlit("CMD_PREV");
    reveal_strlit("CMD_SEEK_FORWARD");
    reveal_strlit("CMD_FORWARD");
    reveal_strlit("CMD_SEEK_BACKWARD");
    reveal_strlit("CMD_REWIND");
    reveal_strlit("CMD_BACKWARD");
    assert("CMD_UP"@[4] == 'U' && "CMD_UP"@.len() == 6);
    assert("CMD_DOWN"@[4] == 'D' && "CMD_DOWN"@.len() == 8);
    assert("CMD_LEFT"@[4] == 'L' && "CMD_LEFT"@.len() == 8);
    assert("CMD_RIGHT"@[4] == 'R' && "CMD_RIGHT"@.len() == 9);
    assert("CMD_SELECT"@[4] == 'S' && "CMD_SELECT"@.len() == 10);
    assert("CMD_BACK"@[4] == 'B' && "CMD_BACK"@.len() == 8);
    assert("CMD_HOME"@[4] == 'H' && "CMD_HOME"@.len() == 8);
    assert("CMD_PLAY_PAUSE"@[4] == 'P' && "CMD_PLAY_PAUSE"@.len() == 14);
    assert("CMD_PLAYPAUSE"@[4] == 'P' && "CMD_PLAYPAUSE"@.len() == 13);
    assert("CMD_STOP"@[4] == 'S' && "CMD_STOP"@.len() == 8);
    assert("CMD_NEXT"@[4] == 'N' && "CMD_NEXT"@.len() == 8);
    assert("CMD_PREVIOUS"@[4] == 'P' && "CMD_PREVIOUS"@.len() == 12);
    assert("CMD_PREV"@[4] == 'P' && "CMD_PREV"@.len() == 8);
    assert("CMD_SEEK_FORWARD"@[4] == 'S' && "CMD_SEEK_FORWARD"@.len() == 16);
    assert("CMD_FORWARD"@[4] == 'F' && "CMD_FORWARD"@.len() == 11);
    assert("CMD_SEEK_BACKWARD"@[4] == 'S' && "CMD_SEEK_BACKWARD"@.len() == 17);
    assert("CMD_REWIND"@[4] == 'R' && "CMD_REWIND"@.len() == 10);
    assert("CMD_BACKWARD"@[4] == 'B' && "CMD_BACKWARD"@.len() == 12);
}

/// What is called for a command about the player with a number: each call names that player.
pub proof fn law_calls_name_player(player: i64)
    ensures
        ({
            let id = numbers::signed_dec(player as int);
            &&& call_for_player(PlayerCommand::PlayPause, Some(player)) == Some(
                CallView {
                    method: "Player.PlayPause"@,
                    params: Some("{\"play\":\"toggle\",\"playerid\":"@ + id + "}"@),
                },
            )
            &&& call_for_player(PlayerCommand::Stop, Some(player)) == Some(
                CallView {
                    method: "Player.Stop"@,
                    params: Some("{\"playerid\":"@ + id + "}"@),
                },
            )
            &&& call_for_player(PlayerCommand::Next, Some(player)) == Some(
                CallView {
                    method: "Player.GoTo"@,
                    params: Some("{\"playerid\":"@ + id + ",\"to\":\"next\"}"@),
                },
            )
            &&& call_for_player(PlayerCommand::Previous, Some(player)) == Some(
                CallView {
                    method: "Player.GoTo"@,
                    params: Some("{\"playerid\":"@ + id + ",\"to\":\"previous\"}"@),
                },
            )
            &&& call_for_player(PlayerCommand::Forward, Some(player)) == Some(
                CallView {
                    method: "Player.Seek"@,
                    params: Some(
                        "{\"playerid\":"@ + id + ",\"value\":{\"step\":\"smallforward\"}}"@,
                    ),
                },
            )
            &&& call_for_player(PlayerCommand::Backward, Some(player)) == Some(
                CallView {
                    method: "Player.Seek"@,
                    params: Some(
                        "{\"playerid\":"@ + id + ",\"value\":{\"step\":\"smallbackward\"}}"@,
                    ),
                },
            )
        }),
        call_for_player(PlayerCommand::PlayPause, None) == Some(
            CallView {
                method: "Player.Open"@,
                params: Some("{\"item\":{\"partymode\":\"music\"}}"@),
            },
        ),
{
}

/// The first player of an answer is the number of the first entry of its result; without entries
/// there is none.
pub proof fn law_first_player_counts(answer: JsonView, players: Seq<JsonView>)
    requires
        answer.list_at("result"@) == Some(players),
    ensures
        players.len() == 0 ==> first_player(answer) is None,
        players.len() > 0 ==> (players[0].get("playerid"@) matches Some(JsonView::Number(n))
            ==> first_player(answer) == n.signed),
        players.len() > 0 && players[0].get("playerid"@) is None ==> first_player(answer) is None,
{
}

/// A call is written with its method and with its parameters, where it has any.
pub proof fn law_call_is_written(method: Seq<char>, params: Seq<char>)
    ensures
        payload(CallView { method, params: None })
            == "{\"id\":\"troozn-webtransport\",\"jsonrpc\":\"2.0\",\"method\":"@ + json::quoted(
            method,
        ) + "}"@,
        payload(CallView { method, params: Some(params) })
            == "{\"id\":\"troozn-webtransport\",\"jsonrpc\":\"2.0\",\"method\":"@ + json::quoted(
            method,
        ) + ",\"params\":"@ + params + "}"@,
        given_call(method, None) == (CallView { method, params: None }),
        given_call(method, Some("null"@)) == (CallView { method, params: None }),
        params != "null"@ ==> given_call(method, Some(params)) == (CallView {
            method,
            params: Some(params),
        }),
{
}

/// A request is sent to the host that is configured, announces the number of its bytes, and ends
/// with the call; it names the user exactly where one is configured.
pub proof fn law_request_is_framed(kodi: KodiConfigView, call: CallView)
    ensures
        ({
            let s = request_text(kodi, call);
            let body = payload(call);
            let start = "POST /jsonrpc HTTP/1.1\r\nHost: "@ + kodi.host + ":"@ + numbers::dec(
                kodi.port as nat,
            ) + "\r\n"@;
            let end = "Content-Type: application/json\r\nContent-Length: "@ + numbers::dec(
                encode_utf8(body).len(),
            ) + "\r\nConnection: close\r\n\r\n"@ + body;
            &&& start.is_prefix_of(s)
            &&& end.is_suffix_of(s)
            &&& kodi.username is None ==> s == start + end
            &&& kodi.username matches Some(user) ==> s == start + ("Authorization: Basic "@
                + encoding::base64(encode_utf8(user + ":"@ + kodi.password)) + "\r\n"@) + end
        }),
{
    reveal_strlit("Authorization: ");
    reveal_strlit("Basic ");
    reveal_strlit("Authorization: Basic ");
    let s = request_text(kodi, call);
    let body = payload(call);
    let start = "POST /jsonrpc HTTP/1.1\r\nHost: "@ + kodi.host + ":"@ + numbers::dec(
        kodi.port as nat,
    ) + "\r\n"@;
    let end = "Content-Type: application/json\r\nContent-Length: "@ + numbers::dec(
        encode_utf8(body).len(),
    ) + "\r\nConnection: close\r\n\r\n"@ + body;
    assert("Authorization: Basic "@ =~= "Authorization: "@ + "Basic "@);
    let user = match authorization(kodi) {
        Some(value) => "Authorization: "@ + value + "\r\n"@,
        None => Seq::empty(),
    };
    assert(s =~= start + user + end);
    assert(start + Seq::<char>::empty() =~= start);
    if let Some(name) = kodi.username {
        let code = encoding::base64(encode_utf8(name + ":"@ + kodi.password));
        assert(user =~= "Authorization: Basic "@ + code + "\r\n"@);
    }
}

/// What is configured is used; a port that is no number and a name that is blank are not.
pub proof fn law_configuration_is_used(
    host: Seq<char>,
    port: u16,
    user: Seq<char>,
    password: Seq<char>,
)
    ensures
        ({
            let c = configured(
                Some(host),
                Some(numbers::dec(port as nat)),
                Some(user),
                Some(password),
            );
            &&& c.host == host
            &&& c.port == port
            &&& c.password == password
            &&& text::trimmed(user).len() > 0 ==> c.username == Some(text::trimmed(user))
            &&& text::trimmed(user).len() == 0 ==> c.username is None
        }),
        ({
            let c = configured(None, None, None, None);
            &&& c.host == DEFAULT_KODI_HOST@
            &&& c.port == DEFAULT_KODI_PORT
            &&& c.username is None
            &&& c.password.len() == 0
        }),
{
    numbers::law_parse_of_dec(port as nat, 0, u16::MAX as nat);
}

/// What Kodi answered is the JSON value in the body of the answer, whatever white space is around
/// it; an answer without one is an error.
pub proof fn law_answer_is_read(response: Seq<u8>, body: Seq<u8>, value: JsonView)
    requires
        http_client::response_body(response) == Ok::<_, http_client::BodyErrorView>(body),
    ensures
        valid_utf8(body) && json::json_text(text::trimmed(decode_utf8(body))) == Some(value)
            ==> answer_in(response) == Ok::<_, KodiErrorView>(value),
        !valid_utf8(body) ==> answer_in(response) == Err::<JsonView, _>(KodiErrorView::NotUtf8),
        valid_utf8(body) && json::json_text(text::trimmed(decode_utf8(body))) is None && decode_utf8(
            body,
        ).len() <= 160 ==> answer_in(response) == Err::<JsonView, _>(
            KodiErrorView::NotJson(decode_utf8(body)),
        ),
        valid_utf8(body) && json::json_text(text::trimmed(decode_utf8(body))) is None && decode_utf8(
            body,
        ).len() > 160 ==> answer_in(response) == Err::<JsonView, _>(
            KodiErrorView::NotJson(decode_utf8(body).take(160) + "..."@),
        ),
{
}

/// The reply passes on what Kodi answered.
pub proof fn law_answer_is_passed_on(written: Seq<char>)
    ensures
        text::has_part(kodi_reply_text(written), "\"kodi\":"@ + written + ",\"ok\":true"@),
{
    reveal_strlit("{\"kodi\":");
    reveal_strlit("\"kodi\":");
    reveal_strlit(",\"ok\":true}");
    reveal_strlit(",\"ok\":true");
    text::lemma_part_at(
        kodi_reply_text(written),
        "\"kodi\":"@ + written + ",\"ok\":true"@,
        1,
    );
}

} // verus!
