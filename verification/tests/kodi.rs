use troozn_proxy::http_client::{
    body_for_headers, decode_chunked_body, find_crlf, header_value, http_status_code,
    parse_http_response_body, preview_text, BodyError,
};
use troozn_proxy::json::parse_json;
use troozn_proxy::kodi::{
    active_player_id, active_players_call, kodi_answer, kodi_authorization_header, kodi_json_rpc,
    kodi_unreachable, player_command, run_kodi_command, KodiConfig, KodiError, KodiPlan,
    PlayerCommand,
};

fn kodi(username: Option<&str>) -> KodiConfig {
    KodiConfig::new(None, None, username.map(|u| u.to_string()), Some("secret".to_string()))
}

#[test]
fn heads_of_answers_are_read() {
    let head = "HTTP/1.1 204 No Content\r\nX-A: 1\r\ncontent-length :  7 ";
    assert_eq!(http_status_code(head), Some(204));
    assert_eq!(http_status_code("HTTP/1.1"), None);
    assert_eq!(http_status_code(""), None);
    assert_eq!(header_value(head, "Content-Length").as_deref(), Some("7"));
    assert_eq!(header_value(head, "x-b"), None);
    assert_eq!(find_crlf(b"ab\r\ncd"), Some(2));
    assert_eq!(find_crlf(b"ab\n"), None);
    assert_eq!(preview_text("abcdef", 3), "abc...");
    assert_eq!(preview_text("éa", 2), "éa");
}

#[test]
fn bodies_end_where_their_length_says() {
    let answer = b"HTTP/1.1 200 OK\r\nContent-Length: 3\r\n\r\nabcdef";
    assert_eq!(parse_http_response_body(answer).unwrap(), b"abc");
    let answer = b"HTTP/1.1 200 OK\r\n\r\nabcdef";
    assert_eq!(parse_http_response_body(answer).unwrap(), b"abcdef");
    let answer = b"HTTP/1.1 200 OK\r\nContent-Length: many\r\n\r\nab";
    assert_eq!(parse_http_response_body(answer).unwrap(), b"ab");
    assert_eq!(body_for_headers("HTTP/1.1 200 OK", b"x".to_vec()).unwrap(), b"x");
}

#[test]
fn chunks_are_joined() {
    assert_eq!(decode_chunked_body(b"3;x=y\r\nabc\r\nA\r\n0123456789\r\n0\r\n").unwrap(),
        b"abc0123456789");
    assert_eq!(decode_chunked_body(b"0\r\n\r\n").unwrap(), b"");
    let answer = b"HTTP/1.1 200 OK\r\nTransfer-Encoding: Chunked\r\n\r\n2\r\nok\r\n0\r\n\r\n";
    assert_eq!(parse_http_response_body(answer).unwrap(), b"ok");
}

#[test]
fn broken_answers_are_refused() {
    let message = |answer: &[u8]| parse_http_response_body(answer).unwrap_err().message();
    assert_eq!(message(b"nothing"), "en-tetes HTTP absents");
    assert_eq!(message(b"\xff\r\n\r\n"), "en-tetes HTTP non UTF-8");
    assert_eq!(message(b"HTTP/1.1\r\n\r\n"), "ligne de statut HTTP Kodi absente");
    assert_eq!(message(b"HTTP/1.1 401 No\r\n\r\ndenied"), "Kodi HTTP 401: denied");
    assert_eq!(
        message(b"HTTP/1.1 200 OK\r\nContent-Length: 9\r\n\r\nabc"),
        "corps HTTP incomplet: 3 octets recus sur 9"
    );
    let chunks = |body: &[u8]| decode_chunked_body(body).unwrap_err();
    assert!(matches!(chunks(b"3"), BodyError::ChunkSizeMissing));
    assert!(matches!(chunks(b"\xff\r\n"), BodyError::ChunkSizeNotUtf8));
    assert_eq!(chunks(b"zz\r\n").message(), "taille de chunk HTTP invalide: zz");
    assert_eq!(chunks(b"5\r\nab\r\n").message(), "chunk HTTP incomplet");
    assert_eq!(chunks(b"2\r\nabXX").message(), "terminateur de chunk HTTP invalide");
    assert_eq!(chunks(b"").message(), "taille de chunk HTTP absente");
    assert_eq!(chunks(b"ffffffffffffffff\r\n").message(), "taille de chunk HTTP trop grande");
    assert_eq!(
        BodyError::ChunkSizeNotUtf8.message(),
        "taille de chunk HTTP non UTF-8"
    );
}

#[test]
fn settings_of_kodi_have_defaults() {
    let config = kodi(None);
    assert_eq!(config.host, "127.0.0.1");
    assert_eq!(config.port, 8080);
    assert!(config.username.is_none());
    let config = KodiConfig::new(
        Some("tv".to_string()),
        Some("9090".to_string()),
        Some("  me ".to_string()),
        None,
    );
    assert_eq!(config.port, 9090);
    assert_eq!(config.username.as_deref(), Some("me"));
    assert_eq!(config.password, "");
    assert_eq!(KodiConfig::new(None, Some("x".to_string()), None, None).port, 8080);
    assert_eq!(kodi_unreachable(&config), "Kodi indisponible sur tv:9090");
}

#[test]
fn credentials_are_sent() {
    assert_eq!(kodi_authorization_header(&kodi(None)), None);
    assert_eq!(
        kodi_authorization_header(&kodi(Some("kodi"))).as_deref(),
        Some("Basic a29kaTpzZWNyZXQ=")
    );
}

#[test]
fn calls_are_posted() {
    let call = kodi_json_rpc("Input.Up", None);
    let body = "{\"id\":\"troozn-webtransport\",\"jsonrpc\":\"2.0\",\"method\":\"Input.Up\"}";
    assert_eq!(call.payload(), body);
    assert_eq!(
        call.request(&kodi(Some("kodi"))),
        format!(
            "POST /jsonrpc HTTP/1.1\r\nHost: 127.0.0.1:8080\r\nAuthorization: Basic a29kaTpzZWNyZXQ=\r\nContent-Type: application/json\r\nContent-Length: {}\r\nConnection: close\r\n\r\n{}",
            body.len(),
            body
        )
    );
    let call = kodi_json_rpc("A", Some("{\"x\":1}".to_string()));
    assert_eq!(
        call.payload(),
        "{\"id\":\"troozn-webtransport\",\"jsonrpc\":\"2.0\",\"method\":\"A\",\"params\":{\"x\":1}}"
    );
    assert_eq!(active_players_call().method, "Player.GetActivePlayers");
}

fn method_of(command: &str) -> String {
    match run_kodi_command(command) {
        Ok(KodiPlan::Call(call)) => call.method,
        Ok(KodiPlan::Player(player)) => format!("{player:?}"),
        Err(message) => message,
    }
}

#[test]
fn commands_are_recognized() {
    assert_eq!(method_of(" cmd_up "), "Input.Up");
    assert_eq!(method_of("CMD_HOME"), "Input.Home");
    assert_eq!(method_of("cmd_playpause"), "PlayPause");
    assert_eq!(method_of("CMD_PREV"), "Previous");
    assert_eq!(method_of("CMD_REWIND"), "Backward");
    assert_eq!(method_of("CMD_FORWARD"), "Forward");
    assert_eq!(method_of("CMD_STOP"), "Stop");
    assert_eq!(method_of("dance"), "commande inconnue: DANCE");
}

#[test]
fn player_commands_need_a_player() {
    let call = player_command(PlayerCommand::Next, Some(1)).unwrap();
    assert_eq!(call.method, "Player.GoTo");
    assert_eq!(call.params.as_deref(), Some("{\"playerid\":1,\"to\":\"next\"}"));
    let call = player_command(PlayerCommand::Forward, Some(-3)).unwrap();
    assert_eq!(
        call.params.as_deref(),
        Some("{\"playerid\":-3,\"value\":{\"step\":\"smallforward\"}}")
    );
    assert_eq!(player_command(PlayerCommand::Stop, None).unwrap_err(), "aucune lecture active");
    let call = player_command(PlayerCommand::PlayPause, None).unwrap();
    assert_eq!(call.method, "Player.Open");
    assert_eq!(call.params.as_deref(), Some("{\"item\":{\"partymode\":\"music\"}}"));
    let call = player_command(PlayerCommand::PlayPause, Some(0)).unwrap();
    assert_eq!(call.params.as_deref(), Some("{\"play\":\"toggle\",\"playerid\":0}"));
}

#[test]
fn the_first_active_player_counts() {
    let answer = parse_json("{\"result\":[{\"playerid\":1},{\"playerid\":2}]}").unwrap();
    assert_eq!(active_player_id(&answer), Some(1));
    assert_eq!(active_player_id(&parse_json("{\"result\":[]}").unwrap()), None);
    assert_eq!(active_player_id(&parse_json("{\"result\":3}").unwrap()), None);
}

#[test]
fn answers_of_kodi_are_passed_on() {
    let answer = kodi_answer(b"HTTP/1.1 200 OK\r\n\r\n {\"b\":1,\"a\":[]} ").unwrap();
    assert_eq!(answer.reply(), "{\"kodi\":{\"a\":[],\"b\":1},\"ok\":true}");
    let error = |bytes: &[u8]| kodi_answer(bytes).unwrap_err();
    assert_eq!(error(b"x").message(), "reponse HTTP Kodi invalide");
    assert_eq!(error(b"HTTP/1.1 200 OK\r\n\r\n\xff").message(), "reponse Kodi non UTF-8");
    assert_eq!(
        error(b"HTTP/1.1 200 OK\r\n\r\n{oops").message(),
        "JSON-RPC Kodi invalide: {oops"
    );
    assert!(matches!(error(b"x"), KodiError::Body(BodyError::NoHeaders)));
}

#[test]
fn chunks_with_extensions_are_read_back_and_cut_ones_refused() {
    let whole: &[u8] = "3;é=y\r\na\r\n\r\nb;\r\n0123456789a\r\n0\r\n".as_bytes();
    assert_eq!(decode_chunked_body(whole).unwrap(), b"a\r\n0123456789a");
    let mut longer = whole.to_vec();
    longer.extend_from_slice(b"\xffX: y\r\n\r\n");
    assert_eq!(decode_chunked_body(&longer).unwrap(), b"a\r\n0123456789a");
    for n in 0..whole.len() {
        assert!(decode_chunked_body(&whole[..n]).is_err(), "{n}");
    }
}
