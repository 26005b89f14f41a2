use troozn_proxy::gateway::{
    cache_holds, cache_path_for, configured_cache_bytes, http_get_media, http_head_media,
    is_cache_file, media_headers_response, media_stat_for_http, media_target, parse_http_range,
    ByteRange, HeadCache, MediaCopy, MediaPlan, DEFAULT_HEAD_CACHE_BYTES, MAX_HEAD_CACHE_BYTES,
    MIN_HEAD_CACHE_BYTES,
};
use troozn_proxy::ids::cache_key;
use troozn_proxy::media_path::PathError;
use troozn_proxy::phone::{
    entries_reply, error_reply, ftp_target, handle_webtransport_client, listed_entries,
    media_get_request, media_list_request, media_stat_request, phone_gone, phone_json_request,
    phone_listing, stat_metadata, stream_text, FtpTarget, PhoneEntry, PhoneResponse, RadxaRequest, RequestStep,
    ADMIN_REFUSED_REPLY, OK_REPLY,
};
use troozn_proxy::registry::{PhoneRegister, PhoneRegistry};

fn registry() -> PhoneRegistry {
    let mut phones = PhoneRegistry::new();
    for (id, name) in [("a", "Pixel"), ("b", "Galaxy")] {
        let registration = PhoneRegister {
            device_id: id.to_string(),
            display_name: Some(name.to_string()),
            role: "guest".to_string(),
            source_visible: true,
        };
        phones.register(registration, 1, 100).unwrap();
    }
    phones
}

fn response() -> PhoneResponse {
    PhoneResponse { ok: None, error: None, entries: None, is_directory: None, size: None }
}

fn entry(name: &str, is_directory: bool, size: u64) -> PhoneEntry {
    PhoneEntry { name: name.to_string(), is_directory, size }
}

#[test]
fn requests_to_phones_are_json() {
    assert_eq!(
        media_list_request("/a\"b"),
        "{\"type\":\"media.list\",\"protocolVersion\":1,\"path\":\"/a\\\"b\"}"
    );
    assert_eq!(
        media_stat_request("/x"),
        "{\"type\":\"media.stat\",\"protocolVersion\":1,\"path\":\"/x\"}"
    );
    assert_eq!(
        media_get_request("/x", 7),
        "{\"type\":\"media.get\",\"protocolVersion\":1,\"path\":\"/x\",\"start\":7}"
    );
}

#[test]
fn phones_can_refuse() {
    assert!(phone_json_request(response()).is_ok());
    let mut refused = response();
    refused.ok = Some(false);
    assert_eq!(phone_json_request(refused).unwrap_err(), "erreur telephone");
    let mut refused = response();
    refused.ok = Some(false);
    refused.error = Some("non".to_string());
    assert_eq!(phone_json_request(refused).unwrap_err(), "non");
}

#[test]
fn listings_leave_out_the_folder_itself() {
    let mut listing = response();
    listing.entries =
        Some(vec![entry(".", true, 0), entry("x", false, 3), entry("..", true, 0)]);
    let entries = listed_entries(listing);
    assert_eq!(entries.len(), 1);
    assert_eq!(entries[0].name, "x");
    assert!(listed_entries(response()).is_empty());
    assert_eq!(
        entries_reply(&entries),
        "{\"entries\":[{\"isDirectory\":false,\"name\":\"x\",\"size\":3}],\"ok\":true}"
    );
}

#[test]
fn descriptions_have_defaults() {
    let unknown = stat_metadata(&response());
    assert!(unknown.is_dir && !unknown.is_file() && unknown.len() == 0);
    let mut file = response();
    file.is_directory = Some(false);
    file.size = Some(9);
    assert!(stat_metadata(&file).is_file());
    assert_eq!(stat_metadata(&file).len(), 9);
}

#[test]
fn ftp_paths_name_a_phone() {
    assert!(matches!(ftp_target("/"), Ok(FtpTarget::Root)));
    assert!(matches!(ftp_target(""), Ok(FtpTarget::Root)));
    match ftp_target("/Pixel/a/b") {
        Ok(FtpTarget::Phone { folder, path }) => {
            assert_eq!((folder.as_str(), path.as_str()), ("Pixel", "/a/b"))
        }
        other => panic!("{other:?}"),
    }
    assert!(ftp_target("/").unwrap().known_metadata().unwrap().is_dir);
    assert!(ftp_target("/Pixel").unwrap().known_metadata().unwrap().is_dir);
    assert!(ftp_target("/Pixel/a").unwrap().known_metadata().is_none());
    assert!(!matches!(ftp_target("/x"), Err(PathError::MissingPhone)));
    assert_eq!(phone_gone("Pixel"), "telephone WebTransport indisponible: Pixel");
}

#[test]
fn registrations_are_answered() {
    let mut phones = PhoneRegistry::new();
    let admin = |id: &str| {
        RadxaRequest::PhoneRegister(PhoneRegister {
            device_id: id.to_string(),
            display_name: None,
            role: "admin".to_string(),
            source_visible: true,
        })
    };
    match handle_webtransport_client(&mut phones, admin("a"), 1, 5) {
        RequestStep::Reply(text) => assert_eq!(text, OK_REPLY),
        other => panic!("{other:?}"),
    }
    match handle_webtransport_client(&mut phones, admin("b"), 2, 5) {
        RequestStep::Reply(text) => {
            assert_eq!(text, ADMIN_REFUSED_REPLY);
            let value: serde_json::Value = serde_json::from_str(&text).unwrap();
            assert_eq!(value["code"], "admin_already_claimed");
            assert_eq!(
                value["message"],
                "Un téléphone admin est déjà connecté à cette session Kodi."
            );
            assert_eq!(text, value.to_string());
        }
        other => panic!("{other:?}"),
    }
}

#[test]
fn folders_of_phones_are_listed() {
    let mut phones = registry();
    let list = |path: &str| RadxaRequest::ProxyList(path.to_string());
    match handle_webtransport_client(&mut phones, list(" / "), 1, 100) {
        RequestStep::Reply(text) => assert_eq!(
            text,
            "{\"entries\":[{\"displayName\":\"Galaxy\",\"isDirectory\":true,\"name\":\"Galaxy\",\"size\":0},{\"displayName\":\"Pixel\",\"isDirectory\":true,\"name\":\"Pixel\",\"size\":0}],\"ok\":true}"
        ),
        other => panic!("{other:?}"),
    }
    match handle_webtransport_client(&mut phones, list("Pixel/DCIM"), 1, 100) {
        RequestStep::AskPhone(phone, request) => {
            assert_eq!(phone.id, "a");
            assert_eq!(request, media_list_request("/DCIM"));
        }
        other => panic!("{other:?}"),
    }
    match handle_webtransport_client(&mut phones, list("/Nokia/x"), 1, 100) {
        RequestStep::Reply(text) => assert_eq!(
            text,
            "{\"error\":\"telephone WebTransport indisponible: Nokia\",\"ok\":false}"
        ),
        other => panic!("{other:?}"),
    }
    let mut refused = response();
    refused.ok = Some(false);
    assert_eq!(phone_listing(refused), error_reply("erreur telephone"));
    let mut refused = response();
    refused.ok = Some(false);
    refused.error = Some("file \"x\" not found".to_string());
    assert_eq!(
        phone_listing(refused),
        "{\"error\":\"file \\\"x\\\" not found\",\"ok\":false}"
    );
}

#[test]
fn commands_for_kodi_are_passed_on() {
    let mut phones = PhoneRegistry::new();
    let command = RadxaRequest::KodiCommand("nope".to_string());
    match handle_webtransport_client(&mut phones, command, 1, 1) {
        RequestStep::Reply(text) => assert_eq!(text, error_reply("commande inconnue: NOPE")),
        other => panic!("{other:?}"),
    }
    let call = RadxaRequest::KodiJsonRpc("JSONRPC.Ping".to_string(), None);
    assert!(matches!(
        handle_webtransport_client(&mut phones, call, 1, 1),
        RequestStep::Kodi(_)
    ));
}

fn range(start: u64, end: u64, partial: bool) -> Option<ByteRange> {
    Some(ByteRange { start, end, partial })
}

#[test]
fn byte_ranges_are_read() {
    let read = |text: &str| parse_http_range(Some(text.as_bytes()), 100);
    assert_eq!(parse_http_range(None, 100), range(0, 99, false));
    assert_eq!(parse_http_range(None, 0), range(0, 0, false));
    assert_eq!(parse_http_range(Some(b"junk"), 0), range(0, 0, false));
    assert_eq!(read("bytes=10-19"), range(10, 19, true));
    assert_eq!(read("bytes=10-"), range(10, 99, true));
    assert_eq!(read("bytes= 10-19 , 30-40"), range(10, 19, true));
    assert_eq!(read("bytes=-30"), range(70, 99, true));
    assert_eq!(read("bytes=-300"), range(0, 99, true));
    assert_eq!(read("bytes=90-900"), range(90, 99, true));
    for bad in ["10-19", "bytes=10", "bytes=-0", "bytes=100-", "bytes=20-10", "bytes=a-", "bytes=1-b"] {
        assert_eq!(read(bad), None, "{bad}");
    }
    assert_eq!(parse_http_range(Some(&[b'b', 0xff]), 100), None);
}

#[test]
fn heads_of_media_answers() {
    let head = media_headers_response(100, 10, 19, true);
    assert_eq!(head.status, 206);
    let text: Vec<String> = head.headers.iter().map(|(k, v)| format!("{k}: {v}")).collect();
    assert!(text.iter().any(|l| l.eq_ignore_ascii_case("content-range: bytes 10-19/100")));
    assert!(text.iter().any(|l| l.eq_ignore_ascii_case("content-length: 10")));
    let head = media_headers_response(0, 0, 0, false);
    assert_eq!(head.status, 200);
    assert_eq!(head.headers.len(), 3);
}

#[test]
fn media_requests_are_planned() {
    match http_get_media(Some(b"bytes=0-9"), 100, 50) {
        MediaPlan::Send { head, range, length, cacheable } => {
            assert_eq!((head.status, range.start, range.end, length), (206, 0, 9, 10));
            assert!(cacheable);
        }
        other => panic!("{other:?}"),
    }
    assert!(matches!(
        http_get_media(None, 100, 50),
        MediaPlan::Send { cacheable: false, length: 100, .. }
    ));
    assert!(matches!(
        http_get_media(Some(b"bytes=60-"), 100, 50),
        MediaPlan::Send { cacheable: false, .. }
    ));
    assert!(matches!(http_get_media(None, 0, 50), MediaPlan::Empty(_)));
    assert!(matches!(
        http_get_media(Some(b"x"), 100, 50),
        MediaPlan::Refuse(416, "range invalide")
    ));
    assert!(matches!(http_head_media(Some(b"bytes=1-2"), 100), MediaPlan::Empty(h) if h.status == 206));
    assert!(matches!(http_head_media(Some(b"x"), 100), MediaPlan::Refuse(416, _)));
}

#[test]
fn media_links_lead_to_phones() {
    let mut phones = registry();
    let (phone, path) = media_target(&mut phones, "Pixel/a%20b.mp4", 100).unwrap();
    assert_eq!((phone.id.as_str(), path.as_str()), ("a", "/a b.mp4"));
    assert_eq!(
        media_target(&mut phones, "Nokia/a", 100).unwrap_err(),
        "telephone WebTransport indisponible: Nokia"
    );
    assert_eq!(
        media_target(&mut phones, "Pixel", 100).unwrap_err(),
        "fichier manquant dans l'URL media"
    );
    let mut folder = response();
    folder.is_directory = Some(true);
    assert_eq!(media_stat_for_http(folder).unwrap_err(), "le chemin est un dossier");
    let mut file = response();
    file.size = Some(4);
    assert_eq!(media_stat_for_http(file).unwrap(), 4);
    assert_eq!(media_stat_for_http(response()).unwrap(), 0);
}

#[test]
fn copies_stop_at_the_last_byte() {
    let mut copy = MediaCopy::new(10);
    let step = copy.copy_phone_media_range(6);
    assert_eq!((step.write, step.more), (6, true));
    assert!(copy.wants_more());
    let step = copy.copy_phone_media_range(6);
    assert_eq!((step.write, step.more), (4, false));
    assert!(!copy.wants_more());
    let mut copy = MediaCopy::new(10);
    let step = copy.copy_phone_media_range(0);
    assert_eq!((step.write, step.more), (0, false));
}

#[test]
fn cache_sizes_are_configured() {
    let clamp = Some((MIN_HEAD_CACHE_BYTES, MAX_HEAD_CACHE_BYTES));
    let size = |raw: Option<&str>| {
        configured_cache_bytes(raw.map(|r| r.to_string()), DEFAULT_HEAD_CACHE_BYTES, clamp)
    };
    assert_eq!(size(None), DEFAULT_HEAD_CACHE_BYTES);
    assert_eq!(size(Some("x")), DEFAULT_HEAD_CACHE_BYTES);
    assert_eq!(size(Some("0")), 0);
    assert_eq!(size(Some("1")), MIN_HEAD_CACHE_BYTES);
    assert_eq!(size(Some("999999999999")), MAX_HEAD_CACHE_BYTES);
    assert_eq!(configured_cache_bytes(Some("5".to_string()), 9, None), 5);
}

#[test]
fn beginnings_of_files_are_cached() {
    assert_eq!(
        cache_path_for("/c", "Pixel", "/a"),
        format!("/c/{}.head", cache_key("Pixel", "/a"))
    );
    assert!(is_cache_file("x.head"));
    assert!(!is_cache_file(".head"));
    assert!(!is_cache_file("x.tmp"));
    let mut cache = HeadCache::new(50, 1000);
    assert!(cache.schedule_head_cache_prefetch("k", 100));
    assert!(!cache.schedule_head_cache_prefetch("k", 100));
    cache.prefetch_done("k");
    assert!(cache.schedule_head_cache_prefetch("k", 100));
    assert!(!cache.schedule_head_cache_prefetch("z", 0));
    assert_eq!(cache.ensure_head_cache(100, 20), Ok(Some((20, 30))));
    assert_eq!(cache.ensure_head_cache(30, 20), Ok(Some((20, 10))));
    assert_eq!(cache.ensure_head_cache(100, 70), Ok(None));
    assert_eq!(cache.ensure_head_cache(0, 0), Err("cache desactive".to_string()));
    let mut sweep = cache.prune_head_cache(&vec![(900, 20), (600, 10)]).unwrap();
    assert_eq!(sweep.total, 1500);
    assert_eq!(sweep.next_victim(), Some(1));
    sweep.removed(600);
    assert_eq!(sweep.next_victim(), None);
    assert!(HeadCache::new(50, 0).prune_head_cache(&vec![(900, 20), (600, 10)]).is_none());
    assert!(cache_holds(&ByteRange { start: 0, end: 9, partial: true }, 10));
    assert!(!cache_holds(&ByteRange { start: 0, end: 10, partial: true }, 10));
}

#[test]
fn streams_carry_utf8() {
    assert_eq!(stream_text("{\"a\":\"é\"}".as_bytes().to_vec()).as_deref(), Ok("{\"a\":\"é\"}"));
    assert_eq!(stream_text(vec![0xff]), Err("reponse non UTF-8".to_string()));
}
