use troozn_proxy::json::parse_json;
use troozn_proxy::library::{
    compact_text, is_probably_playlist_url as is_list_url, metadata_from_flat_entry,
    metadata_from_video_info, movie_nfo_xml, parse_yt_date, play_arguments, playlist_arguments,
    sanitize_filename, strm_text, submit_after_playlist, submit_after_video, unknown_item,
    video_arguments, videos_of_playlist, write_playlist, xml_escape, youtube_mix_seed_url,
    ytdlp_json, ytdlp_play_url, SubmitStep, YoutubeLibrary, YoutubeSubmitRequest,
    YTDLP_FAST_FORMAT,
};
use troozn_proxy::settings::{
    certificate_too_old, identity_is_stale, identity_note, public_host, setting_or, StatusSettings,
    DEFAULT_FTP_BIND, WEBTRANSPORT_CERT_MAX_AGE_SECONDS,
};
use troozn_proxy::ytdlp::OutputText;

fn library() -> YoutubeLibrary {
    YoutubeLibrary::new_default(Some("/home/me".to_string()), "127.0.0.1:8787", None)
}

fn output(success: bool, stdout: &str, stderr: &str) -> OutputText {
    OutputText {
        success,
        status: "exit status: 1".to_string(),
        stdout: stdout.to_string(),
        stderr: stderr.to_string(),
    }
}

#[test]
fn file_names_are_made_of_titles() {
    assert_eq!(sanitize_filename(" A/B: \"é\"  (c) \t[d] & e's, f_g-h. ", "x"), "AB é (c) [d] & e's, f_g-h.");
    assert_eq!(sanitize_filename("///", "video-001"), "video-001");
    assert_eq!(sanitize_filename(&"é".repeat(200), "x").chars().count(), 140);
    assert_eq!(sanitize_filename("東京٣", "x"), "東京٣");
}

#[test]
fn descriptions_are_compacted() {
    assert_eq!(compact_text(" a\r\n\r\n\r\n\r\nb\rc ", 100), "a\n\nb\nc");
    assert_eq!(compact_text("abcdef", 3), "abc…");
    assert_eq!(compact_text("abc", 3), "abc");
    assert_eq!(compact_text("a\n\n\n\n\n\n\nb", 9), "a\n\nb");
}

#[test]
fn dates_are_written_with_hyphens() {
    assert_eq!(parse_yt_date("20240131").as_deref(), Some("2024-01-31"));
    assert_eq!(parse_yt_date("2024013"), None);
    assert_eq!(parse_yt_date("2024013x"), None);
}

#[test]
fn special_characters_are_escaped() {
    assert_eq!(xml_escape("<&>\"'"), "&lt;&amp;&gt;&quot;&apos;");
}

#[test]
fn lists_and_mixes_are_told_apart() {
    assert!(is_list_url("https://x/playlist"));
    assert!(is_list_url("https://x?list=1"));
    assert!(!is_list_url("https://x/watch?v=1"));
    assert_eq!(
        youtube_mix_seed_url("https://x?list=RDdQw4w9WgXcQ&start=1").as_deref(),
        Some("https://www.youtube.com/watch?v=dQw4w9WgXcQ")
    );
    assert_eq!(youtube_mix_seed_url("https://x?list=RDshort"), None);
    assert_eq!(youtube_mix_seed_url("https://x"), None);
}

#[test]
fn videos_are_described() {
    let report = parse_json(
        "{\"title\":\"T\",\"channel\":\"C\",\"duration\":125,\"upload_date\":\"20240131\",\"description\":\" d \"}",
    )
    .unwrap();
    let video = metadata_from_video_info(&report, "https://f");
    assert_eq!(video.source_url, "https://f");
    assert_eq!(video.uploader.as_deref(), Some("C"));
    assert_eq!(video.upload_date.as_deref(), Some("2024-01-31"));
    assert_eq!(video.plot.as_deref(), Some("d"));
    let video = metadata_from_video_info(&parse_json("{}").unwrap(), "https://f");
    assert_eq!(video.title, "Vidéo YouTube");
    let entry = parse_json("{\"url\":\"abc\",\"uploader\":\"U\"}").unwrap();
    let video = metadata_from_flat_entry(&entry).unwrap();
    assert_eq!(video.webpage_url, "https://www.youtube.com/watch?v=abc");
    assert_eq!(video.channel.as_deref(), Some("U"));
    assert!(metadata_from_flat_entry(&parse_json("{\"webpage_url\":null,\"url\":\"a\"}").unwrap()).is_none());
    let list = parse_json("{\"entries\":[{\"url\":\"a\"},{},{\"url\":\"b\"}]}").unwrap();
    assert_eq!(videos_of_playlist(&list).len(), 2);
}

#[test]
fn submissions_are_checked() {
    let request = |url: &str, limit: Option<usize>| YoutubeSubmitRequest { url: url.to_string(), limit };
    assert_eq!(request(" ", None).checked_limit(), Err("missing url".to_string()));
    assert_eq!(request("x", None).checked_limit(), Ok(20));
    assert_eq!(request("x", Some(7)).checked_limit(), Ok(7));
}

#[test]
fn submissions_ask_for_a_list_or_a_video() {
    let library = library();
    assert!(matches!(library.submit("https://x?list=1", 500), SubmitStep::AskPlaylist(u, 100) if u == "https://x?list=1"));
    assert!(matches!(library.submit("https://x?list=1", 0), SubmitStep::AskPlaylist(_, 1)));
    assert!(matches!(library.submit("https://x", 5), SubmitStep::AskVideo(u) if u == "https://x"));
    let list = parse_json("{\"entries\":[{\"url\":\"a\"}]}").unwrap();
    assert!(matches!(submit_after_playlist("u", Ok(list)), SubmitStep::Found(v) if v.len() == 1));
    assert!(matches!(
        submit_after_playlist("https://x?list=RDdQw4w9WgXcQ", Err("no".to_string())),
        SubmitStep::AskVideo(u) if u == "https://www.youtube.com/watch?v=dQw4w9WgXcQ"
    ));
    assert!(matches!(
        submit_after_playlist("https://x?list=PL", Err("no".to_string())),
        SubmitStep::Fail(m) if m == "no"
    ));
    assert!(matches!(submit_after_video("u", Err("no".to_string())), SubmitStep::Fail(_)));
    let report = parse_json("{}").unwrap();
    assert!(matches!(submit_after_video("u", Ok(report)), SubmitStep::Found(v) if v[0].source_url == "u"));
}

#[test]
fn commands_of_the_library() {
    assert_eq!(
        playlist_arguments("u", 5, false),
        vec!["--flat-playlist", "--no-warnings", "--playlist-end", "5", "-J", "u"]
    );
    assert_eq!(
        video_arguments("u", true),
        vec![
            "--js-runtimes",
            "deno:/home/troozn/.deno/bin/deno",
            "--remote-components",
            "ejs:github",
            "--no-playlist",
            "--no-warnings",
            "-J",
            "u"
        ]
    );
    assert_eq!(
        play_arguments("u", false),
        vec!["--no-playlist", "--no-warnings", "-f", YTDLP_FAST_FORMAT, "-g", "u"]
    );
    assert_eq!(ytdlp_json(&output(false, "", "bad")).unwrap_err(), "yt-dlp JSON failed: bad");
    assert!(ytdlp_json(&output(true, "{}", "")).is_ok());
    assert!(ytdlp_json(&output(true, "{", "")).is_err());
    assert_eq!(
        ytdlp_play_url(&output(true, "note\n  https://a \nhttps://b", "")).unwrap(),
        "https://a"
    );
    assert_eq!(
        ytdlp_play_url(&output(true, "", "")).unwrap_err(),
        "yt-dlp returned no playable URL"
    );
    assert_eq!(
        ytdlp_play_url(&output(false, "", "bad")).unwrap_err(),
        "yt-dlp play URL failed: bad"
    );
}

#[test]
fn items_of_the_library_are_files() {
    let library = library();
    assert_eq!(library.db_path, "/tmp/troozn-youtube/items.json");
    assert_eq!(library.current_dir, "/home/me/.kodi/userdata/TROOZN/current");
    assert_eq!(library.ytdlp_bin, "/usr/local/bin/yt-dlp");
    let report = parse_json(
        "{\"title\":\"A & B\",\"webpage_url\":\"abc\",\"duration\":125,\"thumbnail\":\"https://t\",\"channel\":\"C\"}",
    )
    .unwrap();
    let item = library.create_library_item(2, &metadata_from_video_info(&report, "x"), 77);
    assert_eq!(item.item_id, "a9993e364706816a");
    assert_eq!(item.strm_path, "/home/me/.kodi/userdata/TROOZN/current/002 - A & B.strm");
    assert_eq!(
        item.local_thumb.as_deref(),
        Some("/home/me/.kodi/userdata/TROOZN/current/002 - A & B-thumb.jpg")
    );
    assert_eq!(item.play_url, "http://127.0.0.1:8787/youtube/item/a9993e364706816a/play");
    assert_eq!(item.created_at, 77);
    assert_eq!(strm_text(&item), "http://127.0.0.1:8787/youtube/item/a9993e364706816a/play\n");
    assert_eq!(
        movie_nfo_xml(&item),
        "<?xml version=\"1.0\" encoding=\"UTF-8\" standalone=\"yes\"?>\n<movie>\n  <title>A &amp; B</title>\n  <originaltitle>A &amp; B</originaltitle>\n  <plot></plot>\n  <runtime>2</runtime>\n  <studio>C</studio>\n  <premiered></premiered>\n  <thumb>/home/me/.kodi/userdata/TROOZN/current/002 - A &amp; B-thumb.jpg</thumb>\n  <uniqueid type=\"troozn\" default=\"true\">a9993e364706816a</uniqueid>\n  <trailer>abc</trailer>\n</movie>\n"
    );
    assert_eq!(
        write_playlist(&vec![item.clone()]),
        "#EXTM3U\n#EXTINF:125,A & B\n/home/me/.kodi/userdata/TROOZN/current/002 - A & B.strm\n"
    );
    assert_eq!(
        library.playlist_path(),
        "/home/me/.kodi/userdata/TROOZN/current/playlist.m3u8"
    );
    let answer = library.response(vec![item]);
    assert!(answer.ok && answer.count == 1);
}

#[test]
fn items_are_numbered_from_one() {
    let list = parse_json("{\"entries\":[{\"url\":\"a\",\"title\":\"x\"},{\"url\":\"b\",\"title\":\"x\"}]}").unwrap();
    let videos = videos_of_playlist(&list);
    let mut items = Vec::new();
    assert!(library().next_library_item(&videos, &mut items, 7));
    assert!(library().next_library_item(&videos, &mut items, 9));
    assert!(!library().next_library_item(&videos, &mut items, 11));
    assert_eq!(items.len(), 2);
    assert_eq!((items[0].index, items[1].index), (1, 2));
    assert_eq!((items[0].created_at, items[1].created_at), (7, 9));
    assert_ne!(items[0].strm_path, items[1].strm_path);
}

#[test]
fn found_addresses_are_kept_for_a_while() {
    let mut library = library();
    assert_eq!(library.play_redirect("i", 100), None);
    library.remember_url("i", "https://a", 100);
    assert_eq!(library.play_redirect("i", 999).as_deref(), Some("https://a"));
    assert_eq!(library.play_redirect("i", 1000), None);
    library.clear_current_library();
    assert_eq!(library.play_redirect("i", 100), None);
    assert_eq!(unknown_item("i"), "unknown YouTube item: i");
}

#[test]
fn base_addresses_keep_their_scheme() {
    let library = YoutubeLibrary::new_default(None, "https://h/", Some("/bin/y".to_string()));
    assert_eq!(library.public_base_url, "https://h");
    assert_eq!(library.library_dir, "/tmp/.kodi/userdata/TROOZN");
    assert_eq!(library.ytdlp_bin, "/bin/y");
}

#[test]
fn settings_have_defaults() {
    assert_eq!(setting_or(None, "d"), "d");
    assert_eq!(setting_or(Some(String::new()), "d"), "");
    assert_eq!(public_host(Some(" ".to_string()), "1.2.3.4".to_string()), "1.2.3.4");
    assert_eq!(public_host(Some("h".to_string()), "1.2.3.4".to_string()), "h");
    assert_eq!(DEFAULT_FTP_BIND, "0.0.0.0:2120");
}

#[test]
fn certificates_are_renewed() {
    assert!(!certificate_too_old(100, 100 + WEBTRANSPORT_CERT_MAX_AGE_SECONDS - 1));
    assert!(certificate_too_old(100, 100 + WEBTRANSPORT_CERT_MAX_AGE_SECONDS));
    assert!(certificate_too_old(0, 5));
    assert!(identity_is_stale(None, 100));
    assert!(identity_is_stale(Some("{".to_string()), 100));
    assert!(identity_is_stale(Some("{}".to_string()), 100));
    assert!(!identity_is_stale(Some(identity_note(100)), 100));
    assert!(!identity_is_stale(
        Some(identity_note(100)),
        100 + WEBTRANSPORT_CERT_MAX_AGE_SECONDS - 1
    ));
    assert!(identity_is_stale(Some(identity_note(100)), 100 + WEBTRANSPORT_CERT_MAX_AGE_SECONDS));
    assert_eq!(
        identity_note(100),
        "{\"createdAt\":100,\"expiresAfter\":1209700,\"rotateAfter\":1123300}"
    );
}

#[test]
fn the_status_is_written() {
    let settings = StatusSettings {
        ftp_bind: None,
        http_bind: None,
        upnp_bind: None,
        kodi_username: Some(" ".to_string()),
        head_cache_bytes: None,
        head_cache_max_bytes: Some("7".to_string()),
        head_cache_dir: None,
        state_dir: Some("/s".to_string()),
    };
    let text = settings.write_proxy_status("0.0.0.0:4433", "aa:bb", 9);
    let value: serde_json::Value = serde_json::from_str(&text).unwrap();
    assert_eq!(text, format!("{value}\n"));
    assert_eq!(value["state"], "running");
    assert_eq!(value["transport"], "webtransport");
    assert_eq!(value["ftpBind"], "0.0.0.0:2120");
    assert_eq!(value["httpBind"], "127.0.0.1:8787");
    assert_eq!(value["upnpBind"], "0.0.0.0:8788");
    assert_eq!(value["webTransportBind"], "0.0.0.0:4433");
    assert_eq!(value["webTransportPort"], 4433);
    assert_eq!(value["webTransportCertHash"], "aa:bb");
    assert_eq!(value["kodiAuthConfigured"], false);
    assert_eq!(value["headCacheBytes"], 33_554_432u64);
    assert_eq!(value["headCacheMaxBytes"], 7);
    assert_eq!(value["headCacheDir"], "/s/head-cache");
    assert_eq!(value["updatedAt"], 9);
    assert_eq!(value.as_object().unwrap().len(), 13);
}
