use troozn_proxy::items::{
    best_thumbnail_from_value, enrich_item, fallback_single_item_from_url, item_from_ytdlp_value,
    items_from_page, items_from_report, metadata_from_report, troozn_live_item_from_ytdlp_entry,
};
use troozn_proxy::json::{parse_and_write, parse_json, parse_json_bytes, quote, read_json, Json};
use troozn_proxy::links::{
    extract_youtube_video_id, fallback_title_for_url, infer_media_type_from_url,
    is_probably_playlist_url, is_public_playlist_alias, is_youtube_mix_list, is_youtube_url,
    looks_like_youtube_id, normalize_rd_playlist_to_watch_url, playlist_name_for_source,
    playlist_title_from_name, query_param, sanitize_playlist_label, source_host, title_case_ascii,
    url_extension, youtube_watch_url,
};

fn json(s: &str) -> Json {
    parse_json(s).expect("valid JSON")
}

#[test]
fn extensions_of_links_are_found() {
    assert_eq!(url_extension("http://h/a.MP4?x=1"), Some("mp4".to_string()));
    assert_eq!(url_extension("http://h/a.mkv/#frag"), Some("mkv".to_string()));
    assert_eq!(url_extension("noextension"), None);
    assert_eq!(url_extension("http://example.community/x"), None);
}

#[test]
fn media_kinds_follow_the_extension() {
    assert_eq!(infer_media_type_from_url("http://h/a.mp3"), Some("audio"));
    assert_eq!(infer_media_type_from_url("http://h/a.m3u8"), Some("video"));
    assert_eq!(infer_media_type_from_url("http://h/a.txt"), None);
}

#[test]
fn playlists_are_named_after_their_host() {
    assert_eq!(playlist_name_for_source("https://www.YouTube.com/watch?v=x"), "Playlist_Youtube.m3u8");
    assert_eq!(playlist_name_for_source("https://dai.ly/x"), "Playlist_Dailymotion.m3u8");
    assert_eq!(playlist_name_for_source("https://www.example.org/x"), "Playlist_Example.m3u8");
    assert_eq!(playlist_name_for_source("https://my-site.org"), "Playlist_My_site.m3u8");
    assert_eq!(playlist_name_for_source(""), "Playlist_Troozn.m3u8");
    assert_eq!(source_host("HTTPS://Host.Org/a"), Some("host.org".to_string()));
    assert_eq!(source_host("https:///x"), None);
    assert_eq!(source_host("ftp://x"), None);
    assert_eq!(title_case_ascii("aBC"), "Abc");
    assert_eq!(title_case_ascii(""), "Troozn");
    assert_eq!(sanitize_playlist_label("é!"), "Troozn");
    assert_eq!(playlist_title_from_name("Playlist_My_site.m3u8"), "Playlist My site");
    assert_eq!(playlist_title_from_name("other"), "Playlist Troozn");
}

#[test]
fn the_playlist_has_aliases() {
    assert!(is_public_playlist_alias("Playlist_Vimeo.m3u8", "Playlist_Youtube.m3u8"));
    assert!(is_public_playlist_alias("playlist_youtube.M3U8", "Playlist_Youtube.m3u8"));
    assert!(is_public_playlist_alias("PLAYLIST-YOUTUBE.m3u8", "x"));
    assert!(!is_public_playlist_alias("item-0001.m3u8", "Playlist_Youtube.m3u8"));
    let name = playlist_name_for_source("https://vimeo.com/1");
    assert!(is_public_playlist_alias(&name, "anything"));
}

#[test]
fn video_identifiers_are_found() {
    let id = Some("dQw4w9WgXcQ".to_string());
    assert_eq!(extract_youtube_video_id("https://www.youtube.com/watch?v=dQw4w9WgXcQ&t=1"), id);
    assert_eq!(extract_youtube_video_id("https://youtu.be/dQw4w9WgXcQ?si=x"), id);
    assert_eq!(extract_youtube_video_id("https://www.youtube.com/shorts/dQw4w9WgXcQ/"), id);
    assert_eq!(extract_youtube_video_id("https://www.youtube.com/embed/dQw4w9WgXcQ#a"), id);
    assert_eq!(extract_youtube_video_id("https://x/playlist?list=RDMMdQw4w9WgXcQ"), id);
    assert_eq!(extract_youtube_video_id("https://x/playlist?list=RDdQw4w9WgXcQ"), id);
    assert_eq!(extract_youtube_video_id("https://x/playlist?list=PL123"), None);
    assert_eq!(extract_youtube_video_id(&youtube_watch_url("dQw4w9WgXcQ")), id);
    assert!(looks_like_youtube_id("a-b_c123456"));
    assert!(!looks_like_youtube_id("short"));
}

#[test]
fn mixes_are_recognized() {
    assert!(is_youtube_mix_list("https://x?list=RDabc"));
    assert!(!is_youtube_mix_list("https://x?list=PLabc"));
    assert!(!is_youtube_mix_list("https://x"));
    assert_eq!(
        normalize_rd_playlist_to_watch_url("https://x?list=RDdQw4w9WgXcQ"),
        Some("https://www.youtube.com/watch?v=dQw4w9WgXcQ&list=RDdQw4w9WgXcQ&start_radio=1".to_string())
    );
    assert_eq!(normalize_rd_playlist_to_watch_url("https://x?list=RDxyz"), None);
    assert_eq!(query_param("https://x?a=1&b=c+d", "b"), Some("c d".to_string()));
    assert_eq!(query_param("b=1", "b"), Some("1".to_string()));
    assert_eq!(query_param("https://x?a&b", "b"), None);
}

#[test]
fn playlist_and_youtube_links_are_recognized() {
    assert!(is_probably_playlist_url("https://x/SETS/a"));
    assert!(is_probably_playlist_url("https://x?LIST=a"));
    assert!(!is_probably_playlist_url("https://x/watch?v=1"));
    assert!(is_youtube_url("https://YOUTU.BE/x"));
    assert!(!is_youtube_url("https://vimeo.com/x"));
}

#[test]
fn links_have_titles() {
    assert_eq!(fallback_title_for_url("https://h/my-great_song.mp3?x"), "my great song.mp3");
    assert_eq!(fallback_title_for_url("/"), "Media TROOZN");
    assert_eq!(fallback_title_for_url("https://h/--/"), "Media TROOZN");
}

#[test]
fn a_link_alone_makes_an_item() {
    let item = fallback_single_item_from_url("https://youtu.be/dQw4w9WgXcQ").unwrap();
    assert_eq!(item.source_url, "https://www.youtube.com/watch?v=dQw4w9WgXcQ");
    assert_eq!(item.item_id, "df2c6f7afc1a5878");
    assert_eq!(item.index, 1);
    assert_eq!(item.title, "watch");
    assert!(fallback_single_item_from_url("not a link").is_none());
}

#[test]
fn page_entries_become_items() {
    let page = json(
        r#"{"entries":[null,{"id":"dQw4w9WgXcQ","title":"T","duration":12.9,"uploader":"U"},
            {"id":"bad"},{"url":"https://h/x","channel":"C"}]}"#,
    );
    let items = items_from_page(&page);
    assert_eq!(items.len(), 2);
    assert_eq!(items[0].source_url, "https://www.youtube.com/watch?v=dQw4w9WgXcQ");
    assert_eq!(items[0].duration, Some(12));
    assert_eq!(items[0].channel.as_deref(), Some("U"));
    assert_eq!(items[0].index, 0);
    assert_eq!(items[1].title, "YouTube");
    assert_eq!(items[1].source_url, "https://h/x");
    assert!(troozn_live_item_from_ytdlp_entry(&json("{}")).is_none());
}

#[test]
fn negative_and_large_durations_are_cut() {
    let item = troozn_live_item_from_ytdlp_entry(&json(
        r#"{"url":"https://h/x","duration":-3.5}"#,
    ))
    .unwrap();
    assert_eq!(item.duration, Some(0));
    let item = troozn_live_item_from_ytdlp_entry(&json(
        r#"{"url":"https://h/x","duration":1e300}"#,
    ))
    .unwrap();
    assert_eq!(item.duration, Some(u64::MAX));
}

#[test]
fn thumbnails_and_metadata_are_read() {
    let report = json(
        r#"{"title":"T","webpage_url":"https://h","duration":9,"channel":"C","uploader":"U",
            "upload_date":"20240131","description":"D","thumbnail":"https://t/1.jpg"}"#,
    );
    let meta = metadata_from_report(&report);
    assert_eq!(meta.title.as_deref(), Some("T"));
    assert_eq!(meta.thumbnail.as_deref(), Some("https://t/1.jpg"));
    assert_eq!(best_thumbnail_from_value(&json("{}")), None);
    let item = fallback_single_item_from_url("https://h/a").unwrap();
    let id = item.item_id.clone();
    let better = enrich_item(&item, meta);
    assert_eq!(better.item_id, id);
    assert_eq!(better.index, 1);
    assert_eq!(better.title, "T");
    assert_eq!(better.uploader.as_deref(), Some("U"));
}

#[test]
fn unavailable_entries_are_left_out_of_reports() {
    let report = json(
        r#"{"entries":[{"id":"dQw4w9WgXcQ","title":"[Private video]"},
            {"id":"aaaaaaaaaaa","title":"Good"}]}"#,
    );
    let items = items_from_report(&report, 10);
    assert_eq!(items.len(), 1);
    assert_eq!(items[0].title, "Good");
    assert!(item_from_ytdlp_value(1, &json(r#"{"title":"x"}"#)).is_none());
}

#[test]
fn json_is_read_with_serde() {
    let v = json(r#"{"b":[1,-2,2.5,"é",true,null],"a":{}}"#);
    let list = v.list_at("b").unwrap();
    assert!(matches!(&list[0], Json::Number(n) if n.unsigned == Some(1)));
    assert_eq!(list[1].signed(), Some(-2));
    assert!(matches!(&list[2], Json::Number(n) if n.double == 2.5f64.to_bits() && n.whole == 2));
    assert_eq!(list[3].text().as_deref(), Some("é"));
    assert!(matches!(list[4], Json::Bool(true)));
    assert!(list[5].is_null());
    assert!(v.get("c").is_none());
    assert!(parse_json("{").is_none());
    let theirs = serde_json::from_str::<serde_json::Value>("{").unwrap_err().to_string();
    assert_eq!(read_json("{").err().unwrap(), theirs);
    assert!(parse_json_bytes(vec![0xff]).is_none());
    assert!(matches!(parse_json_bytes(b"3".to_vec()), Some(Json::Number(_))));
}

#[test]
fn objects_of_numbers_are_read_back() {
    let v = json("{\"a\\\"\\n\":0,\"b\":18446744073709551615}");
    assert_eq!(v.unsigned_at("a\"\n"), Some(0));
    assert_eq!(v.unsigned_at("b"), Some(u64::MAX));
    assert_eq!(v.unsigned_at("c"), None);
}

#[test]
fn json_is_written_in_the_order_of_its_keys() {
    let (_, written) = parse_and_write(r#"{ "b": 1, "a": "x\/y" }"#).unwrap();
    assert_eq!(written, r#"{"a":"x/y","b":1}"#);
    assert!(parse_and_write("nope").is_none());
}

#[test]
fn quoted_texts_are_json() {
    for s in ["", "plain", "\"\\/\n\t\r\u{8}\u{c}\u{1}\u{7f}é\u{1f600}"] {
        assert_eq!(quote(s), serde_json::Value::from(s).to_string());
        assert_eq!(json(&quote(s)).text().as_deref(), Some(s));
        assert!(!quote(s).contains('\n'));
    }
}

#[test]
fn every_form_of_link_gives_the_identifier_back() {
    let id = "a-B_9zQw4MM";
    for link in [
        format!("https://www.youtube.com/watch?v={id}"),
        format!("https://youtu.be/{id}"),
        format!("https://www.youtube.com/embed/{id}"),
        format!("https://www.youtube.com/shorts/{id}?t=1"),
        format!("https://www.youtube.com/playlist?list=RD{id}"),
        format!("https://www.youtube.com/playlist?list=RDMM{id}"),
    ] {
        assert_eq!(extract_youtube_video_id(&link).as_deref(), Some(id), "{link}");
    }
    let starts_like_a_mix = "https://www.youtube.com/playlist?list=RDMMa-B_9zQw4";
    assert_eq!(extract_youtube_video_id(starts_like_a_mix).as_deref(), Some("MMa-B_9zQw4"));
}

#[test]
fn a_mix_link_is_its_own_mix_link() {
    let link = normalize_rd_playlist_to_watch_url("https://x?list=RDMMdQw4w9WgXcQ").unwrap();
    assert_eq!(query_param(&link, "v").as_deref(), Some("dQw4w9WgXcQ"));
    assert_eq!(query_param(&link, "list").as_deref(), Some("RDMMdQw4w9WgXcQ"));
    assert_eq!(normalize_rd_playlist_to_watch_url(&link), Some(link.clone()));
}

#[test]
fn the_kind_of_a_link_stays() {
    assert_eq!(infer_media_type_from_url("https://x.y/a.MP3?f=b.mp4"), Some("audio"));
    assert_eq!(infer_media_type_from_url("https://x.y/a.m3u8"), Some("video"));
    assert_eq!(infer_media_type_from_url("https://x.y/a.pdf"), None);
    for link in [
        "https://x.y/a.mp4",
        "https://x.y/a.mp4/",
        "https://x.y/a.mp4?f=b.mp3",
        "https://x.y/a.mp4#b.mp3",
        "HTTPS://X.Y/A.MP4",
    ] {
        assert_eq!(infer_media_type_from_url(link), Some("video"), "{link}");
    }
}

#[test]
fn marks_of_playlists_stay() {
    assert!(is_probably_playlist_url("https://soundcloud.com/a/SETS/b"));
    assert!(is_probably_playlist_url("https://soundcloud.com/a/sets/b"));
    assert!(is_probably_playlist_url("x https://soundcloud.com/a/Sets/b?y"));
    assert!(!is_probably_playlist_url("https://www.youtube.com/watch?v=dQw4w9WgXcQ"));
    assert!(!is_probably_playlist_url("HTTPS://WWW.YOUTUBE.COM/WATCH?V=DQW4W9WGXCQ"));
    assert!(is_youtube_url("HTTPS://WWW.YOUTUBE.COM/WATCH?V=DQW4W9WGXCQ"));
    assert!(is_youtube_url("see https://Youtu.be/x now"));
}
