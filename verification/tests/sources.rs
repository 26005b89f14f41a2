use troozn_proxy::extraction::{
    clamp_limit, extraction_urls, needs_validation, nothing_extracted, require_items, scan_limit,
    validation_passed, ActiveFilter, Extraction, ExtractionStep, Verdict, NO_ITEM_FOUND,
};
use troozn_proxy::items::{fallback_single_item_from_url, TrooznLiveItem};
use troozn_proxy::json::parse_json;
use troozn_proxy::resolve::{
    classify, direct_audio, direct_kind, direct_video, generic_failure_message, generic_format,
    generic_step, generic_timeout, DirectKind, GenericStage, GenericStep, ResolveAction, Trouble,
    YoutubeResolution,
};
use troozn_proxy::ytdlp::{
    best_dash_av_format_from_list_formats, best_youtube_fast_format_from_list_formats,
    best_youtube_json_dash_av, best_youtube_json_single_url, dash_command, dash_outcome,
    deno_requested, generic_command, generic_outcome, is_youtube_auth_or_bot_error,
    is_youtube_terminal_unavailable_error, is_ytdlp_timeout_error, json_command, json_outcome,
    list_formats_command, list_formats_outcome, media_input_summary, media_type_for_input,
    metadata_command, metadata_gave_up, metadata_outcome, playlist_command, playlist_outcome,
    probe_arguments, probe_outcome, range_command, range_outcome, single_command, single_outcome,
    validate_command, MetadataAttempt, MetadataSearch, MetadataStep, OutputText, ProcessOutput,
    ResolvedMediaInput, RunError, DENO_MISSING,
};

fn output(success: bool, stdout: &str, stderr: &str) -> OutputText {
    raw(success, stdout, stderr).text()
}

fn raw(success: bool, stdout: &str, stderr: &str) -> ProcessOutput {
    ProcessOutput {
        success,
        status: "exit status: 1".to_string(),
        stdout: stdout.as_bytes().to_vec(),
        stderr: stderr.as_bytes().to_vec(),
    }
}

fn items(count: usize) -> Vec<TrooznLiveItem> {
    (0..count)
        .map(|i| fallback_single_item_from_url(&format!("https://h/{i}")).unwrap())
        .collect()
}

#[test]
fn outputs_become_texts() {
    let out = ProcessOutput {
        success: true,
        status: "ok".to_string(),
        stdout: vec![b'a', 0xff],
        stderr: vec![],
    };
    assert_eq!(out.text().stdout, "a\u{fffd}");
}

#[test]
fn messages_of_failed_runs() {
    assert_eq!(RunError::Timeout.message("yt-dlp -g"), "timeout yt-dlp -g");
    assert_eq!(RunError::SlotTimeout.message("x"), "timeout attente slot x");
    assert_eq!(RunError::SerialTimeout.message("x"), "timeout attente série x");
    assert_eq!(RunError::SlotClosed.message("x"), "acquisition slot x");
    assert_eq!(RunError::Spawn.message("x"), "spawn x");
    assert_eq!(RunError::Wait.message("x"), "wait x");
}

#[test]
fn commands_of_the_downloader() {
    let command = playlist_command("u", 26, false);
    assert_eq!(
        command.args,
        vec!["--flat-playlist", "--no-warnings", "--playlist-end", "26", "-J", "u"]
    );
    assert_eq!((command.label, command.timeout_seconds), ("yt-dlp playlist", 30));
    let command = range_command("u", 21, 40);
    assert_eq!(
        command.args.join(" "),
        "--flat-playlist --dump-single-json --no-warnings --force-ipv4 --socket-timeout 20 --playlist-start 21 --playlist-end 40 u"
    );
    assert_eq!((command.label, command.timeout_seconds), ("yt-dlp range extract", 45));
    assert_eq!(
        validate_command("u").args.join(" "),
        "--ignore-config --no-playlist --no-warnings --force-ipv4 --socket-timeout 5 --retries 0 --fragment-retries 0 -f 96/22/95/94/137+140/136+140/135+140 -g u"
    );
    assert_eq!(validate_command("u").timeout_seconds, 4);
    assert_eq!(
        metadata_command("u", true).args.join(" "),
        "--js-runtimes deno:/home/troozn/.deno/bin/deno --remote-components ejs:github --no-playlist --no-warnings --skip-download -J u"
    );
    let command = list_formats_command("u", false);
    assert_eq!(
        command.args.join(" "),
        "--ignore-config --force-ipv4 --no-warnings --socket-timeout 10 --list-formats u"
    );
    assert_eq!(list_formats_command("u", true).label, "yt-dlp list-formats deno");
    let command = single_command("u", "96", false);
    assert_eq!(
        command.args.join(" "),
        "--ignore-config --no-playlist --no-warnings --force-ipv4 --socket-timeout 8 --retries 0 --fragment-retries 0 -f 96 -g u"
    );
    assert_eq!((command.label, command.timeout_seconds), ("yt-dlp -g", 12));
    let command = single_command("u", "96", true);
    assert_eq!((command.label, command.timeout_seconds), ("yt-dlp -g deno", 45));
    assert_eq!(dash_command("u", "x", false).timeout_seconds, 14);
    assert_eq!(dash_command("u", "x", true).label, "yt-dlp dash av -g deno");
    assert_eq!(generic_command("u", "x", 40).label, "yt-dlp generic -g");
    assert_eq!(json_command("u").timeout_seconds, 60);
    assert_eq!(
        probe_arguments("u").join(" "),
        "-v error -select_streams v:0 -show_entries stream=height -of json u"
    );
    assert!(deno_requested(Some("yes")));
    assert!(!deno_requested(Some("Yes")));
    assert!(!deno_requested(None));
}

#[test]
fn troubles_are_told_apart() {
    assert!(is_youtube_auth_or_bot_error("Please SIGN IN"));
    assert!(is_youtube_terminal_unavailable_error("ERROR: Private video"));
    assert!(is_ytdlp_timeout_error("timeout yt-dlp -g"));
    assert_eq!(classify("Video unavailable"), Trouble::Unavailable);
    assert_eq!(classify("Confirm you’re not a bot"), Trouble::Unavailable);
    assert_eq!(classify("timeout attente slot x"), Trouble::TimedOut);
    assert_eq!(classify("timeout attente série x"), Trouble::Other);
}

#[test]
fn links_are_taken_from_outputs() {
    assert_eq!(single_outcome("u", "96", &output(true, "x\n https://a \nhttps://b", "")).unwrap(), "https://a");
    assert_eq!(
        single_outcome("u", "96", &output(true, " none ", "")).unwrap_err(),
        "yt-dlp -g OK mais aucune URL: format=96 stdout=none"
    );
    assert_eq!(
        single_outcome("u", "96", &output(false, "o", " e ")).unwrap_err(),
        "yt-dlp -g failed: bin=/home/troozn/.local/bin/yt-dlp format=96 url=u status=exit status: 1 stderr=e stdout=o"
    );
    assert!(matches!(
        dash_outcome("f", &output(true, "https://v\nhttps://a", "")),
        Ok(ResolvedMediaInput::SeparateAv { audio_url, .. }) if audio_url == "https://a"
    ));
    assert_eq!(
        dash_outcome("f", &output(true, "https://v", "")).unwrap_err(),
        "yt-dlp dash av OK mais moins de 2 URLs: format=f stdout=https://v"
    );
    assert_eq!(
        dash_outcome("f", &output(false, "", "e")).unwrap_err(),
        "yt-dlp dash av failed: format=f status=exit status: 1 stderr=e stdout="
    );
    assert_eq!(generic_outcome("u", "f", &output(true, "https://a", "")).unwrap().len(), 1);
    assert_eq!(
        generic_outcome("u", "f", &output(true, "", "")).unwrap_err(),
        "yt-dlp generic -g OK mais aucune URL: format=f stdout="
    );
    assert!(generic_outcome("u", "f", &output(false, "", "e")).is_err());
    assert_eq!(list_formats_outcome(&output(true, "a", "b")).unwrap(), "a\nb");
    assert_eq!(list_formats_outcome(&output(true, "a", " ")).unwrap(), "a");
    assert_eq!(
        list_formats_outcome(&output(false, " a ", "")).unwrap_err(),
        "yt-dlp list-formats failed status=exit status: 1 output=a"
    );
}

#[test]
fn formats_are_chosen_by_preference() {
    let list = "ID EXT\n94 mp4\n95 mp4\n22 mp4\n135 mp4\n140 m4a\n136 mp4";
    assert_eq!(best_youtube_fast_format_from_list_formats(list), Some("95"));
    let list_of_two = "22 mp4 1280x720\n95 mp4 1280x720\n";
    assert_eq!(best_youtube_fast_format_from_list_formats(list_of_two), Some("95"));
    assert_eq!(best_youtube_fast_format_from_list_formats("22 mp4\n94 mp4\n96 mp4"), Some("96"));
    assert_eq!(best_youtube_fast_format_from_list_formats("22 mp4\n94 mp4"), Some("94"));
    assert_eq!(best_youtube_fast_format_from_list_formats("22 mp4"), Some("22"));
    assert_eq!(best_dash_av_format_from_list_formats(list), Some("136+140"));
    assert_eq!(best_youtube_fast_format_from_list_formats("18 mp4"), None);
    assert_eq!(best_dash_av_format_from_list_formats("137 mp4"), None);
    let report = parse_json(
        "{\"formats\":[{\"format_id\":\"94\",\"url\":\"https://94\"},{\"format_id\":\"96\",\"url\":\"m3u8\"},{\"format_id\":\"136\",\"url\":\"https://v\"},{\"format_id\":\"140\",\"url\":\"https://a\"}]}",
    )
    .unwrap();
    assert_eq!(best_youtube_json_single_url(&report), Some(("94", "https://94".to_string())));
    assert_eq!(
        best_youtube_json_dash_av(&report),
        Some(("136+140", "https://v".to_string(), "https://a".to_string()))
    );
    assert_eq!(
        json_outcome(&output(true, "{}", "")).unwrap_err(),
        "yt-dlp json deno OK mais aucun format 1080p/720p/480p exploitable"
    );
    assert_eq!(json_outcome(&output(true, "{", "")).unwrap_err(), "parse yt-dlp json deno");
    assert_eq!(
        json_outcome(&output(false, "o", "e")).unwrap_err(),
        "yt-dlp json deno failed: status=exit status: 1 stderr=e stdout=o"
    );
}

#[test]
fn reports_become_items() {
    let report = "{\"entries\":[{\"id\":\"dQw4w9WgXcQ\",\"title\":\"a\"},{\"id\":\"aaaaaaaaaaa\",\"title\":\"b\"}]}";
    assert_eq!(playlist_outcome(raw(true, report, ""), 1).unwrap().len(), 1);
    assert_eq!(
        playlist_outcome(raw(false, "", " e "), 1).err().unwrap(),
        "yt-dlp playlist a échoué: e"
    );
    assert_eq!(playlist_outcome(raw(true, "{", ""), 1).err().unwrap(), "parse yt-dlp JSON");
    assert_eq!(range_outcome(&output(true, report, "")).unwrap().len(), 2);
    assert_eq!(
        range_outcome(&output(false, "", "e")).err().unwrap(),
        "yt-dlp range extract failed: e"
    );
    assert_eq!(range_outcome(&output(true, "{", "")).err().unwrap(), "parse yt-dlp range json");
    assert_eq!(
        require_items(Ok(Vec::new())).err().unwrap(),
        "Extraction playlist vide après retries"
    );
}

#[test]
fn metadata_is_asked_for_again() {
    assert!(matches!(metadata_outcome("u", raw(true, "{\"title\":\"T\"}", "")), MetadataAttempt::Done(m) if m.title.as_deref() == Some("T")));
    assert!(matches!(metadata_outcome("u", raw(false, "", "e")), MetadataAttempt::Retry(_)));
    assert!(matches!(metadata_outcome("u", raw(true, "{", "")), MetadataAttempt::Unreadable));
    assert_eq!(metadata_gave_up("x"), "yt-dlp metadata a échoué après retries: x");
}

#[test]
fn reports_on_videos_are_asked_for_three_times() {
    let mut search = MetadataSearch::new();
    assert!(matches!(search.extract_full_video_metadata("u", Err("a".to_string())), MetadataStep::Again(500)));
    assert!(matches!(search.extract_full_video_metadata("u", Ok(raw(false, "", "e"))), MetadataStep::Again(1000)));
    assert!(matches!(search.extract_full_video_metadata("u", Err("b".to_string())),
        MetadataStep::Failed { pause: 1500, message } if message == "yt-dlp metadata a échoué après retries: yt-dlp metadata: b"));
    let mut search = MetadataSearch::new();
    assert!(matches!(search.extract_full_video_metadata("u", Ok(raw(true, "{}", ""))), MetadataStep::Done(_)));
    assert!(matches!(search.extract_full_video_metadata("u", Ok(raw(true, "{", ""))),
        MetadataStep::Failed { pause: 0, message } if message == "parse yt-dlp metadata JSON"));
}

#[test]
fn searches_without_items_are_explained() {
    assert_eq!(
        nothing_extracted(Some("x".to_string())),
        "Aucun item extractible pour ce lien. Dernière erreur: x"
    );
    assert_eq!(
        nothing_extracted(None),
        "Aucun item extractible pour ce lien. Dernière erreur: inconnue"
    );
    assert_eq!(NO_ITEM_FOUND, "Aucun item yt-dlp trouvé");
    assert_eq!(DENO_MISSING, "deno indisponible pour fallback yt-dlp");
}

#[test]
fn heights_are_probed() {
    assert_eq!(probe_outcome(raw(true, "{\"streams\":[{\"height\":720}]}", "")), Ok(Some(720)));
    assert_eq!(probe_outcome(raw(true, "{}", "")), Ok(None));
    assert_eq!(probe_outcome(raw(true, "x", "")), Err("parse ffprobe direct video JSON".to_string()));
    assert_eq!(
        probe_outcome(raw(false, "", " e ")),
        Err("ffprobe direct video failed: e".to_string())
    );
}

#[test]
fn direct_links_need_no_downloader() {
    assert_eq!(direct_kind("https://h/a.mp3"), DirectKind::Audio);
    assert_eq!(direct_kind("https://h/a.mp4"), DirectKind::Video);
    assert_eq!(direct_kind("ftp://h/a.mp4"), DirectKind::NotDirect);
    assert_eq!(direct_kind("https://h/watch"), DirectKind::NotDirect);
    assert!(direct_video("u", Some(479)).is_none());
    assert!(direct_video("u", None).is_none());
    let input = direct_video("https://h/a.mp4", Some(480)).unwrap();
    assert_eq!(media_input_summary(&input), "single format=direct-video-480p url=https://h/a.mp4");
    assert_eq!(media_type_for_input(&input), "video");
    assert_eq!(media_type_for_input(&direct_audio("https://h/a.mp3")), "audio");
}

#[test]
fn the_fast_way_is_tried_first() {
    let (mut search, action) = YoutubeResolution::start();
    assert!(matches!(action, ResolveAction::Single { format, use_deno: false } if format == "96/22/95/94"));
    assert!(matches!(search.on_link("https://v".to_string()), ResolveAction::Done(_)));
}

#[test]
fn a_slow_answer_leads_to_the_other_runtime() {
    let (mut search, _) = YoutubeResolution::start();
    assert!(matches!(search.on_failure("timeout yt-dlp -g", true), ResolveAction::Json));
    assert!(matches!(search.on_failure("j", true), ResolveAction::Single { use_deno: true, .. }));
    assert!(matches!(search.on_failure("s", true), ResolveAction::Dash { use_deno: true, .. }));
    assert!(matches!(search.on_failure("d", true), ResolveAction::Dash { use_deno: false, .. }));
    assert!(matches!(search.on_failure("dd", true), ResolveAction::List { use_deno: true }));
    assert!(matches!(search.on_list("96 mp4\n137 a\n140 b".to_string()), ResolveAction::Single { format, use_deno: true } if format == "96"));
    assert!(matches!(search.on_failure("ls", true), ResolveAction::Dash { format, .. } if format == "137+140"));
    match search.on_failure("ld", true) {
        ResolveAction::Failed(message) => assert_eq!(
            message,
            "aucun format YouTube exploitable trouvé: muxé=96/22/95/94 DASH=137+140/136+140/135+140 erreurs=fast=timeout yt-dlp -g | deno_json=j | deno_single=s | deno_dash=d | dash_direct=dd | list_single_96=ls | list_dash_137+140=ld"
        ),
        _ => panic!(),
    }
}

#[test]
fn without_the_other_runtime_the_list_is_asked() {
    let (mut search, _) = YoutubeResolution::start();
    assert!(matches!(search.on_failure("x", false), ResolveAction::Dash { use_deno: false, .. }));
    assert!(matches!(search.on_failure("y", false), ResolveAction::List { use_deno: false }));
    match search.on_failure("z", false) {
        ResolveAction::Failed(message) => assert!(message.ends_with(
            "erreurs=fast=x | dash_direct=y | deno_fallback=deno indisponible | list_formats=z"
        )),
        _ => panic!(),
    }
}

#[test]
fn unavailable_videos_end_the_search() {
    let (mut search, _) = YoutubeResolution::start();
    match search.on_failure("Private video", true) {
        ResolveAction::Failed(message) => {
            assert_eq!(message, "yt-dlp YouTube indisponible: Private video")
        }
        _ => panic!(),
    }
}

#[test]
fn other_sites_have_three_ways() {
    let urls = |n: usize| -> Vec<String> { (0..n).map(|i| format!("https://{i}")).collect() };
    assert!(matches!(generic_step(GenericStage::Single, &urls(1)), GenericStep::Done(ResolvedMediaInput::Single { .. })));
    assert!(matches!(generic_step(GenericStage::Single, &urls(2)), GenericStep::Done(ResolvedMediaInput::SeparateAv { .. })));
    assert!(matches!(generic_step(GenericStage::Single, &urls(0)), GenericStep::Next(GenericStage::Separate)));
    assert!(matches!(generic_step(GenericStage::Separate, &urls(0)), GenericStep::Next(GenericStage::Audio)));
    assert!(matches!(generic_step(GenericStage::Audio, &urls(1)), GenericStep::Done(ResolvedMediaInput::AudioOnly { .. })));
    assert!(matches!(generic_step(GenericStage::Audio, &urls(0)), GenericStep::Failed));
    assert_eq!(generic_timeout(GenericStage::Separate), 45);
    assert_eq!(
        generic_format(GenericStage::Audio),
        "bestaudio[acodec!=none]/best[acodec!=none]/bestaudio/best"
    );
    assert_eq!(
        generic_failure_message(),
        "aucun format yt-dlp exploitable trouvé pour ce lien"
    );
}

#[test]
fn limits_are_bounded() {
    assert_eq!((clamp_limit(0), clamp_limit(7), clamp_limit(99)), (1, 7, 20));
    assert_eq!(scan_limit("https://www.youtube.com/playlist?list=1", 20), 26);
    assert_eq!(scan_limit("https://www.youtube.com/playlist?list=1", 5), 11);
    assert_eq!(scan_limit("https://h/x", 5), 5);
}

#[test]
fn inactive_items_are_left_out() {
    let mut filter = ActiveFilter::new(items(5), 4);
    assert_eq!(filter.next_batch(), Some((0, 2)));
    filter.record(Verdict::Inactive);
    filter.record(Verdict::Active);
    assert_eq!(filter.next_batch(), Some((2, 4)));
    filter.record(Verdict::Active);
    filter.record(Verdict::Lost);
    assert_eq!(filter.next_batch(), None);
    assert!(!filter.wants_more());
    let kept = filter.finish();
    let titles: Vec<&str> = kept.iter().map(|i| i.title.as_str()).collect();
    assert_eq!(titles, vec!["1", "2", "4"]);
    assert_eq!(kept.iter().map(|i| i.index).collect::<Vec<_>>(), vec![1, 2, 3]);
}

#[test]
fn without_active_items_all_are_kept() {
    let mut filter = ActiveFilter::new(items(2), 1);
    filter.record(Verdict::Inactive);
    filter.record(Verdict::Inactive);
    assert_eq!(filter.next_batch(), None);
    assert!(filter.wants_more());
    assert_eq!(filter.finish().len(), 1);
    let mut filter = ActiveFilter::new(items(2), 5);
    filter.record(Verdict::Inactive);
    filter.record(Verdict::Lost);
    let kept = filter.finish();
    assert_eq!((kept.len(), kept[0].title.as_str()), (1, "1"));
    assert!(!needs_validation(&items(1)[0]));
    assert!(validation_passed(true, "x\nhttps://a"));
    assert!(!validation_passed(false, "https://a"));
    assert!(!validation_passed(true, " https://a"));
}

#[test]
fn a_mix_is_tried_from_its_first_video() {
    let url = "https://www.youtube.com/playlist?list=RDdQw4w9WgXcQ";
    assert_eq!(extraction_urls(url).len(), 2);
    let mut extraction = Extraction::new(url);
    assert!(matches!(extraction.next(), ExtractionStep::Try(u) if u == url));
    assert!(matches!(extraction.after(Err("no".to_string())), ExtractionStep::Try(_)));
    assert!(matches!(extraction.after(Ok(Vec::new())), ExtractionStep::Found(list) if list[0].source_url == "https://www.youtube.com/watch?v=dQw4w9WgXcQ"));
    let mut extraction = Extraction::new("no link");
    assert!(matches!(extraction.next(), ExtractionStep::Try(_)));
    assert!(matches!(extraction.after(Err("no".to_string())), ExtractionStep::Nothing(Some(m)) if m == "no"));
    let mut extraction = Extraction::new("https://h");
    extraction.next();
    assert!(matches!(extraction.after(Ok(items(2))), ExtractionStep::Found(list) if list.len() == 2));
}
