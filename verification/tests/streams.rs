use troozn_proxy::hls::{
    count_item_ts_files, count_manifest_ts_lines, item_file_prefix, item_manifest_name,
    parse_item_hls_entries, parse_item_index_from_live_filename, parse_item_segment_name,
    render_empty_master_playlist, render_master_playlist,
};
use troozn_proxy::items::{fallback_single_item_from_url, TrooznLiveItem};
use troozn_proxy::live::{PrewarmWait, TrooznLive};
use troozn_proxy::stream::{
    ahead_step, file_request, may_resume, starts_at_once, AheadStep, CleanupAction, CleanupEvent,
    CleanupRun, CleanupStats, FileFate, FileRequest, LiveDirUsage, Sweep, LIVE_MAX_DIR_BYTES,
    LIVE_TARGET_DIR_BYTES,
};
use troozn_proxy::worker::{
    ffmpeg_args, join_path, manifest_path, segment_pattern, ChildPoll, WorkerAction, WorkerEvent,
    WorkerRun,
};
use troozn_proxy::ytdlp::ResolvedMediaInput;

const MANIFEST: &str = "#EXTM3U\n#EXTINF:2.000000,\n#EXT-X-PROGRAM-DATE-TIME:2026-01-01\n/x/item-0001-00000.ts\n\nother.txt\n#EXTINF: 1.5 ,\nitem-0001-00001.ts\nitem-0001-00002.ts\n";

fn item(url: &str) -> TrooznLiveItem {
    fallback_single_item_from_url(url).unwrap()
}

fn items(count: usize) -> Vec<TrooznLiveItem> {
    (0..count)
        .map(|i| {
            let mut one = item(&format!("https://h/{i}"));
            one.index = i + 1;
            one
        })
        .collect()
}

fn started(count: usize) -> TrooznLive {
    let mut live = TrooznLive::new_default(5);
    live.interrupt();
    live.begin_session("https://h/list", 10);
    live.start_youtube_live_queue("https://h/list", Some("Mine".to_string()), items(count), 10);
    live
}

fn single() -> ResolvedMediaInput {
    ResolvedMediaInput::Single { url: "https://v".to_string(), format_selector: "96".to_string() }
}

#[test]
fn segment_names_are_read() {
    assert_eq!(parse_item_segment_name("item-0012-00034.ts"), Some((12, 34)));
    assert_eq!(parse_item_segment_name("x/item-1-2.ts"), Some((1, 2)));
    assert_eq!(parse_item_segment_name("../x-y/item-0012-00034.ts"), Some((12, 34)));
    assert_eq!(parse_item_segment_name("item-1-2-3.ts"), None);
    assert_eq!(parse_item_segment_name("item-a-2.ts"), None);
    assert_eq!(parse_item_segment_name("item-0001.m3u8"), None);
    assert_eq!(parse_item_index_from_live_filename("item-0012-00034.ts"), Some(12));
    assert_eq!(parse_item_index_from_live_filename("item-12"), None);
    assert_eq!(parse_item_index_from_live_filename("other"), None);
    assert_eq!(item_file_prefix(7), "item-0007");
    assert_eq!(item_manifest_name(7), "item-0007.m3u8");
}

#[test]
fn segments_are_counted() {
    let names: Vec<String> = ["item-0001-00000.ts", "item-0001-00001.ts", "item-0002-00000.ts", "item-0001.m3u8"]
        .iter()
        .map(|n| n.to_string())
        .collect();
    assert_eq!(count_item_ts_files(&names, 1), 2);
    assert_eq!(count_manifest_ts_lines(MANIFEST), 3);
}

#[test]
fn manifests_are_read() {
    let entries = parse_item_hls_entries(1, MANIFEST, true);
    assert_eq!(entries.len(), 3);
    assert_eq!(entries[0].segment, "item-0001-00000.ts");
    assert_eq!(entries[0].duration, "2.000000");
    assert_eq!(entries[0].program_date_time.as_deref(), Some("2026-01-01"));
    assert!(entries[0].discontinuity_before);
    assert_eq!(entries[1].duration, "1.5");
    assert!(!entries[1].discontinuity_before);
    assert_eq!(entries[2].duration, "4.000000");
    assert!(!parse_item_hls_entries(1, MANIFEST, false)[0].discontinuity_before);
}

#[test]
fn playlists_are_written() {
    let entries = parse_item_hls_entries(1, MANIFEST, true);
    let ceilings = vec![Some(2), Some(2), Some(4)];
    assert_eq!(
        render_master_playlist(&entries, &ceilings, 7, 1, true),
        "#EXTM3U\n#EXT-X-VERSION:3\n#EXT-X-TARGETDURATION:4\n#EXT-X-MEDIA-SEQUENCE:7\n#EXT-X-DISCONTINUITY-SEQUENCE:1\n#EXT-X-START:TIME-OFFSET=0,PRECISE=YES\n#EXT-X-DISCONTINUITY\n#EXTINF:2.000000,\n#EXT-X-PROGRAM-DATE-TIME:2026-01-01\nitem-0001-00000.ts\n#EXTINF:1.5,\nitem-0001-00001.ts\n#EXTINF:4.000000,\nitem-0001-00002.ts\n#EXT-X-ENDLIST\n"
    );
    assert_eq!(
        render_empty_master_playlist(),
        "#EXTM3U\n#EXT-X-VERSION:3\n#EXT-X-TARGETDURATION:2\n#EXT-X-MEDIA-SEQUENCE:0\n#EXT-X-START:TIME-OFFSET=0,PRECISE=YES\n"
    );
}

#[test]
fn a_session_starts() {
    let live = started(3);
    assert_eq!(live.current_queue().len(), 3);
    assert_eq!(live.current_public_hls_url(), "http://127.0.0.1:8787/troozn-live/Playlist_H.m3u8");
    assert_eq!(
        live.current_hls_url(),
        "http://127.0.0.1:8787/troozn-live/Playlist_H.m3u8?session=10"
    );
    let now = live.current_now();
    assert_eq!(now.state, "starting");
    assert_eq!(now.title, "Mine");
    assert_eq!(now.started_at, 10);
    assert!(live.playlist_refill.is_none());
    let idle = TrooznLive::new_default(5);
    assert_eq!(idle.producer_now().state, "idle");
    assert_eq!(idle.session_id, "5");
    assert_eq!(idle.current_playlist_name(), "Playlist_Troozn.m3u8");
}

#[test]
fn items_are_added_behind_the_queue() {
    let mut live = started(2);
    let added = live.add_youtube_live_queue("https://h/x", items(2)).unwrap();
    assert_eq!((added[0].index, added[1].index), (3, 4));
    assert_eq!(live.playback_anchor_item, 3);
    assert_eq!(
        live.add_youtube_live_queue("https://h/x", Vec::new()).err().unwrap(),
        "Aucun item ajouté à TROOZN Live"
    );
    assert_eq!(live.next_title_after(1), Some("1".to_string()));
    assert_eq!(live.next_title_after(4), None);
    let answer = live.submit_response(added);
    assert!(answer.ok && answer.count == 2);
}

#[test]
fn long_playlists_are_refilled() {
    let mut live = TrooznLive::new_default(5);
    live.start_youtube_live_queue("https://h/?list=1", None, items(20), 10);
    assert!(live.begin_refill(10).is_none());
    assert_eq!(live.begin_refill(15), Some((21, 40, "https://h/?list=1".to_string())));
    assert!(live.begin_refill(16).is_none());
    live.finish_refill(21, Ok(items(20)));
    assert_eq!(live.current_queue().len(), 40);
    assert_eq!(live.begin_refill(38), Some((41, 60, "https://h/?list=1".to_string())));
    live.finish_refill(41, Err("no".to_string()));
    assert_eq!(live.begin_refill(38), Some((41, 60, "https://h/?list=1".to_string())));
    live.finish_refill(41, Ok(items(3)));
    assert_eq!(live.current_queue().len(), 43);
    assert!(live.begin_refill(42).is_none());
}

#[test]
fn sources_are_looked_up_in_advance() {
    let mut live = started(2);
    let next = live.begin_prewarm(1).unwrap();
    assert!(live.begin_prewarm(1).is_none());
    assert!(live.is_resolving(&next.item_id));
    assert!(matches!(live.prewarm_wait(&next.item_id, 0), PrewarmWait::Wait));
    assert!(matches!(live.prewarm_wait(&next.item_id, 90_000), PrewarmWait::Missed));
    live.finish_prewarm(&next.item_id, Some(single()));
    assert!(matches!(live.prewarm_wait(&next.item_id, 300), PrewarmWait::Ready(_)));
    assert!(live.take_resolved(&next.item_id).is_none());
}

#[test]
fn manifests_are_imported_once() {
    let mut live = started(1);
    assert_eq!(live.import_item_manifest_incremental(1, None, false), 0);
    assert_eq!(live.import_item_manifest_incremental(1, Some(MANIFEST), false), 3);
    assert_eq!(live.import_item_manifest_incremental(1, Some(MANIFEST), false), 3);
    assert_eq!(live.master_entries.len(), 3);
    assert_eq!(live.buffered_durations(), vec!["2.000000", "1.5", "4.000000"]);
    let text = live.rewrite_master_playlist(&vec![Some(2), None, Some(4)], false);
    assert!(text.contains("#EXT-X-TARGETDURATION:4\n"));
    assert!(!text.contains("ENDLIST"));
    let text = live.render_playback_playlist_from_anchor(&vec![Some(2), None, Some(4)]);
    assert!(text.contains("#EXTINF:2.0000,\nitem-0001-00000.ts\n"));
}

#[test]
fn growing_manifests_add_their_new_segments() {
    let mut live = started(2);
    let first = "#EXTINF:2.0,\nitem-0001-00000.ts\n";
    let grown = "#EXTINF:2.0,\nitem-0001-00000.ts\n#EXTINF:3.0,\nitem-0001-00001.ts\n";
    assert_eq!(live.import_item_manifest_incremental(1, Some(first), false), 1);
    assert_eq!(live.import_item_manifest_incremental(2, Some("item-0002-00000.ts\n"), true), 1);
    assert_eq!(live.import_item_manifest_incremental(1, Some(grown), false), 2);
    let names: Vec<&str> = live.master_entries.iter().map(|e| e.segment.as_str()).collect();
    assert_eq!(names, vec!["item-0001-00000.ts", "item-0002-00000.ts", "item-0001-00001.ts"]);
    assert!(live.master_entries[1].discontinuity_before);
    assert!(!live.master_entries[2].discontinuity_before);
}

#[test]
fn a_new_session_starts_empty() {
    let mut live = started(2);
    live.import_item_manifest_incremental(1, Some(MANIFEST), false);
    live.note_segment_served("item-0001-00000.ts", 0, 100);
    let generation = live.claim_worker().unwrap();
    let mut run = WorkerRun::new(generation, 20);
    live.interrupt();
    live.begin_session("https://www.youtube.com/watch?v=x", 30);
    assert!(live.master_entries.is_empty());
    assert_eq!(live.last_served_segment, None);
    assert_eq!(live.current_playlist_name(), "Playlist_Youtube.m3u8");
    assert!(matches!(run.run_hls_worker(&mut live, WorkerEvent::Continue, 31), WorkerAction::Exit(None)));
}

#[test]
fn served_segments_move_the_playback() {
    let mut live = started(1);
    live.import_item_manifest_incremental(1, Some(MANIFEST), false);
    assert_eq!(live.durations_before(1, "item-0001-00002.ts"), vec!["2.000000", "1.5"]);
    live.note_segment_served("item-0001-00002.ts", 3, 100);
    let now = live.current_now();
    assert_eq!((now.state.as_str(), now.position, now.item_started_at), ("playing", 3, 97));
    assert!(live.buffered_durations().is_empty());
    live.refresh_buffer_status(2.5f64.to_bits(), 1);
    assert_eq!(live.current_now().buffer_seconds, Some(2.5f64.to_bits()));
    assert_eq!(live.producer_now().buffer_segments, Some(1));
    live.note_segment_served("index.m3u8", 0, 100);
    assert_eq!(live.last_served_segment, Some((1, 2)));
}

#[test]
fn played_items_are_pruned() {
    let mut live = started(2);
    live.import_item_manifest_incremental(1, Some(MANIFEST), false);
    let second = "#EXTINF:2.0,\nitem-0002-00000.ts\n";
    live.import_item_manifest_incremental(2, Some(second), true);
    assert_eq!(live.prune_window(), None);
    live.note_segment_served("item-0002-00000.ts", 0, 100);
    assert_eq!(live.prune_window(), Some(3));
    assert_eq!(live.first_durations(3).len(), 3);
    let pruned = live.prune_served_master_entries(&vec![false, false, false]);
    assert!(pruned.segments.is_empty());
    let pruned = live.prune_served_master_entries(&vec![true, true, false]);
    assert_eq!(pruned.segments, vec!["item-0001-00000.ts"]);
    assert!(pruned.manifests.is_empty());
    assert_eq!(live.media_sequence_base, 1);
    assert_eq!(live.master_entries.len(), 3);
    assert_eq!(live.prune_window(), Some(2));
}

#[test]
fn files_that_are_needed_stay() {
    let mut live = started(1);
    live.import_item_manifest_incremental(1, Some(MANIFEST), false);
    assert!(live.is_protected("index.m3u8"));
    assert_eq!(live.live_file_fate("item-0001-00000.ts", 999, true), FileFate::Keep);
    assert_eq!(live.live_file_fate("notes.txt", 999, true), FileFate::Keep);
    assert_eq!(live.live_file_fate("item-0009-00000.ts", 45, false), FileFate::Remove);
    assert_eq!(live.live_file_fate("item-0009-00000.ts", 44, false), FileFate::Keep);
    assert_eq!(live.live_file_fate("item-0009-00000.ts", 44, true), FileFate::Candidate);
    assert_eq!(live.live_file_fate("index.m3u8.1.tmp", 20, false), FileFate::Remove);
    assert_eq!(live.live_file_fate("index.m3u8.1.tmp", 19, false), FileFate::Keep);
}

#[test]
fn cleaning_is_spaced_out() {
    let mut live = started(1);
    assert!(live.cleanup_due(100, false));
    assert!(!live.cleanup_due(102, false));
    assert!(live.cleanup_due(102, true));
    assert!(live.cleanup_due(105, false));
}

#[test]
fn the_oldest_files_go_first() {
    let mut sweep = Sweep::new(&vec![30, 10, 20], 100, 50);
    assert_eq!(sweep.next_victim(), Some(1));
    sweep.removed(20);
    assert_eq!(sweep.next_victim(), Some(2));
    sweep.removed(40);
    assert_eq!(sweep.next_victim(), None);
    let mut usage = LiveDirUsage::default();
    usage.add_file("a.ts", LIVE_MAX_DIR_BYTES);
    assert!(!usage.under_pressure());
    usage.add_file("b.m3u8", 1);
    assert!(usage.under_pressure());
    assert_eq!((usage.files, usage.ts_files), (2, 1));
    let mut stats = CleanupStats::default();
    stats.note_removed(Some(7));
    stats.note_removed(None);
    let mut total = CleanupStats::default();
    total.removed_playlist_entries = 2;
    total.merge(stats);
    assert_eq!((total.removed_files, total.removed_bytes, total.removed_playlist_entries), (1, 7, 2));
}

#[test]
fn old_files_are_removed_step_by_step() {
    let stats = |files: usize, entries: usize| CleanupStats {
        removed_files: files,
        removed_bytes: 10,
        removed_playlist_entries: entries,
    };
    let mut run = CleanupRun::new();
    assert_eq!(run.maybe_cleanup_live_files(CleanupEvent::Pruned(stats(1, 2))), CleanupAction::Measure);
    assert_eq!(
        run.maybe_cleanup_live_files(CleanupEvent::Measured(LIVE_MAX_DIR_BYTES + 1)),
        CleanupAction::PruneMore
    );
    assert_eq!(
        run.maybe_cleanup_live_files(CleanupEvent::Pruned(stats(0, 0))),
        CleanupAction::Sweep { pressure: true }
    );
    assert_eq!(run.maybe_cleanup_live_files(CleanupEvent::Swept(stats(3, 0))), CleanupAction::Publish);
    assert_eq!((run.stats.removed_files, run.stats.removed_bytes), (4, 30));
    let mut run = CleanupRun::new();
    run.maybe_cleanup_live_files(CleanupEvent::Pruned(stats(0, 0)));
    assert_eq!(
        run.maybe_cleanup_live_files(CleanupEvent::Measured(LIVE_MAX_DIR_BYTES)),
        CleanupAction::Sweep { pressure: false }
    );
    assert_eq!(run.maybe_cleanup_live_files(CleanupEvent::Swept(stats(0, 0))), CleanupAction::Rest);
}

#[test]
fn requested_files_stay_inside() {
    let name = "Playlist_Youtube.m3u8";
    for path in ["", "/", "index.m3u8", "playlist-youtube.m3u8", "Playlist_X.m3u8"] {
        match file_request(path, name) {
            FileRequest::File { relative, content_type, is_segment } => {
                assert_eq!(relative, "index.m3u8");
                assert_eq!(content_type, "application/vnd.apple.mpegurl");
                assert!(!is_segment);
            }
            FileRequest::Refused => panic!("{path}"),
        }
    }
    assert!(matches!(file_request("../x.ts", name), FileRequest::Refused));
    assert!(matches!(file_request("a.ts", name),
        FileRequest::File { content_type: "video/mp2t", is_segment: true, .. }));
    assert!(matches!(file_request("a.log", name),
        FileRequest::File { content_type: "application/octet-stream", is_segment: false, .. }));
}

#[test]
fn the_producer_waits_for_the_player() {
    assert!(starts_at_once(2));
    assert!(!starts_at_once(3));
    assert_eq!(ahead_step(false, LIVE_MAX_DIR_BYTES, 0), AheadStep::Proceed);
    assert_eq!(ahead_step(true, 0, 89), AheadStep::Wait);
    assert_eq!(ahead_step(true, 0, 90), AheadStep::TimedOut);
    assert_eq!(ahead_step(false, LIVE_MAX_DIR_BYTES + 1, 0), AheadStep::Wait);
    assert!(may_resume(true, LIVE_TARGET_DIR_BYTES));
    assert!(!may_resume(false, 0));
    assert!(!may_resume(true, LIVE_TARGET_DIR_BYTES + 1));
}

#[test]
fn the_boost_ends_when_playback_is_safe() {
    let mut live = started(2);
    assert!(live.ytdlp_startup_boost_active());
    assert!(!live.maybe_finish_startup_boost(1, 99));
    assert!(live.maybe_finish_startup_boost(2, 1));
    assert!(!live.ytdlp_startup_boost_active());
    let mut live = started(1);
    assert!(!live.maybe_finish_startup_boost(1, 2));
    assert!(live.maybe_finish_startup_boost(1, 3));
}

#[test]
fn commands_of_the_encoder() {
    assert_eq!(join_path("/d", "x"), "/d/x");
    assert_eq!(manifest_path("/d", 3), "/d/item-0003.m3u8");
    assert_eq!(segment_pattern("/d", 3), "/d/item-0003-%05d.ts");
    let args = ffmpeg_args(&single(), "/d", 3).join(" ");
    assert_eq!(
        args,
        "-hide_banner -nostdin -loglevel warning -y -reconnect 1 -reconnect_streamed 1 -reconnect_on_network_error 1 -reconnect_delay_max 4 -rw_timeout 15000000 -i https://v -fflags +genpts -avoid_negative_ts make_zero -max_muxing_queue_size 1024 -map 0:v:0? -map 0:a:0? -c copy -f hls -hls_time 2 -hls_init_time 1 -hls_list_size 0 -hls_flags omit_endlist+program_date_time+temp_file -hls_segment_filename /d/item-0003-%05d.ts /d/item-0003.m3u8"
    );
    let audio = ResolvedMediaInput::AudioOnly { url: "https://a".to_string(), format_selector: String::new() };
    assert!(ffmpeg_args(&audio, "/d", 1).join(" ").contains("-vn -c:a aac -b:a 160k -ac 2 -ar 44100 -f hls"));
    let both = ResolvedMediaInput::SeparateAv {
        video_url: "https://v".to_string(),
        audio_url: "https://a".to_string(),
        format_selector: String::new(),
    };
    assert!(ffmpeg_args(&both, "/d", 1).join(" ").contains("-i https://a -map 0:v:0 -map 1:a:0 -fflags"));
}

#[test]
fn the_worker_encodes_item_after_item() {
    let mut live = started(2);
    let generation = live.claim_worker().unwrap();
    assert!(live.claim_worker().is_none());
    let mut run = WorkerRun::new(generation, 20);
    assert!(matches!(run.run_hls_worker(&mut live, WorkerEvent::Continue, 20), WorkerAction::AwaitBuffer(1)));
    assert!(matches!(run.run_hls_worker(&mut live, WorkerEvent::Continue, 20), WorkerAction::Resolve(i) if i.index == 1));
    assert_eq!(live.producer_now().state, "preparing");
    assert!(matches!(run.run_hls_worker(&mut live, WorkerEvent::Resolved(single()), 21), WorkerAction::Encode(_)));
    assert_eq!(
        live.producer_now().last_error.as_deref(),
        Some("Démarrage FFmpeg HLS en cours")
    );
    assert!(matches!(run.run_hls_worker(&mut live, WorkerEvent::Continue, 21), WorkerAction::Pause(500)));
    assert!(live.active_ffmpeg.is_some());
    assert!(matches!(
        run.run_hls_worker(&mut live, WorkerEvent::Manifest(Some(MANIFEST.to_string())), 25),
        WorkerAction::Look { grew: true, start_prewarm: true }
    ));
    assert_eq!(live.producer_now().position, 4);
    assert!(matches!(run.run_hls_worker(&mut live, WorkerEvent::Child(ChildPoll::Running), 25), WorkerAction::Pause(500)));
    assert!(matches!(
        run.run_hls_worker(&mut live, WorkerEvent::Manifest(Some(MANIFEST.to_string())), 26),
        WorkerAction::Look { grew: false, .. }
    ));
    assert!(matches!(run.run_hls_worker(&mut live, WorkerEvent::Child(ChildPoll::Exited), 26), WorkerAction::Finish { refill: true }));
    assert!(live.active_ffmpeg.is_none());
    assert!(matches!(
        run.run_hls_worker(&mut live, WorkerEvent::Manifest(Some(MANIFEST.to_string())), 26),
        WorkerAction::Publish
    ));
    assert!(matches!(run.run_hls_worker(&mut live, WorkerEvent::Continue, 27), WorkerAction::AwaitBuffer(2)));
    assert!(matches!(run.run_hls_worker(&mut live, WorkerEvent::Continue, 27), WorkerAction::Resolve(_)));
    assert!(matches!(run.run_hls_worker(&mut live, WorkerEvent::Unresolved, 27), WorkerAction::Pause(150)));
    assert_eq!(live.producer_now().state, "skipping");
    assert!(matches!(run.run_hls_worker(&mut live, WorkerEvent::Continue, 28), WorkerAction::Pause(1000)));
    assert_eq!(live.producer_now().state, "waiting");
}

#[test]
fn a_stale_worker_ends() {
    let mut live = started(1);
    let generation = live.claim_worker().unwrap();
    let mut run = WorkerRun::new(generation, 20);
    live.interrupt();
    assert!(matches!(run.run_hls_worker(&mut live, WorkerEvent::Continue, 20), WorkerAction::Exit(None)));
    assert_eq!(live.claim_worker(), Some(generation + 1));
    live.worker_failed("boom");
    assert_eq!(live.producer_now().state, "error");
    live.worker_exited(generation);
    assert!(live.claim_worker().is_none());
    live.worker_exited(generation + 1);
    assert!(live.claim_worker().is_some());
}

#[test]
fn interrupting_hands_back_the_encoder() {
    let mut live = started(1);
    live.ffmpeg_started(4, "i");
    assert!(live.take_ffmpeg_of(3).is_none());
    let before = live.current_generation();
    let active = live.interrupt().unwrap();
    assert_eq!((active.generation, active.item_id.as_str()), (4, "i"));
    assert_eq!(live.current_generation(), before + 1);
    assert!(live.take_ffmpeg().is_none());
}

#[test]
fn a_growing_playlist_keeps_its_first_segments() {
    let more = "#EXTINF:3.0,\nsub/item-0001-00003.ts\n# x.ts\n";
    let before = parse_item_hls_entries(1, MANIFEST, true);
    let after = parse_item_hls_entries(1, &format!("{MANIFEST}{more}"), true);
    assert_eq!(before.len(), 3);
    assert_eq!(after.len(), 4);
    for (a, b) in before.iter().zip(after.iter()) {
        assert_eq!((&a.segment, &a.duration), (&b.segment, &b.duration));
        assert_eq!(a.discontinuity_before, b.discontinuity_before);
    }
    assert_eq!(after[3].segment, "item-0001-00003.ts");
    let without = parse_item_hls_entries(1, "#EXTINF:2.0,\na.ts\nb.ts\n", false);
    assert_eq!(without[0].duration, "2.0");
    assert_eq!(without[1].duration, "4.000000");
}
