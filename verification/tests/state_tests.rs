use playout_core::guard::ProcessCleanup;
use playout_core::playout::{
    next_directive, plan_item, Directive, IoEvent, ItemPlan, MediaItem, PlayoutState,
};
use playout_core::source::{parse_mode, source_generator, RunMode, SourcePlan};

fn item(cmd: Option<Vec<&str>>, filter: Option<Vec<&str>>, process: Option<bool>) -> MediaItem {
    MediaItem {
        source: String::from("clip.mp4"),
        seek: 0,
        out: 30,
        cmd: cmd.map(|v| v.into_iter().map(String::from).collect()),
        filter: filter.map(|v| v.into_iter().map(String::from).collect()),
        process,
    }
}

#[test]
fn guard_signals_ingest_stop_exactly_once() {
    let mut guard = ProcessCleanup::new();
    let first = guard.kill(true);
    assert!(first.set_terminated);
    assert!(first.signal_ingest_stop);
    assert!(first.kill_encoder);
    assert!(first.wait_encoder);
    let second = guard.kill(true);
    assert!(second.set_terminated);
    assert!(!second.signal_ingest_stop);
    assert!(second.kill_encoder);
    assert!(second.wait_encoder);
    let third = guard.kill(true);
    assert!(!third.signal_ingest_stop);
}

#[test]
fn guard_without_stop_handle_never_signals() {
    let mut guard = ProcessCleanup::new();
    let first = guard.kill(false);
    assert!(!first.signal_ingest_stop);
    assert!(first.kill_encoder && first.wait_encoder);
    let second = guard.kill(true);
    assert!(!second.signal_ingest_stop);
    assert!(second.kill_encoder && second.wait_encoder);
}

#[test]
fn selector_missing_folder_is_fatal() {
    let setup = source_generator("folder", false);
    assert_eq!(setup.plan, SourcePlan::ExitMissingFolder);
    assert!(!setup.reinit);
}

#[test]
fn selector_valid_modes_and_flag_start() {
    let folder = source_generator("folder", true);
    assert_eq!(folder.plan, SourcePlan::WatchFolder);
    assert!(!folder.reinit);
    let playlist = source_generator("playlist", true);
    assert_eq!(playlist.plan, SourcePlan::RunPlaylist);
    assert!(!playlist.reinit);
}

#[test]
fn selector_unknown_mode_is_fatal() {
    let setup = source_generator("shuffle", true);
    assert_eq!(setup.plan, SourcePlan::ExitBadMode);
    assert!(!setup.reinit);
}

#[test]
fn mode_words_parse() {
    assert_eq!(parse_mode("folder"), Some(RunMode::Folder));
    assert_eq!(parse_mode("playlist"), Some(RunMode::Playlist));
    assert_eq!(parse_mode("Folder"), None);
}

#[test]
fn unprocessed_item_is_skipped() {
    let gap = item(Some(vec!["-i", "gap.mp4"]), Some(vec![]), Some(false));
    let plan = plan_item(&gap, "level+info", &Vec::new());
    assert!(matches!(plan, ItemPlan::Skip));
}

#[test]
fn item_without_command_ends_run() {
    let last = item(None, None, None);
    let plan = plan_item(&last, "level+info", &Vec::new());
    assert!(matches!(plan, ItemPlan::EndRun));
}

#[test]
fn decoder_args_order_without_filter() {
    let node = item(Some(vec!["-i", "clip.mp4"]), Some(vec![]), Some(true));
    let settings = vec![String::from("-c"), String::from("copy")];
    let plan = plan_item(&node, "level+info", &settings);
    match plan {
        ItemPlan::Play(args) => {
            assert_eq!(
                args,
                vec!["-hide_banner", "-nostats", "-v", "level+info", "-i", "clip.mp4", "-c", "copy"]
            );
        }
        _ => panic!("expected a play plan"),
    }
}

#[test]
fn decoder_args_include_filter_when_long_enough() {
    let node = item(
        Some(vec!["-i", "clip.mp4"]),
        Some(vec!["-filter_complex", "scale=100"]),
        Some(true),
    );
    let settings = vec![String::from("-f"), String::from("mpegts")];
    let plan = plan_item(&node, "level+error", &settings);
    match plan {
        ItemPlan::Play(args) => {
            assert_eq!(
                args,
                vec![
                    "-hide_banner",
                    "-nostats",
                    "-v",
                    "level+error",
                    "-i",
                    "clip.mp4",
                    "-filter_complex",
                    "scale=100",
                    "-f",
                    "mpegts"
                ]
            );
        }
        _ => panic!("expected a play plan"),
    }
}

#[test]
fn single_token_filter_is_ignored() {
    let node = item(Some(vec!["-i", "clip.mp4"]), Some(vec!["null"]), Some(true));
    let plan = plan_item(&node, "level+info", &Vec::new());
    match plan {
        ItemPlan::Play(args) => {
            assert_eq!(args, vec!["-hide_banner", "-nostats", "-v", "level+info", "-i", "clip.mp4"]);
        }
        _ => panic!("expected a play plan"),
    }
}

#[test]
fn live_switch_flushes_kills_and_requests_reset() {
    let mut st = PlayoutState::new();
    let scheduled = st.plan_iteration(false);
    assert!(!scheduled.flush_encoder && !scheduled.stop_decoder && !scheduled.set_reinit);
    assert!(!scheduled.read_ingest);
    let entering = st.plan_iteration(true);
    assert!(entering.flush_encoder && entering.stop_decoder && entering.set_reinit);
    assert!(entering.read_ingest);
    let staying = st.plan_iteration(true);
    assert!(!staying.flush_encoder && !staying.stop_decoder && !staying.set_reinit);
    assert!(staying.read_ingest);
    let leaving = st.plan_iteration(false);
    assert!(leaving.flush_encoder && !leaving.stop_decoder && !leaving.set_reinit);
    assert!(!leaving.read_ingest);
}

#[test]
fn exhausted_decoder_finishes_item_not_run() {
    let d = next_directive(&IoEvent::DecoderChunk { len: 0, written: true });
    assert_eq!(d, Directive::FinishItem);
    let d = next_directive(&IoEvent::DecoderChunk { len: 4096, written: true });
    assert_eq!(d, Directive::ContinueItem);
}

#[test]
fn write_errors_abort_run_and_cleanup_once() {
    let live_error = next_directive(&IoEvent::IngestChunk { written: false });
    assert_eq!(live_error, Directive::AbortRun);
    let scheduled_error = next_directive(&IoEvent::DecoderChunk { len: 188, written: false });
    assert_eq!(scheduled_error, Directive::AbortRun);
    let read_error = next_directive(&IoEvent::DecoderFailed);
    assert_eq!(read_error, Directive::AbortRun);
    let mut guard = ProcessCleanup::new();
    let explicit = guard.kill(true);
    assert!(explicit.signal_ingest_stop && explicit.kill_encoder && explicit.wait_encoder);
    let on_drop = guard.kill(true);
    assert!(!on_drop.signal_ingest_stop && on_drop.kill_encoder && on_drop.wait_encoder);
}

#[test]
fn idle_ingest_poll_continues() {
    let d = next_directive(&IoEvent::IngestIdle);
    assert_eq!(d, Directive::ContinueItem);
    let d = next_directive(&IoEvent::IngestChunk { written: true });
    assert_eq!(d, Directive::ContinueItem);
}
