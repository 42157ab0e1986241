use wavebase::playback::{OpenOutcome, PcmInfo, PlayerState, ToggleChoice};

fn started(path: &str, duration_ms: u64, now: u64) -> PlayerState {
    let mut p = PlayerState::new();
    let had = p.begin_start();
    assert!(!had);
    let decode = p.finish_start(path.to_string(), OpenOutcome::Started(duration_ms), now);
    assert_eq!(decode, Some(path.to_string()));
    p
}

#[test]
fn new_player_is_stopped() {
    let p = PlayerState::new();
    let s = p.status(false, 123);
    assert!(s.stopped && !s.playing && !s.paused);
    assert_eq!(s.position_ms, 0);
    assert_eq!(s.duration_ms, 0);
    assert_eq!(s.file_path, "");
}

#[test]
fn playing_file_advances_position() {
    let p = started("/a.wav", 10_000, 1_000);
    let s = p.status(false, 3_500);
    assert!(s.playing && !s.paused && !s.stopped);
    assert_eq!(s.position_ms, 2_500);
    assert_eq!(s.duration_ms, 10_000);
    assert_eq!(s.file_path, "/a.wav");
    // The position stops at the duration.
    assert_eq!(p.status(false, 60_000).position_ms, 10_000);
    // A finished sink reports stopped.
    assert!(p.status(true, 60_000).stopped);
}

#[test]
fn paused_time_is_not_counted() {
    let mut p = started("/a.wav", 10_000, 0);
    assert!(p.pause(2_000));
    let s = p.status(false, 5_000);
    assert!(s.paused && !s.playing);
    assert_eq!(s.position_ms, 2_000);
    assert!(p.resume(5_000));
    assert_eq!(p.status(false, 5_000).position_ms, 2_000);
    assert_eq!(p.status(false, 6_000).position_ms, 3_000);
    assert_eq!(p.total_paused_ms, 3_000);
}

#[test]
fn toggle_pauses_resumes_and_switches() {
    let mut p = started("/a.wav", 10_000, 0);
    assert_eq!(p.toggle_choice("/a.wav"), ToggleChoice::Pause);
    p.pause(100);
    assert_eq!(p.toggle_choice("/a.wav"), ToggleChoice::Resume);
    p.resume(200);
    assert_eq!(p.toggle_choice("/a.wav"), ToggleChoice::Pause);
    assert_eq!(p.toggle_choice("/b.wav"), ToggleChoice::Start);
    assert_eq!(PlayerState::new().toggle_choice(""), ToggleChoice::Start);
}

#[test]
fn stop_forgets_everything() {
    let mut p = started("/a.wav", 10_000, 0);
    p.pcm_ready(PcmInfo { path: "/a.wav".to_string(), len: 100, sample_rate: 10, channels: 1 });
    assert!(p.stop());
    let s = p.status(false, 50);
    assert!(s.stopped);
    assert_eq!((s.position_ms, s.duration_ms, s.file_path.as_str()), (0, 0, ""));
    assert!(p.pcm.is_none());
    assert!(!p.stop());
}

#[test]
fn failed_start_keeps_old_file_but_stops() {
    let mut p = started("/a.wav", 10_000, 0);
    assert!(p.begin_start());
    let decode = p.finish_start("/missing.wav".to_string(), OpenOutcome::Failed, 10);
    assert_eq!(decode, Some("/a.wav".to_string()));
    let s = p.status(false, 20);
    assert!(s.stopped);
    assert_eq!(s.file_path, "/a.wav");
    // Decoded but no sink: only the duration changes.
    p.begin_start();
    p.finish_start("/b.wav".to_string(), OpenOutcome::NoSink(7_000), 30);
    assert_eq!(p.duration_ms, 7_000);
    assert_eq!(p.file_path, "/a.wav");
}

#[test]
fn start_with_nothing_loaded_decodes_nothing() {
    let mut p = PlayerState::new();
    p.begin_start();
    assert_eq!(p.finish_start("/x.wav".to_string(), OpenOutcome::Failed, 0), None);
}

#[test]
fn seek_uses_decoded_copy_when_it_matches() {
    let mut p = started("/a.wav", 10_000, 0);
    p.pcm_ready(PcmInfo { path: "/a.wav".to_string(), len: 882_000, sample_rate: 44_100, channels: 2 });
    let plan = p.begin_seek(2_500);
    assert!(plan.had_sink);
    assert!(!plan.was_paused);
    assert_eq!(plan.target_ms, Some(2_500));
    assert_eq!(plan.pcm_start, Some(220_500));
    assert!(p.status(false, 0).stopped);
    p.finish_seek(2_500, plan.was_paused, true, 1_000);
    let s = p.status(false, 1_000);
    assert!(s.playing);
    assert_eq!(s.position_ms, 2_500);
    assert_eq!(p.status(false, 2_000).position_ms, 3_500);
}

#[test]
fn seek_clamps_to_duration_and_keeps_pause() {
    let mut p = started("/a.wav", 10_000, 0);
    p.pause(500);
    let plan = p.begin_seek(99_000);
    assert_eq!(plan.target_ms, Some(10_000));
    assert!(plan.was_paused);
    assert_eq!(plan.pcm_start, None);
    p.finish_seek(10_000, plan.was_paused, true, 700);
    let s = p.status(false, 900);
    assert!(s.paused);
    assert_eq!(s.position_ms, 10_000);
}

#[test]
fn seek_ignores_stale_or_exhausted_copy() {
    let mut p = started("/a.wav", 10_000, 0);
    p.pcm_ready(PcmInfo { path: "/old.wav".to_string(), len: 1_000, sample_rate: 1_000, channels: 1 });
    assert_eq!(p.begin_seek(100).pcm_start, None);
    let mut q = started("/a.wav", 10_000, 0);
    q.pcm_ready(PcmInfo { path: "/a.wav".to_string(), len: 1_000, sample_rate: 1_000, channels: 1 });
    // 5 s at 1000 samples per second lies past the 1000 decoded samples.
    assert_eq!(q.begin_seek(5_000).pcm_start, None);
    assert_eq!(q.begin_seek(500).pcm_start, Some(500));
}

#[test]
fn seek_without_file_does_nothing() {
    let mut p = PlayerState::new();
    let plan = p.begin_seek(1_000);
    assert_eq!(plan.target_ms, None);
    p.finish_seek(0, false, false, 0);
    assert!(p.status(false, 0).stopped);
}

#[test]
fn failed_seek_leaves_player_stopped() {
    let mut p = started("/a.wav", 10_000, 0);
    let plan = p.begin_seek(1_000);
    p.finish_seek(plan.target_ms.unwrap(), plan.was_paused, false, 10);
    assert!(p.status(false, 10).stopped);
}

#[test]
fn duration_from_elsewhere_replaces_probe() {
    let mut p = started("/a.wav", 0, 0);
    // With no duration the position is not capped.
    assert_eq!(p.status(false, 50_000).position_ms, 50_000);
    p.set_duration(20_000);
    assert_eq!(p.status(false, 50_000).position_ms, 20_000);
}
