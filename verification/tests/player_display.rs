use rex_player::display::Xcb;
use rex_player::player::{
    loudness_range, rescale_to_pts, rescale_to_secs, turn, PlayMode, Player, Turn, MEDIA_EOF, MEDIA_ERR,
    MEDIA_LOADED,
};
use rex_player::xproto::{Drawable, RawEvent, XRequest, XcbEvent};

#[test]
fn stream_time_conversions() {
    assert_eq!(rescale_to_pts(3), 3_000_000);
    assert_eq!(rescale_to_pts(-2), -2_000_000);
    assert_eq!(rescale_to_pts(i64::MAX), i64::MIN);
    assert_eq!(rescale_to_secs(2_499_999), 2);
    assert_eq!(rescale_to_secs(2_500_000), 3);
    assert_eq!(rescale_to_secs(-2_500_000), -3);
}

#[test]
fn what_a_file_plays() {
    assert_eq!(Player::check(true, true), 3);
    assert_eq!(Player::check(false, true), 2);
    assert!(Player::playable(3, true));
    assert!(!Player::playable(2, true));
    assert!(Player::playable(2, false));
    assert!(matches!(Player::mode(true, true, false), PlayMode::AudioVideo));
    assert!(matches!(Player::mode(true, false, false), PlayMode::Audio));
    assert!(matches!(Player::mode(true, false, true), PlayMode::VisualizedAudio));
    assert!(matches!(Player::mode(false, true, true), PlayMode::Video));
    assert!(matches!(Player::mode(false, false, true), PlayMode::Nothing));
}

#[test]
fn seeks_stay_inside_the_stream() {
    // 60 s stream, at 10 s: back 30 s stops at 0
    assert_eq!(Player::pts_delta(10, -30, 0, 60_000_000), 0);
    // forward 10 s from 10 s
    assert_eq!(Player::pts_delta(10, 10, 0, 60_000_000), 20);
    let abs = Player::plan_seek(Player::CTL_SEEK_ABS + 30, 0, 5_000_000, 60_000_000, 10).unwrap();
    assert_eq!(abs.command, Player::CTL_SEEK_ABS);
    assert_eq!(abs.target, abs.so * 1_000_000);
    assert!(Player::plan_seek(Player::CTL_SEEK_REL + 5, 3, 0, 60_000_000, 0).is_none());
    let rel = Player::plan_seek(Player::CTL_SEEK_REL + 5, 3, 1_000, 60_000_000, 0).unwrap();
    assert_eq!(rel.so, 8);
    assert!(rel.forward);
    assert!(Player::plan_seek(Player::CTL_NEXT_AUDIO, 0, 0, 0, 0).is_none());
}

#[test]
fn connection_sets_up_the_master_window() {
    let mut c = Xcb::new(0, 24, 33, 1920, 1080, 300);
    assert_eq!((c.master_window, c.blank_cursor, c.next_id), (2, 4, 6));
    let reqs = c.collect();
    assert_eq!(reqs.len(), 7);
    assert!(matches!(reqs[0], XRequest::CreateWindow { wid: 2, parent: 1, width: 1280, height: 720, .. }));
    assert!(matches!(&reqs[1], XRequest::SetWmName { name, .. } if name == b"REX"));
    assert!(matches!(reqs[6], XRequest::FreePixmap { pixmap: 5 }));
    let m = c.new_mask(Drawable::Window(2), 33, 10);
    assert_eq!(m, 6);
    assert!(matches!(c.collect()[0], XRequest::CreatePixmap { width: 64, depth: 1, .. }));
}

#[test]
fn events_are_classified() {
    let c = Xcb::new(0, 24, 33, 1920, 1080, 300);
    assert_eq!(c.wait_event(None).code, XcbEvent::NONE);
    let e = c.wait_event(Some(RawEvent::ButtonPress { event: 9, detail: 4, x: 1, y: 2 }));
    assert_eq!(e.code, XcbEvent::SCROLL_UP);
    let e = c.wait_event(Some(RawEvent::ButtonRelease { event: 9, detail: 1, x: 1, y: 2 }));
    assert_eq!((e.code, e.button, e.window), (XcbEvent::B_UP, 1, 9));
    let e = c.wait_event(Some(RawEvent::ClientMessage { atom: Some(300) }));
    assert_eq!(e.code, XcbEvent::CLOSE);
    let e = c.wait_event(Some(RawEvent::ConfigureNotify { window: 2, width: 800, height: 600 }));
    assert_eq!((e.code, e.width, e.height), (XcbEvent::RESIZE, 800, 600));
}

#[test]
fn which_audio_stream_plays() {
    assert_eq!(Player::audio_index(1, 0, 3, Some(0)), 1);
    assert_eq!(Player::audio_index(1, 1, 3, Some(0)), 2);
    assert_eq!(Player::audio_index(1, 2, 3, Some(0)), 1);
    assert_eq!(Player::audio_index(1, 2, 3, None), 0);
}

#[test]
fn where_playing_starts() {
    assert_eq!(Player::start_point(0, 100), (0, 0, 100));
    assert_eq!(Player::start_point(5, 10_000_000), (5, 5_000_000, 5_000_000));
    assert_eq!(Player::start_point(-3, 10_000_000), (7, 7_000_000, 3_000_000));
}

fn lra_of(report: &str) -> Option<String> {
    let v: Vec<char> = report.chars().collect();
    loudness_range(&v).map(|r| r.into_iter().collect())
}

#[test]
fn loudness_range_from_report() {
    let report = "[Parsed_ebur128_0] t: 1.2 LRA: 0.0 LU\n[Parsed_ebur128_0] Summary:\n\n  Integrated loudness:\n    I:         -20.1 LUFS\n\n  Loudness range:\n    LRA:         7.3 LU\n    Threshold: -30.4 LUFS\n";
    assert_eq!(lra_of(report), Some("7.3".to_string()));
    assert_eq!(lra_of("LRA: 5.0 LU\n"), None);
    assert_eq!(lra_of("Summary: LRA:  4 LU"), None);
    assert_eq!(lra_of("Summary: LRA:"), None);
    assert_eq!(lra_of("Summary: LRA:\u{e9}4 LU\n"), None);
    assert_eq!(lra_of("Summary: LRA:x12.5LU\n"), Some("12.5".to_string()));
}

#[test]
fn stopping_a_player_goes_part_by_part() {
    assert_eq!(Player::kill_order(true, true), vec![(-1, -8), (-2, -16), (-4, -32)]);
    assert_eq!(Player::kill_order(false, true), vec![(-2, -16), (-4, -32)]);
    assert_eq!(Player::kill_order(false, false), vec![(-4, -32)]);
    assert_eq!(Player::await_more(25, None, Player::AUDIO_DEAD), Some(24));
    assert_eq!(Player::await_more(3, Some(Player::VIDEO_DEAD), Player::AUDIO_DEAD), Some(2));
    assert_eq!(Player::await_more(0, Some(Player::AUDIO_DEAD), Player::AUDIO_DEAD), None);
    assert_eq!(Player::await_more(0, None, Player::MUX_DEAD), Some(-1));
}

#[test]
fn glx_versions_the_player_takes() {
    assert!(rex_player::display::glx_supported(1, 3));
    assert!(rex_player::display::glx_supported(1, 4));
    assert!(!rex_player::display::glx_supported(1, 2));
    assert!(!rex_player::display::glx_supported(0, 9));
    // each number is held to its own bound: 2.0 is refused
    assert!(!rex_player::display::glx_supported(2, 0));
}

#[test]
fn player_events_get_their_answers() {
    assert_eq!(Player::react(Player::VIDEO_DEAD, true, true), (vec![-16], false));
    assert_eq!(Player::react(Player::AUDIO_DEAD, true, false), (vec![-8], false));
    assert_eq!(Player::react(MEDIA_EOF, true, true), (vec![-1, -2, -4], true));
    assert_eq!(Player::react(MEDIA_ERR, false, true), (vec![-2, -4], true));
    assert_eq!(Player::react(MEDIA_EOF, false, false), (vec![-4], true));
    assert_eq!(Player::react(MEDIA_LOADED, true, true), (vec![], false));
}

#[test]
fn a_pending_zero_rebuilds_the_scene() {
    assert!(matches!(turn(&vec![3, 0], false, false), Turn::Rebuild));
    assert!(matches!(turn(&vec![0], true, true), Turn::Rebuild));
    assert!(matches!(turn(&vec![3], true, false), Turn::Hold));
    assert!(matches!(turn(&vec![], false, true), Turn::Hold));
    assert!(matches!(turn(&vec![5], false, false), Turn::Poll));
}
