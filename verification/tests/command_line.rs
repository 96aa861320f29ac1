use sample_range::cli::{
    choose_mode, fullscreen_request, parse_args, parse_u32, Key, Mode, ScreenshotCounter,
};

fn args(v: &[&str]) -> Vec<String> {
    v.iter().map(|s| s.to_string()).collect()
}

#[test]
fn parse_u32_matches_std() {
    for s in ["0", "7", "+7", "+", "", "-1", "12a", "4294967295", "4294967296", "007", " 5", "99999999999999999999"] {
        assert_eq!(parse_u32(s), s.parse::<u32>().ok(), "input {:?}", s);
    }
}

#[test]
fn parse_args_reads_flags() {
    let o = parse_args(&args(&["prog", "--csv", "a.csv", "--screenshot", "out.png", "--screenshot-frame", "5"]));
    assert_eq!(o.csv_path.as_deref(), Some("a.csv"));
    assert_eq!(o.connect_url, None);
    assert_eq!(o.screenshot_path.as_deref(), Some("out.png"));
    assert_eq!(o.screenshot_frame, 5);
}

#[test]
fn parse_args_defaults_and_quirks() {
    let o = parse_args(&args(&["prog", "--screenshot-frame", "x", "--csv"]));
    assert_eq!(o.screenshot_frame, 1);
    assert_eq!(o.csv_path, None);
    let o = parse_args(&args(&["--csv", "ignored", "--connect", "ws://h/api/ws", "--connect", "ws://b"]));
    assert_eq!(o.connect_url.as_deref(), Some("ws://b"));
    assert_eq!(o.csv_path, None);
    let o = parse_args(&args(&["prog"]));
    assert_eq!(o.screenshot_frame, 1);
    assert!(o.csv_path.is_none() && o.connect_url.is_none() && o.screenshot_path.is_none());
}

#[test]
fn connect_takes_priority() {
    let o = parse_args(&args(&["p", "--csv", "a.csv", "--connect", "ws://127.0.0.1:3030/api/ws"]));
    assert_eq!(choose_mode(&o), Mode::Live("ws://127.0.0.1:3030/api/ws".into()));
    assert!(!choose_mode(&o).replays());
    let o = parse_args(&args(&["p", "--csv", "a.csv"]));
    assert_eq!(choose_mode(&o), Mode::Csv("a.csv".into()));
    assert!(choose_mode(&o).replays());
    assert_eq!(choose_mode(&parse_args(&args(&["p"]))), Mode::Example);
}

#[test]
fn screenshot_after_target_frames() {
    let mut c = ScreenshotCounter::new(3);
    assert!(!c.frame_rendered());
    assert!(!c.frame_rendered());
    assert!(c.frame_rendered());
    assert!(!c.frame_rendered());
    let mut c = ScreenshotCounter::new(0);
    assert!(c.frame_rendered());
}

#[test]
fn fullscreen_keys() {
    assert_eq!(fullscreen_request(Key::F11, false), Some(true));
    assert_eq!(fullscreen_request(Key::F11, true), Some(false));
    assert_eq!(fullscreen_request(Key::Escape, true), Some(false));
    assert_eq!(fullscreen_request(Key::Other, true), None);
}
