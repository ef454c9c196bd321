use wpengine::daemon::{
    folder_for, launch_target, needs_thumbs, open_target, opts_from_query, parse_bool_s, parse_u64,
    rescan_prev, seed_plan, LaunchQ, Seed,
};
use wpengine::library::Wallpaper;
use wpengine::settings::PlaybackSettings;

fn wp(id: &str, dir: &str, preview: &str, thumb: &str) -> Wallpaper {
    Wallpaper {
        id: id.to_string(),
        title: "t".to_string(),
        wtype: "scene".to_string(),
        tags: vec![],
        preview: preview.to_string(),
        thumb: thumb.to_string(),
        dir: dir.to_string(),
        mtime_bits: 0,
        file: String::new(),
        description: String::new(),
        size_bytes: 0,
        size: String::new(),
        audio: false,
    }
}

fn query() -> LaunchQ {
    LaunchQ {
        id: None,
        volume: None,
        fps: None,
        silent: None,
        scaling: None,
        no_fullscreen_pause: None,
        disable_mouse: None,
        noautomute: None,
    }
}

#[test]
fn switch_texts() {
    for on in ["1", "true", "YES", "On", "TRUE"] {
        assert!(parse_bool_s(on), "{on}");
    }
    for off in ["0", "false", "no", "", " yes", "2"] {
        assert!(!parse_bool_s(off), "{off}");
    }
}

#[test]
fn unsigned_numbers_parse_as_std_does() {
    let cases = [
        "0", "42", "+7", "", "+", "-1", "-0", " 1", "1 ", "12a", "007",
        "18446744073709551615", "18446744073709551616", "99999999999999999999999", "+18446744073709551615",
    ];
    for c in cases {
        assert_eq!(parse_u64(c), c.parse::<u64>().ok(), "{c:?}");
    }
    assert_eq!(parse_u64("+7"), Some(7));
    assert_eq!(parse_u64("18446744073709551616"), None);
}

#[test]
fn a_query_sets_what_it_names() {
    let base = PlaybackSettings::default();
    let mut q = query();
    q.volume = Some("40".into());
    q.fps = Some("500".into());
    q.scaling = Some("fit".into());
    q.disable_mouse = Some("yes".into());
    let s = opts_from_query(&base, &q);
    assert_eq!(s.volume, 40);
    assert_eq!(s.fps, 240);
    assert_eq!(s.scaling, "fit");
    assert!(s.disable_mouse);
    assert!(!s.silent);
    assert!(!s.noautomute);
    assert!(!s.no_fullscreen_pause);
}

#[test]
fn a_query_ignores_what_does_not_parse() {
    let base = PlaybackSettings::default();
    let mut q = query();
    q.volume = Some("loud".into());
    q.fps = Some("-5".into());
    q.scaling = Some("zoom".into());
    let s = opts_from_query(&base, &q);
    assert_eq!(s.volume, 15);
    assert_eq!(s.fps, 30);
    assert_eq!(s.scaling, "fill");
}

#[test]
fn a_muted_query_is_silent() {
    let base = PlaybackSettings::default();
    let mut q = query();
    q.volume = Some("0".into());
    q.silent = Some("no".into());
    q.fps = Some("0".into());
    let s = opts_from_query(&base, &q);
    assert_eq!(s.volume, 0);
    assert!(s.silent);
    assert_eq!(s.fps, 1);
}

#[test]
fn switches_can_be_turned_off() {
    let mut base = PlaybackSettings::default();
    base.silent = true;
    base.noautomute = true;
    let mut q = query();
    q.silent = Some("off".into());
    q.noautomute = Some("0".into());
    q.volume = Some("4294967396".into());
    let s = opts_from_query(&base, &q);
    assert!(!s.silent);
    assert!(!s.noautomute);
    // the number is cut to 32 bits (100) before the limit
    assert_eq!(s.volume, 100);
}

#[test]
fn launch_ids_must_not_be_blank() {
    assert_eq!(launch_target(None).unwrap_err(), "missing id");
    assert_eq!(launch_target(Some("  ".into())).unwrap_err(), "missing id");
    assert_eq!(launch_target(Some(" 12 ".into())).unwrap(), " 12 ");
    assert_eq!(open_target(Some("".into())).unwrap_err(), "missing id");
    assert_eq!(open_target(Some(" ".into())).unwrap(), " ");
    assert!(open_target(None).is_err());
}

#[test]
fn folders_to_open() {
    let items = vec![wp("1", "/a/1", "", ""), wp("2", "/b/2", "", ""), wp("2", "/c/2", "", "")];
    assert_eq!(folder_for(&items, "2", "/home/u"), "/b/2");
    assert_eq!(
        folder_for(&items, "9", "/home/u"),
        "/home/u/.local/share/Steam/steamapps/workshop/content/431960/9"
    );
    assert_eq!(
        folder_for(&items, "9", ""),
        ".local/share/Steam/steamapps/workshop/content/431960/9"
    );
}

#[test]
fn seeding_at_start() {
    let empty: Vec<Wallpaper> = vec![];
    let cached = vec![wp("1", "/a", "/p.jpg", "/t.jpg")];
    assert!(matches!(seed_plan(&empty, None), Seed::RescanAll));
    assert!(matches!(seed_plan(&empty, Some(&empty)), Seed::RescanAll));
    assert!(matches!(seed_plan(&empty, Some(&cached)), Seed::AdoptCache));
    assert!(matches!(seed_plan(&cached, None), Seed::Keep));
    let thumbless = vec![wp("1", "/a", "/p.jpg", "")];
    assert!(needs_thumbs(&thumbless));
    assert!(matches!(seed_plan(&thumbless, Some(&cached)), Seed::RefreshThumbs));
    let no_preview = vec![wp("1", "/a", "", "")];
    assert!(!needs_thumbs(&no_preview));
}

#[test]
fn rescans_start_from_memory() {
    assert!(rescan_prev(&vec![]).is_none());
    let items = vec![wp("1", "/a", "", ""), wp("2", "/b", "", "")];
    let prev = rescan_prev(&items).unwrap();
    assert_eq!(prev.len(), 2);
    assert_eq!(prev[1].dir, "/b");
}
