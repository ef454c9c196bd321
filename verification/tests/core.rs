use wpengine::engine::{build_args, build_args_with, choose_wayland_display, monitors_from_json, MonitorInfo};
use wpengine::json::{Json, JsonMap, JsonNum};
use wpengine::paths::{
    cache_path_in, file_in, join_path, props_dir_in, props_path, settings_path_in, thumbs_dir_in,
    workshop_dir_in,
};
use wpengine::settings::{merge, settings_from_json, PlaybackSettings};
use wpengine::size::fmt_size;

fn s(x: &str) -> Json {
    Json::Str(x.to_string())
}

fn num(n: u64) -> Json {
    Json::Number(JsonNum::PosInt(n))
}

fn obj(entries: Vec<(&str, Json)>) -> Json {
    let mut m = JsonMap::new();
    for (k, v) in entries {
        m.insert(k.to_string(), v);
    }
    Json::Object(m)
}

fn float_size(n: u64) -> String {
    if n < 1024 {
        return format!("{n} B");
    }
    let kb = n as f64 / 1024.0;
    if n < 1024 * 1024 {
        return format!("{:.0} KB", kb);
    }
    let mb = n as f64 / (1024.0 * 1024.0);
    if n < 1024 * 1024 * 1024 {
        return format!("{:.1} MB", mb);
    }
    let gb = n as f64 / (1024.0 * 1024.0 * 1024.0);
    format!("{:.1} GB", gb)
}

#[test]
fn sizes_exact_values() {
    assert_eq!(fmt_size(0), "0 B");
    assert_eq!(fmt_size(1023), "1023 B");
    assert_eq!(fmt_size(1024), "1 KB");
    assert_eq!(fmt_size(1536), "2 KB");
    assert_eq!(fmt_size(2560), "2 KB");
    assert_eq!(fmt_size(1048575), "1024 KB");
    assert_eq!(fmt_size(1048576), "1.0 MB");
    assert_eq!(fmt_size(1572864), "1.5 MB");
    assert_eq!(fmt_size(1073741823), "1024.0 MB");
    assert_eq!(fmt_size(1073741824), "1.0 GB");
    assert_eq!(fmt_size(u64::MAX), "17179869184.0 GB");
}

#[test]
fn sizes_agree_with_float_formatting() {
    let mut n: u64 = 1;
    let mut k: u64 = 0;
    while k < 4000 {
        for c in [n, n - 1, n + 1, n * 3 / 2, n + n / 20, n + n / 20 + 1] {
            assert_eq!(fmt_size(c), float_size(c), "{c}");
        }
        n = n.wrapping_mul(1103515245).wrapping_add(12345) % (1u64 << (k % 50 + 10)) + 1;
        k += 1;
    }
    for c in [1024 * 1024 * 1024 * 5 / 2, 52428 * 1024 * 1024, 0x51eb851eb851eb8, u64::MAX - 1] {
        assert_eq!(fmt_size(c), float_size(c), "{c}");
    }
}

#[test]
fn compact_json_text() {
    let v = obj(vec![
        ("b", Json::Array(vec![num(1), Json::Number(JsonNum::NegInt(-2)), Json::Null])),
        ("a", s("q\"\\\n\u{1}é")),
        ("c", Json::Bool(false)),
        ("d", obj(vec![])),
    ]);
    assert_eq!(v.to_text(), "{\"a\":\"q\\\"\\\\\\n\\u0001é\",\"b\":[1,-2,null],\"c\":false,\"d\":{}}");
}

#[test]
fn json_objects_replace_and_remove() {
    let mut m = JsonMap::new();
    m.insert("k".into(), num(1));
    m.insert("a".into(), num(2));
    m.insert("k".into(), num(3));
    assert_eq!(m.len(), 2);
    assert_eq!(m.get("k").unwrap().as_u64(), Some(3));
    assert!(m.contains_key("a"));
    m.remove("a");
    assert!(!m.contains_key("a"));
    assert!(m.get("a").is_none());
    let (k, v) = m.entry(0);
    assert_eq!(k, "k");
    assert_eq!(v.as_i64(), Some(3));
}

#[test]
fn settings_from_files() {
    let v = obj(vec![
        ("volume", num(250)),
        ("fps", num(0)),
        ("silent", Json::Bool(true)),
        ("scaling", s("stretch")),
        ("disable_mouse", s("1")),
    ]);
    let st = settings_from_json(&v);
    assert_eq!(st.volume, 100);
    assert_eq!(st.fps, 1);
    assert!(st.silent);
    assert_eq!(st.scaling, "stretch");
    // a file switch must be a boolean
    assert!(!st.disable_mouse);
    let d = settings_from_json(&Json::Null);
    assert_eq!(d.volume, 15);
    assert_eq!(d.fps, 30);
    assert_eq!(d.scaling, "fill");
    let muted = settings_from_json(&obj(vec![("volume", num(0)), ("silent", Json::Bool(false))]));
    assert!(muted.silent);
}

#[test]
fn settings_merge_texts_and_booleans() {
    let base = PlaybackSettings::default();
    let patch = obj(vec![
        ("silent", s("YES")),
        ("no_fullscreen_pause", Json::Bool(true)),
        ("noautomute", s("1")),
        ("scaling", s("weird")),
        ("fps", num(60)),
    ]);
    let m = merge(&base, &patch);
    assert!(m.silent);
    assert!(m.no_fullscreen_pause);
    // noautomute only takes a boolean
    assert!(!m.noautomute);
    assert_eq!(m.scaling, "fill");
    assert_eq!(m.fps, 60);
    let same = merge(&base, &Json::Array(vec![]));
    assert_eq!(same.volume, base.volume);
}

#[test]
fn engine_command_line() {
    let mut opts = PlaybackSettings::default();
    opts.noautomute = true;
    let monitors = vec![
        MonitorInfo { name: "DP-1".into(), width: 2560, height: 1440, id: 0 },
        MonitorInfo { name: "HDMI-A-1".into(), width: 1920, height: 1080, id: 1 },
    ];
    let props = vec![("clock".to_string(), "2".to_string()), (String::new(), "x".to_string())];
    let args = build_args_with("/assets", "123", &opts, &monitors, &props);
    assert_eq!(
        args,
        vec![
            "--assets-dir", "/assets", "--fps", "30", "--volume", "15", "--noautomute",
            "--set-property", "clock=2", "--screen-root", "DP-1", "--bg", "123", "--scaling", "fill",
            "--screen-root", "HDMI-A-1", "--bg", "123", "--scaling", "fill",
        ]
    );
    let mut quiet = PlaybackSettings::default();
    quiet.volume = 0;
    quiet.scaling = String::new();
    quiet.disable_mouse = true;
    quiet.no_fullscreen_pause = true;
    let args = build_args_with("/a", "9", &quiet, &[], &[]);
    assert_eq!(
        args,
        vec!["--assets-dir", "/a", "--fps", "30", "--silent", "--no-fullscreen-pause", "--disable-mouse", "9"]
    );
    let home_args = build_args("9", &quiet, &[], &[]);
    assert!(home_args[1].ends_with(".local/share/Steam/steamapps/common/wallpaper_engine/assets"));
}

#[test]
fn monitors_from_compositor_json() {
    let v = Json::Array(vec![
        obj(vec![("name", s("DP-1")), ("width", num(2560)), ("height", num(1440)), ("id", num(3))]),
        obj(vec![("name", s("bad")), ("width", s("x")), ("height", num(1)), ("id", num(1))]),
        obj(vec![("name", s("noid")), ("width", num(1)), ("height", num(1))]),
        obj(vec![("name", s("f")), ("width", num(4294967297)), ("height", num(2)), ("id", s("x"))]),
    ]);
    let ms = monitors_from_json(&v);
    assert_eq!(ms.len(), 2);
    assert_eq!(ms[0].name, "DP-1");
    assert_eq!(ms[0].id, 3);
    assert_eq!(ms[1].width, 1);
    assert_eq!(ms[1].id, 0);
    assert!(monitors_from_json(&obj(vec![])).is_empty());
}

#[test]
fn wayland_display_choice() {
    let entries: Vec<String> = ["wayland-1", "wayland-0.lock", "wayland-0", "pulse", "wayland-10"]
        .iter()
        .map(|x| x.to_string())
        .collect();
    assert_eq!(choose_wayland_display(Some("wayland-9"), true, &entries).as_deref(), Some("wayland-9"));
    assert_eq!(choose_wayland_display(Some("wayland-9"), false, &entries).as_deref(), Some("wayland-0"));
    assert_eq!(choose_wayland_display(None, false, &entries).as_deref(), Some("wayland-0"));
    assert_eq!(choose_wayland_display(None, false, &vec!["x".to_string()]), None);
}

#[test]
fn paths_under_a_base() {
    assert_eq!(join_path("/h", "a/b"), "/h/a/b");
    assert_eq!(join_path("/h/", "a"), "/h/a");
    assert_eq!(join_path("", "a"), "a");
    assert_eq!(join_path("/h", "/abs"), "/abs");
    assert_eq!(workshop_dir_in("/h"), "/h/.local/share/Steam/steamapps/workshop/content/431960");
    assert_eq!(cache_path_in("/h"), "/h/.cache/lwe_index.json");
    assert_eq!(thumbs_dir_in("/"), "/.cache/lwe_thumbs");
    assert_eq!(props_dir_in("/h"), "/h/.cache/lwe_props");
    assert_eq!(settings_path_in("/h"), "/h/.cache/lwe_settings.json");
    assert_eq!(file_in("/d", "12", "json"), "/d/12.json");
    assert!(props_path("42").ends_with("/.cache/lwe_props/42.json"));
}

#[test]
fn stored_settings_load_back() {
    let s = PlaybackSettings {
        volume: 0,
        fps: 240,
        silent: true,
        scaling: "default".to_string(),
        no_fullscreen_pause: true,
        disable_mouse: false,
        noautomute: true,
    };
    let stored = obj(vec![
        ("volume", num(s.volume as u64)),
        ("fps", num(s.fps as u64)),
        ("silent", Json::Bool(s.silent)),
        ("scaling", Json::Str(s.scaling.clone())),
        ("no_fullscreen_pause", Json::Bool(s.no_fullscreen_pause)),
        ("disable_mouse", Json::Bool(s.disable_mouse)),
        ("noautomute", Json::Bool(s.noautomute)),
    ]);
    let back = settings_from_json(&stored);
    assert_eq!(back.volume, s.volume);
    assert_eq!(back.fps, s.fps);
    assert_eq!(back.silent, s.silent);
    assert_eq!(back.scaling, s.scaling);
    assert_eq!(back.no_fullscreen_pause, s.no_fullscreen_pause);
    assert_eq!(back.disable_mouse, s.disable_mouse);
    assert_eq!(back.noautomute, s.noautomute);
}
