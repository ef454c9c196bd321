use wpengine::json::{Json, JsonMap, JsonNum};
use wpengine::library::{
    check_workshop_id, delete_guard, dir_stats_start, is_audio_path, normalize_tags,
    preview_candidates, project_summary, removal_result, remove_from_index, removed_ids,
    thumb_command_args, thumb_path_in, thumb_reusable, thumb_wanted, wallpaper_from,
    KeepDecision, Rescan, Wallpaper,
};

fn s(x: &str) -> Json {
    Json::Str(x.to_string())
}

fn obj(entries: Vec<(&str, Json)>) -> Json {
    let mut m = JsonMap::new();
    for (k, v) in entries {
        m.insert(k.to_string(), v);
    }
    Json::Object(m)
}

fn wp(id: &str, title: &str, preview: &str, thumb: &str) -> Wallpaper {
    Wallpaper {
        id: id.to_string(),
        title: title.to_string(),
        wtype: "scene".to_string(),
        tags: vec![],
        preview: preview.to_string(),
        thumb: thumb.to_string(),
        dir: format!("/ws/{id}"),
        mtime_bits: 0,
        file: "scene.json".to_string(),
        description: String::new(),
        size_bytes: 0,
        size: "0 B".to_string(),
        audio: false,
    }
}

#[test]
fn remove_local_rejects_bad_id() {
    assert!(check_workshop_id("").is_err());
    assert!(check_workshop_id("abc").is_err());
    assert!(check_workshop_id("../431960").is_err());
    assert!(check_workshop_id("12ab").is_err());
}

#[test]
fn remove_local_missing_is_ok() {
    // an id with no folder and no index record: nothing is deleted
    let id = "999000000000099";
    assert!(check_workshop_id(id).is_ok());
    let mut items = vec![wp("1", "a", "", "")];
    let r = removal_result(id, false, &mut items);
    assert!(!r.disk_deleted);
    assert_eq!(r.id, "999000000000099");
    assert!(!r.cache_removed);
    assert_eq!(r.count, 1);
}

#[test]
fn workshop_ids_that_pass() {
    assert!(check_workshop_id("999000000000099").is_ok());
    assert_eq!(check_workshop_id("x").unwrap_err(), "invalid workshop id");
}

#[test]
fn delete_stays_inside_the_workshop() {
    assert!(delete_guard("/ws", "/ws/123").is_ok());
    assert_eq!(delete_guard("/ws", "/ws").unwrap_err(), "refusing to delete workshop root");
    assert_eq!(
        delete_guard("/ws", "/wsx/123").unwrap_err(),
        "refusing to delete path outside workshop content"
    );
    assert_eq!(
        delete_guard("/ws", "/other").unwrap_err(),
        "refusing to delete path outside workshop content"
    );
}

#[test]
fn removal_drops_every_record_of_the_id() {
    let mut items = vec![wp("1", "a", "", ""), wp("2", "b", "", ""), wp("1", "c", "", "")];
    let r = removal_result("1", true, &mut items);
    assert_eq!(r.id, "1");
    assert!(r.disk_deleted);
    assert!(r.cache_removed);
    assert_eq!(r.count, 1);
    assert_eq!(items[0].id, "2");
    let mut items = vec![wp("2", "b", "", "")];
    assert!(!remove_from_index(&mut items, "9"));
    assert_eq!(items.len(), 1);
}

#[test]
fn tags_from_texts_lists_and_objects() {
    assert_eq!(normalize_tags(&s(" Anime ")), vec!["Anime".to_string()]);
    assert_eq!(normalize_tags(&s("   ")), Vec::<String>::new());
    let list = Json::Array(vec![
        s("Nature"),
        obj(vec![("label", s("Cute"))]),
        obj(vec![("value", s("Dark")), ("name", s("ignored"))]),
        obj(vec![("name", s("Games"))]),
        Json::Number(JsonNum::PosInt(3)),
        s(""),
    ]);
    assert_eq!(
        normalize_tags(&list),
        vec!["Nature".to_string(), "Cute".to_string(), "Dark".to_string(), "Games".to_string()]
    );
    assert_eq!(normalize_tags(&Json::Null), Vec::<String>::new());
}

#[test]
fn project_summaries() {
    let data = obj(vec![
        ("type", s(" Scene ")),
        ("title", s("  My Wallpaper ")),
        ("file", s("scene.json")),
        ("description", s(" hi ")),
        ("tags", Json::Array(vec![s("Anime")])),
    ]);
    let p = project_summary("123", 200, &data).unwrap();
    assert_eq!(p.id, "123");
    assert_eq!(p.title, "My Wallpaper");
    assert_eq!(p.wtype, "scene");
    assert_eq!(p.file, "scene.json");
    assert_eq!(p.description, "hi");
    assert_eq!(p.tags, vec!["Anime".to_string()]);
    // too small, not digits, not an object, still downloading
    assert!(project_summary("123", 63, &data).is_none());
    assert!(project_summary("12a", 200, &data).is_none());
    assert!(project_summary("123", 200, &Json::Array(vec![])).is_none());
    assert!(project_summary("123", 200, &obj(vec![("title", s("x"))])).is_none());
    // a blank title falls back to the folder name
    let untitled = obj(vec![("type", s("video")), ("title", s("  "))]);
    assert_eq!(project_summary("77", 100, &untitled).unwrap().title, "77");
}

#[test]
fn records_from_summaries() {
    let data = obj(vec![("file", s("a.mp4"))]);
    let p = project_summary("5", 100, &data).unwrap();
    assert_eq!(p.wtype, "?");
    let w = wallpaper_from(p, 2048, true, "/d".into(), "/d/p.jpg".into(), "".into(), 7);
    assert_eq!(w.wtype, "?");
    assert_eq!(w.size, "2 KB");
    assert_eq!(w.mtime_bits, 7);
    assert!(w.audio);
}

#[test]
fn sound_detection() {
    assert!(dir_stats_start("video", "").audio);
    assert!(dir_stats_start("scene", "music/Track.MP3").audio);
    assert!(!dir_stats_start("scene", "scene.json").audio);
    assert!(is_audio_path("a/b.opus"));
    assert!(!is_audio_path("a/mp3"));
    let mut st = dir_stats_start("web", "index.html");
    st.add_file(Some(10), Some("index.html"));
    st.add_file(None, Some("x.wav"));
    st.add_file(Some(u64::MAX), None);
    assert_eq!(st.total, u64::MAX);
    assert!(st.audio);
}

#[test]
fn preview_search_order() {
    let with = preview_candidates(&obj(vec![("preview", s("thumb.gif"))]));
    assert_eq!(with[0], "thumb.gif");
    assert_eq!(with.len(), 6);
    let without = preview_candidates(&obj(vec![]));
    assert_eq!(
        without,
        vec!["preview.jpg", "preview.jpeg", "preview.png", "preview.gif", "preview.webp"]
    );
}

#[test]
fn thumb_rules() {
    assert!(thumb_wanted("1", "/p.jpg"));
    assert!(!thumb_wanted("", "/p.jpg"));
    assert!(!thumb_wanted("1", ""));
    assert!(thumb_reusable(10, Some(true)));
    assert!(thumb_reusable(10, None));
    assert!(!thumb_reusable(10, Some(false)));
    assert!(!thumb_reusable(0, Some(true)));
    assert_eq!(
        thumb_command_args("/p.gif", "/t/1.jpg"),
        vec!["/p.gif[0]", "-auto-orient", "-resize", "384x384>", "-strip", "-quality", "78", "/t/1.jpg"]
    );
    assert_eq!(thumb_path_in("/t", "42"), "/t/42.jpg");
}

#[test]
fn rescan_reports_added_updated_removed_and_incomplete() {
    let prev = vec![
        wp("100", "Old", "/p100.jpg", "/t100.jpg"),
        wp("200", "Same", "/p200.jpg", ""),
        wp("300", "Gone", "", ""),
        wp("400", "Broken", "", ""),
    ];
    let mut r = Rescan::new(prev);
    assert!(!r.visit("not-an-id"));
    assert!(r.visit("600"));
    assert!(!r.visit("600"));
    r.missing_project("600");
    // unchanged and titled: kept, asks for a thumb
    assert!(r.visit("200"));
    match r.keep_if_unchanged("200", true) {
        KeepDecision::Kept { needs_thumb } => assert!(needs_thumb),
        KeepDecision::Reparse => panic!("expected the record to be kept"),
    }
    r.set_last_thumb("/t200.jpg".to_string());
    // changed: reparsed with a new title
    assert!(r.visit("100"));
    assert!(matches!(r.keep_if_unchanged("100", false), KeepDecision::Reparse));
    r.parsed("100", Some(wp("100", "New", "/p100.jpg", "/t100.jpg")));
    // new item
    assert!(r.visit("500"));
    assert!(matches!(r.keep_if_unchanged("500", true), KeepDecision::Reparse));
    r.parsed("500", Some(wp("500", "Fresh", "", "")));
    // project that cannot be read: incomplete, previous record kept
    assert!(r.visit("400"));
    r.missing_project("400");
    let res = r.finish(1.5f64.to_bits());
    assert!(res.ok);
    assert_eq!(f64::from_bits(res.scanned_at_bits), 1.5);
    assert_eq!(res.added, vec!["500".to_string()]);
    assert_eq!(res.updated, vec!["100".to_string()]);
    assert_eq!(res.removed, vec!["300".to_string()]);
    assert_eq!(res.skipped_incomplete, vec!["400".to_string(), "600".to_string()]);
    assert_eq!(res.count, 4);
    let ids: Vec<&str> = res.items.iter().map(|w| w.id.as_str()).collect();
    assert_eq!(ids, vec!["200", "100", "500", "400"]);
    assert_eq!(res.items[0].thumb, "/t200.jpg");
    assert_eq!(res.items[3].title, "Broken");
}

#[test]
fn removed_ids_are_sorted_and_unique() {
    let prev = vec![wp("9", "", "", ""), wp("3", "", "", ""), wp("9", "", "", ""), wp("5", "", "", "")];
    let present = vec!["5".to_string()];
    assert_eq!(removed_ids(&prev, &present), vec!["3".to_string(), "9".to_string()]);
}
