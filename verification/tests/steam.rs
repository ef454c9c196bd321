use wpengine::steam::{
    file_type_label, item_from_query, poll_step, query_plan, wallpaper_type, FileKind, PollStep,
    QueryArgs, UgcResult, WP_APP_ID,
};

fn result(tags: &[&str], kind: FileKind, size: u32) -> UgcResult {
    UgcResult {
        published_file_id: 1234567890,
        title: "Sunset".to_string(),
        description: "warm".to_string(),
        owner: 76561198000000001,
        time_created: 10,
        time_updated: 20,
        tags: tags.iter().map(|t| t.to_string()).collect(),
        file_name: "scene.pkg".to_string(),
        file_type: kind,
        file_size: size,
        url: "https://example.invalid/x".to_string(),
        num_upvotes: 5,
        num_downvotes: 1,
        score_bits: 0.75f32.to_bits(),
    }
}

#[test]
fn labels_of_file_kinds() {
    assert_eq!(file_type_label(&FileKind::Community), "scene");
    assert_eq!(file_type_label(&FileKind::WebGuide), "web");
    assert_eq!(file_type_label(&FileKind::SteamVideo), "steam-video");
    assert_eq!(file_type_label(&FileKind::Microtransaction), "mtx");
    assert_eq!(file_type_label(&FileKind::SteamworksAccessInvite), "invite");
    assert_eq!(WP_APP_ID, 431960);
}

#[test]
fn author_tags_name_the_type() {
    assert_eq!(wallpaper_type(&result(&["Anime", "Video", "Web"], FileKind::Community, 0)), "video");
    assert_eq!(wallpaper_type(&result(&["APPLICATION"], FileKind::Community, 0)), "application");
    assert_eq!(wallpaper_type(&result(&["Anime"], FileKind::Community, 0)), "scene");
    assert_eq!(wallpaper_type(&result(&[], FileKind::Art, 0)), "art");
}

#[test]
fn cards_from_results() {
    let qr = result(&["Scene", "Nature"], FileKind::Community, 3 * 1024 * 1024 / 2);
    let it = item_from_query(&qr, "https://cdn/p.jpg".to_string(), true, false, String::new());
    assert_eq!(it.id, "1234567890");
    assert_eq!(it.title, "Sunset");
    assert_eq!(it.wtype, "scene");
    assert_eq!(it.tags, vec!["Scene".to_string(), "Nature".to_string()]);
    assert_eq!(it.preview, "https://cdn/p.jpg");
    assert_eq!(it.thumb, "https://cdn/p.jpg");
    assert_eq!(it.size_bytes, 1572864);
    assert_eq!(it.size, "1.5 MB");
    assert_eq!(it.author, "76561198000000001");
    assert_eq!(it.file_size, 1572864);
    assert_eq!(f32::from_bits(it.score_bits), 0.75);
    assert!(it.subscribed);
    assert!(!it.installed);
    let empty = item_from_query(&result(&[], FileKind::Video, 0), String::new(), false, true, "/d".into());
    assert_eq!(empty.size, "");
    assert_eq!(empty.dir, "/d");
    assert_eq!(empty.wtype, "video");
}

#[test]
fn query_plans() {
    let none = query_plan(None);
    assert_eq!(none.page, 1);
    assert!(!none.by_text);
    assert!(none.search_text.is_none());
    let p = query_plan(Some(QueryArgs {
        page: Some(0),
        search_text: Some("   ".to_string()),
        required_tags: Some(vec!["Anime".to_string()]),
        excluded_tags: Some(vec![]),
    }));
    assert_eq!(p.page, 1);
    assert!(!p.by_text);
    assert_eq!(p.search_text.as_deref(), Some("   "));
    assert_eq!(p.required_tags, vec!["Anime".to_string()]);
    assert!(p.excluded_tags.is_empty());
    let q = query_plan(Some(QueryArgs {
        page: Some(3),
        search_text: Some("rain".to_string()),
        required_tags: None,
        excluded_tags: Some(vec!["Mature".to_string()]),
    }));
    assert_eq!(q.page, 3);
    assert!(q.by_text);
    assert_eq!(q.search_text.as_deref(), Some("rain"));
    assert!(q.required_tags.is_empty());
    assert_eq!(q.excluded_tags, vec!["Mature".to_string()]);
    let e = query_plan(Some(QueryArgs {
        page: None,
        search_text: Some(String::new()),
        required_tags: None,
        excluded_tags: None,
    }));
    assert!(e.search_text.is_none());
}

#[test]
fn download_steps() {
    assert!(matches!(poll_step(true, 4), PollStep::TimedOut));
    assert!(matches!(poll_step(false, 1 | 4), PollStep::Installed));
    assert!(matches!(poll_step(false, 4 | 16), PollStep::Installed));
    assert!(matches!(poll_step(false, 1 | 16), PollStep::Downloading));
    assert!(matches!(poll_step(false, 1), PollStep::Pending));
    assert!(matches!(poll_step(false, 32), PollStep::Pending));
    assert!(matches!(poll_step(false, 0), PollStep::Idle));
    assert!(matches!(poll_step(false, 64), PollStep::Idle));
}
