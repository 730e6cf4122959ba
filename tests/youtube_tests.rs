use karaoke_queue::youtube::{create_video_info, extract_video_id, get_embed_url, validate_youtube_url, video_info_from_id};

#[test]
fn extracts_id_from_watch_link() {
    assert_eq!(
        extract_video_id("https://www.youtube.com/watch?v=dQw4w9WgXcQ").as_deref(),
        Some("dQw4w9WgXcQ")
    );
}

#[test]
fn extracts_id_from_short_and_embed_links() {
    assert_eq!(extract_video_id("https://youtu.be/XYZ").as_deref(), Some("XYZ"));
    assert_eq!(extract_video_id("https://www.youtube.com/embed/abc-_1").as_deref(), Some("abc-_1"));
    assert_eq!(extract_video_id("not a link"), None);
}

#[test]
fn validates_links() {
    assert!(validate_youtube_url("https://m.youtube.com/watch?v=abc"));
    assert!(validate_youtube_url("https://www.youtube-nocookie.com/embed/abc"));
    assert!(!validate_youtube_url("https://example.com/watch?v=abc"));
}

#[test]
fn embed_url() {
    assert_eq!(get_embed_url("abc"), "https://www.youtube.com/embed/abc");
}

#[test]
fn video_info_uses_fetched_title() {
    let info = create_video_info("https://youtu.be/abc", Some("A Song".to_string())).unwrap();
    assert_eq!(info.id, "abc");
    assert_eq!(info.url, "https://youtu.be/abc");
    assert_eq!(info.title.as_deref(), Some("A Song"));
}

#[test]
fn video_info_placeholder_title() {
    let info = create_video_info("https://youtu.be/abc", None).unwrap();
    assert_eq!(info.title.as_deref(), Some("YouTube Video: abc"));
    let direct = video_info_from_id("u", "id7".to_string(), None);
    assert_eq!(direct.title.as_deref(), Some("YouTube Video: id7"));
    assert_eq!(direct.url, "u");
}

#[test]
fn video_info_rejects_bad_link() {
    assert!(create_video_info("https://example.com/abc", None).is_none());
}
