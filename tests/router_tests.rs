use karaoke_queue::router::{
    current_video_text, history_text, mentions_video_link, now_playing_text, parse_add_input, queue_text,
    sender_name, split_link_message,
};
use karaoke_queue::session::QueueItem;
use karaoke_queue::youtube::VideoInfo;

fn item(id: &str, title: Option<&str>, by: u64, name: Option<&str>, note: Option<&str>) -> QueueItem {
    QueueItem {
        video_info: VideoInfo {
            id: id.to_string(),
            title: title.map(|t| t.to_string()),
            url: format!("https://youtu.be/{}", id),
        },
        added_by: by,
        username: name.map(|n| n.to_string()),
        added_at: 0,
        played: false,
        note: note.map(|n| n.to_string()),
    }
}

#[test]
fn add_input_with_note() {
    let parsed = parse_add_input("  https://youtu.be/abc   for   the duet ");
    assert_eq!(
        parsed,
        Some(("https://youtu.be/abc".to_string(), Some("for the duet".to_string())))
    );
}

#[test]
fn add_input_without_note_or_words() {
    assert_eq!(parse_add_input("https://youtu.be/abc"), Some(("https://youtu.be/abc".to_string(), None)));
    assert_eq!(parse_add_input("   "), None);
    assert_eq!(parse_add_input(""), None);
}

#[test]
fn link_message_note_around_link() {
    let r = split_link_message("please play https://youtu.be/abc next time");
    assert_eq!(r, Some(("https://youtu.be/abc".to_string(), Some("please play next time".to_string()))));
}

#[test]
fn link_message_variants() {
    assert_eq!(
        split_link_message("https://www.youtube.com/watch?v=x"),
        Some(("https://www.youtube.com/watch?v=x".to_string(), None))
    );
    assert_eq!(
        split_link_message("song youtu.be/abc"),
        Some(("youtu.be/abc".to_string(), Some("song".to_string())))
    );
    assert_eq!(
        split_link_message("youtu.be/a youtu.be/b"),
        Some(("youtu.be/a".to_string(), Some("youtu.be/b".to_string())))
    );
    assert_eq!(split_link_message("no link here, youtube fans"), None);
}

#[test]
fn video_mentions() {
    assert!(mentions_video_link("see youtube"));
    assert!(mentions_video_link("youtu.be/x"));
    assert!(!mentions_video_link("see vimeo"));
}

#[test]
fn queue_listing() {
    let a = item("abc", Some("Song"), 5, Some("bob"), Some("duet"));
    let b = item("xyz", None, 42, None, None);
    let text = queue_text(&vec![&a, &b]);
    assert_eq!(
        text,
        "Current queue:\n1. Song (added by bob) - Note: duet  \n2. Video ID: xyz (added by User 42)  \n"
    );
}

#[test]
fn history_listing() {
    let a = item("abc", Some("Song"), 5, Some("bob"), Some("duet"));
    let text = history_text(&vec![&a]);
    assert_eq!(text, "Previously played videos:\n1. Song (added by bob)\n");
    assert_eq!(history_text(&vec![]), "Previously played videos:\n");
}

#[test]
fn playing_replies() {
    let a = item("abc", None, 7, None, None);
    assert_eq!(now_playing_text(&a), "Now playing: Video ID: abc (added by User 7)");
    assert_eq!(
        current_video_text(&a.video_info),
        "Currently playing: Video ID: abc\nLink: https://youtu.be/abc"
    );
}

#[test]
fn sender_names() {
    assert_eq!(sender_name(Some("handle".to_string()), "Ann", None), Some("handle".to_string()));
    assert_eq!(sender_name(None, "Ann", Some("Lee".to_string())), Some("Ann Lee".to_string()));
    assert_eq!(sender_name(None, "Ann", None), Some("Ann".to_string()));
}
