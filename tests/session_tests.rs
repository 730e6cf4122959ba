use karaoke_queue::session::{generate_session_code, is_valid_youtube_url, QueueError, SessionState};

const A: u64 = 1;
const B: u64 = 2;
const C: u64 = 3;

fn store_with_session(code: &str) -> SessionState {
    let mut s = SessionState::new();
    assert!(s.create_session_with_code(A, Some("alice".to_string()), code.to_string(), 1000));
    s
}

fn member_ids(s: &SessionState, code: &str) -> Vec<u64> {
    let session = s.sessions.iter().find(|x| x.code == code).expect("live session");
    session.users.iter().map(|(id, _)| *id).collect()
}

fn has_code(s: &SessionState, code: &str) -> bool {
    s.sessions.iter().any(|x| x.code == code)
}

#[test]
fn scenario_start_join_add_next_leave() {
    let mut s = store_with_session("1234");
    assert!(s.is_session_owner(&A));
    assert_eq!(member_ids(&s, "1234"), vec![A]);

    assert!(s.join_session(B, Some("bob".to_string()), "1234"));
    assert_eq!(member_ids(&s, "1234"), vec![A, B]);
    assert_eq!(s.user_sessions.get(&B).map(|c| c.as_str()), Some("1234"));

    let added = s.add_to_queue(B, "https://youtu.be/XYZ".to_string(), Some("bob".to_string()), None, None);
    assert_eq!(added, Ok(true));
    let queue = s.get_queue(&B).unwrap();
    assert_eq!(queue.len(), 1);
    assert_eq!(queue[0].video_info.id, "XYZ");
    assert!(!queue[0].played);

    let next = s.next_in_queue(&A).expect("owner advances");
    assert_eq!(next.video_info.id, "XYZ");
    assert_eq!(s.get_current_video(&A).map(|v| v.id.clone()), Some("XYZ".to_string()));
    assert_eq!(s.get_queue(&A).unwrap().len(), 0);
    let history = s.get_history(&A).unwrap();
    assert_eq!(history.len(), 1);
    assert!(history[0].played);

    assert!(s.next_in_queue(&B).is_none());

    assert!(s.leave_session(&A));
    assert!(has_code(&s, "1234"));
    assert_eq!(member_ids(&s, "1234"), vec![B]);
    assert!(s.leave_session(&B));
    assert!(!has_code(&s, "1234"));
    assert!(!s.is_in_session(&B));
}

#[test]
fn duplicate_video_is_declined() {
    let mut s = store_with_session("1234");
    assert_eq!(s.add_to_queue(A, "https://youtu.be/abc".to_string(), None, None, None), Ok(true));
    assert_eq!(
        s.add_to_queue(A, "https://www.youtube.com/watch?v=abc".to_string(), None, None, None),
        Ok(false)
    );
    assert_eq!(s.get_queue(&A).unwrap().len(), 1);
}

#[test]
fn duplicate_of_played_video_is_declined() {
    let mut s = store_with_session("1234");
    assert_eq!(s.add_to_queue(A, "https://youtu.be/abc".to_string(), None, None, None), Ok(true));
    assert!(s.next_in_queue(&A).is_some());
    assert_eq!(s.add_to_queue(A, "https://youtu.be/abc".to_string(), None, None, None), Ok(false));
    assert_eq!(s.get_queue(&A).unwrap().len(), 0);
    assert_eq!(s.get_history(&A).unwrap().len(), 1);
}

#[test]
fn add_without_session_fails() {
    let mut s = SessionState::new();
    assert_eq!(
        s.add_to_queue(C, "https://youtu.be/abc".to_string(), None, None, None),
        Err(QueueError::NotInSession)
    );
}

#[test]
fn add_invalid_link_fails() {
    let mut s = store_with_session("1234");
    assert_eq!(
        s.add_to_queue(A, "https://example.com/video".to_string(), None, None, None),
        Err(QueueError::InvalidUrl)
    );
    assert_eq!(s.get_queue(&A).unwrap().len(), 0);
}

#[test]
fn queued_item_records_title_note_and_adder() {
    let mut s = store_with_session("1234");
    let r = s.add_to_queue(
        A,
        "https://youtu.be/abc".to_string(),
        Some("alice".to_string()),
        Some("duet".to_string()),
        Some("Song".to_string()),
    );
    assert_eq!(r, Ok(true));
    let q = s.get_queue(&A).unwrap();
    assert_eq!(q[0].video_info.title.as_deref(), Some("Song"));
    assert_eq!(q[0].note.as_deref(), Some("duet"));
    assert_eq!(q[0].username.as_deref(), Some("alice"));
    assert_eq!(q[0].added_by, A);
    assert_eq!(q[0].video_info.url, "https://youtu.be/abc");
}

#[test]
fn missing_title_gets_placeholder() {
    let mut s = store_with_session("1234");
    assert_eq!(s.add_to_queue(A, "https://youtu.be/abc".to_string(), None, None, None), Ok(true));
    let q = s.get_queue(&A).unwrap();
    assert_eq!(q[0].video_info.title.as_deref(), Some("YouTube Video: abc"));
}

#[test]
fn next_plays_in_insertion_order() {
    let mut s = store_with_session("1234");
    for id in ["one", "two", "three"] {
        let url = format!("https://youtu.be/{}", id);
        assert_eq!(s.add_to_queue(A, url, None, None, None), Ok(true));
    }
    assert_eq!(s.next_in_queue(&A).unwrap().video_info.id, "one");
    let q: Vec<String> = s.get_queue(&A).unwrap().iter().map(|i| i.video_info.id.clone()).collect();
    assert_eq!(q, vec!["two".to_string(), "three".to_string()]);
    assert_eq!(s.next_in_queue(&A).unwrap().video_info.id, "two");
    assert_eq!(s.next_in_queue(&A).unwrap().video_info.id, "three");
    assert!(s.next_in_queue(&A).is_none());
    let h: Vec<String> = s.get_history(&A).unwrap().iter().map(|i| i.video_info.id.clone()).collect();
    assert_eq!(h, vec!["one".to_string(), "two".to_string(), "three".to_string()]);
    assert_eq!(s.get_current_video(&A).unwrap().id, "three");
}

#[test]
fn next_by_non_owner_changes_nothing() {
    let mut s = store_with_session("1234");
    assert!(s.join_session(B, None, "1234"));
    assert_eq!(s.add_to_queue(B, "https://youtu.be/abc".to_string(), None, None, None), Ok(true));
    assert!(s.next_in_queue(&B).is_none());
    assert_eq!(s.get_queue(&A).unwrap().len(), 1);
    assert!(s.get_current_video(&A).is_none());
    assert!(s.next_in_queue(&C).is_none());
}

#[test]
fn next_on_empty_queue_is_none() {
    let mut s = store_with_session("1234");
    assert!(s.next_in_queue(&A).is_none());
}

#[test]
fn join_unknown_code_fails() {
    let mut s = store_with_session("1234");
    assert!(!s.join_session(B, None, "9999"));
    assert!(!s.is_in_session(&B));
}

#[test]
fn join_twice_is_idempotent() {
    let mut s = store_with_session("1234");
    assert!(s.join_session(B, None, "1234"));
    assert!(s.join_session(B, None, "1234"));
    assert_eq!(member_ids(&s, "1234"), vec![A, B]);
}

#[test]
fn join_other_session_moves_the_caller() {
    let mut s = store_with_session("1234");
    assert!(s.create_session_with_code(C, None, "5678".to_string(), 2000));
    assert!(s.join_session(B, None, "1234"));
    assert!(s.join_session(B, None, "5678"));
    assert_eq!(member_ids(&s, "1234"), vec![A]);
    assert_eq!(member_ids(&s, "5678"), vec![C, B]);
    assert_eq!(s.user_sessions.get(&B).map(|c| c.as_str()), Some("5678"));
}

#[test]
fn moving_out_as_last_member_deletes_the_session() {
    let mut s = store_with_session("1234");
    assert!(s.create_session_with_code(C, None, "5678".to_string(), 2000));
    assert!(s.join_session(A, None, "5678"));
    assert!(!has_code(&s, "1234"));
}

#[test]
fn leave_last_member_deletes_session() {
    let mut s = store_with_session("1234");
    assert!(s.leave_session(&A));
    assert!(!has_code(&s, "1234"));
    assert!(!s.is_in_session(&A));
    assert!(s.get_queue(&A).is_none());
    assert!(!s.join_session(B, None, "1234"));
}

#[test]
fn leave_without_session_fails() {
    let mut s = SessionState::new();
    assert!(!s.leave_session(&A));
}

#[test]
fn owner_check() {
    let mut s = store_with_session("1234");
    assert!(s.join_session(B, None, "1234"));
    assert!(s.is_session_owner(&A));
    assert!(!s.is_session_owner(&B));
    assert!(!s.is_session_owner(&C));
}

#[test]
fn create_with_taken_code_fails() {
    let mut s = store_with_session("1234");
    assert!(!s.create_session_with_code(B, None, "1234".to_string(), 5));
    assert!(!s.is_in_session(&B));
    assert_eq!(member_ids(&s, "1234"), vec![A]);
}

#[test]
fn create_session_gives_fresh_four_digit_code() {
    let mut s = SessionState::new();
    let first = s.create_session(A, None);
    let second = s.create_session(B, None);
    assert_ne!(first, second);
    assert_eq!(first.len(), 4);
    assert!(first.chars().all(|c| c.is_ascii_digit()));
    assert!(s.is_session_owner(&A));
    assert!(s.is_session_owner(&B));
    assert_eq!(s.user_sessions.get(&A), Some(&first));
}

#[test]
fn create_again_keeps_old_member_list() {
    let mut s = store_with_session("1234");
    assert!(s.create_session_with_code(A, None, "5678".to_string(), 2000));
    assert_eq!(member_ids(&s, "1234"), vec![A]);
    assert_eq!(s.user_sessions.get(&A).map(|c| c.as_str()), Some("5678"));
}

#[test]
fn generated_code_is_four_digits() {
    let code = generate_session_code();
    assert_eq!(code.len(), 4);
    assert!(code.chars().all(|c| c.is_ascii_digit()));
}

#[test]
fn device_binding() {
    let mut s = store_with_session("1234");
    assert!(s.get_device(&A).is_none());
    assert!(s.set_device(&A, "Living Room".to_string()));
    assert_eq!(s.get_device(&A).as_deref(), Some("Living Room"));
    assert!(!s.set_device(&B, "Kitchen".to_string()));
    assert!(s.get_device(&B).is_none());
}

#[test]
fn session_info_for_owner_lists_members() {
    let mut s = store_with_session("1234");
    assert!(s.join_session(B, None, "1234"));
    let info = s.session_info_at(&A, 1000 + 2 * 3600 + 5 * 60 + 7).unwrap();
    assert_eq!(
        info,
        "Session ID: 1234\nDuration: 2h 5m\nUsers in session: 2\n\nUsers in session:\n- alice\n- Anonymous"
    );
}

#[test]
fn session_info_for_member_omits_list() {
    let mut s = store_with_session("1234");
    assert!(s.join_session(B, None, "1234"));
    let info = s.session_info_at(&B, 1000 + 59).unwrap();
    assert_eq!(info, "Session ID: 1234\nDuration: 0h 0m\nUsers in session: 2");
    assert!(s.session_info_at(&C, 1000).is_none());
    assert!(s.get_session_info(&C).is_none());
    assert!(s.get_session_info(&A).unwrap().starts_with("Session ID: 1234\nDuration: "));
}

#[test]
fn valid_link_check() {
    assert!(is_valid_youtube_url("https://www.youtube.com/watch?v=dQw4w9WgXcQ"));
    assert!(is_valid_youtube_url("youtu.be/abc"));
    assert!(!is_valid_youtube_url("https://vimeo.com/123"));
    assert!(!is_valid_youtube_url(""));
}

#[test]
fn restore_rebuilds_a_saved_store() {
    let mut s = store_with_session("1234");
    assert!(s.join_session(B, Some("bob".to_string()), "1234"));
    assert_eq!(s.add_to_queue(B, "https://youtu.be/abc".to_string(), None, None, None), Ok(true));
    let entries: Vec<(u64, String)> = s.user_sessions.iter().map(|(u, c)| (*u, c.clone())).collect();
    let restored = SessionState::restore(s.sessions.clone(), entries).expect("valid snapshot");
    assert_eq!(member_ids(&restored, "1234"), vec![A, B]);
    assert!(restored.is_session_owner(&A));
    assert_eq!(restored.get_queue(&B).unwrap().len(), 1);
}

#[test]
fn restore_rejects_dangling_entry() {
    let s = store_with_session("1234");
    let entries = vec![(A, "1234".to_string()), (B, "1234".to_string())];
    assert!(SessionState::restore(s.sessions.clone(), entries).is_none());
    let entries = vec![(A, "9999".to_string())];
    assert!(SessionState::restore(s.sessions.clone(), entries).is_none());
}

#[test]
fn restore_rejects_duplicate_codes() {
    let s = store_with_session("1234");
    let mut sessions = s.sessions.clone();
    sessions.push(s.sessions[0].clone());
    assert!(SessionState::restore(sessions, vec![]).is_none());
}

#[test]
fn restore_rejects_played_after_waiting() {
    let mut s = store_with_session("1234");
    assert_eq!(s.add_to_queue(A, "https://youtu.be/a".to_string(), None, None, None), Ok(true));
    assert_eq!(s.add_to_queue(A, "https://youtu.be/b".to_string(), None, None, None), Ok(true));
    let mut sessions = s.sessions.clone();
    sessions[0].queue[1].played = true;
    assert!(SessionState::restore(sessions, vec![(A, "1234".to_string())]).is_none());
}
