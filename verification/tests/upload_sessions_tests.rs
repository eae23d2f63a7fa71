use toyoterm::api::PaneId;
use toyoterm::upload_sessions::{unknown_session_reply, UploadSessions};

#[test]
fn sessions_are_found_by_pane_and_name() {
    let mut sessions: UploadSessions<u32> = UploadSessions::new();
    sessions.insert(PaneId(1), "s".to_string(), 10);
    sessions.insert(PaneId(2), "s".to_string(), 20);
    assert_eq!(sessions.get(PaneId(1), "s"), Some(&10));
    assert_eq!(sessions.get(PaneId(2), "s"), Some(&20));
    assert_eq!(sessions.get(PaneId(3), "s"), None);
    sessions.insert(PaneId(1), "s".to_string(), 11);
    assert_eq!(sessions.get(PaneId(1), "s"), Some(&11));
}

#[test]
fn cancelling_drops_one_session_or_all_of_a_pane() {
    let mut sessions: UploadSessions<u32> = UploadSessions::new();
    sessions.insert(PaneId(1), "a".to_string(), 1);
    sessions.insert(PaneId(1), "b".to_string(), 2);
    sessions.insert(PaneId(2), "a".to_string(), 3);
    assert!(sessions.remove(PaneId(1), "a"));
    assert!(!sessions.remove(PaneId(1), "a"));
    assert_eq!(sessions.get(PaneId(1), "b"), Some(&2));
    sessions.remove_pane(PaneId(1));
    assert_eq!(sessions.get(PaneId(1), "b"), None);
    assert_eq!(sessions.get(PaneId(2), "a"), Some(&3));
}

#[test]
fn an_unknown_session_is_answered_with_enoent() {
    assert_eq!(
        unknown_session_reply("s1", "f1"),
        "\x1b]5113;ac=status;id=s1;fid=f1;st=RU5PRU5UOlVua25vd24gdXBsb2FkIHNlc3Npb24=\x1b\\"
    );
}
