use robrix::threads_pane::{
    dedup_threads, sort_threads_by_time, thread_entry_info, FetchedRoomThread, PaneVisibility, ThreadsButton,
    ThreadsButtonAction, ThreadsPaneAction, ThreadsPaneEntry, ThreadsPaneState, ThreadsSlidingPane,
};

fn thread(id: &str, timestamp: u64) -> FetchedRoomThread {
    FetchedRoomThread {
        thread_root_event_id: id.to_string(),
        title: format!("title {id}"),
        reply_count: 2,
        timestamp,
        latest_reply_preview: None,
    }
}

fn ids(threads: &[FetchedRoomThread]) -> Vec<&str> {
    threads.iter().map(|t| t.thread_root_event_id.as_str()).collect()
}

#[test]
fn threads_sort_is_stable_by_time() {
    let sorted = sort_threads_by_time(vec![thread("$c", 3), thread("$a", 1), thread("$b1", 2), thread("$b2", 2)]);
    assert_eq!(ids(&sorted), vec!["$a", "$b1", "$b2", "$c"]);
    let sorted = sort_threads_by_time(vec![thread("$x", 5), thread("$y", 5), thread("$z", 5)]);
    assert_eq!(ids(&sorted), vec!["$x", "$y", "$z"]);
}

#[test]
fn threads_dedup_removes_adjacent_repeats_only() {
    let out = dedup_threads(vec![thread("$a", 1), thread("$a", 2), thread("$b", 3), thread("$a", 4)]);
    assert_eq!(ids(&out), vec!["$a", "$b", "$a"]);
    assert_eq!(out[0].timestamp, 1);
}

#[test]
fn threads_state_request_and_load() {
    let room = "!r".to_string();
    let mut state = ThreadsPaneState::new();
    assert!(state.request_more_threads(None, false).is_none());
    let req = state.show_threads_pane(Some(&room)).unwrap();
    assert_eq!(req.room_id, "!r");
    assert!(req.from.is_none());
    assert!(state.is_loading);
    assert_eq!(state.status_text, "Loading threads...");
    // Nothing more while a page is on its way.
    assert!(state.request_more_threads(Some(&room), false).is_none());
    state.on_threads_loaded(&[thread("$b", 20), thread("$a", 10)], Some("older".to_string()));
    assert!(!state.is_loading);
    assert!(state.initialized);
    assert_eq!(ids(&state.entries), vec!["$a", "$b"]);
    assert_eq!(state.status_text, "");
    // Opening the pane again asks for nothing: the first page is there.
    assert!(state.show_threads_pane(Some(&room)).is_none());
    let more = state.request_more_threads(Some(&room), true).unwrap();
    assert_eq!(more.from.as_deref(), Some("older"));
    state.on_threads_loaded(&[thread("$a", 10), thread("$z", 5)], None);
    assert_eq!(ids(&state.entries), vec!["$z", "$a", "$b"]);
    // No earlier page left.
    assert!(state.request_more_threads(Some(&room), true).is_none());
}

#[test]
fn threads_state_empty_and_failures() {
    let room = "!r".to_string();
    let mut state = ThreadsPaneState::new();
    state.request_more_threads(Some(&room), false);
    state.on_threads_loaded(&[], None);
    assert_eq!(state.status_text, "No threads yet.");
    state.request_more_threads(Some(&room), false);
    assert!(state.on_threads_failed("boom").is_none());
    assert_eq!(state.status_text, "Failed to load threads.\n\nError: boom");
    state.request_more_threads(Some(&room), false);
    state.on_threads_loaded(&[thread("$a", 1)], Some("tok".to_string()));
    state.request_more_threads(Some(&room), true);
    let notice = state.on_threads_failed("later").unwrap();
    assert_eq!(notice.message, "Failed to load more threads.\n\nError: later");
    assert_eq!(notice.retry_room_id.as_deref(), Some("!r"));
    assert_eq!(notice.retry_from.as_deref(), Some("tok"));
    assert_eq!(ids(&state.entries), vec!["$a"]);
}

#[test]
fn threads_state_resets_on_room_change() {
    let mut state = ThreadsPaneState::new();
    state.request_more_threads(Some(&"!r".to_string()), false);
    state.on_threads_loaded(&[thread("$a", 1)], None);
    state.ensure_for_room(Some(&"!r".to_string()));
    assert_eq!(state.entries.len(), 1);
    state.ensure_for_room(Some(&"!s".to_string()));
    assert!(state.entries.is_empty());
    assert_eq!(state.room_id.as_deref(), Some("!s"));
    assert!(!state.initialized);
    assert_eq!(state.status_text, "Loading threads...");
}

#[test]
fn threads_pane_info_lines() {
    let mut state = ThreadsPaneState::new();
    state.request_more_threads(Some(&"!r".to_string()), false);
    let info = state.pane_info("Room", &[]);
    assert_eq!(info.loading_text, "Loading threads...");
    assert!(info.show_loading);
    assert!(!info.show_entries);
    let mut one = thread("$a", 1);
    one.reply_count = 1;
    one.latest_reply_preview = Some("hi".to_string());
    state.on_threads_loaded(&[one, thread("$b", 2)], None);
    let info = state.pane_info("Room", &[Some("5m".to_string()), None]);
    assert_eq!(info.room_name, "Room");
    assert!(info.show_entries);
    assert!(!info.show_loading);
    assert_eq!(info.loading_text, "Loading more threads...");
    assert_eq!(info.entries[0].subtitle, "1 reply");
    assert_eq!(info.entries[0].preview, "hi");
    assert_eq!(info.entries[0].time, "5m");
    assert_eq!(info.entries[1].subtitle, "2 replies");
    assert_eq!(info.entries[1].preview, "Tap to open thread");
    assert_eq!(info.entries[1].time, "");
    let mut many = thread("$c", 3);
    many.reply_count = 12;
    assert_eq!(thread_entry_info(&many, &None).subtitle, "12 replies");
}

#[test]
fn threads_pane_entry_and_button_actions() {
    let mut entry = ThreadsPaneEntry { thread_root_event_id: None };
    assert!(matches!(entry.on_tap(), ThreadsPaneAction::NoAction));
    let info = thread_entry_info(&thread("$a", 1), &None);
    entry.set_entry(&info);
    match entry.on_tap() {
        ThreadsPaneAction::OpenThread(id) => assert_eq!(id, "$a"),
        other => panic!("unexpected {other:?}"),
    }
    assert!(matches!(ThreadsButton {}.on_click(), ThreadsButtonAction::OpenRequested));
}

#[test]
fn sliding_pane_visibility() {
    let mut pane = ThreadsSlidingPane::new();
    assert!(!pane.is_currently_shown());
    pane.hide_pane();
    assert!(!pane.is_currently_shown());
    pane.show();
    assert!(pane.is_currently_shown());
    pane.hide_pane();
    assert!(pane.is_currently_shown(), "still shown while sliding out");
    let mut v = PaneVisibility { visible: true, is_animating_out: true };
    assert!(!v.on_animation_step(true));
    assert!(v.on_animation_step(false));
    assert!(!v.is_currently_shown());
}
