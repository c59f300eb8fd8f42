use robrix::search::{
    current_room_id_or_placeholder, find_event_backwards, handle_search_messages_actions,
    message_search_hit_from_searched_message, queue_backwards_paginate, truncate_preview,
    BackwardsPaginateUntilEventRequest, RoomSearchState, SearchMessagesAction, SearchSubmission, SearchedMessage,
};

#[test]
fn truncate_preview_collapses_white_space() {
    assert_eq!(truncate_preview("  hello \n\t world  ", 100), "hello world");
    assert_eq!(truncate_preview("", 10), "");
    assert_eq!(truncate_preview(" \n ", 10), "");
    assert_eq!(truncate_preview("a\u{3000}b\u{2028}c", 10), "a b c");
}

#[test]
fn truncate_preview_cuts_with_ellipsis() {
    assert_eq!(truncate_preview("hello world", 5), "hello…");
    assert_eq!(truncate_preview("hello", 5), "hello");
    assert_eq!(truncate_preview("你好世界", 2), "你好…");
    assert_eq!(truncate_preview("abc", 0), "…");
}

#[test]
fn search_hit_uses_display_name_or_user_id() {
    let m = SearchedMessage {
        event_id: "$e".to_string(),
        sender_user_id: "@alice:example.org".to_string(),
        sender_display_name: None,
        timestamp: 0,
        body: "line one\nline two".to_string(),
    };
    let hit = message_search_hit_from_searched_message(&m, None);
    assert_eq!(hit.event_id, "$e");
    assert_eq!(hit.sender_display, "@alice:example.org");
    assert_eq!(hit.timestamp_display, "");
    assert_eq!(hit.body_preview, "line one line two");
    let m2 = SearchedMessage { sender_display_name: Some("Alice".to_string()), ..m };
    let hit2 = message_search_hit_from_searched_message(&m2, Some("2024-01-02 03:04".to_string()));
    assert_eq!(hit2.sender_display, "Alice");
    assert_eq!(hit2.timestamp_display, "2024-01-02 03:04");
    let long = SearchedMessage { body: "x".repeat(300), ..m2 };
    let hit3 = message_search_hit_from_searched_message(&long, None);
    assert_eq!(hit3.body_preview.chars().count(), 241);
    assert!(hit3.body_preview.ends_with('…'));
}

#[test]
fn search_submit_flow() {
    let room = "!r:example.org".to_string();
    let mut state = RoomSearchState::default();
    assert!(matches!(state.submit_message_search(None, false, "x"), SearchSubmission::NoRoom));
    match state.submit_message_search(Some(&room), false, "  cats  ") {
        SearchSubmission::Started(req) => {
            assert_eq!(req.room_id, room);
            assert_eq!(req.search_term, "cats");
            assert!(req.next_batch.is_none());
            assert!(req.abort_previous);
        },
        other => panic!("unexpected {other:?}"),
    }
    assert_eq!(state.query, "cats");
    assert!(state.request_in_flight);
    // No next page while a request is in flight.
    assert!(state.submit_message_search_next_page(Some(&room)).is_none());
    // Stale results are dropped.
    assert!(!state.on_search_results_received(&room, "dogs", Some("tok".to_string())));
    assert!(state.request_in_flight);
    assert!(state.on_search_results_received(&room, "cats", Some("tok".to_string())));
    assert!(!state.request_in_flight);
    // A next page is requested once, for the shown room only.
    assert!(state.submit_message_search_next_page(Some(&"!other".to_string())).is_none());
    let page = state.submit_message_search_next_page(Some(&room)).unwrap();
    assert_eq!(page.next_batch.as_deref(), Some("tok"));
    assert!(!page.abort_previous);
    assert!(state.submit_message_search_next_page(Some(&room)).is_none());
    assert!(state.on_search_failed(&room, "cats"));
    assert!(!state.request_in_flight);
    // A blank query aborts and resets.
    match state.submit_message_search(Some(&room), false, "   ") {
        SearchSubmission::Cleared(req) => {
            assert_eq!(req.search_term, "");
            assert!(req.abort_previous);
        },
        other => panic!("unexpected {other:?}"),
    }
    assert_eq!(state.query, "");
    assert!(state.room_id.is_none());
}

#[test]
fn search_in_encrypted_room_resets() {
    let room = "!r:example.org".to_string();
    let mut state = RoomSearchState::new();
    assert!(matches!(state.submit_message_search(Some(&room), true, "cats"), SearchSubmission::Encrypted));
    assert!(state.room_id.is_none());
    assert!(!state.request_in_flight);
}

#[test]
fn search_result_current_checks_room_and_query() {
    let mut state = RoomSearchState::new();
    let room = "!r".to_string();
    state.submit_message_search(Some(&room), false, "q");
    assert!(state.is_search_result_current(&room, "q"));
    assert!(!state.is_search_result_current(&room, "q2"));
    assert!(!state.is_search_result_current(&"!s".to_string(), "q"));
    state.reset();
    assert!(!state.is_search_result_current(&room, ""));
}

#[test]
fn search_actions_close_wins() {
    let room = "!r".to_string();
    let mut state = RoomSearchState::new();
    state.submit_message_search(Some(&room), false, "q");
    let effects = handle_search_messages_actions(
        &mut state,
        &[SearchMessagesAction::QueryChanged("x".to_string()), SearchMessagesAction::CloseRequested],
        Some(&room),
        false,
    );
    assert!(effects.close_pane);
    assert!(effects.submission.is_none());
    let abort = effects.abort.unwrap();
    assert_eq!(abort.room_id, "!r");
    assert_eq!(abort.search_term, "");
    assert!(state.room_id.is_none());
    let effects = handle_search_messages_actions(&mut state, &[SearchMessagesAction::CloseRequested], None, false);
    assert_eq!(effects.abort.unwrap().room_id, "!none:none.invalid");
}

#[test]
fn search_actions_jump_and_query() {
    let room = "!r".to_string();
    let mut state = RoomSearchState::new();
    let effects = handle_search_messages_actions(
        &mut state,
        &[SearchMessagesAction::JumpToEvent("$a".to_string()), SearchMessagesAction::JumpToEvent("$b".to_string())],
        Some(&room),
        false,
    );
    assert!(effects.close_pane);
    assert_eq!(effects.jump_to.as_deref(), Some("$b"));
    let effects = handle_search_messages_actions(
        &mut state,
        &[
            SearchMessagesAction::OpenRequested,
            SearchMessagesAction::QueryChanged("a".to_string()),
            SearchMessagesAction::NoAction,
            SearchMessagesAction::QueryChanged("ab".to_string()),
        ],
        Some(&room),
        false,
    );
    assert!(effects.open_pane);
    assert!(!effects.close_pane);
    match effects.submission {
        Some(SearchSubmission::Started(req)) => assert_eq!(req.search_term, "ab"),
        other => panic!("unexpected {other:?}"),
    }
    assert_eq!(state.query, "ab");
}

#[test]
fn placeholder_room_id() {
    assert_eq!(current_room_id_or_placeholder(None), "!none:none.invalid");
    assert_eq!(current_room_id_or_placeholder(Some(&"!x".to_string())), "!x");
}

#[test]
fn find_event_backwards_within_budget() {
    let ids: Vec<Option<String>> =
        vec![Some("$a".to_string()), None, Some("$b".to_string()), Some("$c".to_string()), Some("$b".to_string())];
    let found = find_event_backwards(&ids, 4, &"$b".to_string(), 10);
    assert_eq!(found.found_index, Some(2));
    assert_eq!(found.items_searched, 2);
    let found = find_event_backwards(&ids, 5, &"$a".to_string(), 3);
    assert_eq!(found.found_index, None);
    assert_eq!(found.items_searched, 3);
    assert_eq!(found.starting_index, 2);
    let found = find_event_backwards(&ids, 2, &"$zz".to_string(), 10);
    assert_eq!(found.found_index, None);
    assert_eq!(found.items_searched, 2);
    assert_eq!(found.starting_index, 0);
}

#[test]
fn backwards_paginate_request_reused_per_room() {
    let mut requests: Vec<BackwardsPaginateUntilEventRequest> = Vec::new();
    queue_backwards_paginate(&mut requests, &"!r".to_string(), &"$a".to_string(), 5, 10);
    queue_backwards_paginate(&mut requests, &"!s".to_string(), &"$b".to_string(), 1, 2);
    queue_backwards_paginate(&mut requests, &"!r".to_string(), &"$c".to_string(), 7, 11);
    assert_eq!(requests.len(), 2);
    assert_eq!(requests[0].target_event_id, "$c");
    assert_eq!(requests[0].starting_index, 5);
    assert_eq!(requests[0].current_tl_len, 10);
    assert_eq!(requests[1].room_id, "!s");
}

#[test]
fn preview_of_a_preview_is_the_same() {
    for (s, n) in [("  hello   world  ", 5), ("ab cd", 3), ("ab cd", 2), ("x", 0), ("short", 100), ("a\n\nb\tc", 3)] {
        let once = truncate_preview(s, n);
        assert_eq!(truncate_preview(&once, n), once);
    }
}
