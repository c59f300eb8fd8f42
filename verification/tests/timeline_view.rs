use robrix::i18n::{AppLanguage, Translations};
use robrix::timeline_view::{
    approval_timer_update, expire_approval_contexts, invalidate_timeline_event_content, pin_result_notice,
    reply_preview_plan, reuse_drawn_item, send_state_visibility, thread_summary_plan, use_compact_view,
    wedge_error_reason, ApprovalButtonContext, DrawnItems, EventSendState, FetchedThreadSummary, ItemDrawnStatus,
    LatestReply, MessageDeliveryState, PopupKind, PreviousItem, QueueWedgeError, ReplyDetails, SendError,
};

fn translations() -> Translations {
    Translations::from_json(
        r#"{
            "room_screen.thread_summary.one_reply": "1 reply",
            "room_screen.thread_summary.n_replies": "{n} replies",
            "room_screen.thread_summary.loading_latest_reply": "Loading...",
            "room_screen.thread_summary.error_latest_reply": "Failed",
            "room_screen.popup.pin.pinned_success": "Pinned",
            "room_screen.popup.pin.already_unpinned": "Not pinned",
            "room_screen.popup.pin.unpin_failed": "Unpin failed: {error}"
        }"#,
        "{}",
    )
}

#[test]
fn delivery_state_from_send_state() {
    assert!(MessageDeliveryState::from_item(None).is_none());
    assert!(matches!(MessageDeliveryState::from_item(Some(&EventSendState::NotSentYet)), Some(MessageDeliveryState::Sending)));
    assert!(MessageDeliveryState::from_item(Some(&EventSendState::Sent)).is_none());
    let retry = EventSendState::SendingFailed { error: SendError::Other("x".to_string()), is_recoverable: true };
    assert!(matches!(MessageDeliveryState::from_item(Some(&retry)), Some(MessageDeliveryState::FailedRetrying)));
    let wedged = EventSendState::SendingFailed {
        error: SendError::Wedged(QueueWedgeError::InvalidMimeType { mime_type: "x/y".to_string() }),
        is_recoverable: false,
    };
    match MessageDeliveryState::from_item(Some(&wedged)) {
        Some(MessageDeliveryState::FailedWedged { reason }) => assert_eq!(reason, "Unsupported attachment type: x/y"),
        other => panic!("unexpected {other:?}"),
    }
}

#[test]
fn wedge_reasons() {
    assert_eq!(
        wedge_error_reason(&SendError::Wedged(QueueWedgeError::InsecureDevices)),
        "Some devices in this room are unverified"
    );
    assert_eq!(
        wedge_error_reason(&SendError::Wedged(QueueWedgeError::GenericApiError { msg: "m".to_string() })),
        "m"
    );
    assert_eq!(wedge_error_reason(&SendError::Other("net down".to_string())), "net down");
}

#[test]
fn send_state_indicator() {
    assert_eq!(send_state_visibility(&None), (false, false, false));
    assert_eq!(send_state_visibility(&Some(MessageDeliveryState::Sending)), (true, true, false));
    assert_eq!(send_state_visibility(&Some(MessageDeliveryState::FailedRetrying)), (true, false, true));
}

#[test]
fn compact_view_rule() {
    let alice = "@alice".to_string();
    let prev = PreviousItem { is_message_like: true, sender: alice.clone(), timestamp_millis: 1_000 };
    assert!(use_compact_view(Some(&prev), &alice, 1_000 + 599_999));
    assert!(!use_compact_view(Some(&prev), &alice, 1_000 + 600_000));
    assert!(!use_compact_view(Some(&prev), &"@bob".to_string(), 1_500));
    assert!(!use_compact_view(Some(&prev), &alice, 999));
    let state_event = PreviousItem { is_message_like: false, ..prev };
    assert!(!use_compact_view(Some(&state_event), &alice, 1_500));
    assert!(!use_compact_view(None, &alice, 1_500));
}

#[test]
fn drawn_status_and_reuse() {
    let s = ItemDrawnStatus::new();
    assert!(!s.profile_drawn && !s.content_drawn);
    let b = ItemDrawnStatus::both_drawn();
    assert!(reuse_drawn_item(true, b));
    assert!(!reuse_drawn_item(false, b));
    assert!(!reuse_drawn_item(true, s));
}

#[test]
fn reply_preview_cases() {
    let p = reply_preview_plan(None, None);
    assert!(!p.show_reply);
    assert_eq!(p.fully_drawn, Some(true));
    let p = reply_preview_plan(Some(ReplyDetails::Unavailable), Some(&"$reply".to_string()));
    assert_eq!(p.fetch_details_for.as_deref(), Some("$reply"));
    assert_eq!(p.fully_drawn, Some(false));
    let p = reply_preview_plan(Some(ReplyDetails::Pending), Some(&"$reply".to_string()));
    assert!(p.fetch_details_for.is_none());
    assert_eq!(p.username_key, Some("room_screen.reply_preview.loading_username"));
    let p = reply_preview_plan(Some(ReplyDetails::Error), None);
    assert_eq!(p.body_key, Some("room_screen.reply_preview.error_event"));
    let p = reply_preview_plan(Some(ReplyDetails::Ready), None);
    assert!(p.show_reply && p.fully_drawn.is_none());
}

#[test]
fn thread_summary_cases() {
    let t = translations();
    let mut pending = Vec::new();
    let root = "$root".to_string();
    let p = thread_summary_plan(&t, AppLanguage::English, true, Some(3), Some(&root), None, &LatestReply::Pending, &mut pending);
    assert!(!p.visible);
    let p = thread_summary_plan(&t, AppLanguage::English, false, None, Some(&root), None, &LatestReply::Pending, &mut pending);
    assert!(!p.visible);
    let p = thread_summary_plan(&t, AppLanguage::English, false, Some(3), Some(&root), None, &LatestReply::Unavailable, &mut pending);
    assert!(p.visible);
    assert_eq!(p.count_text, "3 replies");
    assert_eq!(p.latest_text, "Loading...");
    assert!(!p.fully_drawn);
    assert_eq!(p.fetch_for.as_deref(), Some("$root"));
    assert_eq!(pending, vec!["$root".to_string()]);
    // Asked once only.
    let p = thread_summary_plan(&t, AppLanguage::English, false, Some(3), Some(&root), None, &LatestReply::Unavailable, &mut pending);
    assert!(p.fetch_for.is_none());
    let fetched = FetchedThreadSummary { num_replies: 1, latest_reply_preview_text: Some("bob: hi".to_string()) };
    let p = thread_summary_plan(&t, AppLanguage::English, false, Some(3), Some(&root), Some(&fetched), &LatestReply::Unavailable, &mut Vec::new());
    assert_eq!(p.count_text, "1 reply");
    assert_eq!(p.latest_text, "bob: hi");
    assert!(p.fetch_for.is_none());
    let p = thread_summary_plan(&t, AppLanguage::English, false, Some(2), None, None, &LatestReply::Ready("x".to_string()), &mut Vec::new());
    assert_eq!(p.latest_text, "x");
    assert!(p.fully_drawn);
    let p = thread_summary_plan(&t, AppLanguage::English, false, Some(2), None, None, &LatestReply::Error, &mut Vec::new());
    assert_eq!(p.latest_text, "Failed");
    assert!(p.fully_drawn);
    let p = thread_summary_plan(&t, AppLanguage::English, false, Some(2), None, None, &LatestReply::Pending, &mut Vec::new());
    assert!(!p.fully_drawn);
}

#[test]
fn invalidating_an_event_forgets_its_drawing() {
    let ids = vec![None, Some("$a".to_string()), Some("$b".to_string()), Some("$a".to_string())];
    let mut drawn = DrawnItems::new();
    drawn.insert(1);
    drawn.insert(2);
    drawn.insert(3);
    assert!(invalidate_timeline_event_content(&ids, &mut drawn, &"$a".to_string()));
    assert!(!drawn.contains(1));
    assert!(drawn.contains(2));
    assert!(drawn.contains(3));
    assert!(!invalidate_timeline_event_content(&ids, &mut drawn, &"$zz".to_string()));
    assert!(drawn.contains(2));
    drawn.clear();
    assert!(!drawn.contains(2));
}

#[test]
fn expiring_approvals_drops_every_context_of_their_source() {
    let ctx = |s: &str| ApprovalButtonContext { source_event_id: s.to_string() };
    let mut contexts = vec![ctx("$a"), ctx("$b"), ctx("$a"), ctx("$c")];
    let sources = expire_approval_contexts(&mut contexts, &[false, true, true, false]);
    assert_eq!(sources, vec!["$b".to_string(), "$a".to_string()]);
    let left: Vec<&str> = contexts.iter().map(|c| c.source_event_id.as_str()).collect();
    assert_eq!(left, vec!["$c"]);
    let mut contexts = vec![ctx("$a")];
    assert!(expire_approval_contexts(&mut contexts, &[false]).is_empty());
    assert_eq!(contexts.len(), 1);
}

#[test]
fn approval_timer_rules() {
    assert_eq!(approval_timer_update(Some(10), Some(10), 0), None);
    assert_eq!(approval_timer_update(None, Some(10), 0), Some(None));
    assert_eq!(approval_timer_update(Some(1_500), None, 1_000), Some(Some(500)));
    assert_eq!(approval_timer_update(Some(900), None, 1_000), Some(Some(1)));
}

#[test]
fn pin_notices() {
    let t = translations();
    let (text, auto, kind) = pin_result_notice(&t, AppLanguage::English, true, &Ok(true));
    assert_eq!(text, "Pinned");
    assert!(auto);
    assert!(matches!(kind, PopupKind::Success));
    let (text, _, kind) = pin_result_notice(&t, AppLanguage::English, false, &Ok(false));
    assert_eq!(text, "Not pinned");
    assert!(matches!(kind, PopupKind::Info));
    let (text, auto, kind) = pin_result_notice(&t, AppLanguage::English, false, &Err("nope".to_string()));
    assert_eq!(text, "Unpin failed: nope");
    assert!(!auto);
    assert!(matches!(kind, PopupKind::Error));
}
