use robrix::report_modal::{ReportRoomModal, ReportRoomModalAction};
use robrix::rooms::RoomNameId;

#[test]
fn report_modal_show_prepares_texts() {
    let mut modal = ReportRoomModal::new();
    modal.show(&RoomNameId::new("Rust".to_string(), "!r:example.org".to_string()));
    assert_eq!(modal.title, "Report Room");
    assert_eq!(modal.body, "Report Rust to your homeserver administrators. Please provide a reason.");
    assert_eq!(modal.reason, "");
    assert!(!modal.is_showing_error);
}

#[test]
fn report_modal_cancel_and_dismiss_close() {
    let mut modal = ReportRoomModal::new();
    assert!(matches!(modal.handle_actions(true, false, None, true), Some(ReportRoomModalAction::Close)));
    assert!(matches!(modal.handle_actions(false, true, None, false), Some(ReportRoomModalAction::Close)));
}

#[test]
fn report_modal_blank_reason_shows_error_until_edited() {
    let mut modal = ReportRoomModal::new();
    assert!(modal.handle_actions(false, false, Some("   ".to_string()), true).is_none());
    assert!(modal.is_showing_error);
    assert_eq!(modal.status, "Please enter a reason before reporting.");
    assert!(modal.handle_actions(false, false, Some("spam".to_string()), false).is_none());
    assert!(!modal.is_showing_error);
    assert_eq!(modal.status, "");
    match modal.handle_actions(false, false, None, true) {
        Some(ReportRoomModalAction::Submit(reason)) => assert_eq!(reason, "spam"),
        other => panic!("unexpected {other:?}"),
    }
}

#[test]
fn report_modal_submits_trimmed_reason() {
    let mut modal = ReportRoomModal::new();
    match modal.handle_actions(false, false, Some("  abuse \n".to_string()), true) {
        Some(ReportRoomModalAction::Submit(reason)) => assert_eq!(reason, "abuse"),
        other => panic!("unexpected {other:?}"),
    }
}
