use robrix::subspace_entry::{EntryButton, SubspaceEntry, SubspaceEntryAction};

fn space_entry(id: &str, expanded: bool) -> SubspaceEntry {
    let mut entry = SubspaceEntry::new();
    entry.bind(&id.to_string(), Some(expanded));
    entry
}

fn clicked_space(action: &SubspaceEntryAction) -> Option<String> {
    match action {
        SubspaceEntryAction::SpaceClicked { space_id } => Some(space_id.clone()),
        _ => None,
    }
}

#[test]
fn subspace_bind_resets_buttons_for_another_room() {
    let mut entry = SubspaceEntry::new();
    assert!(entry.bind(&"!s:x".to_string(), Some(false)));
    assert!(entry.is_space);
    entry.on_hover_in();
    assert!(entry.show_buttons_view);
    // Same room, same expansion: nothing to snap, buttons stay.
    assert!(!entry.bind(&"!s:x".to_string(), Some(false)));
    assert!(entry.show_buttons_view);
    // Expansion changed from outside: snap the arrow.
    assert!(entry.bind(&"!s:x".to_string(), Some(true)));
    assert!(entry.is_expanded);
    // Another room: buttons hide.
    assert!(!entry.bind(&"!r:x".to_string(), None));
    assert!(!entry.is_space);
    assert!(!entry.show_buttons_view);
    assert!(entry.is_expanded);
}

#[test]
fn subspace_hover_shows_and_hides_buttons() {
    let mut entry = space_entry("!s:x", false);
    assert!(entry.on_hover_in());
    assert!(!entry.buttons_shown_by_tap);
    assert!(!entry.on_hover_in());
    // Moving onto the buttons is no hover-out.
    assert!(!entry.on_hover_out(false, true));
    assert!(entry.show_buttons_view);
    assert!(!entry.on_hover_out(true, false));
    assert!(entry.on_hover_out(false, false));
    assert!(!entry.show_buttons_view);
}

#[test]
fn subspace_pointer_click_expands_space_or_reports_room() {
    let mut entry = space_entry("!s:x", false);
    let action = entry.on_tap(false, false, false);
    assert_eq!(clicked_space(&action), Some("!s:x".to_string()));
    assert!(entry.is_expanded);
    let mut room = SubspaceEntry::new();
    room.bind(&"!r:x".to_string(), None);
    assert!(matches!(room.on_tap(false, false, false), SubspaceEntryAction::RoomClicked { ref room_id } if room_id == "!r:x"));
    // An unbound line does nothing.
    let mut unbound = SubspaceEntry::new();
    assert!(matches!(unbound.on_tap(false, false, false), SubspaceEntryAction::NoAction));
}

#[test]
fn subspace_touch_taps() {
    let mut entry = space_entry("!s:x", true);
    // A touch on the avatar collapses the space.
    let action = entry.on_tap(false, true, true);
    assert_eq!(clicked_space(&action), Some("!s:x".to_string()));
    assert!(!entry.is_expanded);
    // A touch elsewhere shows the buttons, by tap.
    assert!(matches!(entry.on_tap(false, true, false), SubspaceEntryAction::NoAction));
    assert!(entry.show_buttons_view);
    assert!(entry.buttons_shown_by_tap);
    // A tap on the shown buttons is theirs.
    assert!(matches!(entry.on_tap(true, true, false), SubspaceEntryAction::NoAction));
    assert!(entry.show_buttons_view);
    // Another touch hides them.
    entry.on_tap(false, true, false);
    assert!(!entry.show_buttons_view);
    assert!(!entry.buttons_shown_by_tap);
    // On a room, the avatar region toggles the buttons too.
    let mut room = SubspaceEntry::new();
    room.bind(&"!r:x".to_string(), None);
    room.on_tap(false, true, true);
    assert!(room.show_buttons_view);
}

#[test]
fn subspace_buttons_report_the_room() {
    let entry = space_entry("!s:x", false);
    assert!(matches!(
        entry.on_button_clicked(EntryButton::Join),
        SubspaceEntryAction::JoinClicked { ref room_id, is_space: true } if room_id == "!s:x"
    ));
    assert!(matches!(
        entry.on_button_clicked(EntryButton::Leave),
        SubspaceEntryAction::LeaveClicked { is_space: true, .. }
    ));
    assert!(matches!(entry.on_button_clicked(EntryButton::View), SubspaceEntryAction::ViewClicked { .. }));
    assert!(matches!(
        entry.on_button_clicked(EntryButton::RemoveFromSpace),
        SubspaceEntryAction::RemoveFromSpaceClicked { is_space: true, .. }
    ));
    assert!(matches!(SubspaceEntry::new().on_button_clicked(EntryButton::Join), SubspaceEntryAction::NoAction));
}

#[test]
fn subspace_toggle_buttons_for_tap() {
    let mut entry = SubspaceEntry::new();
    entry.toggle_buttons_for_tap();
    assert!(entry.show_buttons_view && entry.buttons_shown_by_tap);
    entry.toggle_buttons_for_tap();
    assert!(!entry.show_buttons_view && !entry.buttons_shown_by_tap);
}
