use robrix::room_settings::{RoomSettingsAction, RoomSettingsEvents, RoomSettingsModal};

fn no_events() -> RoomSettingsEvents {
    RoomSettingsEvents {
        close_clicked: false,
        cancel_clicked: false,
        save_clicked: false,
        name_text: String::new(),
        topic_text: String::new(),
        publish_changed: None,
        add_address_clicked: false,
        address_text: String::new(),
        media_selected: None,
        leave_clicked: false,
        picked_avatar_path: None,
    }
}

fn shown() -> RoomSettingsModal {
    let mut modal = RoomSettingsModal::new();
    modal.show("!room:server".to_string(), "Ferris", "Crabs", None);
    modal
}

#[test]
fn settings_show_fills_the_fields() {
    let modal = shown();
    assert_eq!(modal.title, "Room Settings – Ferris");
    assert_eq!(modal.room_id_input, "!room:server");
    assert_eq!(modal.name_input, "Ferris");
    assert_eq!(modal.topic_input, "Crabs");
    assert_eq!(modal.main_alias_text, "No main address set");
    assert_eq!(modal.avatar_text, "F");
    let mut other = RoomSettingsModal::new();
    other.show("!r".to_string(), "", "", Some("#main:server"));
    assert_eq!(other.avatar_text, "?");
    assert_eq!(other.main_alias_text, "#main:server");
}

#[test]
fn settings_close_cancel_save() {
    let mut modal = shown();
    let events = RoomSettingsEvents { close_clicked: true, save_clicked: true, ..no_events() };
    assert!(matches!(modal.handle_actions(&events)[..], [RoomSettingsAction::Close]));
    let events = RoomSettingsEvents { cancel_clicked: true, ..no_events() };
    assert!(matches!(modal.handle_actions(&events)[..], [RoomSettingsAction::Cancel]));
    let events = RoomSettingsEvents { save_clicked: true, name_text: "  ".to_string(), ..no_events() };
    assert!(modal.handle_actions(&events).is_empty());
    assert_eq!(modal.name_error.as_deref(), Some("Room name cannot be empty"));
    let events = RoomSettingsEvents {
        save_clicked: true,
        name_text: " New name ".to_string(),
        topic_text: " topic\n".to_string(),
        ..no_events()
    };
    match &modal.handle_actions(&events)[..] {
        [RoomSettingsAction::Save { room_id, room_name, room_topic }] => {
            assert_eq!(room_id, "!room:server");
            assert_eq!(room_name, "New name");
            assert_eq!(room_topic, "topic");
        },
        other => panic!("unexpected {other:?}"),
    }
    assert!(modal.name_error.is_none());
}

#[test]
fn settings_other_fields_in_order() {
    let mut modal = shown();
    let events = RoomSettingsEvents {
        publish_changed: Some(true),
        add_address_clicked: true,
        address_text: "  ##crabs ".to_string(),
        media_selected: Some(1),
        leave_clicked: true,
        picked_avatar_path: Some("/tmp/a.png".to_string()),
        ..no_events()
    };
    let requests = modal.handle_actions(&events);
    assert_eq!(requests.len(), 5);
    assert!(matches!(&requests[0], RoomSettingsAction::SetDirectoryPublish { enabled: true, .. }));
    match &requests[1] {
        RoomSettingsAction::AddLocalAddress { alias, .. } => assert_eq!(alias, "crabs"),
        other => panic!("unexpected {other:?}"),
    }
    assert!(matches!(&requests[2], RoomSettingsAction::SetMediaVisibility { always_show: true, .. }));
    assert!(matches!(&requests[3], RoomSettingsAction::LeaveRoom { .. }));
    match &requests[4] {
        RoomSettingsAction::UploadRoomAvatar { avatar_path, .. } => assert_eq!(avatar_path, "/tmp/a.png"),
        other => panic!("unexpected {other:?}"),
    }
    assert!(modal.always_show_media);
    // An address made only of `#` is not added.
    let events = RoomSettingsEvents { add_address_clicked: true, address_text: " ### ".to_string(), ..no_events() };
    assert!(modal.handle_actions(&events).is_empty());
}

#[test]
fn settings_without_room_make_no_requests() {
    let mut modal = RoomSettingsModal::new();
    let events = RoomSettingsEvents { leave_clicked: true, media_selected: Some(0), ..no_events() };
    assert!(modal.handle_actions(&events).is_empty());
    let events = RoomSettingsEvents { save_clicked: true, name_text: "x".to_string(), ..no_events() };
    assert!(modal.handle_actions(&events).is_empty());
}

#[test]
fn settings_fetched_topic() {
    let mut modal = shown();
    modal.apply_fetched_settings(Some("fresh".to_string()), true);
    assert_eq!(modal.topic_input, "fresh");
    assert_eq!(modal.original_topic, "fresh");
    modal.apply_fetched_settings(None, false);
    assert_eq!(modal.topic_input, "fresh");
}
