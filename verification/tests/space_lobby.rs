use robrix::i18n::{AppLanguage, Translations};
use robrix::rooms::RoomNameId;
use robrix::space_lobby::{entry_buttons, space_child_notice, space_child_refresh_needed, SavedLobbyStates, SpaceLobbyState};
use robrix::space_tree::{SpaceRoom, TreeEntry};

fn room(id: &str, is_space: bool) -> SpaceRoom {
    SpaceRoom {
        room_id: id.to_string(),
        display_name: format!("name of {id}"),
        canonical_alias: None,
        topic: None,
        is_space,
        children_count: if is_space { 1 } else { 0 },
        num_joined_members: 3,
        joined: false,
        suggested: false,
    }
}

fn ids(state: &SpaceLobbyState) -> Vec<String> {
    state
        .tree_entries
        .iter()
        .map(|e| match e {
            TreeEntry::Item { info, .. } => info.id.clone(),
            TreeEntry::Loading { .. } => "<loading>".to_string(),
        })
        .collect()
}

fn translations() -> Translations {
    Translations::from_json(
        r#"{
            "space_lobby.header.welcome": "Welcome",
            "space_lobby.header.public_space": "Public space",
            "space_lobby.header.private_space": "Private space",
            "space_lobby.header.member_one": "1 member",
            "space_lobby.header.member_n": "{count} members",
            "space_lobby.popup.added_to_space": "Added {child_name}",
            "space_lobby.popup.remove_from_space_failed": "Could not remove {child_name}: {error}",
            "space_lobby.remove_from_space.confirm.title_room": "Remove room?",
            "space_lobby.remove_from_space.confirm.body_room": "Remove {child_name} from {space_name}?",
            "space_lobby.remove_from_space.confirm.accept": "Remove",
            "space_lobby.item.button.cancel": "Cancel"
        }"#,
        r#"{ "space_lobby.header.welcome": "欢迎" }"#,
    )
}

fn shown(space: &str) -> (SpaceLobbyState, SavedLobbyStates) {
    let mut state = SpaceLobbyState::new();
    let mut saved = SavedLobbyStates::new();
    assert!(state.set_displayed_space(&RoomNameId::new("Home".to_string(), space.to_string()), &mut saved));
    (state, saved)
}

#[test]
fn lobby_first_children_end_loading_and_expand_the_space() {
    let (mut state, _saved) = shown("!root");
    assert!(state.is_loading);
    state.update_children_in_space(&"!root".to_string(), vec![room("!s", true), room("!r", false)]);
    assert!(!state.is_loading);
    assert!(state.expanded_spaces.contains(&"!root".to_string()));
    assert_eq!(ids(&state), vec!["!s", "!r"]);
}

#[test]
fn lobby_toggle_requests_uncached_children_and_shows_loading() {
    let (mut state, _saved) = shown("!root");
    state.update_children_in_space(&"!root".to_string(), vec![room("!s", true)]);
    assert!(state.toggle_space_expansion(&"!s".to_string()));
    assert_eq!(ids(&state), vec!["!s", "<loading>"]);
    state.update_children_in_space(&"!s".to_string(), vec![room("!x", false)]);
    assert!(!state.loading_subspaces.contains(&"!s".to_string()));
    assert_eq!(ids(&state), vec!["!s", "!x"]);
    // Collapsing and expanding again needs no fetch: the children are cached.
    assert!(!state.toggle_space_expansion(&"!s".to_string()));
    assert_eq!(ids(&state), vec!["!s"]);
    assert!(!state.toggle_space_expansion(&"!s".to_string()));
    assert_eq!(ids(&state), vec!["!s", "!x"]);
}

#[test]
fn lobby_filter_rebuilds_the_tree() {
    let (mut state, _saved) = shown("!root");
    state.update_children_in_space(&"!root".to_string(), vec![room("!apple", false), room("!pear", false)]);
    state.set_filter_keywords("PEAR".to_string());
    assert_eq!(ids(&state), vec!["!pear"]);
    assert_eq!(state.status_message_key(), None);
    state.set_filter_keywords("kiwi".to_string());
    assert!(ids(&state).is_empty());
    assert_eq!(state.status_message_key(), Some("space_lobby.status.no_matching_rooms_spaces"));
    state.set_filter_keywords(String::new());
    assert_eq!(ids(&state), vec!["!apple", "!pear"]);
}

#[test]
fn lobby_list_item_count_and_status() {
    let (mut state, _saved) = shown("!root");
    assert_eq!(state.list_item_count(), 2);
    assert_eq!(state.status_message_key(), Some("space_lobby.status.loading_rooms_spaces"));
    state.update_children_in_space(&"!root".to_string(), vec![]);
    assert_eq!(state.status_message_key(), Some("space_lobby.status.no_rooms_spaces"));
    state.update_children_in_space(&"!root".to_string(), vec![room("!a", false), room("!b", false)]);
    assert_eq!(state.list_item_count(), 3);
}

#[test]
fn lobby_remembers_expanded_spaces_per_space() {
    let (mut state, mut saved) = shown("!one");
    state.update_children_in_space(&"!one".to_string(), vec![room("!s", true)]);
    state.toggle_space_expansion(&"!s".to_string());
    assert!(state.set_displayed_space(&RoomNameId::new("Two".to_string(), "!two".to_string()), &mut saved));
    assert!(!state.expanded_spaces.contains(&"!s".to_string()));
    assert!(state.is_loading);
    assert!(state.tree_entries.is_empty());
    assert!(state.set_displayed_space(&RoomNameId::new("One".to_string(), "!one".to_string()), &mut saved));
    assert!(state.expanded_spaces.contains(&"!s".to_string()));
    assert!(state.expanded_spaces.contains(&"!one".to_string()));
    // Showing the same space again changes nothing.
    assert!(!state.set_displayed_space(&RoomNameId::new("One".to_string(), "!one".to_string()), &mut saved));
}

#[test]
fn lobby_parent_and_details_of_listed_rooms() {
    let (mut state, _saved) = shown("!root");
    state.update_children_in_space(&"!root".to_string(), vec![room("!s", true)]);
    state.toggle_space_expansion(&"!s".to_string());
    state.update_children_in_space(&"!s".to_string(), vec![room("!x", false)]);
    assert_eq!(state.parent_space_of(&"!x".to_string()), Some("!s".to_string()));
    assert_eq!(state.parent_space_of(&"!s".to_string()), Some("!root".to_string()));
    assert_eq!(state.parent_space_of(&"!nope".to_string()), None);
    let details = state.basic_room_details_for(&"!x".to_string());
    assert_eq!(details.display_name, "name of !x");
    assert_eq!(details.room_id, "!x");
    assert_eq!(state.basic_room_details_for(&"!nope".to_string()).display_name, "");
}

#[test]
fn lobby_permissions_gate_actions() {
    let (mut state, _saved) = shown("!root");
    state.update_children_in_space(&"!root".to_string(), vec![room("!a", false)]);
    assert!(!state.can_create_room_in_current_space());
    assert_eq!(state.create_room_parent(), None);
    assert!(state.add_existing_room_request().is_none());
    assert!(!state.show_remove_button(0));
    state.set_permissions(vec!["!root".to_string()], vec![]);
    assert!(state.can_create_room_in_current_space());
    assert!(!state.can_manage_current_space());
    assert!(state.settings_target().is_none());
    assert_eq!(state.create_room_parent(), Some("!root".to_string()));
    let (space, existing) = state.add_existing_room_request().unwrap();
    assert_eq!(space.room_id, "!root");
    assert_eq!(existing, vec!["!a".to_string()]);
    assert!(state.show_remove_button(0));
    assert!(!state.show_remove_button(1));
}

#[test]
fn lobby_created_room_placeholder() {
    let (mut state, _saved) = shown("!root");
    state.update_children_in_space(&"!root".to_string(), vec![room("!a", false)]);
    state.insert_created_room_placeholder(&RoomNameId::new("New".to_string(), "!new".to_string()), true);
    assert_eq!(ids(&state), vec!["!a", "!new"]);
    match &state.tree_entries[1] {
        TreeEntry::Item { info, .. } => {
            assert!(info.is_space());
            assert!(info.joined);
            assert_eq!(info.num_joined_members, 1);
            assert_eq!(info.name, "New");
        },
        other => panic!("unexpected {other:?}"),
    }
    // A room that is already listed is updated in place.
    state.insert_created_room_placeholder(&RoomNameId::new("Renamed".to_string(), "!a".to_string()), false);
    assert_eq!(ids(&state), vec!["!a", "!new"]);
    match &state.tree_entries[0] {
        TreeEntry::Item { info, .. } => {
            assert_eq!(info.name, "Renamed");
            assert!(info.joined);
            assert_eq!(info.num_joined_members, 3);
        },
        other => panic!("unexpected {other:?}"),
    }
}

#[test]
fn lobby_created_room_belongs_here() {
    let (state, _saved) = shown("!root");
    assert!(state.created_room_belongs_here(false, &Some("!root".to_string())));
    assert!(!state.created_room_belongs_here(true, &Some("!root".to_string())));
    assert!(!state.created_room_belongs_here(false, &Some("!other".to_string())));
    assert!(!state.created_room_belongs_here(false, &None));
    assert!(SpaceLobbyState::new().created_room_belongs_here(false, &None));
}

#[test]
fn lobby_updated_children_refresh_rule() {
    let (state, _saved) = shown("!root");
    assert!(state.refresh_on_updated_children(&"!root".to_string(), &vec![]));
    assert!(state.refresh_on_updated_children(&"!sub".to_string(), &vec!["!x".to_string(), "!root".to_string()]));
    assert!(!state.refresh_on_updated_children(&"!sub".to_string(), &vec!["!x".to_string()]));
}

#[test]
fn lobby_space_info_text() {
    let t = translations();
    let (mut state, _saved) = shown("!root");
    assert_eq!(state.space_info_text(&t, AppLanguage::English), "Welcome");
    assert_eq!(state.space_info_text(&t, AppLanguage::ChineseSimplified), "欢迎");
    state.update_children_in_space(&"!root".to_string(), vec![]);
    assert_eq!(state.space_info_text(&t, AppLanguage::English), "");
    assert!(state.set_top_level_details(&"!root".to_string(), 1, true));
    assert_eq!(state.space_info_text(&t, AppLanguage::English), "Public space  ·  1 member");
    assert!(!state.set_top_level_details(&"!other".to_string(), 9, true));
    assert!(state.set_top_level_details(&"!root".to_string(), 42, false));
    assert_eq!(state.space_info_text(&t, AppLanguage::English), "Private space  ·  42 members");
}

#[test]
fn lobby_remove_from_space_confirmation() {
    let t = translations();
    let (mut state, _saved) = shown("!root");
    state.update_children_in_space(&"!root".to_string(), vec![room("!a", false)]);
    let c = state.remove_from_space_confirmation(&t, AppLanguage::English, &"!a".to_string(), false).unwrap();
    assert_eq!(c.space_id, "!root");
    assert_eq!(c.child.room_id, "!a");
    assert_eq!(c.title, "Remove room?");
    assert_eq!(c.body, "Remove name of !a from Home?");
    assert_eq!(c.accept, "Remove");
    assert_eq!(c.cancel, "Cancel");
    assert!(state.remove_from_space_confirmation(&t, AppLanguage::English, &"!zz".to_string(), false).is_none());
}

#[test]
fn space_child_notices_and_refresh() {
    let t = translations();
    assert_eq!(space_child_notice(&t, AppLanguage::English, true, "Chess", None), ("Added Chess".to_string(), false));
    assert_eq!(
        space_child_notice(&t, AppLanguage::English, false, "Chess", Some("denied")),
        ("Could not remove Chess: denied".to_string(), true)
    );
    assert!(space_child_refresh_needed(true, true));
    assert!(space_child_refresh_needed(false, false));
    assert!(!space_child_refresh_needed(false, true));
}

#[test]
fn entry_buttons_follow_membership() {
    assert_eq!(entry_buttons(false, false), (true, false, false));
    assert_eq!(entry_buttons(true, false), (false, true, true));
    assert_eq!(entry_buttons(true, true), (false, true, false));
}
