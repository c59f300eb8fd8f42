use robrix::i18n::{AppLanguage, Translations};
use robrix::rooms::RoomNameId;
use robrix::rooms_sidebar::{HomePage, RoomsSideBarState};
use robrix::welcome_screen::{same_recent_rooms, RecentRoomAvatar, RecentRoomInfo, WelcomeState};

fn recent(id: &str, unread: u64) -> RecentRoomInfo {
    RecentRoomInfo {
        room_name_id: RoomNameId::new(format!("Room {id}"), id.to_string()),
        latest: Some((1_700_000_000_000, "<b>hi</b>".to_string())),
        is_marked_unread: false,
        num_unread_mentions: 0,
        num_unread_messages: unread,
        room_avatar: RecentRoomAvatar::Text("R".to_string()),
    }
}

fn translations() -> Translations {
    Translations::from_json(
        r#"{
            "home.greeting": "Hello, {name}!",
            "welcome_screen.title": "Welcome to Robrix"
        }"#,
        r#"{
            "home.greeting": "你好，{name}！"
        }"#,
    )
}

#[test]
fn welcome_greeting_generic_then_personalized() {
    let t = translations();
    let mut state = WelcomeState::new();
    assert_eq!(state.greeting_text(&t), "Welcome to Robrix");
    assert!(state.set_greeting_name(Some("Alice".to_string())));
    assert_eq!(state.greeting_text(&t), "Hello, Alice!");
    // A known name is not replaced by a later profile.
    assert!(!state.set_greeting_name(Some("Bob".to_string())));
    assert_eq!(state.greeting_text(&t), "Hello, Alice!");
    state.set_app_language(AppLanguage::ChineseSimplified);
    assert_eq!(state.greeting_text(&t), "你好，Alice！");
    // The title falls back to English.
    state.clear();
    assert_eq!(state.greeting_text(&t), "Welcome to Robrix");
}

#[test]
fn welcome_unknown_profile_keeps_generic_greeting() {
    let mut state = WelcomeState::new();
    assert!(!state.set_greeting_name(None));
    assert_eq!(state.greeting_name, None);
}

#[test]
fn welcome_language_update_needed() {
    let mut state = WelcomeState::new();
    assert!(state.language_needs_update(AppLanguage::English));
    state.set_app_language(AppLanguage::English);
    assert!(!state.language_needs_update(AppLanguage::English));
    assert!(state.language_needs_update(AppLanguage::ChineseSimplified));
}

#[test]
fn welcome_status_line_loading_then_empty() {
    let mut state = WelcomeState::new();
    assert!(state.should_refresh(false));
    assert_eq!(state.recent_status_key(), Some("home.recent.loading"));
    assert!(state.refresh_recent_rooms(Vec::new(), false));
    assert!(!state.should_refresh(false));
    assert!(state.should_refresh(true));
    assert_eq!(state.recent_status_key(), Some("home.recent.loading"));
    assert!(state.refresh_recent_rooms(Vec::new(), true));
    assert_eq!(state.recent_status_key(), Some("home.recent.empty"));
    assert!(state.refresh_recent_rooms(vec![recent("!a:x", 1)], true));
    assert_eq!(state.recent_status_key(), None);
}

#[test]
fn welcome_refresh_only_on_change() {
    let mut state = WelcomeState::new();
    let snapshot = vec![recent("!a:x", 1), recent("!b:x", 0)];
    assert!(state.refresh_recent_rooms(snapshot.clone(), true));
    // The same snapshot again asks for no new rows.
    assert!(!state.refresh_recent_rooms(snapshot.clone(), true));
    // A new unread count does.
    assert!(state.refresh_recent_rooms(vec![recent("!a:x", 2), recent("!b:x", 0)], true));
    // So does another order.
    assert!(state.refresh_recent_rooms(vec![recent("!b:x", 0), recent("!a:x", 2)], true));
    assert_eq!(state.recent_rooms[0].room_name_id.room_id, "!b:x");
}

#[test]
fn welcome_same_recent_rooms_compares_every_field() {
    let a = vec![recent("!a:x", 1)];
    let mut b = vec![recent("!a:x", 1)];
    assert!(same_recent_rooms(&a, &b));
    b[0].room_avatar = RecentRoomAvatar::Image(vec![1, 2, 3]);
    assert!(!same_recent_rooms(&a, &b));
    let mut c = vec![recent("!a:x", 1)];
    c[0].latest = None;
    assert!(!same_recent_rooms(&a, &c));
    let mut d = vec![recent("!a:x", 1)];
    d[0].room_name_id.display_name = "Renamed".to_string();
    assert!(!same_recent_rooms(&a, &d));
    assert!(!same_recent_rooms(&a, &Vec::new()));
    let e = vec![RecentRoomInfo { room_avatar: RecentRoomAvatar::Image(vec![1, 2, 3]), ..recent("!a:x", 1) }];
    let f = vec![RecentRoomInfo { room_avatar: RecentRoomAvatar::Image(vec![1, 2, 4]), ..recent("!a:x", 1) }];
    assert!(!same_recent_rooms(&e, &f));
    assert!(same_recent_rooms(&e, &e.clone()));
}

#[test]
fn welcome_rows_dividers_and_taps() {
    let mut state = WelcomeState::new();
    state.refresh_recent_rooms(vec![recent("!a:x", 0), recent("!b:x", 0), recent("!c:x", 0)], true);
    assert!(state.row_shown(0));
    assert!(state.row_shown(2));
    assert!(!state.row_shown(3));
    assert!(state.divider_shown(0));
    assert!(state.divider_shown(1));
    assert!(!state.divider_shown(2));
    assert_eq!(state.tapped_room(1).map(|r| r.room_id), Some("!b:x".to_string()));
    assert!(state.tapped_room(3).is_none());
}

#[test]
fn welcome_rows_capped_at_five() {
    let mut state = WelcomeState::new();
    let rooms: Vec<RecentRoomInfo> = (0..7).map(|i| recent(&format!("!{i}:x"), 0)).collect();
    state.refresh_recent_rooms(rooms, true);
    assert!(state.row_shown(4));
    assert!(!state.row_shown(5));
    assert!(state.divider_shown(3));
    assert!(!state.divider_shown(4));
    assert!(state.tapped_room(5).is_none());
}

#[test]
fn welcome_clear_on_logout() {
    let mut state = WelcomeState::new();
    state.set_app_language(AppLanguage::ChineseSimplified);
    state.set_greeting_name(Some("Alice".to_string()));
    state.refresh_recent_rooms(vec![recent("!a:x", 0)], true);
    state.clear();
    assert_eq!(state.greeting_name, None);
    assert!(state.recent_rooms.is_empty());
    assert!(!state.all_rooms_loaded);
    assert!(!state.populated_once);
    assert_eq!(state.app_language, AppLanguage::ChineseSimplified);
    assert_eq!(state.recent_status_key(), Some("home.recent.loading"));
}

#[test]
fn sidebar_tabs_initialized_once_per_build() {
    let mut sidebar = RoomsSideBarState::new();
    assert!(!sidebar.initialize_tabs(false));
    assert!(sidebar.initialize_tabs(true));
    sidebar.select_tab(Some(1));
    assert_eq!(sidebar.active_page, HomePage::Workspace);
    assert!(!sidebar.initialize_tabs(true));
    assert_eq!(sidebar.active_page, HomePage::Workspace);
    sidebar.apply_view_mode();
    assert!(sidebar.initialize_tabs(true));
    assert_eq!(sidebar.active_page, HomePage::Rooms);
}

#[test]
fn sidebar_tab_selection_and_space_navigation() {
    let mut sidebar = RoomsSideBarState::new();
    sidebar.select_tab(Some(1));
    assert_eq!(sidebar.active_page, HomePage::Workspace);
    sidebar.select_tab(None);
    assert_eq!(sidebar.active_page, HomePage::Workspace);
    sidebar.select_tab(Some(7));
    assert_eq!(sidebar.active_page, HomePage::Workspace);
    sidebar.show_rooms_tab();
    assert_eq!(sidebar.active_page, HomePage::Rooms);
    sidebar.select_tab(Some(0));
    assert_eq!(sidebar.active_page, HomePage::Rooms);
}
