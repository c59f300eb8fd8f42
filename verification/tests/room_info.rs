use robrix::room_info::{
    is_room_info_action_modal_open, room_info_dm_target_from_user_ids, room_info_title_shows_agent_badge,
    set_room_info_action_modal_open, ActionModalFlag, InfoButton, InfoButtonAction, RoomInfoPaneAction,
    RoomInfoPaneInfo, RoomInfoPeopleEntry, RoomInfoPeopleEntryInfo, RoomInfoSlidingPane,
    room_info_bot_identity_fingerprint, BotIdentitySettings,
};
use robrix::rooms_list::{
    invited_room_preview, invited_room_unread_counts, joined_room_marks, room_shows_agent_badge,
    should_show_encryption_icon, AgentBadgeContext, InviterInfo,
};
use robrix::i18n::{AppLanguage, Translations};

fn person(id: &str) -> RoomInfoPeopleEntryInfo {
    RoomInfoPeopleEntryInfo {
        user_id: id.to_string(),
        display_name: id.to_string(),
        level: String::new(),
        is_bot: false,
        avatar_uri: None,
        avatar_fallback_text: "?".to_string(),
    }
}

fn info(room_id: &str, people: usize, is_favorite: bool) -> RoomInfoPaneInfo {
    RoomInfoPaneInfo {
        room_name: "Room".to_string(),
        room_id: room_id.to_string(),
        topic: "A fairly long topic".to_string(),
        visibility: "Public".to_string(),
        encryption: "Encrypted".to_string(),
        is_encrypted: true,
        is_favorite,
        is_agent_enabled: false,
        show_title_bot_pill: false,
        member_count: people,
        my_role: String::new(),
        room_avatar_uri: None,
        room_avatar_fallback_text: "R".to_string(),
        people_entries: (0..people).map(|i| person(&format!("@u{i}:example.org"))).collect(),
        people_count_text: format!("{people}"),
        show_people_loading: false,
    }
}

fn context() -> AgentBadgeContext {
    AgentBadgeContext::new()
}

#[test]
fn test_room_info_dm_target_requires_single_non_self_member() {
    let me = "@me:example.org".to_string();
    let agent_id = "@agent:example.org".to_string();
    let human_id = "@human:example.org".to_string();

    assert_eq!(
        room_info_dm_target_from_user_ids(&[me.clone(), agent_id.clone()], Some(&me)),
        Some(agent_id.clone()),
    );
    assert_eq!(
        room_info_dm_target_from_user_ids(&[me.clone(), agent_id.clone(), human_id.clone()], Some(&me)),
        None,
    );
}

#[test]
fn dm_target_edge_cases() {
    let me = "@me:example.org".to_string();
    let a = "@a:example.org".to_string();
    assert_eq!(room_info_dm_target_from_user_ids(&[me.clone()], Some(&me)), None);
    assert_eq!(room_info_dm_target_from_user_ids(&[], None), None);
    assert_eq!(room_info_dm_target_from_user_ids(&[me.clone()], None), Some(me.clone()));
    assert_eq!(room_info_dm_target_from_user_ids(&[a.clone(), a.clone()], Some(&me)), None);
}

#[test]
fn test_room_list_icon_visible_when_encrypted() {
    assert!(should_show_encryption_icon(Some(true), false));
}

#[test]
fn test_room_list_icon_hidden_when_unencrypted() {
    assert!(!should_show_encryption_icon(Some(false), false));
}

#[test]
fn test_room_list_icon_hidden_when_unknown() {
    assert!(!should_show_encryption_icon(None, false));
}

#[test]
fn test_room_list_icon_yields_to_tombstone() {
    assert!(!should_show_encryption_icon(Some(true), true));
}

#[test]
fn test_agent_badge_shown_when_room_bound() {
    let room_id = "!room:example.org".to_string();
    let mut ctx = context();
    ctx.bind_room(room_id.clone(), "@bot:example.org".to_string());
    assert!(room_shows_agent_badge(&ctx, &room_id, None));
}

#[test]
fn test_agent_badge_shown_when_dm_target_is_registered_agent() {
    let room_id = "!dm:example.org".to_string();
    let agent = "@agent:example.org".to_string();
    let mut ctx = context();
    ctx.register_agent(agent.clone());
    assert!(room_shows_agent_badge(&ctx, &room_id, Some(&agent)));
}

#[test]
fn test_agent_badge_hidden_for_human_dm() {
    let room_id = "!dm:example.org".to_string();
    let human = "@human:example.org".to_string();
    assert!(!room_shows_agent_badge(&context(), &room_id, Some(&human)));
}

#[test]
fn test_agent_badge_hidden_for_unbound_group_room() {
    assert!(!room_shows_agent_badge(&context(), &"!group:example.org".to_string(), None));
}

#[test]
fn test_agent_badge_hidden_when_dm_target_none() {
    assert!(!room_shows_agent_badge(&context(), &"!dm:example.org".to_string(), None));
}

#[test]
fn test_agent_badge_idempotent_when_bound_and_agent_dm() {
    let room_id = "!dm:example.org".to_string();
    let agent = "@agent:example.org".to_string();
    let mut ctx = context();
    ctx.register_agent(agent.clone());
    ctx.bind_room(room_id.clone(), agent.clone());
    assert!(room_shows_agent_badge(&ctx, &room_id, Some(&agent)));
}

#[test]
fn test_agent_badge_hidden_after_room_unbound() {
    let room_id = "!room:example.org".to_string();
    let bot = "@bot:example.org".to_string();
    let mut ctx = context();
    ctx.bind_room(room_id.clone(), bot.clone());
    assert!(room_shows_agent_badge(&ctx, &room_id, None));
    ctx.unbind_room(&room_id);
    assert!(!room_shows_agent_badge(&ctx, &room_id, None));
}

#[test]
fn test_agent_badge_hidden_after_agent_registry_unbind() {
    let room_id = "!dm:example.org".to_string();
    let agent = "@agent:example.org".to_string();
    let mut ctx = context();
    ctx.register_agent(agent.clone());
    assert!(room_shows_agent_badge(&ctx, &room_id, Some(&agent)));
    ctx.unregister_agent(&agent);
    assert!(!room_shows_agent_badge(&ctx, &room_id, Some(&agent)));
}

#[test]
fn test_room_info_title_bot_pill_shown_when_member_is_registered_agent() {
    let room_id = "!group:example.org".to_string();
    let agent_id = "@octos_mac:example.org".to_string();
    let mut ctx = context();
    ctx.register_agent(agent_id.clone());
    assert!(room_info_title_shows_agent_badge(Some(&ctx), &room_id, None, &[agent_id.clone()]));
    ctx.unregister_agent(&agent_id);
    assert!(!room_info_title_shows_agent_badge(Some(&ctx), &room_id, None, &[agent_id.clone()]));
}

#[test]
fn title_bot_pill_needs_app_state() {
    assert!(!room_info_title_shows_agent_badge(None, &"!r".to_string(), None, &[]));
}

#[test]
fn action_modal_flag() {
    let mut flag = ActionModalFlag { open: false };
    set_room_info_action_modal_open(&mut flag, true);
    assert!(is_room_info_action_modal_open(&flag));
    set_room_info_action_modal_open(&mut flag, false);
    assert!(!is_room_info_action_modal_open(&flag));
}

#[test]
fn info_button_and_people_rows() {
    assert!(matches!(InfoButton {}.on_click(), InfoButtonAction::OpenRequested));
    let mut row = RoomInfoPeopleEntry::new();
    assert!(matches!(row.on_tap(), RoomInfoPaneAction::NoAction));
    let mut p = person("@bot:example.org");
    p.is_bot = true;
    p.level = "Admin".to_string();
    row.set_entry(&p);
    assert!(row.show_bot_badge);
    assert!(row.show_level_chip);
    match row.on_tap() {
        RoomInfoPaneAction::PersonClicked(u) => assert_eq!(u, "@bot:example.org"),
        other => panic!("unexpected {other:?}"),
    }
}

#[test]
fn room_info_pane_favorite_stays_until_room_agrees() {
    let mut pane = RoomInfoSlidingPane::new();
    assert!(pane.toggle_favorite().is_none());
    pane.set_info(info("!r", 0, false));
    assert_eq!(pane.toggle_favorite(), Some(("!r".to_string(), true)));
    // A rebuild that still reads the old value keeps the optimistic one.
    pane.set_info(info("!r", 0, false));
    assert!(pane.info.as_ref().unwrap().is_favorite);
    assert!(pane.pending_favorite.is_some());
    // Once the room agrees, the override is dropped.
    pane.set_info(info("!r", 0, true));
    assert!(pane.pending_favorite.is_none());
    // Another room drops a pending value.
    pane.toggle_favorite();
    pane.set_info(info("!s", 0, true));
    assert!(pane.pending_favorite.is_none());
    assert!(pane.info.as_ref().unwrap().is_favorite);
}

#[test]
fn room_info_pane_people_paging() {
    let mut pane = RoomInfoSlidingPane::new();
    pane.show();
    pane.set_info(info("!r", 95, false));
    assert!(matches!(pane.open_people_page(), RoomInfoPaneAction::ShowPeoplePage));
    assert_eq!(pane.people_display_count, 40);
    assert!(!pane.on_people_scrolled(10));
    assert!(pane.on_people_scrolled(35));
    assert_eq!(pane.people_display_count, 80);
    assert!(pane.on_people_scrolled(76));
    assert_eq!(pane.people_display_count, 95);
    assert!(!pane.on_people_scrolled(94));
    match pane.on_person_clicked(&"@u1:example.org".to_string()) {
        RoomInfoPaneAction::OpenPeopleProfile(u) => assert_eq!(u, "@u1:example.org"),
        other => panic!("unexpected {other:?}"),
    }
    // A different room brings back the info page.
    pane.set_info(info("!s", 3, false));
    assert!(!pane.show_people_page);
    assert_eq!(pane.people_display_count, 0);
    assert!(matches!(pane.on_person_clicked(&"@x".to_string()), RoomInfoPaneAction::NoAction));
}

#[test]
fn room_info_pane_set_info_on_people_page_keeps_a_first_page() {
    let mut pane = RoomInfoSlidingPane::new();
    pane.set_info(info("!r", 5, false));
    pane.open_people_page();
    assert_eq!(pane.people_display_count, 5);
    pane.set_info(info("!r", 60, false));
    assert_eq!(pane.people_display_count, 40);
    pane.set_info(info("!r", 2, false));
    assert_eq!(pane.people_display_count, 2);
}

#[test]
fn room_info_pane_close_rules() {
    let mut pane = RoomInfoSlidingPane::new();
    assert!(pane.close_requested(false, false, false, true, false));
    assert!(!pane.close_requested(true, false, true, true, true));
    assert!(pane.close_requested(true, true, false, false, false));
    pane.set_inline(true);
    assert!(!pane.close_requested(false, true, true, true, true));
}

#[test]
fn room_info_pane_draw_plan() {
    let mut pane = RoomInfoSlidingPane::new();
    assert!(pane.draw_plan(10).is_none());
    pane.set_info(info("!r", 5, false));
    let plan = pane.draw_plan(6).unwrap();
    assert_eq!(plan.header_title, "Info");
    assert!(!plan.back_button_visible);
    assert_eq!(plan.topic_text, "A fair...");
    assert!(plan.topic_toggle_visible);
    assert_eq!(plan.topic_toggle_text, "Expand");
    assert_eq!(plan.members_meta_text, "5 members");
    assert_eq!(plan.members_count_text, "5");
    assert_eq!(plan.stack_shown, 3);
    assert_eq!(plan.stack_more, 2);
    assert_eq!(plan.stack_more_text, "+2");
    assert!(!plan.my_role_visible);
    assert_eq!(plan.visible_people_count, 0);
    pane.toggle_topic();
    pane.open_people_page();
    let plan = pane.draw_plan(6).unwrap();
    assert_eq!(plan.topic_text, "A fairly long topic");
    assert_eq!(plan.topic_toggle_text, "Collapse");
    assert_eq!(plan.header_title, "");
    assert_eq!(plan.visible_people_count, 5);
    assert!(plan.members_list_visible);
    pane.set_info(info("!r", 0, false));
    let plan = pane.draw_plan(100).unwrap();
    assert!(plan.people_empty_visible);
    assert!(!plan.topic_toggle_visible);
    assert_eq!(plan.stack_more_text, "+0");
}

#[test]
fn room_info_pane_show_resets_pages() {
    let mut pane = RoomInfoSlidingPane::new();
    pane.set_info(info("!r", 50, false));
    pane.open_people_page();
    pane.toggle_topic();
    pane.show();
    assert!(pane.is_currently_shown());
    assert!(!pane.show_people_page);
    assert!(!pane.topic_expanded);
    assert_eq!(pane.people_display_count, 0);
    pane.hide_pane();
    assert!(pane.visibility.is_animating_out);
    pane.close_people_page();
    assert!(!pane.show_people_page);
}

#[test]
fn invited_room_preview_escapes_names() {
    let t = Translations::from_json(
        r#"{
            "rooms_list_entry.invited.by_name_and_user": "Invited by <b>{display_name}</b> ({user_id})",
            "rooms_list_entry.invited.by_user": "Invited by {user_id}",
            "rooms_list_entry.invited.generic": "You were invited"
        }"#,
        "{}",
    );
    let inviter = InviterInfo { user_id: "@a&b:example.org".to_string(), display_name: Some("<Ann>".to_string()) };
    assert_eq!(
        invited_room_preview(&t, AppLanguage::English, Some(&inviter)),
        "Invited by <b>&lt;Ann&gt;</b> (@a&amp;b:example.org)"
    );
    let inviter = InviterInfo { user_id: "@c:example.org".to_string(), display_name: None };
    assert_eq!(invited_room_preview(&t, AppLanguage::English, Some(&inviter)), "Invited by @c:example.org");
    assert_eq!(invited_room_preview(&t, AppLanguage::English, None), "You were invited");
}

#[test]
fn rooms_list_row_marks() {
    assert_eq!(joined_room_marks(Some(true), false, true), (true, true, false));
    assert_eq!(joined_room_marks(Some(true), true, false), (false, false, true));
    assert_eq!(invited_room_unread_counts(), (false, 1, 0));
}

#[test]
fn test_agent_badge_hidden_after_agentlab_unbind_clears_binding() {
    let room_id = "!room:example.org".to_string();
    let agent = "@octos_mac:example.org".to_string();
    let mut ctx = context();
    ctx.register_agent(agent.clone());
    ctx.bind_room(room_id.clone(), agent.clone());
    assert!(room_shows_agent_badge(&ctx, &room_id, None));
    ctx.unregister_agent_and_clear_bindings(&agent);
    assert!(!room_shows_agent_badge(&ctx, &room_id, None));
}

#[test]
fn test_room_info_title_bot_pill_hidden_after_room_unbound() {
    let room_id = "!room:example.org".to_string();
    let bot_id = "@bot:example.org".to_string();
    let mut ctx = context();
    ctx.bind_room(room_id.clone(), bot_id.clone());
    assert!(room_info_title_shows_agent_badge(Some(&ctx), &room_id, None, &[]));
    ctx.unbind_room(&room_id);
    assert!(!room_info_title_shows_agent_badge(Some(&ctx), &room_id, None, &[]));
}

#[test]
fn test_room_info_title_bot_pill_hidden_after_agent_registry_unbind() {
    let room_id = "!dm:example.org".to_string();
    let agent_id = "@agent:example.org".to_string();
    let mut ctx = context();
    ctx.register_agent(agent_id.clone());
    assert!(room_info_title_shows_agent_badge(Some(&ctx), &room_id, Some(&agent_id), &[]));
    ctx.unregister_agent(&agent_id);
    assert!(!room_info_title_shows_agent_badge(Some(&ctx), &room_id, Some(&agent_id), &[]));
}

#[test]
fn test_room_info_title_bot_pill_hidden_after_agentlab_unbind_clears_binding() {
    let room_id = "!room:example.org".to_string();
    let agent_id = "@octos_mac:example.org".to_string();
    let mut ctx = context();
    ctx.register_agent(agent_id.clone());
    ctx.bind_room(room_id.clone(), agent_id.clone());
    assert!(room_info_title_shows_agent_badge(Some(&ctx), &room_id, None, &[]));
    ctx.unregister_agent_and_clear_bindings(&agent_id);
    assert!(!room_info_title_shows_agent_badge(Some(&ctx), &room_id, None, &[]));
}

#[test]
fn test_room_info_title_bot_pill_ignores_known_bot_without_binding_or_agent_dm() {
    let room_id = "!group:example.org".to_string();
    let bot_id = "@bot:example.org".to_string();
    // A known bot that is neither bound, a DM target, nor a registered agent.
    let ctx = context();
    assert!(!room_info_title_shows_agent_badge(Some(&ctx), &room_id, None, &[bot_id]));
}

#[test]
fn badge_context_binding_replaces_and_unregistering_keeps_other_bindings() {
    let mut ctx = context();
    ctx.bind_room("!a".to_string(), "@x".to_string());
    ctx.bind_room("!a".to_string(), "@y".to_string());
    ctx.bind_room("!b".to_string(), "@x".to_string());
    ctx.unregister_agent_and_clear_bindings(&"@x".to_string());
    assert!(ctx.is_room_bound(&"!a".to_string()));
    assert!(!ctx.is_room_bound(&"!b".to_string()));
}

fn bot_settings(enabled: bool, resolved: Option<&str>, known: &[&str]) -> BotIdentitySettings {
    BotIdentitySettings {
        enabled,
        resolved_bot_user_id: resolved.map(|s| s.to_string()),
        known_bot_user_ids: known.iter().map(|s| s.to_string()).collect(),
    }
}

#[test]
fn test_room_info_bot_identity_fingerprint_tracks_registry_agents() {
    let agent_id = "@agent:example.org";
    let before = room_info_bot_identity_fingerprint(Some(&bot_settings(false, None, &[])));
    // Registering the agent makes it a known bot.
    let after = room_info_bot_identity_fingerprint(Some(&bot_settings(false, None, &[agent_id])));
    assert_ne!(before, after);
    assert!(after.known_bot_user_ids.iter().any(|id| id == agent_id));
}

#[test]
fn test_room_info_bot_identity_fingerprint_tracks_appservice_known_bots() {
    let bot_id = "@bot_alice:example.org";
    let before = room_info_bot_identity_fingerprint(Some(&bot_settings(true, Some(bot_id), &[])));
    let after = room_info_bot_identity_fingerprint(Some(&bot_settings(true, Some(bot_id), &[bot_id])));
    assert_ne!(before, after);
    assert_eq!(after.resolved_parent_bot_user_id.as_deref(), Some(bot_id));
    assert!(after.known_bot_user_ids.iter().any(|id| id == bot_id));
}

#[test]
fn test_room_info_bot_marker_hidden_after_agentlab_unbind() {
    let agent_id = "@octos_mac:example.org";
    let before = room_info_bot_identity_fingerprint(Some(&bot_settings(true, Some(agent_id), &[agent_id])));
    assert!(before.resolved_parent_bot_user_id.as_deref() == Some(agent_id)
        || before.known_bot_user_ids.iter().any(|id| id == agent_id));
    // Unregistering the agent clears the bot identity of the settings.
    let after = room_info_bot_identity_fingerprint(Some(&bot_settings(true, None, &[])));
    assert!(after.resolved_parent_bot_user_id.is_none());
    assert!(after.known_bot_user_ids.is_empty());
}

#[test]
fn room_info_bot_identity_without_app_state_or_disabled() {
    let none = room_info_bot_identity_fingerprint(None);
    assert!(none.resolved_parent_bot_user_id.is_none() && none.known_bot_user_ids.is_empty());
    let disabled = room_info_bot_identity_fingerprint(Some(&bot_settings(false, Some("@b:x"), &["@k:x"])));
    assert!(disabled.resolved_parent_bot_user_id.is_none());
    assert_eq!(disabled.known_bot_user_ids, vec!["@k:x".to_string()]);
}
