use robrix::small_state::{group_header_visibility, live_location_text, poll_text, small_state_redraw_skips};
use robrix::timeline_view::ItemDrawnStatus;
use robrix::i18n::AppLanguage;
use robrix::rooms::TimelineKind;
use robrix::small_state::{
    build_small_state_event_group_index, compute_small_state_event_groups,
    format_people_phrase, format_small_state_group_summary_text, format_top_user_counter_phrase,
    index_small_state_event_groups, prune_expanded_small_state_group_ids, push_unique_name,
    summarize_sender_name, EventContent, EventItem, MembershipChange, MsgLikeKind,
    SmallStateEventGroup, TimelineItem,
};

#[test]
fn small_state_group_index_stores_group_starts_and_collapsed_ranges() {
    let collapsed_event_id = String::from("$collapsed:example.org");
    let expanded_event_id = String::from("$expanded:example.org");
    let index = index_small_state_event_groups(vec![
        SmallStateEventGroup {
            start: 2,
            end: 6,
            count: 4,
            first_event_id: collapsed_event_id.clone(),
            collapsed: true,
        },
        SmallStateEventGroup {
            start: 10,
            end: 12,
            count: 2,
            first_event_id: expanded_event_id.clone(),
            collapsed: false,
        },
    ]);

    assert_eq!(index.by_start.len(), 2);
    assert_eq!(
        index.by_start.get(&2).map(|group| (&group.first_event_id, group.count)),
        Some((&collapsed_event_id, 4)),
    );
    assert_eq!(
        index.by_start.get(&10).map(|group| (&group.first_event_id, group.count)),
        Some((&expanded_event_id, 2)),
    );
    assert!(!index.collapsed_hidden_indices.contains(&2));
    assert!(index.collapsed_hidden_indices.contains(&3));
    assert!(index.collapsed_hidden_indices.contains(&5));
    assert!(!index.collapsed_hidden_indices.contains(&6));
    assert!(!index.collapsed_hidden_indices.contains(&11));
}

fn event(id: &str, sender: &str, name: Option<&str>, content: EventContent) -> TimelineItem {
    TimelineItem::Event(EventItem {
        event_id: Some(id.to_string()),
        sender: sender.to_string(),
        sender_display_name: name.map(|n| n.to_string()),
        content,
    })
}

fn joined(id: &str, sender: &str) -> TimelineItem {
    event(id, sender, None, EventContent::MembershipChange { change: Some(MembershipChange::Joined) })
}

fn message(id: &str) -> TimelineItem {
    event(id, "@bob:example.org", None, EventContent::MsgLike { kind: MsgLikeKind::Message, in_thread: false })
}

fn main_kind() -> TimelineKind {
    TimelineKind::MainRoom { room_id: "!room:example.org".to_string() }
}

#[test]
fn groups_need_two_consecutive_small_events() {
    let items = vec![
        joined("$a", "@alice:example.org"),
        message("$m1"),
        joined("$b", "@bob:example.org"),
        joined("$c", "@carol:example.org"),
        joined("$d", "@dave:example.org"),
        TimelineItem::Virtual,
        joined("$e", "@erin:example.org"),
        joined("$f", "@frank:example.org"),
    ];
    let expanded = vec!["$e".to_string()];
    let groups = compute_small_state_event_groups(&items, &main_kind(), &expanded);
    assert_eq!(groups.len(), 2);
    assert_eq!((groups[0].start, groups[0].end, groups[0].count), (2, 5, 3));
    assert_eq!(groups[0].first_event_id, "$b");
    assert!(groups[0].collapsed);
    assert_eq!((groups[1].start, groups[1].end, groups[1].count), (6, 8, 2));
    assert!(!groups[1].collapsed);
}

#[test]
fn thread_replies_break_groups_only_in_the_main_timeline() {
    let reply = event("$r", "@x:example.org", None, EventContent::MsgLike { kind: MsgLikeKind::Poll, in_thread: true });
    let items = vec![joined("$a", "@a:example.org"), reply, joined("$b", "@b:example.org")];
    assert!(compute_small_state_event_groups(&items, &main_kind(), &[]).is_empty());
    let thread = TimelineKind::Thread {
        room_id: "!room:example.org".to_string(),
        thread_root_event_id: "$root".to_string(),
    };
    let groups = compute_small_state_event_groups(&items, &thread, &[]);
    assert_eq!(groups.len(), 1);
    assert_eq!((groups[0].start, groups[0].end), (0, 3));
}

#[test]
fn prune_forgets_expanded_ids_of_vanished_groups() {
    let items = vec![joined("$a", "@a:example.org"), joined("$b", "@b:example.org")];
    let mut expanded = vec!["$gone".to_string(), "$a".to_string(), "$b".to_string()];
    prune_expanded_small_state_group_ids(&items, &main_kind(), &mut expanded);
    assert_eq!(expanded, vec!["$a".to_string()]);
}

#[test]
fn sender_name_prefers_display_name_then_localpart() {
    let with_name = EventItem {
        event_id: None,
        sender: "@alice:example.org".to_string(),
        sender_display_name: Some("Alice".to_string()),
        content: EventContent::OtherState,
    };
    assert_eq!(summarize_sender_name(&with_name), "Alice");
    let empty_name = EventItem { sender_display_name: Some(String::new()), ..with_name.clone() };
    assert_eq!(summarize_sender_name(&empty_name), "alice");
    let no_at = EventItem { sender: "bob".to_string(), sender_display_name: None, ..with_name };
    assert_eq!(summarize_sender_name(&no_at), "bob");
}

#[test]
fn push_unique_name_skips_duplicates() {
    let mut names = vec!["a".to_string()];
    push_unique_name(&mut names, "b".to_string());
    push_unique_name(&mut names, "a".to_string());
    assert_eq!(names, vec!["a".to_string(), "b".to_string()]);
}

#[test]
fn people_phrases_in_both_languages() {
    let one = vec!["Ann".to_string()];
    let two = vec!["Ann".to_string(), "Bo".to_string()];
    let four = vec!["Ann".to_string(), "Bo".to_string(), "Cy".to_string(), "Di".to_string()];
    let en = |names: &[String]| format_people_phrase(AppLanguage::English, names, " joined", " joined", " 加入了房间", " 加入了房间");
    let zh = |names: &[String]| format_people_phrase(AppLanguage::ChineseSimplified, names, " joined", " joined", " 加入了房间", " 加入了房间");
    assert_eq!(en(&[]), None);
    assert_eq!(en(&one).unwrap(), "Ann joined");
    assert_eq!(en(&two).unwrap(), "Ann and one other joined");
    assert_eq!(en(&four).unwrap(), "Ann and 3 others joined");
    assert_eq!(zh(&two).unwrap(), "Ann、Bo 加入了房间");
    assert_eq!(zh(&four).unwrap(), "Ann 等 4 人 加入了房间");
}

#[test]
fn top_user_phrase_picks_most_changes_then_first_name() {
    let counts = vec![("Zed".to_string(), 2), ("Amy".to_string(), 2), ("Bob".to_string(), 1)];
    let phrase = format_top_user_counter_phrase(
        AppLanguage::English,
        &counts,
        " changed their profile picture",
        " changed their profile picture {count} times",
        " 更换了头像",
        " 更换了头像 {count} 次",
    );
    assert_eq!(phrase.unwrap(), "Amy changed their profile picture 2 times");
    let single = vec![("Bob".to_string(), 1)];
    let phrase = format_top_user_counter_phrase(
        AppLanguage::ChineseSimplified,
        &single,
        " changed their profile picture",
        " changed their profile picture {count} times",
        " 更换了头像",
        " 更换了头像 {count} 次",
    );
    assert_eq!(phrase.unwrap(), "Bob 更换了头像");
    assert_eq!(format_top_user_counter_phrase(AppLanguage::English, &[], "", "", "", ""), None);
}

#[test]
fn summary_text_lists_changes() {
    let items = vec![
        joined("$a", "@alice:example.org"),
        joined("$b", "@alice:example.org"),
        event("$c", "@bob:example.org", Some("Bob"), EventContent::MembershipChange { change: Some(MembershipChange::Left) }),
        event("$d", "@bob:example.org", Some("Bob"), EventContent::ProfileChange { avatar_url_changed: true, display_name_changed: false }),
        event("$e", "@bob:example.org", Some("Bob"), EventContent::ProfileChange { avatar_url_changed: true, display_name_changed: false }),
        event("$f", "@carol:example.org", None, EventContent::OtherState),
        event("$g", "@carol:example.org", None, EventContent::MembershipChange { change: Some(MembershipChange::Banned) }),
    ];
    let group = SmallStateEventGroup { start: 0, end: 7, count: 7, first_event_id: "$a".to_string(), collapsed: true };
    assert_eq!(
        format_small_state_group_summary_text(AppLanguage::English, &items, &group),
        "alice joined, Bob left, Bob changed their profile picture 2 times, 2 other state changes",
    );
    assert_eq!(
        format_small_state_group_summary_text(AppLanguage::ChineseSimplified, &items, &group),
        "alice 加入了房间, Bob 离开了房间, Bob 更换了头像 2 次, 另有 2 条其他状态变更",
    );
    let quiet = vec![
        event("$x", "@a:example.org", None, EventContent::MembershipChange { change: Some(MembershipChange::NotImplemented) }),
        event("$y", "@a:example.org", None, EventContent::MembershipChange { change: None }),
    ];
    let group = SmallStateEventGroup { start: 0, end: 2, count: 2, first_event_id: "$x".to_string(), collapsed: true };
    assert_eq!(format_small_state_group_summary_text(AppLanguage::English, &quiet, &group), "2 state events");
    assert_eq!(format_small_state_group_summary_text(AppLanguage::ChineseSimplified, &quiet, &group), "2 条状态事件");
}

#[test]
fn built_index_has_a_summary_for_each_group() {
    let items = vec![
        joined("$a", "@alice:example.org"),
        joined("$b", "@bob:example.org"),
        message("$m"),
        joined("$c", "@carol:example.org"),
        joined("$d", "@dave:example.org"),
        joined("$e", "@erin:example.org"),
    ];
    let index = build_small_state_event_group_index(&items, &main_kind(), &["$c".to_string()], AppLanguage::English);
    assert_eq!(index.by_start.len(), 2);
    assert_eq!(index.summary_by_start.get(&0).unwrap(), "alice and one other joined");
    assert_eq!(index.summary_by_start.get(&3).unwrap(), "carol and 2 others joined");
    assert!(index.collapsed_hidden_indices.contains(&1));
    assert!(!index.collapsed_hidden_indices.contains(&4));
}

#[test]
fn small_state_item_drawing_helpers() {
    assert_eq!(small_state_redraw_skips(true, ItemDrawnStatus::both_drawn()), (true, true));
    assert_eq!(small_state_redraw_skips(false, ItemDrawnStatus::both_drawn()), (false, false));
    let profile_only = ItemDrawnStatus { profile_drawn: true, content_drawn: false };
    assert_eq!(small_state_redraw_skips(true, profile_only), (true, false));
    let content_only = ItemDrawnStatus { profile_drawn: false, content_drawn: true };
    assert_eq!(small_state_redraw_skips(true, content_only), (false, false));
    assert_eq!(live_location_text("Alice"), "Alice shared a live location.");
    assert_eq!(poll_text(Some("Lunch?"), "Where to eat?"), "Lunch?");
    assert_eq!(poll_text(None, "Where to eat?"), "Where to eat?");
    assert_eq!(group_header_visibility(Some("3 joined"), None), (false, true));
    assert_eq!(group_header_visibility(None, Some("Expand")), (true, false));
}
