use robrix::timeline_updates::{
    available_update_slots, apply_new_items, finish_pass, keep_anchor, membership_effects, on_first_update,
    on_pagination_error, on_pagination_idle, on_pagination_running, on_target_event_found,
    on_thread_summary_fetched, plan_new_items, should_stop_pass, MembershipItem, PaginationDirection,
    ScrollAction, TimelineProgress, UpdatePass, MAX_TIMELINE_UPDATES_PER_PASS, run_update_pass, PassUpdate,
    TimelinePassState, UpdateView,
};
use robrix::rooms::TimelineKind;

fn drawn_progress(indices: &[usize]) -> TimelineProgress {
    let mut progress = TimelineProgress::new();
    for &i in indices {
        progress.content_drawn.insert(i);
        progress.profile_drawn.insert(i);
    }
    progress
}

#[test]
fn update_slots_saturate() {
    assert_eq!(MAX_TIMELINE_UPDATES_PER_PASS, 128);
    assert_eq!(available_update_slots(0), 128);
    assert_eq!(available_update_slots(100), 28);
    assert_eq!(available_update_slots(128), 0);
    assert_eq!(available_update_slots(500), 0);
}

#[test]
fn first_update_goes_to_bottom_and_forgets_drawn_items() {
    let mut pass = UpdatePass::new();
    let mut progress = drawn_progress(&[0, 3]);
    progress.fully_paginated = true;
    assert_eq!(on_first_update(&mut pass, &mut progress, 10), 9);
    assert!(!progress.content_drawn.contains(0));
    assert!(!progress.profile_drawn.contains(3));
    assert!(!progress.fully_paginated);
    assert!(pass.done_loading);
    assert_eq!(on_first_update(&mut pass, &mut progress, 0), 0);
}

#[test]
fn new_items_transient_clear_is_skipped() {
    let plan = plan_new_items(20, 0, 5, 0, 0, true, false, true, true);
    assert!(plan.skip);
    let mut pass = UpdatePass::new();
    let mut progress = drawn_progress(&[1, 2]);
    assert_eq!(apply_new_items(&mut pass, &mut progress, &plan, 20, 0, true, 0, 0, false), 0);
    assert!(pass.continue_backwards_pagination);
    assert!(!pass.done_loading);
    assert!(progress.content_drawn.contains(1));
}

#[test]
fn new_items_scroll_decisions() {
    // Same length: the view stays.
    assert_eq!(plan_new_items(10, 10, 3, 0, 10, true, false, true, true).scroll, ScrollAction::Stay);
    // The first shown item is past the new end: jump to the last item.
    assert_eq!(
        plan_new_items(50, 20, 30, 0, 20, false, false, true, true).scroll,
        ScrollAction::JumpToBottom { index: 19 }
    );
    // Items before the first shown one changed: keep it anchored.
    let plan = plan_new_items(10, 15, 5, 0, 5, false, false, true, true);
    assert!(plan.prior_items_changed);
    assert_eq!(plan.scroll, ScrollAction::KeepAnchor);
    // Only items after the first shown one changed: the view stays.
    let plan = plan_new_items(10, 12, 5, 10, 12, false, true, true, true);
    assert!(!plan.prior_items_changed);
    assert_eq!(plan.scroll, ScrollAction::Stay);
    assert!(!plan.show_unread_badge);
}

#[test]
fn new_items_unread_badge_and_scan_range() {
    let plan = plan_new_items(10, 12, 2, 10, 20, false, true, false, true);
    assert!(plan.show_unread_badge);
    assert_eq!((plan.scan_start, plan.scan_end), (10, 12));
    // Threads show no unread badge.
    assert!(!plan_new_items(10, 12, 2, 10, 20, false, true, false, false).show_unread_badge);
    let plan = plan_new_items(10, 5, 2, 8, 9, false, false, true, true);
    assert_eq!((plan.scan_start, plan.scan_end), (5, 5));
}

#[test]
fn new_items_drop_changed_drawn_items() {
    let plan = plan_new_items(10, 12, 0, 4, 6, false, false, true, true);
    let mut pass = UpdatePass::new();
    let mut progress = drawn_progress(&[1, 4, 5, 6]);
    progress.fully_paginated = true;
    assert_eq!(apply_new_items(&mut pass, &mut progress, &plan, 10, 12, false, 4, 6, false), 0);
    assert!(progress.content_drawn.contains(1));
    assert!(!progress.content_drawn.contains(4));
    assert!(!progress.profile_drawn.contains(5));
    assert!(progress.content_drawn.contains(6));
    assert!(progress.fully_paginated);
    assert!(pass.done_loading);
    assert!(!pass.continue_backwards_pagination);
}

#[test]
fn new_items_clear_cache_while_paginating_until_event() {
    let plan = plan_new_items(10, 40, 0, 0, 40, true, false, true, true);
    let mut pass = UpdatePass::new();
    let mut progress = drawn_progress(&[1, 2]);
    progress.fully_paginated = true;
    assert_eq!(apply_new_items(&mut pass, &mut progress, &plan, 10, 40, true, 0, 40, true), 30);
    assert!(pass.continue_backwards_pagination);
    assert!(!progress.content_drawn.contains(1));
    assert!(!progress.fully_paginated);
}

#[test]
fn anchor_jump_resets_read_marker() {
    let mut progress = TimelineProgress::new();
    progress.scrolled_past_read_marker = true;
    assert!(!keep_anchor(&mut progress, 4, 4));
    assert!(progress.scrolled_past_read_marker);
    assert_eq!(progress.prev_first_index, None);
    assert!(keep_anchor(&mut progress, 4, 9));
    assert_eq!(progress.prev_first_index, Some(9));
    assert!(!progress.scrolled_past_read_marker);
}

#[test]
fn membership_changes_in_range() {
    let items = vec![
        None,
        Some(MembershipItem { sender: "@a:x".into(), accepted: true }),
        Some(MembershipItem { sender: "@b:x".into(), accepted: false }),
        Some(MembershipItem { sender: "@c:x".into(), accepted: true }),
        Some(MembershipItem { sender: "@d:x".into(), accepted: true }),
    ];
    let pending = vec!["@a:x".to_string(), "@b:x".to_string(), "@d:x".to_string()];
    let (changed, accepted) = membership_effects(&items, 1, 5, true, &pending);
    assert!(changed);
    assert_eq!(accepted, vec!["@a:x".to_string(), "@d:x".to_string()]);
    let (changed, accepted) = membership_effects(&items, 1, 5, false, &pending);
    assert!(!changed);
    assert_eq!(accepted.len(), 2);
    let (changed, accepted) = membership_effects(&items, 0, 1, true, &pending);
    assert!(!changed);
    assert!(accepted.is_empty());
}

#[test]
fn target_event_found_stops_pagination() {
    let ids = vec![Some("$a".to_string()), None, Some("$t".to_string())];
    let mut pass = UpdatePass::new();
    pass.continue_backwards_pagination = true;
    assert!(on_target_event_found(&mut pass, &ids, 2, &"$t".to_string()));
    assert!(!pass.continue_backwards_pagination);
    assert!(!on_target_event_found(&mut pass, &ids, 1, &"$t".to_string()));
    assert!(!on_target_event_found(&mut pass, &ids, 7, &"$t".to_string()));
}

#[test]
fn pagination_lifecycle() {
    let mut pass = UpdatePass::new();
    let mut progress = TimelineProgress::new();
    pass.done_loading = true;
    assert!(!on_pagination_running(&mut pass, &mut progress, PaginationDirection::Forwards));
    assert!(pass.done_loading);
    assert!(on_pagination_running(&mut pass, &mut progress, PaginationDirection::Backwards));
    assert!(progress.backwards_pagination_in_flight);
    assert!(!pass.done_loading);
    // Still in flight, looking for an event: pagination goes on.
    assert!(on_pagination_idle(&mut pass, &mut progress, PaginationDirection::Backwards, false, false, true));
    assert!(pass.continue_backwards_pagination);
    assert!(!pass.done_loading);
    // The start is reached with nothing in flight: loading is done.
    let mut pass = UpdatePass::new();
    assert!(on_pagination_idle(&mut pass, &mut progress, PaginationDirection::Backwards, true, false, true));
    assert!(progress.fully_paginated);
    assert!(pass.done_loading);
    assert!(!pass.continue_backwards_pagination);
}

#[test]
fn pagination_error_follows_status() {
    let mut pass = UpdatePass::new();
    let mut progress = TimelineProgress::new();
    progress.backwards_pagination_in_flight = true;
    on_pagination_error(&mut pass, &mut progress, PaginationDirection::Backwards, false);
    assert!(!progress.backwards_pagination_in_flight);
    assert!(pass.done_loading);
    progress.backwards_pagination_in_flight = true;
    on_pagination_error(&mut pass, &mut progress, PaginationDirection::Forwards, false);
    assert!(progress.backwards_pagination_in_flight);
    assert!(!pass.done_loading);
}

#[test]
fn thread_summary_redraws_its_root() {
    let ids = vec![Some("$a".to_string()), Some("$root".to_string())];
    let mut progress = drawn_progress(&[0, 1]);
    on_thread_summary_fetched(&mut progress, &ids, 1, &"$root".to_string());
    assert!(progress.content_drawn.contains(0));
    assert!(!progress.content_drawn.contains(1));
    assert!(progress.profile_drawn.contains(1));
    on_thread_summary_fetched(&mut progress, &ids, 0, &"$root".to_string());
    assert!(!progress.content_drawn.contains(0));
}

#[test]
fn pass_stops_on_budget_unless_target_follows() {
    assert!(!should_stop_pass(false, true, true));
    assert!(should_stop_pass(true, false, true));
    assert!(should_stop_pass(true, true, false));
    assert!(!should_stop_pass(true, true, true));
}

#[test]
fn finishing_pass_with_pagination_keeps_loading_space() {
    let mut pass = UpdatePass::new();
    let mut progress = TimelineProgress::new();
    pass.done_loading = true;
    pass.continue_backwards_pagination = true;
    assert_eq!(finish_pass(&mut pass, &mut progress), (true, false));
    assert!(progress.backwards_pagination_in_flight);
    let mut pass = UpdatePass::new();
    pass.done_loading = true;
    assert_eq!(finish_pass(&mut pass, &mut TimelineProgress::new()), (false, true));
}

#[test]
fn counting_updates_and_clearing_caches() {
    let mut pass = UpdatePass::new();
    pass.count_update();
    pass.count_update();
    assert_eq!(pass.num_updates, 2);
    let mut progress = drawn_progress(&[3]);
    progress.clear_drawn();
    assert!(!progress.content_drawn.contains(3));
    assert!(!progress.profile_drawn.contains(3));
}

fn ids(v: &[&str]) -> Vec<Option<String>> {
    v.iter().map(|s| Some(s.to_string())).collect()
}

fn pass_state(items: Vec<Option<String>>) -> TimelinePassState {
    TimelinePassState { items, progress: TimelineProgress::new(), pass: UpdatePass::new(), paginating_until_event: false }
}

fn quiet() -> UpdateView {
    UpdateView { at_end: true, anchor: None, budget_spent: false }
}

#[test]
fn pass_skips_transient_empty_snapshot_and_paginates_once() {
    let mut state = pass_state(ids(&["$a", "$b"]));
    let updates = vec![PassUpdate::NewItems {
        new_items: Vec::new(),
        changed_start: 0,
        changed_end: 0,
        is_append: false,
        clear_cache: true,
    }];
    let kind = TimelineKind::MainRoom { room_id: "!r:x".to_string() };
    let outcome = run_update_pass(&mut state, &updates, &vec![quiet()], 0, true, &kind, 50);
    assert_eq!(outcome.applied, 1);
    assert_eq!(state.items, ids(&["$a", "$b"]));
    let request = outcome.pagination.expect("one pagination request");
    assert_eq!(request.num_events, 50);
    assert_eq!(request.direction, PaginationDirection::Backwards);
    assert!(matches!(request.timeline_kind, TimelineKind::MainRoom { ref room_id } if room_id == "!r:x"));
    assert!(state.progress.backwards_pagination_in_flight);
    assert!(!outcome.hide_top_space);
}

#[test]
fn pass_applies_snapshot_then_found_target_even_past_budget() {
    let mut state = pass_state(ids(&["$a"]));
    state.paginating_until_event = true;
    let updates = vec![
        PassUpdate::NewItems { new_items: ids(&["$t", "$a"]), changed_start: 0, changed_end: 2, is_append: false, clear_cache: true },
        PassUpdate::TargetEventFound { target_event_id: "$t".to_string(), index: 0 },
        PassUpdate::Other,
    ];
    let spent = UpdateView { at_end: true, anchor: None, budget_spent: true };
    let kind = TimelineKind::MainRoom { room_id: "!r:x".to_string() };
    let outcome = run_update_pass(&mut state, &updates, &vec![spent, spent, spent], 0, true, &kind, 50);
    // The budget runs out after the snapshot, but the found target is still applied.
    assert_eq!(outcome.applied, 2);
    assert_eq!(outcome.actions[0].loaded, 1);
    assert_eq!(outcome.actions[1].target_valid, Some(true));
    assert!(outcome.pagination.is_none());
    assert!(outcome.hide_top_space);
    assert_eq!(state.items, ids(&["$t", "$a"]));
    assert!(!state.paginating_until_event);
}

#[test]
fn pass_first_update_and_jumps() {
    let mut state = pass_state(Vec::new());
    let kind = TimelineKind::MainRoom { room_id: "!r:x".to_string() };
    let updates = vec![
        PassUpdate::FirstUpdate { initial_items: ids(&["$a", "$b", "$c"]) },
        PassUpdate::NewItems { new_items: ids(&["$z", "$a", "$b", "$c"]), changed_start: 0, changed_end: 1, is_append: false, clear_cache: false },
        PassUpdate::NewItems { new_items: ids(&["$z", "$a", "$b", "$c", "$d"]), changed_start: 4, changed_end: 5, is_append: true, clear_cache: false },
    ];
    let views = vec![
        quiet(),
        UpdateView { at_end: false, anchor: Some((0, 1)), budget_spent: false },
        UpdateView { at_end: false, anchor: None, budget_spent: false },
    ];
    let outcome = run_update_pass(&mut state, &updates, &views, 0, true, &kind, 50);
    assert_eq!(outcome.applied, 3);
    assert_eq!(outcome.actions[0].jump_to, Some(2));
    assert_eq!(outcome.actions[1].jump_to, Some(1));
    assert_eq!(state.progress.prev_first_index, Some(1));
    assert!(outcome.actions[2].show_unread_badge);
    assert_eq!(outcome.actions[2].jump_to, None);
    assert!(outcome.hide_top_space);
    assert_eq!(state.pass.num_updates, 3);
}
