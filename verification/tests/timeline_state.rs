use std::collections::VecDeque;
use robrix::rooms::TimelineKind;
use robrix::timeline_state::{
    clear_timeline_invalidation_for_room, clear_timeline_states, enqueue_timeline_update,
    invalidate_timeline_state_for_room, store_timeline_state, TimelineStates, TimelineUpdate,
};

#[derive(Debug, PartialEq)]
enum Control {
    PaginationRunning,
}

#[test]
fn adjacent_timeline_snapshots_coalesce_without_crossing_control_updates() {
    let mut pending: VecDeque<TimelineUpdate<Vec<u32>, Control>> = VecDeque::new();
    enqueue_timeline_update(
        &mut pending,
        TimelineUpdate::NewItems { new_items: Vec::new(), changed_indices: 4..8, clear_cache: false, is_append: true },
    );
    match pending.back().unwrap() {
        TimelineUpdate::NewItems { changed_indices, clear_cache, is_append, .. } => {
            assert_eq!(changed_indices, &(4..8));
            assert!(!*clear_cache);
            assert!(*is_append);
        }
        _ => panic!("expected timeline snapshot"),
    }

    enqueue_timeline_update(
        &mut pending,
        TimelineUpdate::NewItems { new_items: Vec::new(), changed_indices: 9..12, clear_cache: false, is_append: true },
    );
    assert_eq!(pending.len(), 1);
    match pending.back().unwrap() {
        TimelineUpdate::NewItems { changed_indices, clear_cache, is_append, .. } => {
            assert_eq!(changed_indices, &(4..12));
            assert!(!*clear_cache);
            assert!(*is_append);
        }
        _ => panic!("expected coalesced timeline snapshot"),
    }

    enqueue_timeline_update(&mut pending, TimelineUpdate::Other(Control::PaginationRunning));
    enqueue_timeline_update(
        &mut pending,
        TimelineUpdate::NewItems { new_items: Vec::new(), changed_indices: 1..2, clear_cache: false, is_append: true },
    );
    assert_eq!(pending.len(), 3);
}

#[test]
fn coalescing_keeps_latest_items_and_merges_flags() {
    let mut pending: VecDeque<TimelineUpdate<Vec<u32>, Control>> = VecDeque::new();
    enqueue_timeline_update(
        &mut pending,
        TimelineUpdate::NewItems { new_items: vec![1], changed_indices: 5..6, clear_cache: true, is_append: false },
    );
    enqueue_timeline_update(
        &mut pending,
        TimelineUpdate::NewItems { new_items: vec![2], changed_indices: 2..3, clear_cache: false, is_append: true },
    );
    match pending.pop_back().unwrap() {
        TimelineUpdate::NewItems { new_items, changed_indices, clear_cache, is_append } => {
            assert_eq!(new_items, vec![2]);
            assert_eq!(changed_indices, 2..6);
            assert!(clear_cache);
            assert!(is_append);
        }
        _ => panic!("expected coalesced timeline snapshot"),
    }
}

fn main_kind(room: &str) -> TimelineKind {
    TimelineKind::MainRoom { room_id: room.to_string() }
}

fn thread_kind(room: &str, root: &str) -> TimelineKind {
    TimelineKind::Thread { room_id: room.to_string(), thread_root_event_id: root.to_string() }
}

#[test]
fn invalidated_room_refuses_late_saves_until_rejoined() {
    let mut states: TimelineStates<u32> = TimelineStates::new();
    assert!(store_timeline_state(&mut states, main_kind("!a:x"), 1));
    assert!(store_timeline_state(&mut states, thread_kind("!a:x", "$t"), 2));
    assert!(store_timeline_state(&mut states, main_kind("!b:x"), 3));
    assert_eq!(states.len(), 3);

    invalidate_timeline_state_for_room(&mut states, &"!a:x".to_string());
    assert_eq!(states.len(), 1);
    assert!(!store_timeline_state(&mut states, main_kind("!a:x"), 4));
    assert!(!store_timeline_state(&mut states, thread_kind("!a:x", "$t"), 5));
    assert_eq!(states.len(), 1);
    assert_eq!(states.get(&main_kind("!b:x")), Some(&3));

    clear_timeline_invalidation_for_room(&mut states, &"!a:x".to_string());
    assert!(store_timeline_state(&mut states, main_kind("!a:x"), 6));
    assert_eq!(states.get(&main_kind("!a:x")), Some(&6));
}

#[test]
fn saving_twice_replaces_the_state() {
    let mut states: TimelineStates<u32> = TimelineStates::new();
    assert!(store_timeline_state(&mut states, main_kind("!a:x"), 1));
    assert!(store_timeline_state(&mut states, main_kind("!a:x"), 2));
    assert_eq!(states.len(), 1);
    assert_eq!(states.get(&main_kind("!a:x")), Some(&2));
    clear_timeline_states(&mut states);
    assert_eq!(states.len(), 0);
    assert_eq!(states.get(&main_kind("!a:x")), None);
}
