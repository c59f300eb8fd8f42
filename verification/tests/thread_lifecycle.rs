use robrix::rooms::{RoomNameId, SelectedRoom, TimelineKind};
use robrix::thread_lifecycle::{close_if_unreferenced, still_referenced, thread_kind_of};

fn room(n: u8) -> RoomNameId {
    RoomNameId::new(format!("room{n}"), format!("!room{n}:example.org"))
}
fn ev(n: u8) -> String {
    format!("$thread{n}")
}
fn joined(n: u8) -> SelectedRoom {
    SelectedRoom::JoinedRoom { room_name_id: room(n) }
}
fn thread(r: u8, t: u8) -> SelectedRoom {
    SelectedRoom::Thread { room_name_id: room(r), thread_root_event_id: ev(t) }
}
fn kind(r: u8, t: u8) -> TimelineKind {
    TimelineKind::Thread { room_id: room(r).room_id().clone(), thread_root_event_id: ev(t) }
}

#[test]
fn close_if_unreferenced_closes_when_no_remaining_view() {
    let remaining = [joined(1), thread(1, 2)];
    assert_eq!(close_if_unreferenced(&thread(1, 1), &remaining), Some(kind(1, 1)));
    // Same thread root in a *different* room is a different thread.
    let remaining = [thread(2, 1)];
    assert_eq!(close_if_unreferenced(&thread(1, 1), &remaining), Some(kind(1, 1)));
    // Nothing remaining at all.
    assert_eq!(close_if_unreferenced(&thread(1, 1), &[]), Some(kind(1, 1)));
}

#[test]
fn close_if_unreferenced_ignores_non_threads() {
    let remaining = [thread(1, 1)];
    assert_eq!(close_if_unreferenced(&joined(1), &remaining), None);
    assert_eq!(close_if_unreferenced(&joined(1), &[]), None);
    let invited = SelectedRoom::InvitedRoom { room_name_id: room(3) };
    assert_eq!(close_if_unreferenced(&invited, &[]), None);
    let space = SelectedRoom::Space { space_name_id: room(4) };
    assert_eq!(close_if_unreferenced(&space, &[]), None);
    assert_eq!(thread_kind_of(&joined(1)), None);
}

#[test]
fn close_if_unreferenced_keeps_thread_still_referenced() {
    // Deep navigation: room -> thread -> room -> thread (same thread twice).
    let remaining = [joined(1), thread(1, 1), joined(1)];
    assert_eq!(close_if_unreferenced(&thread(1, 1), &remaining), None);
    assert!(still_referenced(&kind(1, 1), &remaining));
    // Once the other reference is gone too, it closes.
    let remaining = [joined(1), joined(1)];
    assert_eq!(close_if_unreferenced(&thread(1, 1), &remaining), Some(kind(1, 1)));
}

/// A close fires iff the popped view is a thread that no longer appears
/// anywhere in the remaining stack; never for non-threads.
#[test]
fn close_fires_iff_last_reference_removed_over_pseudo_random_stacks() {
    let mut seed: u64 = 0x2545_f491_4f6c_dd1d;
    let mut next = || {
        seed ^= seed << 13;
        seed ^= seed >> 7;
        seed ^= seed << 17;
        seed
    };
    for _ in 0..200 {
        let mut stack: Vec<SelectedRoom> = Vec::new();
        for _ in 0..40 {
            if next() % 5 < 3 {
                let r = (next() % 3) as u8;
                let item = match next() % 4 {
                    0 => joined(r),
                    t => thread(r, t as u8),
                };
                stack.push(item);
            } else if let Some(popped) = stack.pop() {
                let decision = close_if_unreferenced(&popped, &stack);
                let expected = match thread_kind_of(&popped) {
                    None => None,
                    Some(k) => {
                        let refs = stack.iter().filter(|s| thread_kind_of(s).as_ref() == Some(&k)).count();
                        if refs == 0 { Some(k) } else { None }
                    }
                };
                assert_eq!(decision, expected);
            }
        }
    }
}
