//! Decisions for the thread-timeline lifecycle.
//!
//! A thread's backend timeline must be closed exactly when the *last* drawn
//! UI view of that thread goes away: never earlier (deep navigation can hold
//! the same thread twice) and never for non-thread rooms.  These functions
//! take the closed view and the views that remain, and answer which timeline
//! kind, if any, should be closed now.

use vstd::prelude::*;
use crate::rooms::{opt_kind_view, SelectedRoom, SelectedRoomView, TimelineKind, TimelineKindView};

verus! {

/// The thread timeline shown by a view, if the view is a thread.
pub open spec fn thread_kind_of_view(room: SelectedRoomView) -> Option<TimelineKindView> {
    match room {
        SelectedRoomView::Thread { room_id, thread_root_event_id } => Some(
            TimelineKindView::Thread { room_id, thread_root_event_id },
        ),
        _ => None,
    }
}

/// Some view among `remaining` shows the thread timeline `kind`.
pub open spec fn shows_thread(remaining: Seq<SelectedRoom>, kind: TimelineKindView) -> bool {
    exists|i: int| 0 <= i < remaining.len() && thread_kind_of_view(#[trigger] remaining[i]@) == Some(kind)
}

/// The timeline to close once `closed` goes away while `remaining` stay open.
pub open spec fn timeline_to_close(closed: SelectedRoomView, remaining: Seq<SelectedRoom>) -> Option<TimelineKindView> {
    match thread_kind_of_view(closed) {
        None => None,
        Some(kind) => if shows_thread(remaining, kind) { None } else { Some(kind) },
    }
}

/// The thread timeline kind of `room`, or `None` for anything that is not a thread.
pub fn thread_kind_of(room: &SelectedRoom) -> (kind: Option<TimelineKind>)
    ensures
        opt_kind_view(kind) == thread_kind_of_view(room@),
{
    match room {
        SelectedRoom::Thread { room_name_id, thread_root_event_id } => Some(TimelineKind::Thread {
            room_id: room_name_id.room_id().clone(),
            thread_root_event_id: thread_root_event_id.clone(),
        }),
        _ => None,
    }
}

/// `true` if any of `remaining` still shows the thread `kind`.
pub fn still_referenced(kind: &TimelineKind, remaining: &[SelectedRoom]) -> (referenced: bool)
    ensures
        referenced == shows_thread(remaining@, kind@),
{
    let mut i: usize = 0;
    while i < remaining.len()
        invariant
            0 <= i <= remaining@.len(),
            forall|k: int| 0 <= k < i ==> thread_kind_of_view(#[trigger] remaining@[k]@) != Some(kind@),
        decreases remaining@.len() - i,
    {
        let found = match thread_kind_of(&remaining[i]) {
            Some(k) => k.same_as(kind),
            None => false,
        };
        if found {
            assert(thread_kind_of_view(remaining@[i as int]@) == Some(kind@));
            return true;
        }
        i += 1;
    }
    false
}

/// Given the view that just closed and the views that remain, returns the
/// thread timeline kind that should be closed now, if any:
/// `Some(kind)` iff `closed` is a thread and no remaining view shows it.
pub fn close_if_unreferenced(closed: &SelectedRoom, remaining: &[SelectedRoom]) -> (to_close: Option<TimelineKind>)
    ensures
        opt_kind_view(to_close) == timeline_to_close(closed@, remaining@),
{
    let kind = thread_kind_of(closed)?;
    if still_referenced(&kind, remaining) {
        None
    } else {
        Some(kind)
    }
}

/// A closed view that is not a thread never closes a timeline.
pub proof fn lemma_non_thread_never_closes(closed: SelectedRoomView, remaining: Seq<SelectedRoom>)
    requires
        !(closed is Thread),
    ensures
        timeline_to_close(closed, remaining) is None,
{
}

/// Popping the top of a stack of views closes its thread timeline exactly
/// when no view left on the stack shows that same thread.
pub proof fn lemma_close_on_last_reference(stack: Seq<SelectedRoom>)
    requires
        stack.len() > 0,
    ensures
        ({
            let popped = stack.last()@;
            let rest = stack.drop_last();
            match thread_kind_of_view(popped) {
                None => timeline_to_close(popped, rest) is None,
                Some(kind) => (timeline_to_close(popped, rest) == Some(kind)) <==> (forall|i: int|
                    0 <= i < rest.len() ==> thread_kind_of_view(#[trigger] rest[i]@) != Some(kind)),
            }
        }),
{
}

} // verus!
