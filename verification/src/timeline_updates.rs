//! The decisions of one pass over a timeline's pending updates: how many
//! updates a pass takes, where the view goes when new items arrive, which
//! records of drawn items are dropped, whether backwards pagination goes on,
//! and when the loading space at the top is hidden.
//!
//! The pass itself (taking updates from the channel, scrolling the list,
//! sending requests) belongs to the UI; each update is handed here as plain
//! values and the answer tells the UI what to do.

use vstd::prelude::*;
use crate::rooms::TimelineKind;
use crate::timeline_view::{ids_contain, ids_set, DrawnItems};

verus! {

/// The most updates one pass takes from the channel.
pub const MAX_TIMELINE_UPDATES_PER_PASS: usize = 128;

/// How many updates a pass may still take from the channel, when `pending`
/// updates already wait.
pub fn available_update_slots(pending: usize) -> (slots: usize)
    ensures
        slots == if pending < MAX_TIMELINE_UPDATES_PER_PASS { MAX_TIMELINE_UPDATES_PER_PASS - pending } else { 0 },
{
    if pending < MAX_TIMELINE_UPDATES_PER_PASS {
        MAX_TIMELINE_UPDATES_PER_PASS - pending
    } else {
        0
    }
}

/// The direction of a pagination of the timeline.
#[derive(Clone, Copy, Debug, PartialEq, Eq, Structural)]
pub enum PaginationDirection {
    Forwards,
    Backwards,
}

/// The part of a timeline's state that its updates change.
#[derive(Debug)]
pub struct TimelineProgress {
    /// Whether the start of the timeline was reached.
    pub fully_paginated: bool,
    pub backwards_pagination_in_flight: bool,
    /// The index of the item first shown, as last set by a jump.
    pub prev_first_index: Option<usize>,
    pub scrolled_past_read_marker: bool,
    /// The items whose content was drawn since the last update.
    pub content_drawn: DrawnItems,
    /// The items whose sender's profile was drawn since the last update.
    pub profile_drawn: DrawnItems,
}

/// What a pass has decided so far.
#[derive(Clone, Copy, Debug)]
pub struct UpdatePass {
    /// Whether the loading space at the top may be hidden.
    pub done_loading: bool,
    /// Whether backwards pagination must go on after the pass.
    pub continue_backwards_pagination: bool,
    /// How many updates the pass applied.
    pub num_updates: usize,
}

impl TimelineProgress {
    /// A timeline that has drawn nothing and paginated nowhere.
    pub fn new() -> (progress: Self)
        ensures
            !progress.fully_paginated,
            !progress.backwards_pagination_in_flight,
            progress.prev_first_index is None,
            !progress.scrolled_past_read_marker,
            progress.content_drawn@ == Set::<usize>::empty(),
            progress.profile_drawn@ == Set::<usize>::empty(),
    {
        TimelineProgress {
            fully_paginated: false,
            backwards_pagination_in_flight: false,
            prev_first_index: None,
            scrolled_past_read_marker: false,
            content_drawn: DrawnItems::new(),
            profile_drawn: DrawnItems::new(),
        }
    }

    /// Everything must be drawn again: when pinned events or power levels change.
    pub fn clear_drawn(&mut self)
        ensures
            final(self).content_drawn@ == Set::<usize>::empty(),
            final(self).profile_drawn@ == Set::<usize>::empty(),
            final(self).fully_paginated == old(self).fully_paginated,
            final(self).backwards_pagination_in_flight == old(self).backwards_pagination_in_flight,
            final(self).prev_first_index == old(self).prev_first_index,
            final(self).scrolled_past_read_marker == old(self).scrolled_past_read_marker,
    {
        self.content_drawn.clear();
        self.profile_drawn.clear();
    }
}

impl UpdatePass {
    /// A pass that has applied nothing.
    pub fn new() -> (pass: Self)
        ensures
            !pass.done_loading,
            !pass.continue_backwards_pagination,
            pass.num_updates == 0,
    {
        UpdatePass { done_loading: false, continue_backwards_pagination: false, num_updates: 0 }
    }

    /// Counts one more applied update.
    pub fn count_update(&mut self)
        requires
            old(self).num_updates < usize::MAX,
        ensures
            final(self).num_updates == old(self).num_updates + 1,
            final(self).done_loading == old(self).done_loading,
            final(self).continue_backwards_pagination == old(self).continue_backwards_pagination,
    {
        self.num_updates = self.num_updates + 1;
    }
}

/// The first update of a timeline, with `num_items` items: nothing was drawn
/// yet, the start is not known to be reached, the view goes to the last item
/// (whose index is returned) and loading is done.
pub fn on_first_update(pass: &mut UpdatePass, progress: &mut TimelineProgress, num_items: usize) -> (last_index: usize)
    ensures
        last_index == if num_items > 0 { num_items - 1 } else { 0 },
        final(progress).content_drawn@ == Set::<usize>::empty(),
        final(progress).profile_drawn@ == Set::<usize>::empty(),
        !final(progress).fully_paginated,
        final(progress).backwards_pagination_in_flight == old(progress).backwards_pagination_in_flight,
        final(progress).prev_first_index == old(progress).prev_first_index,
        final(progress).scrolled_past_read_marker == old(progress).scrolled_past_read_marker,
        final(pass).done_loading,
        final(pass).continue_backwards_pagination == old(pass).continue_backwards_pagination,
        final(pass).num_updates == old(pass).num_updates,
{
    progress.content_drawn.clear();
    progress.profile_drawn.clear();
    progress.fully_paginated = false;
    pass.done_loading = true;
    if num_items > 0 { num_items - 1 } else { 0 }
}

/// Where the view goes when new items replace the old ones.
#[derive(Clone, Copy, Debug, PartialEq, Eq, Structural)]
pub enum ScrollAction {
    /// The view stays as it is.
    Stay,
    /// The item shown first is gone: show the last item.
    JumpToBottom { index: usize },
    /// Items before the one shown first changed: find that item among the
    /// new ones and keep it in place.
    KeepAnchor,
}

/// How a snapshot of new items is applied.
#[derive(Clone, Copy, Debug)]
pub struct NewItemsPlan {
    /// The snapshot is empty but the timeline is not: a transient clear that
    /// is not applied, while backwards pagination refills the timeline.
    pub skip: bool,
    /// Whether items before the one shown first may have changed.
    pub prior_items_changed: bool,
    pub scroll: ScrollAction,
    /// Whether the jump-to-bottom button shows a badge of unread messages:
    /// for items appended to a main timeline whose end is not in view.
    pub show_unread_badge: bool,
    /// The changed items, within the new ones.
    pub scan_start: usize,
    pub scan_end: usize,
}

/// Plans the application of `new_len` new items to a timeline of `old_len`
/// items whose view shows item `first_index` first.  The items
/// `changed_start .. changed_end` changed; `clear_cache` says all may have.
pub fn plan_new_items(
    old_len: usize,
    new_len: usize,
    first_index: usize,
    changed_start: usize,
    changed_end: usize,
    clear_cache: bool,
    is_append: bool,
    at_end: bool,
    is_main_room: bool,
) -> (plan: NewItemsPlan)
    ensures
        plan.skip == (new_len == 0 && old_len > 0),
        plan.prior_items_changed == (clear_cache || changed_start <= first_index),
        plan.scroll == if new_len == old_len {
            ScrollAction::Stay
        } else if first_index > new_len {
            ScrollAction::JumpToBottom { index: if new_len > 0 { (new_len - 1) as usize } else { 0 } }
        } else if plan.prior_items_changed {
            ScrollAction::KeepAnchor
        } else {
            ScrollAction::Stay
        },
        plan.show_unread_badge == (is_append && !at_end && is_main_room),
        plan.scan_start == if changed_start < new_len { changed_start } else { new_len },
        plan.scan_end == if changed_end < new_len { changed_end } else { new_len },
{
    let prior_items_changed = clear_cache || changed_start <= first_index;
    let scroll = if new_len == old_len {
        ScrollAction::Stay
    } else if first_index > new_len {
        ScrollAction::JumpToBottom { index: if new_len > 0 { new_len - 1 } else { 0 } }
    } else if prior_items_changed {
        ScrollAction::KeepAnchor
    } else {
        ScrollAction::Stay
    };
    NewItemsPlan {
        skip: new_len == 0 && old_len > 0,
        prior_items_changed,
        scroll,
        show_unread_badge: is_append && !at_end && is_main_room,
        scan_start: if changed_start < new_len { changed_start } else { new_len },
        scan_end: if changed_end < new_len { changed_end } else { new_len },
    }
}

/// The item shown first before the update, at `current_index`, is now at
/// `new_index`: if it moved, the view follows it and the read marker counts
/// as not yet scrolled past.  Says whether the view jumped.
pub fn keep_anchor(progress: &mut TimelineProgress, current_index: usize, new_index: usize) -> (jumped: bool)
    ensures
        jumped == (current_index != new_index),
        final(progress).prev_first_index == if jumped { Some(new_index) } else { old(progress).prev_first_index },
        final(progress).scrolled_past_read_marker == (old(progress).scrolled_past_read_marker && !jumped),
        final(progress).fully_paginated == old(progress).fully_paginated,
        final(progress).backwards_pagination_in_flight == old(progress).backwards_pagination_in_flight,
        final(progress).content_drawn@ == old(progress).content_drawn@,
        final(progress).profile_drawn@ == old(progress).profile_drawn@,
{
    if current_index != new_index {
        progress.prev_first_index = Some(new_index);
        progress.scrolled_past_read_marker = false;
        true
    } else {
        false
    }
}

/// Applies the rest of the plan for `new_len` new items replacing `old_len`
/// ones.  A skipped snapshot only asks for more backwards pagination.
/// Otherwise the records of drawn items are dropped (all of them, or those
/// of the changed items), loading is done, and, while the timeline is
/// paginated back until some event (`paginating_until_event`), a change
/// before the shown items keeps that pagination going.  Returns how many
/// more items that pagination loaded.
pub fn apply_new_items(
    pass: &mut UpdatePass,
    progress: &mut TimelineProgress,
    plan: &NewItemsPlan,
    old_len: usize,
    new_len: usize,
    clear_cache: bool,
    changed_start: usize,
    changed_end: usize,
    paginating_until_event: bool,
) -> (loaded: usize)
    ensures
        final(pass).num_updates == old(pass).num_updates,
        final(progress).backwards_pagination_in_flight == old(progress).backwards_pagination_in_flight,
        final(progress).prev_first_index == old(progress).prev_first_index,
        final(progress).scrolled_past_read_marker == old(progress).scrolled_past_read_marker,
        plan.skip ==> {
            &&& loaded == 0
            &&& final(pass).continue_backwards_pagination
            &&& final(pass).done_loading == old(pass).done_loading
            &&& final(progress).fully_paginated == old(progress).fully_paginated
            &&& final(progress).content_drawn@ == old(progress).content_drawn@
            &&& final(progress).profile_drawn@ == old(progress).profile_drawn@
        },
        !plan.skip ==> {
            &&& loaded == if plan.prior_items_changed && paginating_until_event && new_len > old_len {
                new_len - old_len
            } else {
                0
            }
            &&& final(pass).continue_backwards_pagination == (old(pass).continue_backwards_pagination
                || (plan.prior_items_changed && paginating_until_event))
            &&& final(pass).done_loading
            &&& if clear_cache {
                &&& final(progress).content_drawn@ == Set::<usize>::empty()
                &&& final(progress).profile_drawn@ == Set::<usize>::empty()
                &&& !final(progress).fully_paginated
            } else {
                &&& final(progress).content_drawn@ == old(progress).content_drawn@.filter(
                    |k: usize| !(changed_start <= k < changed_end),
                )
                &&& final(progress).profile_drawn@ == old(progress).profile_drawn@.filter(
                    |k: usize| !(changed_start <= k < changed_end),
                )
                &&& final(progress).fully_paginated == old(progress).fully_paginated
            }
        },
{
    if plan.skip {
        pass.continue_backwards_pagination = true;
        return 0;
    }
    let mut loaded: usize = 0;
    if plan.prior_items_changed && paginating_until_event {
        if new_len > old_len {
            loaded = new_len - old_len;
        }
        pass.continue_backwards_pagination = true;
    }
    if clear_cache {
        progress.content_drawn.clear();
        progress.profile_drawn.clear();
        progress.fully_paginated = false;
    } else {
        progress.content_drawn.remove_range(changed_start, changed_end);
        progress.profile_drawn.remove_range(changed_start, changed_end);
    }
    pass.done_loading = true;
    loaded
}

/// A membership change among the new items: who it is about, and whether
/// that user accepted an invitation or joined.
#[derive(Clone, Debug)]
pub struct MembershipItem {
    pub sender: String,
    pub accepted: bool,
}

/// The users of the membership changes in `start .. end`, in order, that
/// accepted an invitation or joined and were invited from here.
pub open spec fn accepted_senders(
    items: Seq<Option<MembershipItem>>,
    start: int,
    end: int,
    pending: Set<Seq<char>>,
) -> Seq<Seq<char>>
    decreases end - start,
{
    if start >= end {
        Seq::empty()
    } else {
        let rest = accepted_senders(items, start + 1, end, pending);
        match items[start] {
            Some(m) => if m.accepted && pending.contains(m.sender@) {
                seq![m.sender@] + rest
            } else {
                rest
            },
            None => rest,
        }
    }
}

/// What the membership changes among the changed items mean: whether the
/// members must be fetched again (for appended items with any membership
/// change), and which invited users accepted, in order.  `items` holds, for
/// each new item, its membership change if it is one; `pending` the users
/// invited from here.
pub fn membership_effects(
    items: &Vec<Option<MembershipItem>>,
    start: usize,
    end: usize,
    is_append: bool,
    pending: &Vec<String>,
) -> (effects: (bool, Vec<String>))
    requires
        start <= end <= items@.len(),
    ensures
        effects.0 == (is_append && exists|k: int| start <= k < end && #[trigger] items@[k] is Some),
        effects.1@.map_values(|s: String| s@) == accepted_senders(items@, start as int, end as int, ids_set(pending@)),
{
    let ghost total = accepted_senders(items@, start as int, end as int, ids_set(pending@));
    let mut members_changed = false;
    let mut accepted: Vec<String> = Vec::new();
    let mut i: usize = start;
    while i < end
        invariant
            start <= i <= end <= items@.len(),
            total == accepted_senders(items@, start as int, end as int, ids_set(pending@)),
            accepted@.map_values(|s: String| s@) + accepted_senders(items@, i as int, end as int, ids_set(pending@)) == total,
            members_changed == (is_append && exists|k: int| start <= k < i && #[trigger] items@[k] is Some),
        decreases end - i,
    {
        let ghost before = accepted@;
        match &items[i] {
            Some(m) => {
                if is_append {
                    members_changed = true;
                }
                if m.accepted && ids_contain(pending, &m.sender) {
                    accepted.push(m.sender.clone());
                    proof {
                        assert(accepted@.map_values(|s: String| s@) =~= before.map_values(|s: String| s@) + seq![m.sender@]);
                    }
                }
            },
            None => {},
        }
        proof {
            assert(members_changed == (is_append && exists|k: int| start <= k < i + 1 && #[trigger] items@[k] is Some)) by {
                if is_append && items@[i as int] is Some {
                    assert(start <= i < i + 1);
                }
            }
        }
        i += 1;
    }
    assert(accepted_senders(items@, end as int, end as int, ids_set(pending@)) =~= Seq::<Seq<char>>::empty());
    assert(accepted@.map_values(|s: String| s@) + Seq::<Seq<char>>::empty() =~= accepted@.map_values(|s: String| s@));
    (members_changed, accepted)
}

/// Whether the item at `index` is the event `event_id`.
pub open spec fn event_at(event_ids: Seq<Option<String>>, index: int, event_id: Seq<char>) -> bool {
    0 <= index < event_ids.len() && match event_ids[index] {
        Some(e) => e@ == event_id,
        None => false,
    }
}

/// The event looked for was found at `index`: the pagination that looked
/// for it stops, and the jump is valid only if the item there is that event.
pub fn on_target_event_found(
    pass: &mut UpdatePass,
    event_ids: &[Option<String>],
    index: usize,
    target_event_id: &String,
) -> (valid: bool)
    ensures
        valid == event_at(event_ids@, index as int, target_event_id@),
        !final(pass).continue_backwards_pagination,
        final(pass).done_loading == old(pass).done_loading,
        final(pass).num_updates == old(pass).num_updates,
{
    pass.continue_backwards_pagination = false;
    if index < event_ids.len() {
        match &event_ids[index] {
            Some(e) => *e == *target_event_id,
            None => false,
        }
    } else {
        false
    }
}

/// A pagination started.  Only backwards pagination is expected: it is in
/// flight and the loading space stays.  Says whether the direction was the
/// expected one.
pub fn on_pagination_running(pass: &mut UpdatePass, progress: &mut TimelineProgress, direction: PaginationDirection) -> (expected: bool)
    ensures
        final(progress).prev_first_index == old(progress).prev_first_index,
        final(progress).scrolled_past_read_marker == old(progress).scrolled_past_read_marker,
        expected == (direction == PaginationDirection::Backwards),
        final(progress).backwards_pagination_in_flight == (expected || old(progress).backwards_pagination_in_flight),
        final(pass).done_loading == (!expected && old(pass).done_loading),
        final(pass).continue_backwards_pagination == old(pass).continue_backwards_pagination,
        final(pass).num_updates == old(pass).num_updates,
        final(progress).fully_paginated == old(progress).fully_paginated,
        final(progress).content_drawn@ == old(progress).content_drawn@,
        final(progress).profile_drawn@ == old(progress).profile_drawn@,
{
    if direction == PaginationDirection::Backwards {
        progress.backwards_pagination_in_flight = true;
        pass.done_loading = false;
        true
    } else {
        false
    }
}

/// A pagination failed.  After a backwards one, the pagination is in flight
/// only if the timeline's own status says so; loading is done unless a
/// backwards pagination is in flight.
pub fn on_pagination_error(
    pass: &mut UpdatePass,
    progress: &mut TimelineProgress,
    direction: PaginationDirection,
    status_in_flight: bool,
)
    ensures
        final(progress).prev_first_index == old(progress).prev_first_index,
        final(progress).scrolled_past_read_marker == old(progress).scrolled_past_read_marker,
        final(progress).backwards_pagination_in_flight == if direction == PaginationDirection::Backwards {
            status_in_flight
        } else {
            old(progress).backwards_pagination_in_flight
        },
        final(pass).done_loading == !final(progress).backwards_pagination_in_flight,
        final(pass).continue_backwards_pagination == old(pass).continue_backwards_pagination,
        final(pass).num_updates == old(pass).num_updates,
        final(progress).fully_paginated == old(progress).fully_paginated,
        final(progress).content_drawn@ == old(progress).content_drawn@,
        final(progress).profile_drawn@ == old(progress).profile_drawn@,
{
    if direction == PaginationDirection::Backwards {
        progress.backwards_pagination_in_flight = status_in_flight;
    }
    pass.done_loading = !progress.backwards_pagination_in_flight;
}

/// A pagination went idle.  After a backwards one: the flags follow the
/// timeline's status; loading is done once the start is reached with nothing
/// in flight, and otherwise a pagination until some event goes on.  Says
/// whether the direction was the expected one.
pub fn on_pagination_idle(
    pass: &mut UpdatePass,
    progress: &mut TimelineProgress,
    direction: PaginationDirection,
    fully_paginated: bool,
    status_in_flight: bool,
    paginating_until_event: bool,
) -> (expected: bool)
    ensures
        final(progress).prev_first_index == old(progress).prev_first_index,
        final(progress).scrolled_past_read_marker == old(progress).scrolled_past_read_marker,
        expected == (direction == PaginationDirection::Backwards),
        expected ==> {
            &&& final(progress).backwards_pagination_in_flight == status_in_flight
            &&& final(progress).fully_paginated == fully_paginated
            &&& final(pass).done_loading == (old(pass).done_loading || (fully_paginated && !status_in_flight))
            &&& final(pass).continue_backwards_pagination == (old(pass).continue_backwards_pagination
                || (!(fully_paginated && !status_in_flight) && paginating_until_event))
        },
        !expected ==> {
            &&& final(progress).backwards_pagination_in_flight == old(progress).backwards_pagination_in_flight
            &&& final(progress).fully_paginated == old(progress).fully_paginated
            &&& final(pass).done_loading == old(pass).done_loading
            &&& final(pass).continue_backwards_pagination == old(pass).continue_backwards_pagination
        },
        final(pass).num_updates == old(pass).num_updates,
        final(progress).content_drawn@ == old(progress).content_drawn@,
        final(progress).profile_drawn@ == old(progress).profile_drawn@,
{
    if direction != PaginationDirection::Backwards {
        return false;
    }
    progress.backwards_pagination_in_flight = status_in_flight;
    progress.fully_paginated = fully_paginated;
    if fully_paginated && !status_in_flight {
        pass.done_loading = true;
    } else if paginating_until_event {
        pass.continue_backwards_pagination = true;
    }
    true
}

/// The summary of the thread rooted at `thread_root` arrived for the item
/// at `index`: that item is drawn again if it still is the thread's root,
/// else every item is.
pub fn on_thread_summary_fetched(
    progress: &mut TimelineProgress,
    event_ids: &[Option<String>],
    index: usize,
    thread_root: &String,
)
    ensures
        final(progress).prev_first_index == old(progress).prev_first_index,
        final(progress).scrolled_past_read_marker == old(progress).scrolled_past_read_marker,
        final(progress).content_drawn@ == if event_at(event_ids@, index as int, thread_root@) {
            old(progress).content_drawn@.remove(index)
        } else {
            Set::<usize>::empty()
        },
        final(progress).profile_drawn@ == old(progress).profile_drawn@,
        final(progress).fully_paginated == old(progress).fully_paginated,
        final(progress).backwards_pagination_in_flight == old(progress).backwards_pagination_in_flight,
{
    let matches_root = if index < event_ids.len() {
        match &event_ids[index] {
            Some(e) => *e == *thread_root,
            None => false,
        }
    } else {
        false
    };
    if matches_root {
        progress.content_drawn.remove(index);
    } else {
        progress.content_drawn.clear();
    }
}

/// Whether the pass stops after an update: once its time budget is spent,
/// unless a snapshot of new items was just applied and the next update
/// finds the event looked for (which must see that snapshot's items).
pub fn should_stop_pass(budget_spent: bool, applied_new_items: bool, next_is_target_found: bool) -> (stop: bool)
    ensures
        stop == (budget_spent && !(applied_new_items && next_is_target_found)),
{
    budget_spent && !(applied_new_items && next_is_target_found)
}

/// Ends the pass.  Returns whether to ask for more backwards pagination,
/// which is then in flight and keeps the loading space, and whether the
/// loading space is hidden.
pub fn finish_pass(pass: &mut UpdatePass, progress: &mut TimelineProgress) -> (decision: (bool, bool))
    ensures
        final(pass).continue_backwards_pagination == old(pass).continue_backwards_pagination,
        final(pass).num_updates == old(pass).num_updates,
        final(progress).prev_first_index == old(progress).prev_first_index,
        final(progress).scrolled_past_read_marker == old(progress).scrolled_past_read_marker,
        decision.0 == old(pass).continue_backwards_pagination,
        decision.1 == (old(pass).done_loading && !old(pass).continue_backwards_pagination),
        decision.0 ==> !decision.1 && final(progress).backwards_pagination_in_flight,
        !decision.0 ==> final(progress).backwards_pagination_in_flight == old(progress).backwards_pagination_in_flight,
        final(pass).done_loading == decision.1,
        final(progress).fully_paginated == old(progress).fully_paginated,
        final(progress).content_drawn@ == old(progress).content_drawn@,
        final(progress).profile_drawn@ == old(progress).profile_drawn@,
{
    let paginate = pass.continue_backwards_pagination;
    if paginate {
        pass.done_loading = false;
        progress.backwards_pagination_in_flight = true;
    }
    (paginate, pass.done_loading)
}


// ---------------------------------------------------------------------------
// A whole pass.
// ---------------------------------------------------------------------------

/// A pending update, as the pass sees it.  Timeline items are given by the
/// event ID of each (`None` for an item that is no event).
#[derive(Debug)]
pub enum PassUpdate {
    FirstUpdate { initial_items: Vec<Option<String>> },
    NewItems {
        new_items: Vec<Option<String>>,
        changed_start: usize,
        changed_end: usize,
        is_append: bool,
        clear_cache: bool,
    },
    TargetEventFound { target_event_id: String, index: usize },
    PaginationRunning { direction: PaginationDirection },
    PaginationError { direction: PaginationDirection, status_in_flight: bool },
    PaginationIdle { fully_paginated: bool, direction: PaginationDirection, status_in_flight: bool },
    ThreadSummaryFetched { thread_root: String, index: usize },
    /// Pinned events or power levels changed: every item is drawn again.
    DrawnInvalidated,
    /// An update that changes nothing the pass decides.
    Other,
}

/// What the view tells the pass about one update: whether its end is in
/// view, where the item shown first went among the new items (its current
/// and new index, when the view found it), and whether the pass's time
/// budget is spent once the update is applied.
#[derive(Clone, Copy, Debug)]
pub struct UpdateView {
    pub at_end: bool,
    pub anchor: Option<(usize, usize)>,
    pub budget_spent: bool,
}

/// What the UI does after one update.
#[derive(Clone, Copy, Debug, PartialEq, Eq, Structural)]
pub struct StepActions {
    /// Show this item first (scrolled to its top).
    pub jump_to: Option<usize>,
    /// Show an unread badge on the jump-to-bottom button (and fetch the count).
    pub show_unread_badge: bool,
    /// For a found target event: whether the jump to it is valid.
    pub target_valid: Option<bool>,
    /// How many more items a pagination until some event loaded.
    pub loaded: usize,
}

/// A timeline, as a pass over its updates changes it.
#[derive(Debug)]
pub struct TimelinePassState {
    /// The event ID of each item.
    pub items: Vec<Option<String>>,
    pub progress: TimelineProgress,
    pub pass: UpdatePass,
    /// Whether the timeline is paginated back until some event (the
    /// loading pane shows that search).
    pub paginating_until_event: bool,
}

/// A timeline and its pass as plain values.
#[verifier::ext_equal]
pub struct PassView {
    pub items: Seq<Option<String>>,
    pub fully_paginated: bool,
    pub in_flight: bool,
    pub prev_first_index: Option<usize>,
    pub scrolled_past_read_marker: bool,
    pub content_drawn: Set<usize>,
    pub profile_drawn: Set<usize>,
    pub done_loading: bool,
    pub continue_pagination: bool,
    pub paginating_until_event: bool,
}

impl View for TimelinePassState {
    type V = PassView;

    open spec fn view(&self) -> PassView {
        PassView {
            items: self.items@,
            fully_paginated: self.progress.fully_paginated,
            in_flight: self.progress.backwards_pagination_in_flight,
            prev_first_index: self.progress.prev_first_index,
            scrolled_past_read_marker: self.progress.scrolled_past_read_marker,
            content_drawn: self.progress.content_drawn@,
            profile_drawn: self.progress.profile_drawn@,
            done_loading: self.pass.done_loading,
            continue_pagination: self.pass.continue_backwards_pagination,
            paginating_until_event: self.paginating_until_event,
        }
    }
}

/// Where the view goes for new items (as [`plan_new_items`] decides).
pub open spec fn scroll_for(
    old_len: nat,
    new_len: nat,
    first_index: usize,
    changed_start: usize,
    clear_cache: bool,
) -> ScrollAction {
    if new_len == old_len {
        ScrollAction::Stay
    } else if first_index > new_len {
        ScrollAction::JumpToBottom { index: if new_len > 0 { (new_len - 1) as usize } else { 0 } }
    } else if clear_cache || changed_start <= first_index {
        ScrollAction::KeepAnchor
    } else {
        ScrollAction::Stay
    }
}

/// The anchor's move, when the view keeps it in place: its new index, if it moved.
pub open spec fn anchor_move(scroll: ScrollAction, anchor: Option<(usize, usize)>) -> Option<usize> {
    if scroll == ScrollAction::KeepAnchor {
        match anchor {
            Some((c, n)) => if c != n { Some(n) } else { None },
            None => None,
        }
    } else {
        None
    }
}

/// The timeline after one update, with the view's answers `v` and the
/// index `first_index` of the item shown first when the pass began.
pub open spec fn step_state(s: PassView, u: PassUpdate, v: UpdateView, first_index: usize) -> PassView {
    match u {
        PassUpdate::FirstUpdate { initial_items } => PassView {
            items: initial_items@,
            content_drawn: Set::empty(),
            profile_drawn: Set::empty(),
            fully_paginated: false,
            done_loading: true,
            ..s
        },
        PassUpdate::NewItems { new_items, changed_start, changed_end, is_append, clear_cache } => {
            if new_items@.len() == 0 && s.items.len() > 0 {
                // A transient clear: the items stay, pagination refills them.
                PassView { continue_pagination: true, ..s }
            } else {
                let prior = clear_cache || changed_start <= first_index;
                let moved = anchor_move(scroll_for(s.items.len(), new_items@.len(), first_index, changed_start, clear_cache), v.anchor);
                PassView {
                    items: new_items@,
                    prev_first_index: if moved is Some { moved } else { s.prev_first_index },
                    scrolled_past_read_marker: s.scrolled_past_read_marker && moved is None,
                    content_drawn: if clear_cache {
                        Set::empty()
                    } else {
                        s.content_drawn.filter(|k: usize| !(changed_start <= k < changed_end))
                    },
                    profile_drawn: if clear_cache {
                        Set::empty()
                    } else {
                        s.profile_drawn.filter(|k: usize| !(changed_start <= k < changed_end))
                    },
                    fully_paginated: s.fully_paginated && !clear_cache,
                    done_loading: true,
                    continue_pagination: s.continue_pagination || (prior && s.paginating_until_event),
                    ..s
                }
            }
        },
        PassUpdate::TargetEventFound { .. } => PassView {
            continue_pagination: false,
            paginating_until_event: false,
            ..s
        },
        PassUpdate::PaginationRunning { direction } => if direction == PaginationDirection::Backwards {
            PassView { in_flight: true, done_loading: false, ..s }
        } else {
            s
        },
        PassUpdate::PaginationError { direction, status_in_flight } => {
            let in_flight = if direction == PaginationDirection::Backwards { status_in_flight } else { s.in_flight };
            PassView { in_flight, done_loading: !in_flight, ..s }
        },
        PassUpdate::PaginationIdle { fully_paginated, direction, status_in_flight } => {
            if direction == PaginationDirection::Backwards {
                let done = fully_paginated && !status_in_flight;
                PassView {
                    in_flight: status_in_flight,
                    fully_paginated,
                    done_loading: s.done_loading || done,
                    continue_pagination: s.continue_pagination || (!done && s.paginating_until_event),
                    ..s
                }
            } else {
                s
            }
        },
        PassUpdate::ThreadSummaryFetched { thread_root, index } => PassView {
            content_drawn: if event_at(s.items, index as int, thread_root@) {
                s.content_drawn.remove(index)
            } else {
                Set::empty()
            },
            ..s
        },
        PassUpdate::DrawnInvalidated => PassView { content_drawn: Set::empty(), profile_drawn: Set::empty(), ..s },
        PassUpdate::Other => s,
    }
}

/// What the UI does after one update.
pub open spec fn step_actions(s: PassView, u: PassUpdate, v: UpdateView, first_index: usize, is_main_room: bool) -> StepActions {
    let none = StepActions { jump_to: None, show_unread_badge: false, target_valid: None, loaded: 0 };
    match u {
        PassUpdate::FirstUpdate { initial_items } => StepActions {
            jump_to: Some(if initial_items@.len() > 0 { (initial_items@.len() - 1) as usize } else { 0 }),
            ..none
        },
        PassUpdate::NewItems { new_items, changed_start, changed_end, is_append, clear_cache } => {
            if new_items@.len() == 0 && s.items.len() > 0 {
                none
            } else {
                let prior = clear_cache || changed_start <= first_index;
                let scroll = scroll_for(s.items.len(), new_items@.len(), first_index, changed_start, clear_cache);
                StepActions {
                    jump_to: match scroll {
                        ScrollAction::JumpToBottom { index } => Some(index),
                        _ => anchor_move(scroll, v.anchor),
                    },
                    show_unread_badge: is_append && !v.at_end && is_main_room,
                    target_valid: None,
                    loaded: if prior && s.paginating_until_event && new_items@.len() > s.items.len() {
                        (new_items@.len() - s.items.len()) as usize
                    } else {
                        0
                    },
                }
            }
        },
        PassUpdate::TargetEventFound { target_event_id, index } => StepActions {
            target_valid: Some(event_at(s.items, index as int, target_event_id@)),
            ..none
        },
        _ => none,
    }
}

fn copy_ids(ids: &Vec<Option<String>>) -> (copy: Vec<Option<String>>)
    ensures
        copy@ == ids@,
{
    let mut copy: Vec<Option<String>> = Vec::new();
    let mut i: usize = 0;
    while i < ids.len()
        invariant
            0 <= i <= ids@.len(),
            copy@ == ids@.take(i as int),
        decreases ids@.len() - i,
    {
        let id = match &ids[i] {
            Some(e) => Some(e.clone()),
            None => None,
        };
        copy.push(id);
        i += 1;
        assert(copy@ =~= ids@.take(i as int));
    }
    assert(ids@.take(ids@.len() as int) =~= ids@);
    copy
}

/// Applies one update to the timeline.  `first_index` is the index of the
/// item shown first when the pass began; `is_main_room` whether this is a
/// room's main timeline.
pub fn apply_update(
    state: &mut TimelinePassState,
    update: &PassUpdate,
    v: UpdateView,
    first_index: usize,
    is_main_room: bool,
) -> (actions: StepActions)
    ensures
        final(state)@ == step_state(old(state)@, *update, v, first_index),
        actions == step_actions(old(state)@, *update, v, first_index, is_main_room),
        final(state).pass.num_updates == old(state).pass.num_updates,
        *update is DrawnInvalidated ==> final(state).progress.content_drawn@ == Set::<usize>::empty()
            && final(state).progress.profile_drawn@ == Set::<usize>::empty()
            && final(state).items@ == old(state).items@,
{
    let none = StepActions { jump_to: None, show_unread_badge: false, target_valid: None, loaded: 0 };
    match update {
        PassUpdate::FirstUpdate { initial_items } => {
            let last = on_first_update(&mut state.pass, &mut state.progress, initial_items.len());
            state.items = copy_ids(initial_items);
            proof {
                assert(state@ =~= step_state(old(state)@, *update, v, first_index));
            }
            StepActions { jump_to: Some(last), ..none }
        },
        PassUpdate::NewItems { new_items, changed_start, changed_end, is_append, clear_cache } => {
            let plan = plan_new_items(
                state.items.len(),
                new_items.len(),
                first_index,
                *changed_start,
                *changed_end,
                *clear_cache,
                *is_append,
                v.at_end,
                is_main_room,
            );
            let loaded = apply_new_items(
                &mut state.pass,
                &mut state.progress,
                &plan,
                state.items.len(),
                new_items.len(),
                *clear_cache,
                *changed_start,
                *changed_end,
                state.paginating_until_event,
            );
            if plan.skip {
                proof {
                    assert(state@ =~= step_state(old(state)@, *update, v, first_index));
                }
                return none;
            }
            let mut jump_to: Option<usize> = None;
            match plan.scroll {
                ScrollAction::JumpToBottom { index } => {
                    jump_to = Some(index);
                },
                ScrollAction::KeepAnchor => {
                    if let Some((current, new_index)) = v.anchor {
                        if keep_anchor(&mut state.progress, current, new_index) {
                            jump_to = Some(new_index);
                        }
                    }
                },
                ScrollAction::Stay => {},
            }
            state.items = copy_ids(new_items);
            proof {
                assert(state@.content_drawn =~= step_state(old(state)@, *update, v, first_index).content_drawn);
                assert(state@.profile_drawn =~= step_state(old(state)@, *update, v, first_index).profile_drawn);
                assert(state@ =~= step_state(old(state)@, *update, v, first_index));
            }
            StepActions { jump_to, show_unread_badge: plan.show_unread_badge, target_valid: None, loaded }
        },
        PassUpdate::TargetEventFound { target_event_id, index } => {
            let valid = on_target_event_found(&mut state.pass, state.items.as_slice(), *index, target_event_id);
            state.paginating_until_event = false;
            proof {
                assert(state@ =~= step_state(old(state)@, *update, v, first_index));
            }
            StepActions { target_valid: Some(valid), ..none }
        },
        PassUpdate::PaginationRunning { direction } => {
            on_pagination_running(&mut state.pass, &mut state.progress, *direction);
            proof {
                assert(state@ =~= step_state(old(state)@, *update, v, first_index));
            }
            none
        },
        PassUpdate::PaginationError { direction, status_in_flight } => {
            on_pagination_error(&mut state.pass, &mut state.progress, *direction, *status_in_flight);
            proof {
                assert(state@ =~= step_state(old(state)@, *update, v, first_index));
            }
            none
        },
        PassUpdate::PaginationIdle { fully_paginated, direction, status_in_flight } => {
            on_pagination_idle(
                &mut state.pass,
                &mut state.progress,
                *direction,
                *fully_paginated,
                *status_in_flight,
                state.paginating_until_event,
            );
            proof {
                assert(state@ =~= step_state(old(state)@, *update, v, first_index));
            }
            none
        },
        PassUpdate::ThreadSummaryFetched { thread_root, index } => {
            on_thread_summary_fetched(&mut state.progress, state.items.as_slice(), *index, thread_root);
            proof {
                assert(state@ =~= step_state(old(state)@, *update, v, first_index));
            }
            none
        },
        PassUpdate::DrawnInvalidated => {
            state.progress.clear_drawn();
            proof {
                assert(state@ =~= step_state(old(state)@, *update, v, first_index));
            }
            none
        },
        PassUpdate::Other => none,
    }
}

/// Whether the pass stops after update `i`: its time budget is spent, and
/// the update is not a snapshot followed by the event looked for.
pub open spec fn stops_after(us: Seq<PassUpdate>, vs: Seq<UpdateView>, i: int) -> bool {
    vs[i].budget_spent && !(us[i] is NewItems && i + 1 < us.len() && us[i + 1] is TargetEventFound)
}

/// How many updates, from the `i`-th on counted from the start, the pass applies.
pub open spec fn pass_length(us: Seq<PassUpdate>, vs: Seq<UpdateView>, i: int) -> int
    decreases us.len() - i,
{
    if i < 0 || i >= us.len() {
        us.len() as int
    } else if stops_after(us, vs, i) {
        i + 1
    } else {
        pass_length(us, vs, i + 1)
    }
}

/// The timeline after the first `n` updates.
pub open spec fn run_state(s: PassView, us: Seq<PassUpdate>, vs: Seq<UpdateView>, first_index: usize, n: int) -> PassView
    decreases n,
{
    if n <= 0 {
        s
    } else {
        step_state(run_state(s, us, vs, first_index, n - 1), us[n - 1], vs[n - 1], first_index)
    }
}

/// A request for more of the timeline.
#[derive(Debug)]
pub struct PaginationRequest {
    pub timeline_kind: TimelineKind,
    pub num_events: u16,
    pub direction: PaginationDirection,
}

/// What a pass leaves to the UI.
#[derive(Debug)]
pub struct PassOutcome {
    /// How many of the pending updates it applied (the rest stay pending).
    pub applied: usize,
    /// What to do after each applied update.
    pub actions: Vec<StepActions>,
    /// The one request for more of the timeline, if the pass asks for it.
    pub pagination: Option<PaginationRequest>,
    /// Whether the loading space at the top is hidden.
    pub hide_top_space: bool,
}

/// Runs one pass over the pending `updates` of the timeline `kind`, with
/// the view's answer `views[i]` for each update: applies them in order until
/// the time budget is spent (but never between a snapshot and the event it
/// brought), then asks, at most once, for `fill_size` more events backwards
/// when some update wanted more pagination; that pagination is then in
/// flight and keeps the loading space.
pub fn run_update_pass(
    state: &mut TimelinePassState,
    updates: &Vec<PassUpdate>,
    views: &Vec<UpdateView>,
    first_index: usize,
    is_main_room: bool,
    kind: &TimelineKind,
    fill_size: u16,
) -> (outcome: PassOutcome)
    requires
        views@.len() == updates@.len(),
    ensures
        ({
            let s0 = PassView { done_loading: false, continue_pagination: false, ..old(state)@ };
            let n = pass_length(updates@, views@, 0);
            let last = run_state(s0, updates@, views@, first_index, n);
            &&& outcome.applied == n
            &&& outcome.actions@.len() == n
            &&& forall|i: int| 0 <= i < n ==> #[trigger] outcome.actions@[i] == step_actions(
                run_state(s0, updates@, views@, first_index, i), updates@[i], views@[i], first_index, is_main_room)
            &&& if last.continue_pagination {
                &&& outcome.pagination matches Some(r) && r.timeline_kind == *kind && r.num_events == fill_size
                    && r.direction == PaginationDirection::Backwards
                &&& !outcome.hide_top_space
                &&& final(state)@ == PassView { done_loading: false, in_flight: true, ..last }
            } else {
                &&& outcome.pagination is None
                &&& outcome.hide_top_space == last.done_loading
                &&& final(state)@ == last
            }
            &&& final(state).pass.num_updates == n
        }),
{
    let ghost s0 = PassView { done_loading: false, continue_pagination: false, ..state@ };
    state.pass = UpdatePass::new();
    proof {
        assert(state@ =~= s0);
    }
    let mut actions: Vec<StepActions> = Vec::new();
    let mut i: usize = 0;
    let mut stopped = false;
    while i < updates.len() && !stopped
        invariant
            views@.len() == updates@.len(),
            0 <= i <= updates@.len(),
            state@ == run_state(s0, updates@, views@, first_index, i as int),
            state.pass.num_updates == i,
            actions@.len() == i,
            forall|k: int| 0 <= k < i ==> #[trigger] actions@[k] == step_actions(
                run_state(s0, updates@, views@, first_index, k), updates@[k], views@[k], first_index, is_main_room),
            stopped ==> i > 0 && stops_after(updates@, views@, i - 1)
                && pass_length(updates@, views@, 0) == i,
            !stopped ==> pass_length(updates@, views@, 0) == pass_length(updates@, views@, i as int),
        decreases updates@.len() - i,
    {
        let a = apply_update(state, &updates[i], views[i], first_index, is_main_room);
        state.pass.count_update();
        actions.push(a);
        let follows = i + 1 < updates.len() && match &updates[i + 1] {
            PassUpdate::TargetEventFound { .. } => true,
            _ => false,
        };
        let is_new_items = match &updates[i] {
            PassUpdate::NewItems { .. } => true,
            _ => false,
        };
        if should_stop_pass(views[i].budget_spent, is_new_items, follows) {
            stopped = true;
        }
        i += 1;
    }
    proof {
        if !stopped {
            assert(pass_length(updates@, views@, i as int) == updates@.len());
        }
    }
    let (paginate, hide) = finish_pass(&mut state.pass, &mut state.progress);
    let pagination = if paginate {
        Some(PaginationRequest {
            timeline_kind: kind.duplicate(),
            num_events: fill_size,
            direction: PaginationDirection::Backwards,
        })
    } else {
        None
    };
    proof {
        assert(state@ =~= if paginate {
            PassView { done_loading: false, in_flight: true, ..run_state(s0, updates@, views@, first_index, i as int) }
        } else {
            run_state(s0, updates@, views@, first_index, i as int)
        });
    }
    PassOutcome { applied: i, actions, pagination, hide_top_space: hide }
}

/// A pass over a single empty snapshot of a non-empty timeline keeps the
/// items (no blank frame) and asks for backwards pagination, which
/// [`run_update_pass`] then requests once.
pub proof fn lemma_transient_clear_pass(s: PassView, u: PassUpdate, v: UpdateView, first_index: usize)
    requires
        u matches PassUpdate::NewItems { new_items, .. } && new_items@.len() == 0,
        s.items.len() > 0,
    ensures
        pass_length(seq![u], seq![v], 0) == 1,
        run_state(s, seq![u], seq![v], first_index, 1).items == s.items,
        run_state(s, seq![u], seq![v], first_index, 1).continue_pagination,
{
    assert(pass_length(seq![u], seq![v], 1) == 1);
    assert(run_state(s, seq![u], seq![v], first_index, 0) == s);
}

/// An update that invalidates what was drawn (pinned events or power
/// levels changed) leaves no item counted as drawn, so every item is drawn
/// again; the items and the state of pagination stay as they were.
pub proof fn lemma_invalidation_redraws_everything(s: PassView, v: UpdateView, first_index: usize)
    ensures
        forall|i: usize| !step_state(s, PassUpdate::DrawnInvalidated, v, first_index).content_drawn.contains(i),
        forall|i: usize| !step_state(s, PassUpdate::DrawnInvalidated, v, first_index).profile_drawn.contains(i),
        step_state(s, PassUpdate::DrawnInvalidated, v, first_index).items == s.items,
        step_state(s, PassUpdate::DrawnInvalidated, v, first_index).fully_paginated == s.fully_paginated,
        step_state(s, PassUpdate::DrawnInvalidated, v, first_index).in_flight == s.in_flight,
        step_state(s, PassUpdate::DrawnInvalidated, v, first_index).done_loading == s.done_loading,
        step_state(s, PassUpdate::DrawnInvalidated, v, first_index).prev_first_index == s.prev_first_index,
{
}

/// The first update, and new items that clear the cache, leave no item
/// counted as drawn: every item is drawn anew.
pub proof fn lemma_reset_updates_redraw_everything(s: PassView, u: PassUpdate, v: UpdateView, first_index: usize)
    requires
        u is FirstUpdate || (u matches PassUpdate::NewItems { new_items, clear_cache, .. } && clear_cache
            && !(new_items@.len() == 0 && s.items.len() > 0)),
    ensures
        forall|i: usize| !step_state(s, u, v, first_index).content_drawn.contains(i),
        forall|i: usize| !step_state(s, u, v, first_index).profile_drawn.contains(i),
{
}

} // verus!
