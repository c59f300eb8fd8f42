//! The per-room timeline UI state cache and the queue of pending timeline
//! updates.
//!
//! The cache keeps one saved state per timeline (main room timeline or
//! thread timeline).  Rooms that were left (or from which the user was
//! kicked or banned) are *invalidated*: their states are dropped, and a late
//! attempt to save a state for them again is refused until the room is
//! joined again.

use std::collections::VecDeque;
use std::ops::Range;
use vstd::prelude::*;
use crate::rooms::{TimelineKind, TimelineKindView};

verus! {

broadcast use vstd::seq::group_seq_axioms, vstd::seq_lib::group_seq_properties;

/// The saved UI states of all known timelines, plus the rooms whose
/// timelines must not be saved again.
pub struct TimelineStates<S> {
    entries: Vec<(TimelineKind, S)>,
    invalidated_rooms: Vec<String>,
}

/// The first state saved for `kind` in `entries`, if any.
pub open spec fn lookup<S>(entries: Seq<(TimelineKindView, S)>, kind: TimelineKindView) -> Option<S>
    decreases entries.len(),
{
    if entries.len() == 0 {
        None
    } else if entries[0].0 == kind {
        Some(entries[0].1)
    } else {
        lookup(entries.drop_first(), kind)
    }
}

/// The entries of `entries` that do not belong to room `room_id`, in order.
pub open spec fn without_room<S>(entries: Seq<(TimelineKindView, S)>, room_id: Seq<char>) -> Seq<(TimelineKindView, S)>
    decreases entries.len(),
{
    if entries.len() == 0 {
        entries
    } else {
        let rest = without_room(entries.drop_last(), room_id);
        if entries.last().0.room_id() == room_id {
            rest
        } else {
            rest.push(entries.last())
        }
    }
}

/// `entries` after saving `state` for `kind`: an earlier state for the same
/// timeline is replaced in place, a new timeline is appended.
pub open spec fn with_state<S>(entries: Seq<(TimelineKindView, S)>, kind: TimelineKindView, state: S) -> Seq<(TimelineKindView, S)> {
    if exists|i: int| 0 <= i < entries.len() && #[trigger] entries[i].0 == kind {
        let i = choose|i: int| 0 <= i < entries.len() && #[trigger] entries[i].0 == kind;
        entries.update(i, (kind, state))
    } else {
        entries.push((kind, state))
    }
}

/// The saved entries as plain values.
pub open spec fn entries_view<S>(v: Seq<(TimelineKind, S)>) -> Seq<(TimelineKindView, S)> {
    v.map_values(|e: (TimelineKind, S)| (e.0@, e.1))
}

/// Room IDs as plain values.
pub open spec fn rooms_view(v: Seq<String>) -> Seq<Seq<char>> {
    v.map_values(|r: String| r@)
}

/// No timeline occurs twice.
pub open spec fn distinct_kinds<S>(entries: Seq<(TimelineKindView, S)>) -> bool {
    forall|i: int, j: int| 0 <= i < j < entries.len() ==> #[trigger] entries[i].0 != #[trigger] entries[j].0
}

impl<S> TimelineStates<S> {
    /// The saved states, in the order in which their timelines were first saved.
    pub closed spec fn entries(&self) -> Seq<(TimelineKindView, S)> {
        entries_view(self.entries@)
    }

    /// The rooms whose timelines must not be saved again.
    pub closed spec fn invalidated(&self) -> Set<Seq<char>> {
        rooms_view(self.invalidated_rooms@).to_set()
    }

    /// The cache keeps at most one state per timeline.
    pub closed spec fn wf(&self) -> bool {
        distinct_kinds(self.entries())
    }

    /// An empty cache with no invalidated room.
    pub fn new() -> (states: Self)
        ensures
            states.wf(),
            states.entries() == Seq::<(TimelineKindView, S)>::empty(),
            states.invalidated() == Set::<Seq<char>>::empty(),
    {
        let states = TimelineStates { entries: Vec::new(), invalidated_rooms: Vec::new() };
        proof {
            assert(states.entries() =~= Seq::<(TimelineKindView, S)>::empty());
            assert(states.invalidated() =~= Set::<Seq<char>>::empty());
        }
        states
    }

    /// The number of saved states.
    pub fn len(&self) -> (n: usize)
        ensures
            n == self.entries().len(),
    {
        self.entries.len()
    }

    /// The state saved for `kind`, if any.
    pub fn get(&self, kind: &TimelineKind) -> (state: Option<&S>)
        requires
            self.wf(),
        ensures
            match state {
                Some(s) => lookup(self.entries(), kind@) == Some(*s),
                None => lookup(self.entries(), kind@) is None,
            },
    {
        let mut i: usize = 0;
        while i < self.entries.len()
            invariant
                0 <= i <= self.entries@.len(),
                self.wf(),
                forall|k: int| 0 <= k < i ==> self.entries()[k].0 != kind@,
            decreases self.entries@.len() - i,
        {
            if self.entries[i].0.same_as(kind) {
                proof {
                    lemma_lookup_index(self.entries(), kind@, i as int);
                }
                return Some(&self.entries[i].1);
            }
            i += 1;
        }
        proof {
            lemma_lookup_absent(self.entries(), kind@);
        }
        None
    }

    fn invalidated_contains(&self, room_id: &String) -> (found: bool)
        ensures
            found == self.invalidated().contains(room_id@),
    {
        let mut i: usize = 0;
        while i < self.invalidated_rooms.len()
            invariant
                0 <= i <= self.invalidated_rooms@.len(),
                forall|k: int| 0 <= k < i ==> self.invalidated_rooms@[k]@ != room_id@,
            decreases self.invalidated_rooms@.len() - i,
        {
            if self.invalidated_rooms[i] == *room_id {
                proof {
                    assert(rooms_view(self.invalidated_rooms@)[i as int] == room_id@);
                }
                return true;
            }
            i += 1;
        }
        proof {
            if self.invalidated().contains(room_id@) {
                let k = choose|k: int| 0 <= k < self.invalidated_rooms@.len()
                    && #[trigger] rooms_view(self.invalidated_rooms@)[k] == room_id@;
                assert(self.invalidated_rooms@[k]@ == room_id@);
            }
        }
        false
    }
}

/// Clears all UI-related timeline states for all known rooms.
pub fn clear_timeline_states<S>(states: &mut TimelineStates<S>)
    ensures
        final(states).wf(),
        final(states).entries() == Seq::<(TimelineKindView, S)>::empty(),
        final(states).invalidated() == old(states).invalidated(),
{
    states.entries.clear();
    proof {
        assert(states.entries() =~= Seq::<(TimelineKindView, S)>::empty());
    }
}

/// Clears the UI-related timeline states (the main room timeline plus any
/// thread timelines) of the single room `room_id`, and refuses later
/// attempts to save a state for that room.
pub fn invalidate_timeline_state_for_room<S>(states: &mut TimelineStates<S>, room_id: &String)
    requires
        old(states).wf(),
    ensures
        final(states).wf(),
        final(states).entries() == without_room(old(states).entries(), room_id@),
        final(states).invalidated() == old(states).invalidated().insert(room_id@),
{
    let mut kept: Vec<(TimelineKind, S)> = Vec::new();
    let ghost old_entries = states.entries();
    let mut old_vec: Vec<(TimelineKind, S)> = Vec::new();
    std::mem::swap(&mut old_vec, &mut states.entries);
    let ghost all = old_vec@;
    let ghost all_view = entries_view(all);
    assert(all_view == old_entries);
    let mut rest = old_vec;
    // Walk the old entries front to back, keeping those of other rooms.
    let ghost mut n: int = 0;
    let ghost len = all.len();
    while rest.len() > 0
        invariant
            all_view == entries_view(all),
            distinct_kinds(all_view),
            all_view == old_entries,
            0 <= n,
            states.invalidated_rooms == old(states).invalidated_rooms,
            n + rest@.len() == len,
            len == all.len(),
            rest@ == all.skip(n as int),
            entries_view(kept@) == without_room(all_view.take(n as int), room_id@),
        decreases rest@.len(),
    {
        let entry = rest.remove(0);
        proof {
            assert(entry == all[n as int]);
            assert(all_view.take(n + 1).drop_last() =~= all_view.take(n as int));
            assert(all_view.take(n + 1).last() == (entry.0@, entry.1));
            assert(rest@ =~= all.skip(n + 1));
        }
        if *entry.0.room_id() != *room_id {
            kept.push(entry);
        }
        proof {
            n = n + 1;
        }
        proof {
            assert(entries_view(kept@) =~= without_room(all_view.take(n as int), room_id@));
        }
    }
    proof {
        assert(all_view.take(n as int) =~= all_view);
        lemma_without_room_distinct(all_view, room_id@);
    }
    states.entries = kept;
    let room = room_id.clone();
    states.invalidated_rooms.push(room);
    proof {
        assert(states.entries() =~= without_room(old_entries, room_id@));
        assert(rooms_view(states.invalidated_rooms@) =~= rooms_view(old(states).invalidated_rooms@).push(room_id@));
        assert(states.invalidated() =~= old(states).invalidated().insert(room_id@));
    }
}

/// Marks `room_id` as valid again, e.g. once it has been (re-)joined, so
/// that its timeline states can be saved once more.
pub fn clear_timeline_invalidation_for_room<S>(states: &mut TimelineStates<S>, room_id: &String)
    requires
        old(states).wf(),
    ensures
        final(states).wf(),
        final(states).entries() == old(states).entries(),
        final(states).invalidated() == old(states).invalidated().remove(room_id@),
{
    let mut i: usize = 0;
    let ghost old_rooms = rooms_view(states.invalidated_rooms@);
    while i < states.invalidated_rooms.len()
        invariant
            0 <= i <= states.invalidated_rooms@.len(),
            states.entries == old(states).entries,
            rooms_view(states.invalidated_rooms@).to_set().remove(room_id@)
                == old_rooms.to_set().remove(room_id@),
            forall|k: int| 0 <= k < i ==> states.invalidated_rooms@[k]@ != room_id@,
            old_rooms.to_set().remove(room_id@).subset_of(old_rooms.to_set()),
        decreases states.invalidated_rooms@.len() - i,
    {
        if states.invalidated_rooms[i] == *room_id {
            let ghost before = rooms_view(states.invalidated_rooms@);
            states.invalidated_rooms.remove(i);
            proof {
                let after = rooms_view(states.invalidated_rooms@);
                assert(after =~= before.remove(i as int));
                assert(after.to_set().remove(room_id@) =~= before.to_set().remove(room_id@)) by {
                    assert forall|r: Seq<char>| after.to_set().remove(room_id@).contains(r)
                        implies before.to_set().remove(room_id@).contains(r) by {
                        let k = choose|k: int| 0 <= k < after.len() && after[k] == r;
                        if k < i {
                            assert(before[k] == r);
                        } else {
                            assert(before[k + 1] == r);
                        }
                    }
                    assert forall|r: Seq<char>| before.to_set().remove(room_id@).contains(r)
                        implies after.to_set().remove(room_id@).contains(r) by {
                        let k = choose|k: int| 0 <= k < before.len() && before[k] == r;
                        assert(k != i);
                        if k < i {
                            assert(after[k] == r);
                        } else {
                            assert(after[k - 1] == r);
                        }
                    }
                }
            }
        } else {
            i += 1;
        }
    }
    proof {
        let rooms = rooms_view(states.invalidated_rooms@);
        assert(!rooms.to_set().contains(room_id@)) by {
            if rooms.to_set().contains(room_id@) {
                let k = choose|k: int| 0 <= k < rooms.len() && rooms[k] == room_id@;
                assert(states.invalidated_rooms@[k]@ == room_id@);
            }
        }
        assert(rooms.to_set() =~= old_rooms.to_set().remove(room_id@));
    }
}

/// Saves `state` for the timeline `kind`, unless its room has been
/// invalidated in the meantime.  Returns whether the state was saved.
pub fn store_timeline_state<S>(states: &mut TimelineStates<S>, kind: TimelineKind, state: S) -> (stored: bool)
    requires
        old(states).wf(),
    ensures
        final(states).wf(),
        stored == !old(states).invalidated().contains(kind@.room_id()),
        final(states).entries() == if stored {
            with_state(old(states).entries(), kind@, state)
        } else {
            old(states).entries()
        },
        final(states).invalidated() == old(states).invalidated(),
{
    if states.invalidated_contains(kind.room_id()) {
        return false;
    }
    let ghost old_entries = states.entries();
    let ghost kv = kind@;
    let mut i: usize = 0;
    while i < states.entries.len()
        invariant
            0 <= i <= states.entries@.len(),
            states.entries() == old_entries,
            distinct_kinds(old_entries),
            old_entries == old(states).entries(),
            kv == kind@,
            !old(states).invalidated().contains(kind@.room_id()),
            states.invalidated_rooms == old(states).invalidated_rooms,
            forall|k: int| 0 <= k < i ==> old_entries[k].0 != kind@,
        decreases states.entries@.len() - i,
    {
        if states.entries[i].0.same_as(&kind) {
            proof {
                assert(old_entries[i as int].0 == kind@);
                let c = choose|c: int| 0 <= c < old_entries.len() && #[trigger] old_entries[c].0 == kind@;
                // the timeline occurs once, so the chosen index is `i`
                assert(c == i);
            }
            states.entries.set(i, (kind, state));
            proof {
                assert(states.entries() =~= old_entries.update(i as int, (kv, state)));
            }
            return true;
        }
        i += 1;
    }
    states.entries.push((kind, state));
    proof {
        assert(states.entries() =~= old_entries.push((kv, state)));
        assert forall|c: int| 0 <= c < old_entries.len() implies #[trigger] old_entries[c].0 != kv by {}
    }
    true
}

pub proof fn lemma_lookup_index<S>(entries: Seq<(TimelineKindView, S)>, kind: TimelineKindView, i: int)
    requires
        distinct_kinds(entries),
        0 <= i < entries.len(),
        entries[i].0 == kind,
    ensures
        lookup(entries, kind) == Some(entries[i].1),
    decreases entries.len(),
{
    if i > 0 {
        assert(entries[0].0 != entries[i].0);
        let rest = entries.drop_first();
        assert(distinct_kinds(rest)) by {
            assert forall|a: int, b: int| 0 <= a < b < rest.len() implies #[trigger] rest[a].0 != #[trigger] rest[b].0 by {
                assert(rest[a] == entries[a + 1] && rest[b] == entries[b + 1]);
            }
        }
        lemma_lookup_index(rest, kind, i - 1);
    }
}

pub proof fn lemma_lookup_absent<S>(entries: Seq<(TimelineKindView, S)>, kind: TimelineKindView)
    requires
        forall|i: int| 0 <= i < entries.len() ==> #[trigger] entries[i].0 != kind,
    ensures
        lookup(entries, kind) is None,
    decreases entries.len(),
{
    if entries.len() > 0 {
        let rest = entries.drop_first();
        assert forall|i: int| 0 <= i < rest.len() implies #[trigger] rest[i].0 != kind by {
            assert(rest[i] == entries[i + 1]);
        }
        lemma_lookup_absent(rest, kind);
    }
}

/// What a read gives back of a write: once a state is saved for a timeline,
/// looking that timeline up gives that state, and every other timeline
/// keeps the state it had.
pub proof fn lemma_read_after_store<S>(entries: Seq<(TimelineKindView, S)>, kind: TimelineKindView, state: S, other: TimelineKindView)
    requires
        distinct_kinds(entries),
    ensures
        distinct_kinds(with_state(entries, kind, state)),
        lookup(with_state(entries, kind, state), kind) == Some(state),
        other != kind ==> lookup(with_state(entries, kind, state), other) == lookup(entries, other),
{
    let after = with_state(entries, kind, state);
    if exists|i: int| 0 <= i < entries.len() && #[trigger] entries[i].0 == kind {
        let i = choose|i: int| 0 <= i < entries.len() && #[trigger] entries[i].0 == kind;
        assert(after == entries.update(i, (kind, state)));
        assert(distinct_kinds(after)) by {
            assert forall|a: int, b: int| 0 <= a < b < after.len() implies #[trigger] after[a].0 != #[trigger] after[b].0 by {
                assert(after[a].0 == entries[a].0 && after[b].0 == entries[b].0);
            }
        }
        lemma_lookup_index(after, kind, i);
        if other != kind {
            if exists|j: int| 0 <= j < entries.len() && #[trigger] entries[j].0 == other {
                let j = choose|j: int| 0 <= j < entries.len() && #[trigger] entries[j].0 == other;
                lemma_lookup_index(entries, other, j);
                lemma_lookup_index(after, other, j);
            } else {
                lemma_lookup_absent(entries, other);
                assert forall|j: int| 0 <= j < after.len() implies #[trigger] after[j].0 != other by {
                    assert(after[j].0 == entries[j].0);
                }
                lemma_lookup_absent(after, other);
            }
        }
    } else {
        assert(after == entries.push((kind, state)));
        assert(distinct_kinds(after)) by {
            assert forall|a: int, b: int| 0 <= a < b < after.len() implies #[trigger] after[a].0 != #[trigger] after[b].0 by {
                if b == entries.len() {
                    assert(entries[a].0 != kind);
                }
            }
        }
        lemma_lookup_index(after, kind, entries.len() as int);
        if other != kind {
            if exists|j: int| 0 <= j < entries.len() && #[trigger] entries[j].0 == other {
                let j = choose|j: int| 0 <= j < entries.len() && #[trigger] entries[j].0 == other;
                lemma_lookup_index(entries, other, j);
                lemma_lookup_index(after, other, j);
            } else {
                lemma_lookup_absent(entries, other);
                lemma_lookup_absent(after, other);
            }
        }
    }
}

/// Invalidating a room forgets every timeline of that room and keeps the
/// state of every timeline of other rooms.
pub proof fn lemma_invalidation_forgets_room<S>(entries: Seq<(TimelineKindView, S)>, room_id: Seq<char>, kind: TimelineKindView)
    requires
        distinct_kinds(entries),
    ensures
        lookup(without_room(entries, room_id), kind) == if kind.room_id() == room_id {
            None
        } else {
            lookup(entries, kind)
        },
{
    lemma_without_room_distinct(entries, room_id);
    let after = without_room(entries, room_id);
    if kind.room_id() == room_id {
        assert forall|j: int| 0 <= j < after.len() implies #[trigger] after[j].0 != kind by {
            assert(after.contains(after[j]));
        }
        lemma_lookup_absent(after, kind);
    } else {
        if exists|j: int| 0 <= j < entries.len() && #[trigger] entries[j].0 == kind {
            let j = choose|j: int| 0 <= j < entries.len() && #[trigger] entries[j].0 == kind;
            lemma_lookup_index(entries, kind, j);
            lemma_without_room_keeps(entries, room_id, j);
            let k = choose|k: int| 0 <= k < after.len() && after[k] == entries[j];
            lemma_lookup_index(after, kind, k);
        } else {
            lemma_lookup_absent(entries, kind);
            assert forall|j: int| 0 <= j < after.len() implies #[trigger] after[j].0 != kind by {
                assert(after.contains(after[j]));
                let k = choose|k: int| 0 <= k < entries.len() && entries[k] == after[j];
                assert(entries[k].0 != kind);
            }
            lemma_lookup_absent(after, kind);
        }
    }
}

/// Entries of other rooms survive an invalidation.
pub proof fn lemma_without_room_keeps<S>(entries: Seq<(TimelineKindView, S)>, room_id: Seq<char>, j: int)
    requires
        0 <= j < entries.len(),
        entries[j].0.room_id() != room_id,
    ensures
        without_room(entries, room_id).contains(entries[j]),
    decreases entries.len(),
{
    let init = entries.drop_last();
    if j < entries.len() - 1 {
        assert(init[j] == entries[j]);
        lemma_without_room_keeps(init, room_id, j);
        let rest = without_room(init, room_id);
        let k = choose|k: int| 0 <= k < rest.len() && rest[k] == entries[j];
        if entries.last().0.room_id() != room_id {
            assert(rest.push(entries.last())[k] == entries[j]);
        }
    } else {
        let rest = without_room(init, room_id);
        assert(rest.push(entries.last())[rest.len() as int] == entries[j]);
    }
}

/// An invalidated room refuses every later save until its invalidation is
/// cleared, after which saves go through again.
pub proof fn lemma_invalidation_blocks_until_cleared(invalidated: Set<Seq<char>>, room_id: Seq<char>, kind: TimelineKindView)
    requires
        kind.room_id() == room_id,
    ensures
        invalidated.insert(room_id).contains(kind.room_id()),
        !invalidated.insert(room_id).remove(room_id).contains(kind.room_id()),
{
}

pub proof fn lemma_without_room_distinct<S>(entries: Seq<(TimelineKindView, S)>, room_id: Seq<char>)
    requires
        distinct_kinds(entries),
    ensures
        distinct_kinds(without_room(entries, room_id)),
        forall|e: (TimelineKindView, S)| #[trigger] without_room(entries, room_id).contains(e)
            ==> entries.contains(e) && e.0.room_id() != room_id,
    decreases entries.len(),
{
    if entries.len() > 0 {
        let init = entries.drop_last();
        assert(distinct_kinds(init));
        lemma_without_room_distinct(init, room_id);
        let rest = without_room(init, room_id);
        assert forall|e: (TimelineKindView, S)| #[trigger] rest.contains(e) implies entries.contains(e) by {
            let k = choose|k: int| 0 <= k < init.len() && init[k] == e;
            assert(entries[k] == e);
        }
        if entries.last().0.room_id() != room_id {
            assert forall|i: int, j: int| 0 <= i < j < rest.push(entries.last()).len()
                implies #[trigger] rest.push(entries.last())[i].0 != #[trigger] rest.push(entries.last())[j].0 by {
                if j == rest.len() {
                    assert(rest.contains(rest[i]));
                    let k = choose|k: int| 0 <= k < init.len() && init[k] == rest[i];
                    assert(entries[k].0 != entries[entries.len() - 1].0);
                }
            }
        }
    }
}

/// A message from a room's background task to its timeline view.  Full
/// snapshots of the timeline items carry the range of changed indices;
/// every other kind of update is opaque here.
pub enum TimelineUpdate<T, U> {
    /// The entire list of timeline items, with the range of indices that
    /// changed, whether items were only appended, and whether the whole
    /// drawn-item cache must be cleared.
    NewItems { new_items: T, changed_indices: Range<usize>, is_append: bool, clear_cache: bool },
    /// Any other update, delivered as it is.
    Other(U),
}

/// The snapshot that replaces two adjacent snapshots: the later items, the
/// smallest range covering both changed ranges, and either flag set when
/// either snapshot set it.
pub open spec fn coalesced<T, U>(earlier: TimelineUpdate<T, U>, later: TimelineUpdate<T, U>) -> TimelineUpdate<T, U> {
    match (earlier, later) {
        (
            TimelineUpdate::NewItems { changed_indices: r1, is_append: a1, clear_cache: c1, .. },
            TimelineUpdate::NewItems { new_items, changed_indices: r2, is_append: a2, clear_cache: c2 },
        ) => TimelineUpdate::NewItems {
            new_items,
            changed_indices: Range {
                start: if r1.start <= r2.start { r1.start } else { r2.start },
                end: if r1.end >= r2.end { r1.end } else { r2.end },
            },
            is_append: a1 || a2,
            clear_cache: c1 || c2,
        },
        (_, later) => later,
    }
}

/// The pending queue after `update` arrives: a snapshot that follows a
/// snapshot replaces it; anything else is appended.
pub open spec fn enqueued<T, U>(pending: Seq<TimelineUpdate<T, U>>, update: TimelineUpdate<T, U>) -> Seq<TimelineUpdate<T, U>> {
    if update is NewItems && pending.len() > 0 && pending.last() is NewItems {
        pending.drop_last().push(coalesced(pending.last(), update))
    } else {
        pending.push(update)
    }
}

/// No two snapshots stand next to each other in the queue.
pub open spec fn no_adjacent_snapshots<T, U>(pending: Seq<TimelineUpdate<T, U>>) -> bool {
    forall|i: int| 0 <= i < pending.len() - 1 ==> !(#[trigger] pending[i] is NewItems && pending[i + 1] is NewItems)
}

/// Queues `update` behind the pending updates, coalescing it with the last
/// pending update when both are full timeline snapshots.
pub fn enqueue_timeline_update<T, U>(pending_updates: &mut VecDeque<TimelineUpdate<T, U>>, update: TimelineUpdate<T, U>)
    ensures
        final(pending_updates)@ == enqueued(old(pending_updates)@, update),
{
    match update {
        TimelineUpdate::NewItems { new_items, changed_indices, clear_cache, is_append } => {
            let len = pending_updates.len();
            if len > 0 && matches!(&pending_updates[len - 1], TimelineUpdate::NewItems { .. }) {
                let previous = pending_updates.pop_back();
                match previous {
                    Some(TimelineUpdate::NewItems {
                        changed_indices: previous_changed_indices,
                        clear_cache: previous_clear_cache,
                        is_append: previous_is_append,
                        ..
                    }) => {
                        let start = if previous_changed_indices.start <= changed_indices.start {
                            previous_changed_indices.start
                        } else {
                            changed_indices.start
                        };
                        let end = if previous_changed_indices.end >= changed_indices.end {
                            previous_changed_indices.end
                        } else {
                            changed_indices.end
                        };
                        pending_updates.push_back(TimelineUpdate::NewItems {
                            new_items,
                            changed_indices: start..end,
                            clear_cache: previous_clear_cache || clear_cache,
                            is_append: previous_is_append || is_append,
                        });
                        proof {
                            assert(old(pending_updates)@.subrange(0, len - 1) =~= old(pending_updates)@.drop_last());
                        }
                    },
                    _ => {
                        // The last pending update was just seen to be a snapshot.
                        assert(false);
                    },
                }
            } else {
                pending_updates.push_back(TimelineUpdate::NewItems {
                    new_items,
                    changed_indices,
                    clear_cache,
                    is_append,
                });
            }
        },
        update => {
            pending_updates.push_back(update);
        },
    }
}

/// Enqueuing keeps snapshots from standing next to each other, and the
/// coalesced snapshot covers the changes of both snapshots it replaces.
pub proof fn lemma_enqueue_keeps_snapshots_apart<T, U>(pending: Seq<TimelineUpdate<T, U>>, update: TimelineUpdate<T, U>)
    requires
        no_adjacent_snapshots(pending),
    ensures
        no_adjacent_snapshots(enqueued(pending, update)),
        enqueued(pending, update).len() == if update is NewItems && pending.len() > 0 && pending.last() is NewItems {
            pending.len()
        } else {
            pending.len() + 1
        },
        update is NewItems && pending.len() > 0 && pending.last() is NewItems ==> {
            let merged = enqueued(pending, update).last();
            &&& merged->changed_indices.start <= pending.last()->changed_indices.start
            &&& merged->changed_indices.start <= update->changed_indices.start
            &&& merged->changed_indices.end >= pending.last()->changed_indices.end
            &&& merged->changed_indices.end >= update->changed_indices.end
        },
{
    let after = enqueued(pending, update);
    assert forall|i: int| 0 <= i < after.len() - 1 implies !(#[trigger] after[i] is NewItems && after[i + 1] is NewItems) by {
        if update is NewItems && pending.len() > 0 && pending.last() is NewItems {
            if i + 1 == after.len() - 1 {
                assert(after[i] == pending[i]);
                assert(pending[i + 1] is NewItems);
            } else {
                assert(after[i] == pending[i] && after[i + 1] == pending[i + 1]);
            }
        } else {
            if i + 1 < pending.len() {
                assert(after[i] == pending[i] && after[i + 1] == pending[i + 1]);
            }
        }
    }
}

} // verus!
