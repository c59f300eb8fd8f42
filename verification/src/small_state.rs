//! Collapsible "small" state events: grouping runs of membership and
//! profile-change events into collapsible groups, the index the draw pass
//! uses to fold collapsed groups, and the summary line of each group.

use std::collections::{HashMap, HashSet};
use vstd::prelude::*;
use crate::i18n::AppLanguage;
use crate::rooms::TimelineKind;
use crate::timeline_view::ItemDrawnStatus;
use crate::text::{
    bytes_before, decimal, decimal_string, lemma_bytes_before_asymmetric,
    lemma_bytes_before_irreflexive, lemma_bytes_before_transitive, replace_all, replaced, str_before,
    str_bytes_before, string_push, string_push_str, lemma_replaced_after_prefix,
};
use vstd::utf8::encode_utf8;

verus! {

broadcast use vstd::seq::group_seq_axioms, vstd::seq_lib::group_seq_properties,
    vstd::std_specs::hash::group_hash_axioms;

/// At least this many consecutive small state events are collapsed into a group.
pub const MIN_SMALL_STATE_EVENTS_TO_COLLAPSE: usize = 2;

/// What a message-like event is.
#[derive(Clone, Copy, Debug, PartialEq, Eq, Structural)]
pub enum MsgLikeKind {
    Message,
    Sticker,
    Poll,
    Redacted,
    UnableToDecrypt,
    LiveLocation,
    Other,
}

/// How a room membership changed.
#[derive(Clone, Copy, Debug, PartialEq, Eq, Structural)]
pub enum MembershipChange {
    NoChange,
    Error,
    Joined,
    Left,
    Banned,
    Unbanned,
    Kicked,
    Invited,
    KickedAndBanned,
    InvitationAccepted,
    InvitationRejected,
    InvitationRevoked,
    Knocked,
    KnockAccepted,
    KnockRetracted,
    KnockDenied,
    NotImplemented,
}

/// The content of a timeline event, as far as grouping and summaries read it.
#[derive(Clone, Debug)]
pub enum EventContent {
    /// A message-like event; `in_thread` when it belongs to a thread.
    MsgLike { kind: MsgLikeKind, in_thread: bool },
    /// A change of a member's room membership (`None` when unknown).
    MembershipChange { change: Option<MembershipChange> },
    /// A change of a member's profile.
    ProfileChange { avatar_url_changed: bool, display_name_changed: bool },
    /// Any other state event.
    OtherState,
    /// Anything else (events that failed to parse, call invites, ...).
    Other,
}

/// A timeline event, as far as grouping and summaries read it.
#[derive(Clone, Debug)]
pub struct EventItem {
    pub event_id: Option<String>,
    /// The sender's user ID.
    pub sender: String,
    /// The sender's display name, when their profile is available and has one.
    pub sender_display_name: Option<String>,
    pub content: EventContent,
}

/// An item of a room's timeline.
#[derive(Clone, Debug)]
pub enum TimelineItem {
    /// A virtual item (day divider, read marker, ...).
    Virtual,
    Event(EventItem),
}

/// A run of consecutive small state events.
#[derive(Clone, Debug)]
pub struct SmallStateEventGroup {
    pub start: usize,
    pub end: usize,
    pub count: usize,
    pub first_event_id: String,
    pub collapsed: bool,
}

/// A group as plain values.
pub struct GroupView {
    pub start: int,
    pub end: int,
    pub count: int,
    pub first_event_id: Seq<char>,
    pub collapsed: bool,
}

pub open spec fn group_view(g: SmallStateEventGroup) -> GroupView {
    GroupView {
        start: g.start as int,
        end: g.end as int,
        count: g.count as int,
        first_event_id: g.first_event_id@,
        collapsed: g.collapsed,
    }
}

pub open spec fn groups_view(gs: Seq<SmallStateEventGroup>) -> Seq<GroupView> {
    gs.map_values(|g: SmallStateEventGroup| group_view(g))
}

/// IDs as plain values.
pub open spec fn ids_view(ids: Seq<String>) -> Seq<Seq<char>> {
    ids.map_values(|s: String| s@)
}

/// Whether `item` is shown as a small state event in a timeline that is a
/// thread timeline when `in_thread_timeline`: membership, profile and other
/// state changes, and polls, undecryptable messages, live locations and
/// other message-like events that are not thread replies shown in the main
/// timeline.
pub open spec fn is_small_state(item: TimelineItem, in_thread_timeline: bool) -> bool {
    match item {
        TimelineItem::Virtual => false,
        TimelineItem::Event(e) => match e.content {
            EventContent::MsgLike { kind, in_thread } => {
                !(!in_thread_timeline && in_thread) && (kind == MsgLikeKind::Poll
                    || kind == MsgLikeKind::UnableToDecrypt || kind == MsgLikeKind::LiveLocation
                    || kind == MsgLikeKind::Other)
            },
            EventContent::MembershipChange { .. } => true,
            EventContent::ProfileChange { .. } => true,
            EventContent::OtherState => true,
            EventContent::Other => false,
        },
    }
}

pub open spec fn is_thread_timeline(kind: TimelineKind) -> bool {
    kind is Thread
}

/// The event ID of `item`, if it is an event that has one.
pub open spec fn item_event_id(item: TimelineItem) -> Option<Seq<char>> {
    match item {
        TimelineItem::Event(e) => match e.event_id {
            Some(id) => Some(id@),
            None => None,
        },
        TimelineItem::Virtual => None,
    }
}

/// The end of the run of small state events that continues at `i`.
pub open spec fn run_end(items: Seq<TimelineItem>, th: bool, i: int) -> int
    decreases items.len() - i,
{
    if 0 <= i < items.len() && is_small_state(items[i], th) {
        run_end(items, th, i + 1)
    } else {
        i
    }
}

/// The groups of the runs of small state events from index `i` on: every
/// maximal run of at least two such events whose first item has an event
/// ID, collapsed unless that ID is expanded.
pub open spec fn groups_from(items: Seq<TimelineItem>, th: bool, expanded: Set<Seq<char>>, i: int) -> Seq<GroupView>
    decreases items.len() - i,
{
    if i < 0 || i >= items.len() {
        Seq::empty()
    } else if !is_small_state(items[i], th) {
        groups_from(items, th, expanded, i + 1)
    } else {
        proof {
            lemma_run_end_bounds(items, th, i + 1);
        }
        let e = run_end(items, th, i + 1);
        let rest = groups_from(items, th, expanded, e);
        if e - i < MIN_SMALL_STATE_EVENTS_TO_COLLAPSE || item_event_id(items[i]) is None {
            rest
        } else {
            let id = item_event_id(items[i])->0;
            seq![GroupView { start: i, end: e, count: e - i, first_event_id: id, collapsed: !expanded.contains(id) }] + rest
        }
    }
}

pub proof fn lemma_run_end_bounds(items: Seq<TimelineItem>, th: bool, i: int)
    requires
        0 <= i <= items.len(),
    ensures
        i <= run_end(items, th, i) <= items.len(),
        forall|k: int| i <= k < run_end(items, th, i) ==> is_small_state(#[trigger] items[k], th),
        run_end(items, th, i) < items.len() ==> !is_small_state(items[run_end(items, th, i)], th),
    decreases items.len() - i,
{
    if i < items.len() && is_small_state(items[i], th) {
        lemma_run_end_bounds(items, th, i + 1);
    }
}

/// A message-like event, unless it is a thread reply shown in the main
/// timeline, is a small state event exactly when it is not ordinary
/// content: polls, undecryptable messages, live locations and other
/// message-like events are; messages, stickers and redacted messages are
/// not.  A thread reply shown in the main timeline never is.
pub proof fn lemma_message_like_small_state(e: EventItem, kind: MsgLikeKind, in_thread: bool, th: bool)
    requires
        e.content == (EventContent::MsgLike { kind, in_thread }),
    ensures
        (th || !in_thread) ==> (is_small_state(TimelineItem::Event(e), th) <==> !(kind == MsgLikeKind::Message
            || kind == MsgLikeKind::Sticker || kind == MsgLikeKind::Redacted)),
        (!th && in_thread) ==> !is_small_state(TimelineItem::Event(e), th),
{
}

/// Membership, profile and other state changes are always small state
/// events, in any timeline; virtual items and other events never are.
pub proof fn lemma_state_changes_small_state(e: EventItem, th: bool)
    ensures
        (e.content is MembershipChange || e.content is ProfileChange || e.content is OtherState)
            ==> is_small_state(TimelineItem::Event(e), th),
        e.content is Other ==> !is_small_state(TimelineItem::Event(e), th),
        !is_small_state(TimelineItem::Virtual, th),
{
}

/// A timeline made only of small state events, at least two of them and
/// the first with an event ID, folds into exactly one group that covers
/// all of it.
pub proof fn lemma_all_small_state_one_group(items: Seq<TimelineItem>, th: bool, expanded: Set<Seq<char>>)
    requires
        items.len() >= MIN_SMALL_STATE_EVENTS_TO_COLLAPSE,
        forall|k: int| 0 <= k < items.len() ==> is_small_state(#[trigger] items[k], th),
        item_event_id(items[0]) is Some,
    ensures
        groups_from(items, th, expanded, 0) == seq![GroupView {
            start: 0,
            end: items.len() as int,
            count: items.len() as int,
            first_event_id: item_event_id(items[0])->0,
            collapsed: !expanded.contains(item_event_id(items[0])->0),
        }],
{
    lemma_run_end_bounds(items, th, 1);
    let e = run_end(items, th, 1);
    if e < items.len() {
        assert(is_small_state(items[e], th));
    }
    assert(e == items.len());
    assert(groups_from(items, th, expanded, e) =~= Seq::<GroupView>::empty());
    assert(groups_from(items, th, expanded, 0) =~= seq![GroupView {
        start: 0,
        end: items.len() as int,
        count: items.len() as int,
        first_event_id: item_event_id(items[0])->0,
        collapsed: !expanded.contains(item_event_id(items[0])->0),
    }]);
}

/// Whether `item` is shown as a small state event in the timeline `timeline_kind`.
pub fn timeline_item_is_small_state_event(item: &TimelineItem, timeline_kind: &TimelineKind) -> (small: bool)
    ensures
        small == is_small_state(*item, is_thread_timeline(*timeline_kind)),
{
    let TimelineItem::Event(event) = item else {
        return false;
    };
    match &event.content {
        EventContent::MsgLike { kind, in_thread } => {
            let is_main_timeline = match timeline_kind {
                TimelineKind::Thread { .. } => false,
                _ => true,
            };
            if is_main_timeline && *in_thread {
                return false;
            }
            match kind {
                MsgLikeKind::Poll | MsgLikeKind::UnableToDecrypt | MsgLikeKind::LiveLocation
                | MsgLikeKind::Other => true,
                _ => false,
            }
        },
        EventContent::MembershipChange { .. } | EventContent::ProfileChange { .. }
        | EventContent::OtherState => true,
        _ => false,
    }
}

fn contains_id(ids: &[String], id: &String) -> (found: bool)
    ensures
        found == ids_view(ids@).to_set().contains(id@),
{
    let mut i: usize = 0;
    while i < ids.len()
        invariant
            0 <= i <= ids@.len(),
            forall|k: int| 0 <= k < i ==> ids@[k]@ != id@,
        decreases ids@.len() - i,
    {
        if ids[i] == *id {
            assert(ids_view(ids@)[i as int] == id@);
            return true;
        }
        i += 1;
    }
    proof {
        if ids_view(ids@).to_set().contains(id@) {
            let k = choose|k: int| 0 <= k < ids_view(ids@).len() && ids_view(ids@)[k] == id@;
            assert(ids@[k]@ == id@);
        }
    }
    false
}

fn event_id_of(item: &TimelineItem) -> (id: Option<&String>)
    ensures
        match id {
            Some(s) => item_event_id(*item) == Some(s@),
            None => item_event_id(*item) is None,
        },
{
    match item {
        TimelineItem::Event(event) => match &event.event_id {
            Some(id) => Some(id),
            None => None,
        },
        TimelineItem::Virtual => None,
    }
}

/// The groups of small state events in `items`: each maximal run of at least
/// two such events whose first item has an event ID, collapsed unless that
/// ID is in `expanded_group_event_ids`.
pub fn compute_small_state_event_groups(
    items: &[TimelineItem],
    timeline_kind: &TimelineKind,
    expanded_group_event_ids: &[String],
) -> (groups: Vec<SmallStateEventGroup>)
    ensures
        groups_view(groups@) == groups_from(
            items@,
            is_thread_timeline(*timeline_kind),
            ids_view(expanded_group_event_ids@).to_set(),
            0,
        ),
{
    let ghost th = is_thread_timeline(*timeline_kind);
    let ghost expanded = ids_view(expanded_group_event_ids@).to_set();
    let mut groups: Vec<SmallStateEventGroup> = Vec::new();
    let mut idx: usize = 0;
    while idx < items.len()
        invariant
            0 <= idx <= items@.len(),
            th == is_thread_timeline(*timeline_kind),
            expanded == ids_view(expanded_group_event_ids@).to_set(),
            groups_from(items@, th, expanded, 0) == groups_view(groups@) + groups_from(items@, th, expanded, idx as int),
        decreases items@.len() - idx,
    {
        let is_small = timeline_item_is_small_state_event(&items[idx], timeline_kind);
        if !is_small {
            idx += 1;
            continue;
        }
        let start = idx;
        idx += 1;
        while idx < items.len() && timeline_item_is_small_state_event(&items[idx], timeline_kind)
            invariant
                start < idx <= items@.len(),
                th == is_thread_timeline(*timeline_kind),
                run_end(items@, th, start + 1) == run_end(items@, th, idx as int),
            decreases items@.len() - idx,
        {
            idx += 1;
        }
        let end = idx;
        proof {
            assert(run_end(items@, th, end as int) == end as int);
            lemma_run_end_bounds(items@, th, start + 1);
        }
        let count = end - start;
        if count < MIN_SMALL_STATE_EVENTS_TO_COLLAPSE {
            continue;
        }
        match event_id_of(&items[start]) {
            None => {
                continue;
            },
            Some(first_event_id) => {
                let collapsed = !contains_id(expanded_group_event_ids, first_event_id);
                let group = SmallStateEventGroup {
                    start,
                    end,
                    count,
                    first_event_id: first_event_id.clone(),
                    collapsed,
                };
                let ghost before = groups@;
                groups.push(group);
                proof {
                    assert(groups_view(groups@) =~= groups_view(before).push(group_view(group)));
                    assert(groups_view(before) + groups_from(items@, th, expanded, start as int) =~= groups_view(
                        groups@,
                    ) + groups_from(items@, th, expanded, end as int));
                }
            },
        }
    }
    proof {
        assert(groups_view(groups@) + Seq::<GroupView>::empty() =~= groups_view(groups@));
    }
    groups
}

/// The lookup that the draw pass uses to fold small state-event groups.
pub struct SmallStateEventGroupIndex {
    /// The groups, by the index of their first item.
    pub by_start: HashMap<usize, SmallStateEventGroup>,
    /// The indices of the items hidden inside collapsed groups.
    pub collapsed_hidden_indices: HashSet<usize>,
    /// The summary line of each group, by the index of its first item.
    pub summary_by_start: HashMap<usize, String>,
}

/// The groups by first index; a later group with the same start wins.
pub open spec fn groups_by_start(groups: Seq<SmallStateEventGroup>) -> Map<usize, SmallStateEventGroup>
    decreases groups.len(),
{
    if groups.len() == 0 {
        Map::empty()
    } else {
        groups_by_start(groups.drop_last()).insert(groups.last().start, groups.last())
    }
}

/// The indices hidden by collapsed groups: all but the first item of each.
pub open spec fn hidden_indices(groups: Seq<SmallStateEventGroup>) -> Set<usize> {
    Set::new(|i: usize| exists|k: int| 0 <= k < groups.len() && #[trigger] groups[k].collapsed
        && groups[k].start < i < groups[k].end)
}

/// Indexes `groups` by their first item and collects the items that
/// collapsed groups hide.
pub fn index_small_state_event_groups(groups: Vec<SmallStateEventGroup>) -> (index: SmallStateEventGroupIndex)
    requires
        forall|k: int| 0 <= k < groups@.len() && #[trigger] groups@[k].collapsed ==> groups@[k].start < usize::MAX,
    ensures
        index.by_start@ == groups_by_start(groups@),
        index.collapsed_hidden_indices@ == hidden_indices(groups@),
        index.summary_by_start@ == Map::<usize, String>::empty(),
{
    let mut by_start: HashMap<usize, SmallStateEventGroup> = HashMap::new();
    let mut hidden: HashSet<usize> = HashSet::new();
    let ghost all = groups@;
    let ghost mut n: int = 0;
    let mut rest = groups;
    while rest.len() > 0
        invariant
            0 <= n,
            forall|k: int| 0 <= k < all.len() && #[trigger] all[k].collapsed ==> all[k].start < usize::MAX,
            n + rest@.len() == all.len(),
            rest@ == all.skip(n),
            by_start@ == groups_by_start(all.take(n)),
            hidden@ == hidden_indices(all.take(n)),
        decreases rest@.len(),
    {
        let group = rest.remove(0);
        proof {
            assert(group == all[n]);
            assert(rest@ =~= all.skip(n + 1));
            assert(all.take(n + 1).drop_last() =~= all.take(n));
        }
        if group.collapsed {
            let mut i = group.start + 1;
            let ghost before = hidden@;
            while i < group.end
                invariant
                    group.start < i,
                    i <= group.end || i == group.start + 1,
                    hidden@ == before.union(Set::new(|x: usize| group.start < x < i)),
                decreases group.end - i,
            {
                hidden.insert(i);
                i += 1;
                proof {
                    assert(hidden@ =~= before.union(Set::new(|x: usize| group.start < x < i)));
                }
            }
            proof {
                assert(hidden@ =~= hidden_indices(all.take(n + 1))) by {
                    let t = all.take(n + 1);
                    assert forall|x: usize| hidden@.contains(x) == hidden_indices(t).contains(x) by {
                        if hidden_indices(t).contains(x) {
                            let k = choose|k: int| 0 <= k < t.len() && #[trigger] t[k].collapsed && t[k].start < x < t[k].end;
                            if k < n {
                                assert(all.take(n)[k] == t[k]);
                            }
                        }
                        if before.contains(x) {
                            let k = choose|k: int| 0 <= k < n && #[trigger] all.take(n)[k].collapsed
                                && all.take(n)[k].start < x < all.take(n)[k].end;
                            assert(t[k] == all.take(n)[k]);
                        }
                        if group.start < x < i {
                            assert(t[n] == group);
                        }
                    }
                }
            }
        } else {
            proof {
                assert(hidden@ =~= hidden_indices(all.take(n + 1))) by {
                    let t = all.take(n + 1);
                    assert forall|x: usize| hidden@.contains(x) == hidden_indices(t).contains(x) by {
                        if hidden_indices(t).contains(x) {
                            let k = choose|k: int| 0 <= k < t.len() && #[trigger] t[k].collapsed && t[k].start < x < t[k].end;
                            assert(k < n);
                            assert(all.take(n)[k] == t[k]);
                        }
                        if hidden@.contains(x) {
                            let k = choose|k: int| 0 <= k < n && #[trigger] all.take(n)[k].collapsed
                                && all.take(n)[k].start < x < all.take(n)[k].end;
                            assert(t[k] == all.take(n)[k]);
                        }
                    }
                }
            }
        }
        let start = group.start;
        by_start.insert(start, group);
        proof {
            n = n + 1;
        }
    }
    proof {
        assert(all.take(n) =~= all);
    }
    SmallStateEventGroupIndex { by_start, collapsed_hidden_indices: hidden, summary_by_start: HashMap::new() }
}

/// `ids` without the IDs that are not in `valid`, in order.
pub open spec fn retained(ids: Seq<String>, valid: Set<Seq<char>>) -> Seq<String>
    decreases ids.len(),
{
    if ids.len() == 0 {
        ids
    } else {
        let rest = retained(ids.drop_last(), valid);
        if valid.contains(ids.last()@) {
            rest.push(ids.last())
        } else {
            rest
        }
    }
}

/// The first event IDs of the groups in `groups`.
pub open spec fn group_ids(groups: Seq<GroupView>) -> Set<Seq<char>> {
    Set::new(|id: Seq<char>| exists|k: int| 0 <= k < groups.len() && #[trigger] groups[k].first_event_id == id)
}

/// Forgets the expanded state of groups that no longer exist in `items`.
pub fn prune_expanded_small_state_group_ids(
    items: &[TimelineItem],
    timeline_kind: &TimelineKind,
    expanded_group_event_ids: &mut Vec<String>,
)
    ensures
        final(expanded_group_event_ids)@ == retained(
            old(expanded_group_event_ids)@,
            group_ids(groups_from(items@, is_thread_timeline(*timeline_kind), Set::empty(), 0)),
        ),
{
    let empty: Vec<String> = Vec::new();
    let groups = compute_small_state_event_groups(items, timeline_kind, empty.as_slice());
    proof {
        assert(ids_view(empty@).to_set() =~= Set::<Seq<char>>::empty());
    }
    let mut valid_group_ids: Vec<String> = Vec::new();
    let mut k: usize = 0;
    while k < groups.len()
        invariant
            0 <= k <= groups@.len(),
            valid_group_ids@.len() == k,
            forall|t: int| 0 <= t < k ==> #[trigger] valid_group_ids@[t]@ == groups@[t].first_event_id@,
        decreases groups@.len() - k,
    {
        valid_group_ids.push(groups[k].first_event_id.clone());
        k += 1;
    }
    let ghost valid = group_ids(groups_view(groups@));
    proof {
        assert(ids_view(valid_group_ids@).to_set() =~= valid) by {
            assert forall|id: Seq<char>| ids_view(valid_group_ids@).to_set().contains(id) implies valid.contains(id) by {
                let t = choose|t: int| 0 <= t < valid_group_ids@.len() && ids_view(valid_group_ids@)[t] == id;
                assert(groups_view(groups@)[t].first_event_id == id);
            }
            assert forall|id: Seq<char>| valid.contains(id) implies ids_view(valid_group_ids@).to_set().contains(id) by {
                let t = choose|t: int| 0 <= t < groups_view(groups@).len() && #[trigger] groups_view(groups@)[t].first_event_id == id;
                assert(ids_view(valid_group_ids@)[t] == id);
            }
        }
    }
    let ghost all = expanded_group_event_ids@;
    let mut kept: Vec<String> = Vec::new();
    let mut i: usize = 0;
    while i < expanded_group_event_ids.len()
        invariant
            0 <= i <= all.len(),
            expanded_group_event_ids@ == all,
            ids_view(valid_group_ids@).to_set() == valid,
            kept@ == retained(all.take(i as int), valid),
        decreases all.len() - i,
    {
        proof {
            assert(all.take(i + 1).drop_last() =~= all.take(i as int));
        }
        if contains_id(valid_group_ids.as_slice(), &expanded_group_event_ids[i]) {
            kept.push(expanded_group_event_ids[i].clone());
        }
        i += 1;
    }
    proof {
        assert(all.take(i as int) =~= all);
    }
    *expanded_group_event_ids = kept;
}

/// The first `c` in `s`, or the length of `s` when there is none.
pub open spec fn index_of_char(s: Seq<char>, c: char) -> int
    decreases s.len(),
{
    if s.len() == 0 {
        0
    } else if s[0] == c {
        0
    } else {
        1 + index_of_char(s.drop_first(), c)
    }
}

/// `s` without one leading `@`.
pub open spec fn without_at(s: Seq<char>) -> Seq<char> {
    if s.len() > 0 && s[0] == '@' {
        s.drop_first()
    } else {
        s
    }
}

/// The name a summary uses for the sender of `e`: their display name when
/// it is known and not empty, else the localpart of their user ID (the ID
/// without its leading `@`, up to the first `:`).
pub open spec fn sender_name(e: EventItem) -> Seq<char> {
    match e.sender_display_name {
        Some(name) => if name@.len() > 0 {
            name@
        } else {
            without_at(e.sender@).take(index_of_char(without_at(e.sender@), ':'))
        },
        None => without_at(e.sender@).take(index_of_char(without_at(e.sender@), ':')),
    }
}

pub proof fn lemma_index_of_char_bounds(s: Seq<char>, c: char)
    ensures
        0 <= index_of_char(s, c) <= s.len(),
        forall|k: int| 0 <= k < index_of_char(s, c) ==> s[k] != c,
        index_of_char(s, c) < s.len() ==> s[index_of_char(s, c)] == c,
    decreases s.len(),
{
    if s.len() > 0 && s[0] != c {
        lemma_index_of_char_bounds(s.drop_first(), c);
        assert forall|k: int| 0 <= k < index_of_char(s, c) implies s[k] != c by {
            if k > 0 {
                assert(s[k] == s.drop_first()[k - 1]);
            }
        }
    }
}

/// The name that summaries use for the sender of `event_tl_item`.
pub fn summarize_sender_name(event_tl_item: &EventItem) -> (name: String)
    ensures
        name@ == sender_name(*event_tl_item),
{
    if let Some(name) = &event_tl_item.sender_display_name {
        if name.as_str().unicode_len() > 0 {
            return name.clone();
        }
    }
    let raw = crate::text::chars_vec(event_tl_item.sender.as_str());
    let ghost w = without_at(event_tl_item.sender@);
    let mut i: usize = if raw.len() > 0 && raw[0] == '@' { 1 } else { 0 };
    proof {
        assert(w =~= raw@.skip(i as int));
        lemma_index_of_char_bounds(w, ':');
    }
    let mut out = String::new();
    let start = i;
    while i < raw.len() && raw[i] != ':'
        invariant
            start <= i <= raw@.len(),
            w == raw@.skip(start as int),
            out@ == w.take(i - start),
            forall|k: int| 0 <= k < i - start ==> w[k] != ':',
            0 <= index_of_char(w, ':') <= w.len(),
            forall|k: int| 0 <= k < index_of_char(w, ':') ==> w[k] != ':',
            index_of_char(w, ':') < w.len() ==> w[index_of_char(w, ':')] == ':',
        decreases raw@.len() - i,
    {
        string_push(&mut out, raw[i]);
        i += 1;
        proof {
            assert(out@ =~= w.take(i - start));
        }
    }
    proof {
        assert(i - start == index_of_char(w, ':'));
    }
    out
}

/// `names` with `name` added at the end, unless it is already there.
pub open spec fn with_unique(names: Seq<Seq<char>>, name: Seq<char>) -> Seq<Seq<char>> {
    if names.contains(name) {
        names
    } else {
        names.push(name)
    }
}

/// Adds `name` to `names` unless it is already there.
pub fn push_unique_name(names: &mut Vec<String>, name: String)
    ensures
        ids_view(final(names)@) == with_unique(ids_view(old(names)@), name@),
{
    let mut i: usize = 0;
    while i < names.len()
        invariant
            0 <= i <= names@.len(),
            forall|k: int| 0 <= k < i ==> names@[k]@ != name@,
        decreases names@.len() - i,
    {
        if names[i] == name {
            assert(ids_view(names@)[i as int] == name@);
            return;
        }
        i += 1;
    }
    proof {
        assert(!ids_view(names@).contains(name@)) by {
            if ids_view(names@).contains(name@) {
                let k = choose|k: int| 0 <= k < ids_view(names@).len() && ids_view(names@)[k] == name@;
                assert(names@[k]@ == name@);
            }
        }
    }
    let ghost before = names@;
    names.push(name);
    proof {
        assert(ids_view(names@) =~= ids_view(before).push(name@));
    }
}

/// The position of the first count kept for `name`, or -1.
pub open spec fn find_name(counts: Seq<(Seq<char>, nat)>, name: Seq<char>) -> int
    decreases counts.len(),
{
    if counts.len() == 0 {
        -1
    } else {
        let i = find_name(counts.drop_last(), name);
        if i >= 0 {
            i
        } else if counts.last().0 == name {
            counts.len() - 1
        } else {
            -1
        }
    }
}

/// `counts` with the count of `name` raised by one (starting from zero).
pub open spec fn bumped(counts: Seq<(Seq<char>, nat)>, name: Seq<char>) -> Seq<(Seq<char>, nat)> {
    let i = find_name(counts, name);
    if i >= 0 {
        counts.update(i, (name, counts[i].1 + 1))
    } else {
        counts.push((name, 1))
    }
}

pub proof fn lemma_find_name(counts: Seq<(Seq<char>, nat)>, name: Seq<char>)
    ensures
        -1 <= find_name(counts, name) < counts.len(),
        find_name(counts, name) >= 0 ==> counts[find_name(counts, name)].0 == name,
        forall|k: int| 0 <= k < counts.len() && (find_name(counts, name) < 0 || k < find_name(counts, name))
            ==> #[trigger] counts[k].0 != name,
    decreases counts.len(),
{
    if counts.len() > 0 {
        lemma_find_name(counts.drop_last(), name);
        assert forall|k: int| 0 <= k < counts.len() - 1 implies #[trigger] counts[k] == counts.drop_last()[k] by {}
    }
}

pub open spec fn counts_view(counts: Seq<(String, usize)>) -> Seq<(Seq<char>, nat)> {
    counts.map_values(|e: (String, usize)| (e.0@, e.1 as nat))
}

/// What a summary line tells of a group.
pub struct SmallStateSummaryStats {
    /// Users who joined, in order of first appearance.
    pub joined_users: Vec<String>,
    /// Users who left, in order of first appearance.
    pub left_users: Vec<String>,
    /// Number of profile picture changes per user, in order of first appearance.
    pub profile_picture_changes: Vec<(String, usize)>,
    /// Number of display name changes per user, in order of first appearance.
    pub display_name_changes: Vec<(String, usize)>,
    /// Number of all other changes.
    pub other_changes: usize,
}

/// The stats as plain values.
pub struct StatsView {
    pub joined: Seq<Seq<char>>,
    pub left: Seq<Seq<char>>,
    pub pictures: Seq<(Seq<char>, nat)>,
    pub names: Seq<(Seq<char>, nat)>,
    pub other: nat,
}

pub open spec fn stats_view(st: SmallStateSummaryStats) -> StatsView {
    StatsView {
        joined: ids_view(st.joined_users@),
        left: ids_view(st.left_users@),
        pictures: counts_view(st.profile_picture_changes@),
        names: counts_view(st.display_name_changes@),
        other: st.other_changes as nat,
    }
}

/// The stats after taking `item` into account.
pub open spec fn stats_step(st: StatsView, item: TimelineItem) -> StatsView {
    match item {
        TimelineItem::Virtual => st,
        TimelineItem::Event(e) => {
            let name = sender_name(e);
            match e.content {
                EventContent::MembershipChange { change } => match change {
                    Some(MembershipChange::Joined) | Some(MembershipChange::InvitationAccepted) =>
                        StatsView { joined: with_unique(st.joined, name), ..st },
                    Some(MembershipChange::Left) | Some(MembershipChange::KnockRetracted)
                    | Some(MembershipChange::InvitationRejected) =>
                        StatsView { left: with_unique(st.left, name), ..st },
                    Some(MembershipChange::NotImplemented) | Some(MembershipChange::NoChange)
                    | Some(MembershipChange::Error) | None => st,
                    _ => StatsView { other: st.other + 1, ..st },
                },
                EventContent::ProfileChange { avatar_url_changed, display_name_changed } => {
                    let pictures = if avatar_url_changed { bumped(st.pictures, name) } else { st.pictures };
                    let names = if display_name_changed { bumped(st.names, name) } else { st.names };
                    let other = if !avatar_url_changed && !display_name_changed { st.other + 1 } else { st.other };
                    StatsView { pictures, names, other, ..st }
                },
                EventContent::OtherState | EventContent::MsgLike { .. } => StatsView { other: st.other + 1, ..st },
                EventContent::Other => st,
            }
        },
    }
}

pub open spec fn empty_stats() -> StatsView {
    StatsView { joined: Seq::empty(), left: Seq::empty(), pictures: Seq::empty(), names: Seq::empty(), other: 0 }
}

/// The stats of the items at indices `start .. end` that exist in `items`.
pub open spec fn stats_over(items: Seq<TimelineItem>, start: int, end: int) -> StatsView
    decreases end - start,
{
    if end <= start {
        empty_stats()
    } else {
        let st = stats_over(items, start, end - 1);
        if 0 <= end - 1 < items.len() {
            stats_step(st, items[end - 1])
        } else {
            st
        }
    }
}

fn bump_count(counts: &mut Vec<(String, usize)>, name: String, Ghost(bound): Ghost<nat>)
    requires
        forall|k: int| 0 <= k < old(counts)@.len() ==> #[trigger] old(counts)@[k].1 < bound,
        1 <= bound <= usize::MAX,
    ensures
        counts_view(final(counts)@) == bumped(counts_view(old(counts)@), name@),
        forall|k: int| 0 <= k < final(counts)@.len() ==> #[trigger] final(counts)@[k].1 <= bound,
{
    let ghost before = counts_view(counts@);
    proof {
        lemma_find_name(before, name@);
    }
    let mut i: usize = 0;
    while i < counts.len()
        invariant
            0 <= i <= counts@.len(),
            before == counts_view(counts@),
            before == counts_view(old(counts)@),
            forall|k: int| 0 <= k < i ==> counts@[k].0@ != name@,
            forall|k: int| 0 <= k < counts@.len() ==> #[trigger] counts@[k].1 < bound,
            1 <= bound <= usize::MAX,
            -1 <= find_name(before, name@) < before.len(),
            find_name(before, name@) >= 0 ==> before[find_name(before, name@)].0 == name@,
            forall|k: int| 0 <= k < before.len() && (find_name(before, name@) < 0 || k < find_name(before, name@))
                ==> #[trigger] before[k].0 != name@,
        decreases counts@.len() - i,
    {
        if counts[i].0 == name {
            let c = counts[i].1;
            proof {
                assert(before[i as int].0 == name@);
                assert(find_name(before, name@) == i);
            }
            let ghost nv = name@;
            counts.set(i, (name, c + 1));
            proof {
                assert(counts_view(counts@) =~= before.update(i as int, (nv, before[i as int].1 + 1)));
                assert(counts_view(counts@) =~= bumped(before, nv));
            }
            return;
        }
        i += 1;
    }
    proof {
        assert(find_name(before, name@) < 0) by {
            if find_name(before, name@) >= 0 {
                assert(counts@[find_name(before, name@)].0@ == name@);
            }
        }
    }
    counts.push((name, 1));
    proof {
        assert(counts_view(counts@) =~= bumped(before, name@));
    }
}

/// Counts what changed in the items of `group`.
pub fn collect_small_state_summary_stats(items: &[TimelineItem], group: &SmallStateEventGroup) -> (stats: SmallStateSummaryStats)
    ensures
        stats_view(stats) == stats_over(items@, group.start as int, group.end as int),
{
    let mut stats = SmallStateSummaryStats {
        joined_users: Vec::new(),
        left_users: Vec::new(),
        profile_picture_changes: Vec::new(),
        display_name_changes: Vec::new(),
        other_changes: 0,
    };
    proof {
        assert(ids_view(stats.joined_users@) =~= Seq::<Seq<char>>::empty());
        assert(ids_view(stats.left_users@) =~= Seq::<Seq<char>>::empty());
        assert(counts_view(stats.profile_picture_changes@) =~= Seq::<(Seq<char>, nat)>::empty());
        assert(counts_view(stats.display_name_changes@) =~= Seq::<(Seq<char>, nat)>::empty());
    }
    if group.end <= group.start {
        return stats;
    }
    let mut idx = group.start;
    while idx < group.end
        invariant
            group.start <= idx <= group.end,
            stats_view(stats) == stats_over(items@, group.start as int, idx as int),
            stats.other_changes <= idx - group.start,
            forall|k: int| 0 <= k < stats.profile_picture_changes@.len()
                ==> #[trigger] stats.profile_picture_changes@[k].1 <= idx - group.start,
            forall|k: int| 0 <= k < stats.display_name_changes@.len()
                ==> #[trigger] stats.display_name_changes@[k].1 <= idx - group.start,
        decreases group.end - idx,
    {
        let ghost before = stats_view(stats);
        let ghost bound: nat = (idx - group.start + 1) as nat;
        if idx < items.len() {
            match &items[idx] {
                TimelineItem::Virtual => {},
                TimelineItem::Event(event) => {
                    let sender_name = summarize_sender_name(event);
                    match &event.content {
                        EventContent::MembershipChange { change } => match change {
                            Some(MembershipChange::Joined) | Some(MembershipChange::InvitationAccepted) => {
                                push_unique_name(&mut stats.joined_users, sender_name);
                            },
                            Some(MembershipChange::Left) | Some(MembershipChange::KnockRetracted)
                            | Some(MembershipChange::InvitationRejected) => {
                                push_unique_name(&mut stats.left_users, sender_name);
                            },
                            Some(MembershipChange::NotImplemented) | Some(MembershipChange::NoChange)
                            | Some(MembershipChange::Error) | None => {},
                            _ => {
                                stats.other_changes += 1;
                            },
                        },
                        EventContent::ProfileChange { avatar_url_changed, display_name_changed } => {
                            let mut did_count = false;
                            if *avatar_url_changed {
                                bump_count(&mut stats.profile_picture_changes, sender_name.clone(), Ghost(bound));
                                did_count = true;
                            }
                            if *display_name_changed {
                                bump_count(&mut stats.display_name_changes, sender_name, Ghost(bound));
                                did_count = true;
                            }
                            if !did_count {
                                stats.other_changes += 1;
                            }
                        },
                        EventContent::OtherState | EventContent::MsgLike { .. } => {
                            stats.other_changes += 1;
                        },
                        EventContent::Other => {},
                    }
                },
            }
        }
        idx += 1;
        proof {
            assert(stats_view(stats) =~= stats_over(items@, group.start as int, idx as int));
        }
    }
    stats
}

/// `parts` joined with `sep` between them.
pub open spec fn joined(parts: Seq<Seq<char>>, sep: Seq<char>) -> Seq<char>
    decreases parts.len(),
{
    if parts.len() == 0 {
        Seq::empty()
    } else if parts.len() == 1 {
        parts[0]
    } else {
        joined(parts.drop_last(), sep) + sep + parts.last()
    }
}

/// The phrase naming the people in `names`, in `lang`, with the suffix for
/// one person or for several.
pub open spec fn people_phrase(
    lang: AppLanguage,
    names: Seq<Seq<char>>,
    one_en: Seq<char>,
    plural_en: Seq<char>,
    one_zh: Seq<char>,
    plural_zh: Seq<char>,
) -> Option<Seq<char>> {
    if names.len() == 0 {
        None
    } else {
        Some(match lang {
            AppLanguage::ChineseSimplified => if names.len() == 1 {
                names[0] + one_zh
            } else if names.len() == 2 {
                names[0] + "、"@ + names[1] + plural_zh
            } else {
                names[0] + " 等 "@ + decimal(names.len()) + " 人"@ + plural_zh
            },
            AppLanguage::English => if names.len() == 1 {
                names[0] + one_en
            } else if names.len() == 2 {
                names[0] + " and one other"@ + plural_en
            } else {
                names[0] + " and "@ + decimal((names.len() - 1) as nat) + " others"@ + plural_en
            },
        })
    }
}

/// The phrase naming the people in `names`, or `None` when there is nobody.
pub fn format_people_phrase(
    app_language: AppLanguage,
    names: &[String],
    one_suffix_en: &str,
    plural_suffix_en: &str,
    one_suffix_zh: &str,
    plural_suffix_zh: &str,
) -> (phrase: Option<String>)
    ensures
        match phrase {
            Some(p) => people_phrase(app_language, ids_view(names@), one_suffix_en@, plural_suffix_en@, one_suffix_zh@, plural_suffix_zh@) == Some(p@),
            None => people_phrase(app_language, ids_view(names@), one_suffix_en@, plural_suffix_en@, one_suffix_zh@, plural_suffix_zh@) is None,
        },
{
    if names.len() == 0 {
        return None;
    }
    let n = names.len();
    let mut out = names[0].clone();
    match app_language {
        AppLanguage::ChineseSimplified => {
            if n == 1 {
                string_push_str(&mut out, one_suffix_zh);
            } else if n == 2 {
                string_push_str(&mut out, "、");
                string_push_str(&mut out, names[1].as_str());
                string_push_str(&mut out, plural_suffix_zh);
            } else {
                string_push_str(&mut out, " 等 ");
                let count = decimal_string(n);
                string_push_str(&mut out, count.as_str());
                string_push_str(&mut out, " 人");
                string_push_str(&mut out, plural_suffix_zh);
            }
        },
        AppLanguage::English => {
            if n == 1 {
                string_push_str(&mut out, one_suffix_en);
            } else if n == 2 {
                string_push_str(&mut out, " and one other");
                string_push_str(&mut out, plural_suffix_en);
            } else {
                string_push_str(&mut out, " and ");
                let count = decimal_string(n - 1);
                string_push_str(&mut out, count.as_str());
                string_push_str(&mut out, " others");
                string_push_str(&mut out, plural_suffix_en);
            }
        },
    }
    proof {
        assert(ids_view(names@)[0] == names@[0]@);
        if n >= 2 {
            assert(ids_view(names@)[1] == names@[1]@);
        }
    }
    Some(out)
}

/// `x` goes before `y` in the order of the top-user phrase: more changes
/// first, and among equal counts the name that sorts first.
pub open spec fn beats(x: (Seq<char>, nat), y: (Seq<char>, nat)) -> bool {
    x.1 > y.1 || (x.1 == y.1 && str_before(x.0, y.0))
}

/// The position of the entry that goes first (the earliest among equals).
pub open spec fn best_index(counts: Seq<(Seq<char>, nat)>) -> int
    decreases counts.len(),
{
    if counts.len() <= 1 {
        0
    } else {
        let b = best_index(counts.drop_last());
        if beats(counts.last(), counts[b]) {
            counts.len() - 1
        } else {
            b
        }
    }
}

/// The phrase naming the user with the most changes in `counts`, in `lang`,
/// with the suffix for one change or for several (where `{count}` stands
/// for the number).
pub open spec fn top_user_phrase(
    lang: AppLanguage,
    counts: Seq<(Seq<char>, nat)>,
    one_en: Seq<char>,
    many_en: Seq<char>,
    one_zh: Seq<char>,
    many_zh: Seq<char>,
) -> Option<Seq<char>> {
    if counts.len() == 0 {
        None
    } else {
        let (name, count) = counts[best_index(counts)];
        let (one, many) = match lang {
            AppLanguage::ChineseSimplified => (one_zh, many_zh),
            AppLanguage::English => (one_en, many_en),
        };
        Some(if count > 1 { name + replaced(many, "{count}"@, decimal(count)) } else { name + one })
    }
}

pub proof fn lemma_beats_transitive(x: (Seq<char>, nat), y: (Seq<char>, nat), z: (Seq<char>, nat))
    requires
        beats(x, y),
        beats(y, z),
    ensures
        beats(x, z),
{
    if x.1 == y.1 && y.1 == z.1 {
        lemma_bytes_before_transitive(encode_utf8(x.0), encode_utf8(y.0), encode_utf8(z.0));
    }
}

/// No entry goes before the one the top-user phrase names.
pub proof fn lemma_best_index_is_first(counts: Seq<(Seq<char>, nat)>)
    requires
        counts.len() > 0,
    ensures
        0 <= best_index(counts) < counts.len(),
        forall|j: int| 0 <= j < counts.len() ==> !beats(#[trigger] counts[j], counts[best_index(counts)]),
    decreases counts.len(),
{
    if counts.len() == 1 {
        lemma_bytes_before_irreflexive(encode_utf8(counts[0].0));
    } else {
        let init = counts.drop_last();
        lemma_best_index_is_first(init);
        let b = best_index(init);
        lemma_bytes_before_irreflexive(encode_utf8(counts.last().0));
        assert forall|j: int| 0 <= j < counts.len() implies !beats(#[trigger] counts[j], counts[best_index(counts)]) by {
            if beats(counts.last(), counts[b]) {
                if j < counts.len() - 1 {
                    assert(counts[j] == init[j]);
                    if beats(counts[j], counts.last()) {
                        lemma_beats_transitive(counts[j], counts.last(), counts[b]);
                    }
                }
            } else {
                if j < counts.len() - 1 {
                    assert(counts[j] == init[j]);
                } else {
                    if counts.last().1 == counts[b].1 {
                        lemma_bytes_before_asymmetric(encode_utf8(counts.last().0), encode_utf8(counts[b].0));
                    }
                }
            }
        }
    }
}

/// The phrase naming the user with the most changes, or `None` when there
/// is nobody.
pub fn format_top_user_counter_phrase(
    app_language: AppLanguage,
    counts: &[(String, usize)],
    one_en: &str,
    many_en: &str,
    one_zh: &str,
    many_zh: &str,
) -> (phrase: Option<String>)
    ensures
        match phrase {
            Some(p) => top_user_phrase(app_language, counts_view(counts@), one_en@, many_en@, one_zh@, many_zh@) == Some(p@),
            None => top_user_phrase(app_language, counts_view(counts@), one_en@, many_en@, one_zh@, many_zh@) is None,
        },
{
    if counts.len() == 0 {
        return None;
    }
    let ghost cv = counts_view(counts@);
    let mut best: usize = 0;
    let mut i: usize = 1;
    while i < counts.len()
        invariant
            1 <= i <= counts@.len(),
            cv == counts_view(counts@),
            best == best_index(cv.take(i as int)),
            0 <= best < i,
        decreases counts@.len() - i,
    {
        proof {
            assert(cv.take(i + 1).drop_last() =~= cv.take(i as int));
            assert(cv.take(i + 1)[best as int] == cv[best as int]);
        }
        let (ref name_i, count_i) = counts[i];
        let (ref name_b, count_b) = counts[best];
        if count_i > count_b || (count_i == count_b && str_bytes_before(name_i.as_str(), name_b.as_str())) {
            best = i;
        }
        i += 1;
    }
    proof {
        assert(cv.take(i as int) =~= cv);
    }
    let (ref name, count) = counts[best];
    let mut out = name.clone();
    let (one, many) = match app_language {
        AppLanguage::ChineseSimplified => (one_zh, many_zh),
        AppLanguage::English => (one_en, many_en),
    };
    if count > 1 {
        let number = decimal_string(count);
        let placeholder = "{count}";
        proof {
            reveal_strlit("{count}");
        }
        let suffix = replace_all(many, placeholder, number.as_str());
        string_push_str(&mut out, suffix.as_str());
    } else {
        string_push_str(&mut out, one);
    }
    Some(out)
}

/// The parts of a summary line, in order: who joined, who left, who changed
/// their picture most, who changed their name most, and how many other
/// changes there were.
pub open spec fn summary_parts(lang: AppLanguage, st: StatsView) -> Seq<Seq<char>> {
    let p1 = match people_phrase(lang, st.joined, " joined"@, " joined"@, " 加入了房间"@, " 加入了房间"@) {
        Some(p) => seq![p],
        None => Seq::empty(),
    };
    let p2 = match people_phrase(lang, st.left, " left"@, " left"@, " 离开了房间"@, " 离开了房间"@) {
        Some(p) => p1.push(p),
        None => p1,
    };
    let p3 = match top_user_phrase(
        lang,
        st.pictures,
        " changed their profile picture"@,
        " changed their profile picture {count} times"@,
        " 更换了头像"@,
        " 更换了头像 {count} 次"@,
    ) {
        Some(p) => p2.push(p),
        None => p2,
    };
    let p4 = match top_user_phrase(
        lang,
        st.names,
        " changed their display name"@,
        " changed their display name {count} times"@,
        " 修改了昵称"@,
        " 修改了昵称 {count} 次"@,
    ) {
        Some(p) => p3.push(p),
        None => p3,
    };
    if st.other > 0 {
        p4.push(match lang {
            AppLanguage::ChineseSimplified => "另有 "@ + decimal(st.other) + " 条其他状态变更"@,
            AppLanguage::English => decimal(st.other) + " other state changes"@,
        })
    } else {
        p4
    }
}

/// The summary line of `group`: its parts joined with ", ", or the number of
/// state events when there is nothing more specific to say.
pub open spec fn summary_text(lang: AppLanguage, items: Seq<TimelineItem>, start: int, end: int, count: nat) -> Seq<char> {
    let parts = summary_parts(lang, stats_over(items, start, end));
    if parts.len() == 0 {
        match lang {
            AppLanguage::ChineseSimplified => decimal(count) + " 条状态事件"@,
            AppLanguage::English => decimal(count) + " state events"@,
        }
    } else {
        joined(parts, ", "@)
    }
}

fn push_part(parts: &mut Vec<String>, part: Option<String>)
    ensures
        ids_view(final(parts)@) == match part {
            Some(p) => ids_view(old(parts)@).push(p@),
            None => ids_view(old(parts)@),
        },
{
    if let Some(p) = part {
        let ghost before = parts@;
        parts.push(p);
        assert(ids_view(parts@) =~= ids_view(before).push(p@));
    }
}

fn join_parts(parts: &Vec<String>, sep: &str) -> (text: String)
    ensures
        text@ == joined(ids_view(parts@), sep@),
{
    let mut out = String::new();
    let mut i: usize = 0;
    while i < parts.len()
        invariant
            0 <= i <= parts@.len(),
            out@ == joined(ids_view(parts@).take(i as int), sep@),
        decreases parts@.len() - i,
    {
        proof {
            assert(ids_view(parts@).take(i + 1).drop_last() =~= ids_view(parts@).take(i as int));
            assert(ids_view(parts@).take(i + 1).last() == parts@[i as int]@);
        }
        if i > 0 {
            string_push_str(&mut out, sep);
        }
        string_push_str(&mut out, parts[i].as_str());
        i += 1;
        proof {
            if i == 1 {
                assert(ids_view(parts@).take(1)[0] == parts@[0]@);
                assert(out@ =~= parts@[0]@);
            }
        }
    }
    proof {
        assert(ids_view(parts@).take(i as int) =~= ids_view(parts@));
    }
    out
}

/// The summary line of `group` in `app_language`.
pub fn format_small_state_group_summary_text(
    app_language: AppLanguage,
    items: &[TimelineItem],
    group: &SmallStateEventGroup,
) -> (text: String)
    ensures
        text@ == summary_text(app_language, items@, group.start as int, group.end as int, group.count as nat),
{
    let stats = collect_small_state_summary_stats(items, group);
    let ghost st = stats_view(stats);
    let mut parts: Vec<String> = Vec::new();
    proof {
        assert(ids_view(parts@) =~= Seq::<Seq<char>>::empty());
    }
    let joined_phrase = format_people_phrase(app_language, stats.joined_users.as_slice(), " joined", " joined", " 加入了房间", " 加入了房间");
    push_part(&mut parts, joined_phrase);
    let left_phrase = format_people_phrase(app_language, stats.left_users.as_slice(), " left", " left", " 离开了房间", " 离开了房间");
    push_part(&mut parts, left_phrase);
    let picture_phrase = format_top_user_counter_phrase(
        app_language,
        stats.profile_picture_changes.as_slice(),
        " changed their profile picture",
        " changed their profile picture {count} times",
        " 更换了头像",
        " 更换了头像 {count} 次",
    );
    push_part(&mut parts, picture_phrase);
    let name_phrase = format_top_user_counter_phrase(
        app_language,
        stats.display_name_changes.as_slice(),
        " changed their display name",
        " changed their display name {count} times",
        " 修改了昵称",
        " 修改了昵称 {count} 次",
    );
    push_part(&mut parts, name_phrase);
    if stats.other_changes > 0 {
        let number = decimal_string(stats.other_changes);
        let mut other = String::new();
        match app_language {
            AppLanguage::ChineseSimplified => {
                string_push_str(&mut other, "另有 ");
                string_push_str(&mut other, number.as_str());
                string_push_str(&mut other, " 条其他状态变更");
            },
            AppLanguage::English => {
                string_push_str(&mut other, number.as_str());
                string_push_str(&mut other, " other state changes");
            },
        }
        push_part(&mut parts, Some(other));
    }
    proof {
        assert(ids_view(parts@) =~= summary_parts(app_language, st));
    }
    if parts.len() == 0 {
        let number = decimal_string(group.count);
        let mut text = number;
        match app_language {
            AppLanguage::ChineseSimplified => string_push_str(&mut text, " 条状态事件"),
            AppLanguage::English => string_push_str(&mut text, " state events"),
        }
        return text;
    }
    join_parts(&parts, ", ")
}

/// Whether `item` is an event in which `name` changed only their profile
/// picture (when `picture`) or only their display name (otherwise).
pub open spec fn is_single_profile_change_by(item: TimelineItem, name: Seq<char>, picture: bool) -> bool {
    &&& item matches TimelineItem::Event(e)
    &&& e.content == (EventContent::ProfileChange { avatar_url_changed: picture, display_name_changed: !picture })
    &&& sender_name(e) == name
}

proof fn lemma_single_change_counts(counts: Seq<(Seq<char>, nat)>, name: Seq<char>, c: nat)
    ensures
        counts.len() == 0 ==> bumped(counts, name) == seq![(name, 1nat)],
        counts == seq![(name, c)] ==> bumped(counts, name) == seq![(name, c + 1)],
{
    if counts.len() == 0 {
        assert(find_name(counts, name) == -1);
        assert(bumped(counts, name) =~= seq![(name, 1nat)]);
    }
    if counts == seq![(name, c)] {
        assert(counts.drop_last() =~= Seq::<(Seq<char>, nat)>::empty());
        assert(find_name(counts.drop_last(), name) == -1);
        assert(find_name(counts, name) == 0);
        assert(bumped(counts, name) =~= seq![(name, c + 1)]);
    }
}

proof fn lemma_single_change_stats(items: Seq<TimelineItem>, start: int, j: int, name: Seq<char>, picture: bool)
    requires
        0 <= start <= j <= items.len(),
        forall|k: int| start <= k < j ==> is_single_profile_change_by(#[trigger] items[k], name, picture),
    ensures
        stats_over(items, start, j).joined.len() == 0,
        stats_over(items, start, j).left.len() == 0,
        stats_over(items, start, j).other == 0,
        (if picture { stats_over(items, start, j).names } else { stats_over(items, start, j).pictures }).len() == 0,
        (if picture { stats_over(items, start, j).pictures } else { stats_over(items, start, j).names }) == if j > start {
            seq![(name, (j - start) as nat)]
        } else {
            Seq::<(Seq<char>, nat)>::empty()
        },
    decreases j - start,
{
    if j > start {
        lemma_single_change_stats(items, start, j - 1, name, picture);
        let prev = stats_over(items, start, j - 1);
        assert(is_single_profile_change_by(items[j - 1], name, picture));
        let counted = if picture { prev.pictures } else { prev.names };
        lemma_single_change_counts(counted, name, (j - 1 - start) as nat);
    }
}

/// The summary line of a group of `c` changes by `name` of one kind, given
/// the suffix for one change and the one for several split around its
/// `{count}`, with nothing else in the group.
proof fn lemma_single_change_summary(
    lang: AppLanguage,
    items: Seq<TimelineItem>,
    start: int,
    end: int,
    count: nat,
    name: Seq<char>,
    picture: bool,
    many: Seq<char>,
    a: Seq<char>,
    b: Seq<char>,
)
    requires
        0 <= start < end <= items.len(),
        forall|k: int| start <= k < end ==> is_single_profile_change_by(#[trigger] items[k], name, picture),
        many == (match lang {
            AppLanguage::English => if picture {
                " changed their profile picture {count} times"@
            } else {
                " changed their display name {count} times"@
            },
            AppLanguage::ChineseSimplified => if picture { " 更换了头像 {count} 次"@ } else { " 修改了昵称 {count} 次"@ },
        }),
        many == a + "{count}"@ + b,
        forall|i: int| 0 <= i < a.len() ==> a[i] != '{',
        b.len() < "{count}"@.len(),
    ensures
        end - start > 1 ==> summary_text(lang, items, start, end, count) == name + a + decimal((end - start) as nat) + b,
        end - start == 1 ==> summary_text(lang, items, start, end, count) == name + match lang {
            AppLanguage::English => if picture { " changed their profile picture"@ } else { " changed their display name"@ },
            AppLanguage::ChineseSimplified => if picture { " 更换了头像"@ } else { " 修改了昵称"@ },
        },
{
    lemma_single_change_stats(items, start, end, name, picture);
    let st = stats_over(items, start, end);
    let c = (end - start) as nat;
    let counted = if picture { st.pictures } else { st.names };
    assert(counted == seq![(name, c)]);
    assert(best_index(counted) == 0);
    reveal_strlit("{count}");
    let pat = "{count}"@;
    let d = decimal(c);
    lemma_replaced_after_prefix(a, pat, b, d);
    assert(replaced(b, pat, d) == b);
    assert(summary_parts(lang, st).len() == 1);
    let p = summary_parts(lang, st)[0];
    assert(summary_parts(lang, st) =~= seq![p]);
    assert(joined(summary_parts(lang, st), ", "@) == p);
    if c > 1 {
        assert(p == name + replaced(many, pat, d));
        assert(name + a + d + b =~= name + (a + d + replaced(b, pat, d)));
    }
}

/// A group in which one user only changed their display name is summarised
/// as that user changing their display name (with the number of changes
/// when there were several), and with nothing else.
pub proof fn lemma_display_name_changes_summary(
    lang: AppLanguage,
    items: Seq<TimelineItem>,
    start: int,
    end: int,
    count: nat,
    name: Seq<char>,
)
    requires
        0 <= start < end <= items.len(),
        forall|k: int| start <= k < end ==> is_single_profile_change_by(#[trigger] items[k], name, false),
    ensures
        summary_text(lang, items, start, end, count) == name + match lang {
            AppLanguage::English => if end - start > 1 {
                " changed their display name "@ + decimal((end - start) as nat) + " times"@
            } else {
                " changed their display name"@
            },
            AppLanguage::ChineseSimplified => if end - start > 1 {
                " 修改了昵称 "@ + decimal((end - start) as nat) + " 次"@
            } else {
                " 修改了昵称"@
            },
        },
{
    reveal_strlit("{count}");
    reveal_strlit(" changed their display name {count} times");
    reveal_strlit(" changed their display name ");
    reveal_strlit(" times");
    reveal_strlit(" 修改了昵称 {count} 次");
    reveal_strlit(" 修改了昵称 ");
    reveal_strlit(" 次");
    let d = decimal((end - start) as nat);
    match lang {
        AppLanguage::English => {
            let a = " changed their display name "@;
            let b = " times"@;
            assert(" changed their display name {count} times"@ =~= a + "{count}"@ + b);
            lemma_single_change_summary(lang, items, start, end, count, name, false,
                " changed their display name {count} times"@, a, b);
            assert(name + a + d + b =~= name + (a + d + b));
        },
        AppLanguage::ChineseSimplified => {
            let a = " 修改了昵称 "@;
            let b = " 次"@;
            assert(" 修改了昵称 {count} 次"@ =~= a + "{count}"@ + b);
            lemma_single_change_summary(lang, items, start, end, count, name, false, " 修改了昵称 {count} 次"@, a, b);
            assert(name + a + d + b =~= name + (a + d + b));
        },
    }
}

/// A group in which one user only changed their profile picture is
/// summarised as that user changing their profile picture (with the number
/// of changes when there were several), and with nothing else.
pub proof fn lemma_profile_picture_changes_summary(
    lang: AppLanguage,
    items: Seq<TimelineItem>,
    start: int,
    end: int,
    count: nat,
    name: Seq<char>,
)
    requires
        0 <= start < end <= items.len(),
        forall|k: int| start <= k < end ==> is_single_profile_change_by(#[trigger] items[k], name, true),
    ensures
        summary_text(lang, items, start, end, count) == name + match lang {
            AppLanguage::English => if end - start > 1 {
                " changed their profile picture "@ + decimal((end - start) as nat) + " times"@
            } else {
                " changed their profile picture"@
            },
            AppLanguage::ChineseSimplified => if end - start > 1 {
                " 更换了头像 "@ + decimal((end - start) as nat) + " 次"@
            } else {
                " 更换了头像"@
            },
        },
{
    reveal_strlit("{count}");
    reveal_strlit(" changed their profile picture {count} times");
    reveal_strlit(" changed their profile picture ");
    reveal_strlit(" times");
    reveal_strlit(" 更换了头像 {count} 次");
    reveal_strlit(" 更换了头像 ");
    reveal_strlit(" 次");
    let d = decimal((end - start) as nat);
    match lang {
        AppLanguage::English => {
            let a = " changed their profile picture "@;
            let b = " times"@;
            assert(" changed their profile picture {count} times"@ =~= a + "{count}"@ + b);
            lemma_single_change_summary(lang, items, start, end, count, name, true,
                " changed their profile picture {count} times"@, a, b);
            assert(name + a + d + b =~= name + (a + d + b));
        },
        AppLanguage::ChineseSimplified => {
            let a = " 更换了头像 "@;
            let b = " 次"@;
            assert(" 更换了头像 {count} 次"@ =~= a + "{count}"@ + b);
            lemma_single_change_summary(lang, items, start, end, count, name, true, " 更换了头像 {count} 次"@, a, b);
            assert(name + a + d + b =~= name + (a + d + b));
        },
    }
}

/// Whether `item` is an event in which `name` joined the room (when
/// `is_join`) or left it (otherwise).
pub open spec fn is_membership_by(item: TimelineItem, name: Seq<char>, is_join: bool) -> bool {
    &&& item matches TimelineItem::Event(e)
    &&& e.content == (EventContent::MembershipChange {
        change: Some(if is_join { MembershipChange::Joined } else { MembershipChange::Left }),
    })
    &&& sender_name(e) == name
}

proof fn lemma_membership_stats(items: Seq<TimelineItem>, start: int, j: int, name: Seq<char>, is_join: bool)
    requires
        0 <= start <= j <= items.len(),
        forall|k: int| start <= k < j ==> is_membership_by(#[trigger] items[k], name, is_join),
    ensures
        stats_over(items, start, j).pictures.len() == 0,
        stats_over(items, start, j).names.len() == 0,
        stats_over(items, start, j).other == 0,
        (if is_join { stats_over(items, start, j).left } else { stats_over(items, start, j).joined }).len() == 0,
        (if is_join { stats_over(items, start, j).joined } else { stats_over(items, start, j).left }) == if j > start {
            seq![name]
        } else {
            Seq::<Seq<char>>::empty()
        },
    decreases j - start,
{
    if j > start {
        lemma_membership_stats(items, start, j - 1, name, is_join);
        assert(is_membership_by(items[j - 1], name, is_join));
        let prev = if is_join { stats_over(items, start, j - 1).joined } else { stats_over(items, start, j - 1).left };
        if j - 1 > start {
            assert(prev[0] == name);
            assert(prev.contains(name));
        } else {
            assert(!prev.contains(name));
            assert(prev.push(name) =~= seq![name]);
        }
    }
}

/// A group in which one user only joined the room (once or more) is
/// summarised as that user having joined; one in which one user only left
/// it, as that user having left.
pub proof fn lemma_single_member_summary(
    lang: AppLanguage,
    items: Seq<TimelineItem>,
    start: int,
    end: int,
    count: nat,
    name: Seq<char>,
    is_join: bool,
)
    requires
        0 <= start < end <= items.len(),
        forall|k: int| start <= k < end ==> is_membership_by(#[trigger] items[k], name, is_join),
    ensures
        summary_text(lang, items, start, end, count) == name + match lang {
            AppLanguage::English => if is_join { " joined"@ } else { " left"@ },
            AppLanguage::ChineseSimplified => if is_join { " 加入了房间"@ } else { " 离开了房间"@ },
        },
{
    lemma_membership_stats(items, start, end, name, is_join);
    let st = stats_over(items, start, end);
    assert(summary_parts(lang, st).len() == 1);
    let p = summary_parts(lang, st)[0];
    assert(summary_parts(lang, st) =~= seq![p]);
    assert(joined(summary_parts(lang, st), ", "@) == p);
}

/// The groups by first index; a later group with the same start wins.
pub open spec fn groups_by_start_view(groups: Seq<GroupView>) -> Map<usize, GroupView>
    decreases groups.len(),
{
    if groups.len() == 0 {
        Map::empty()
    } else {
        groups_by_start_view(groups.drop_last()).insert(groups.last().start as usize, groups.last())
    }
}

/// The indices hidden by collapsed groups: all but the first item of each.
pub open spec fn hidden_indices_view(groups: Seq<GroupView>) -> Set<usize> {
    Set::new(|i: usize| exists|k: int| 0 <= k < groups.len() && #[trigger] groups[k].collapsed
        && groups[k].start < i < groups[k].end)
}

/// The summary line of each group by first index; a later group with the same start wins.
pub open spec fn summaries_by_start(lang: AppLanguage, items: Seq<TimelineItem>, groups: Seq<GroupView>) -> Map<usize, Seq<char>>
    decreases groups.len(),
{
    if groups.len() == 0 {
        Map::empty()
    } else {
        let g = groups.last();
        summaries_by_start(lang, items, groups.drop_last()).insert(
            g.start as usize,
            summary_text(lang, items, g.start, g.end, g.count as nat),
        )
    }
}

pub proof fn lemma_index_views(gs: Seq<SmallStateEventGroup>)
    ensures
        groups_by_start(gs).map_values(|g: SmallStateEventGroup| group_view(g)) == groups_by_start_view(groups_view(gs)),
        hidden_indices(gs) == hidden_indices_view(groups_view(gs)),
    decreases gs.len(),
{
    if gs.len() > 0 {
        lemma_index_views(gs.drop_last());
        assert(groups_view(gs).drop_last() =~= groups_view(gs.drop_last()));
        assert(groups_by_start(gs).map_values(|g: SmallStateEventGroup| group_view(g)) =~= groups_by_start_view(groups_view(gs)));
    }
    assert(hidden_indices(gs) =~= hidden_indices_view(groups_view(gs))) by {
        assert forall|i: usize| hidden_indices(gs).contains(i) == hidden_indices_view(groups_view(gs)).contains(i) by {
            if hidden_indices_view(groups_view(gs)).contains(i) {
                let k = choose|k: int| 0 <= k < groups_view(gs).len() && #[trigger] groups_view(gs)[k].collapsed
                    && groups_view(gs)[k].start < i < groups_view(gs)[k].end;
                assert(gs[k].collapsed);
            }
            if hidden_indices(gs).contains(i) {
                let k = choose|k: int| 0 <= k < gs.len() && #[trigger] gs[k].collapsed && gs[k].start < i < gs[k].end;
                assert(groups_view(gs)[k].collapsed);
            }
        }
    }
}

/// Every indexed group has exactly one summary line, the one describing it.
pub proof fn lemma_summaries_match_groups(lang: AppLanguage, items: Seq<TimelineItem>, groups: Seq<GroupView>)
    ensures
        summaries_by_start(lang, items, groups).dom() == groups_by_start_view(groups).dom(),
        forall|k: usize| #[trigger] groups_by_start_view(groups).contains_key(k) ==> {
            let g = groups_by_start_view(groups)[k];
            summaries_by_start(lang, items, groups)[k] == summary_text(lang, items, g.start, g.end, g.count as nat)
        },
    decreases groups.len(),
{
    if groups.len() > 0 {
        lemma_summaries_match_groups(lang, items, groups.drop_last());
        assert(summaries_by_start(lang, items, groups).dom() =~= groups_by_start_view(groups).dom());
    }
}

/// The groups of small state events in `items`, indexed by their first item,
/// with the items hidden by collapsed groups and the summary line of each
/// group in `app_language`.
pub fn build_small_state_event_group_index(
    items: &[TimelineItem],
    timeline_kind: &TimelineKind,
    expanded_group_event_ids: &[String],
    app_language: AppLanguage,
) -> (index: SmallStateEventGroupIndex)
    requires
        items@.len() < usize::MAX,
    ensures
        ({
            let groups = groups_from(
                items@,
                is_thread_timeline(*timeline_kind),
                ids_view(expanded_group_event_ids@).to_set(),
                0,
            );
            &&& index.by_start@.map_values(|g: SmallStateEventGroup| group_view(g)) == groups_by_start_view(groups)
            &&& index.collapsed_hidden_indices@ == hidden_indices_view(groups)
            &&& index.summary_by_start@.map_values(|s: String| s@) == summaries_by_start(app_language, items@, groups)
        }),
{
    let groups = compute_small_state_event_groups(items, timeline_kind, expanded_group_event_ids);
    let ghost gv = groups_view(groups@);
    proof {
        lemma_groups_within(items@, is_thread_timeline(*timeline_kind), ids_view(expanded_group_event_ids@).to_set(), 0);
    }
    let mut summaries: HashMap<usize, String> = HashMap::new();
    let mut k: usize = 0;
    while k < groups.len()
        invariant
            0 <= k <= groups@.len(),
            gv == groups_view(groups@),
            summaries@.map_values(|s: String| s@) == summaries_by_start(app_language, items@, gv.take(k as int)),
        decreases groups@.len() - k,
    {
        let text = format_small_state_group_summary_text(app_language, items, &groups[k]);
        proof {
            assert(gv.take(k + 1).drop_last() =~= gv.take(k as int));
            assert(gv.take(k + 1).last() == group_view(groups@[k as int]));
        }
        summaries.insert(groups[k].start, text);
        k += 1;
        proof {
            assert(summaries@.map_values(|s: String| s@) =~= summaries_by_start(app_language, items@, gv.take(k as int)));
        }
    }
    proof {
        assert(gv.take(k as int) =~= gv);
        lemma_index_views(groups@);
        assert forall|t: int| 0 <= t < groups@.len() && #[trigger] groups@[t].collapsed implies groups@[t].start < usize::MAX by {
            assert(gv[t].start == groups@[t].start);
        }
    }
    let mut index = index_small_state_event_groups(groups);
    index.summary_by_start = summaries;
    index
}

pub proof fn lemma_groups_within(items: Seq<TimelineItem>, th: bool, expanded: Set<Seq<char>>, i: int)
    requires
        0 <= i,
    ensures
        forall|k: int| 0 <= k < groups_from(items, th, expanded, i).len() ==> {
            let g = #[trigger] groups_from(items, th, expanded, i)[k];
            &&& i <= g.start < g.end <= items.len()
            &&& g.count == g.end - g.start
        },
    decreases items.len() - i,
{
    if 0 <= i < items.len() {
        if !is_small_state(items[i], th) {
            lemma_groups_within(items, th, expanded, i + 1);
            assert(groups_from(items, th, expanded, i) == groups_from(items, th, expanded, i + 1));
        } else {
            lemma_run_end_bounds(items, th, i + 1);
            let e = run_end(items, th, i + 1);
            lemma_groups_within(items, th, expanded, e);
            let all = groups_from(items, th, expanded, i);
            let rest = groups_from(items, th, expanded, e);
            assert forall|k: int| 0 <= k < all.len() implies {
                let g = #[trigger] all[k];
                &&& i <= g.start < g.end <= items.len()
                &&& g.count == g.end - g.start
            } by {
                if !(e - i < MIN_SMALL_STATE_EVENTS_TO_COLLAPSE || item_event_id(items[i]) is None) {
                    assert(all == seq![GroupView { start: i, end: e, count: e - i, first_event_id: item_event_id(items[i])->0,
                        collapsed: !expanded.contains(item_event_id(items[i])->0) }] + rest);
                    if k > 0 {
                        assert(all[k] == rest[k - 1]);
                    }
                } else {
                    assert(all[k] == rest[k]);
                }
            }
        }
    }
}

// ---------------------------------------------------------------------------
// Drawing one small state event.
// ---------------------------------------------------------------------------

/// What a small state event item may skip drawing: its profile, when the
/// item is reused and drew it before; its content too, when that was drawn
/// as well (its text may name the sender, so it counts only after the
/// profile).
pub fn small_state_redraw_skips(existed: bool, status: ItemDrawnStatus) -> (skips: (bool, bool))
    ensures
        skips == (existed && status.profile_drawn, existed && status.profile_drawn && status.content_drawn),
{
    let skip_profile = existed && status.profile_drawn;
    (skip_profile, skip_profile && status.content_drawn)
}

/// The line of a shared live location: `{username} shared a live location.`
pub fn live_location_text(username: &str) -> (text: String)
    ensures
        text@ == username@ + " shared a live location."@,
{
    let mut text = String::new();
    string_push_str(&mut text, username);
    string_push_str(&mut text, " shared a live location.");
    assert(text@ =~= username@ + " shared a live location."@);
    text
}

/// The line of a poll: its fallback text, else its question.
pub fn poll_text(fallback_text: Option<&str>, question: &str) -> (text: String)
    ensures
        text@ == match fallback_text {
            Some(f) => f@,
            None => question@,
        },
{
    match fallback_text {
        Some(f) => f.to_owned(),
        None => question.to_owned(),
    }
}

/// Which parts of a group header an item shows: (the header, its summary),
/// the header only with a toggle button text, the summary only with a
/// summary text.
pub fn group_header_visibility(summary_text: Option<&str>, toggle_button_text: Option<&str>) -> (visible: (bool, bool))
    ensures
        visible == (toggle_button_text is Some, summary_text is Some),
{
    (toggle_button_text.is_some(), summary_text.is_some())
}

} // verus!
