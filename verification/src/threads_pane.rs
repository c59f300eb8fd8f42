//! The threads pane of a room: the list of the room's threads, fetched page
//! by page and kept in time order, what the pane shows of it, and the
//! pane's own visibility.

use vstd::prelude::*;
use crate::text::{decimal, decimal_string_u64, string_push_str};

verus! {

broadcast use vstd::seq::group_seq_axioms, vstd::seq_lib::group_seq_properties;

/// A thread of a room as the server listed it.
#[derive(Clone, Debug)]
pub struct FetchedRoomThread {
    pub thread_root_event_id: String,
    pub title: String,
    pub reply_count: u64,
    /// The time of the thread's root, in milliseconds since the Unix epoch.
    pub timestamp: u64,
    pub latest_reply_preview: Option<String>,
}

impl FetchedRoomThread {
    /// A copy of this thread.
    pub fn duplicate(&self) -> (t: Self)
        ensures
            t == *self,
    {
        FetchedRoomThread {
            thread_root_event_id: self.thread_root_event_id.clone(),
            title: self.title.clone(),
            reply_count: self.reply_count,
            timestamp: self.timestamp,
            latest_reply_preview: match &self.latest_reply_preview {
                Some(p) => Some(p.clone()),
                None => None,
            },
        }
    }
}

/// The position in `sorted` at which a thread of time `t` goes: after every
/// thread of time `t` or earlier at the front of `sorted`.
pub open spec fn insertion_point(sorted: Seq<FetchedRoomThread>, t: u64) -> int
    decreases sorted.len(),
{
    if sorted.len() == 0 || sorted[0].timestamp > t {
        0
    } else {
        1 + insertion_point(sorted.drop_first(), t)
    }
}

/// `threads` sorted by time, threads of equal time keeping their order (a
/// stable sort by timestamp).
pub open spec fn sorted_by_time(threads: Seq<FetchedRoomThread>) -> Seq<FetchedRoomThread>
    decreases threads.len(),
{
    if threads.len() == 0 {
        threads
    } else {
        let sorted = sorted_by_time(threads.drop_last());
        let k = insertion_point(sorted, threads.last().timestamp);
        sorted.take(k) + seq![threads.last()] + sorted.skip(k)
    }
}

/// `threads` without any thread that directly follows one with the same
/// root event (the first of each such run stays).
pub open spec fn deduped(threads: Seq<FetchedRoomThread>) -> Seq<FetchedRoomThread>
    decreases threads.len(),
{
    if threads.len() == 0 {
        threads
    } else {
        let before = deduped(threads.drop_last());
        if before.len() > 0 && before.last().thread_root_event_id@ == threads.last().thread_root_event_id@ {
            before
        } else {
            before.push(threads.last())
        }
    }
}

/// Whether `s` is in time order.
pub open spec fn in_time_order(s: Seq<FetchedRoomThread>) -> bool {
    forall|i: int, j: int| 0 <= i < j < s.len() ==> #[trigger] s[i].timestamp <= #[trigger] s[j].timestamp
}

proof fn lemma_insertion_point_bounds(sorted: Seq<FetchedRoomThread>, t: u64)
    ensures
        0 <= insertion_point(sorted, t) <= sorted.len(),
        in_time_order(sorted) ==> forall|i: int| 0 <= i < insertion_point(sorted, t) ==> #[trigger] sorted[i].timestamp <= t,
        in_time_order(sorted) ==> forall|i: int| insertion_point(sorted, t) <= i < sorted.len() ==> #[trigger] sorted[i].timestamp > t,
    decreases sorted.len(),
{
    if sorted.len() > 0 && sorted[0].timestamp <= t {
        let rest = sorted.drop_first();
        lemma_insertion_point_bounds(rest, t);
        if in_time_order(sorted) {
            assert(in_time_order(rest)) by {
                assert forall|i: int, j: int| 0 <= i < j < rest.len() implies #[trigger] rest[i].timestamp <= #[trigger] rest[j].timestamp by {
                    assert(rest[i] == sorted[i + 1] && rest[j] == sorted[j + 1]);
                }
            }
            assert forall|i: int| 0 <= i < insertion_point(sorted, t) implies #[trigger] sorted[i].timestamp <= t by {
                if i > 0 {
                    assert(sorted[i] == rest[i - 1]);
                }
            }
            assert forall|i: int| insertion_point(sorted, t) <= i < sorted.len() implies #[trigger] sorted[i].timestamp > t by {
                assert(sorted[i] == rest[i - 1]);
            }
        }
    }
}

/// Sorting by time gives threads in time order, with the same threads.
pub proof fn lemma_sorted_by_time(threads: Seq<FetchedRoomThread>)
    ensures
        in_time_order(sorted_by_time(threads)),
        sorted_by_time(threads).to_multiset() == threads.to_multiset(),
    decreases threads.len(),
{
    if threads.len() > 0 {
        let sorted = sorted_by_time(threads.drop_last());
        lemma_sorted_by_time(threads.drop_last());
        let x = threads.last();
        let k = insertion_point(sorted, x.timestamp);
        lemma_insertion_point_bounds(sorted, x.timestamp);
        let out = sorted.take(k) + seq![x] + sorted.skip(k);
        assert forall|i: int, j: int| 0 <= i < j < out.len() implies #[trigger] out[i].timestamp <= #[trigger] out[j].timestamp by {
            if i < k {
                assert(out[i] == sorted[i]);
                if j < k {
                    assert(out[j] == sorted[j]);
                } else if j > k {
                    assert(out[j] == sorted[j - 1]);
                }
            } else if i == k {
                assert(out[i] == x);
                assert(out[j] == sorted[j - 1]);
            } else {
                assert(out[i] == sorted[i - 1]);
                assert(out[j] == sorted[j - 1]);
            }
        }
        assert(sorted =~= sorted.take(k) + sorted.skip(k));
        vstd::seq_lib::lemma_multiset_commutative(sorted.take(k), seq![x] + sorted.skip(k));
        vstd::seq_lib::lemma_multiset_commutative(seq![x], sorted.skip(k));
        vstd::seq_lib::lemma_multiset_commutative(sorted.take(k), sorted.skip(k));
        vstd::seq_lib::lemma_multiset_commutative(sorted.take(k) + seq![x], sorted.skip(k));
        vstd::seq_lib::lemma_multiset_commutative(sorted.take(k), seq![x]);
        vstd::seq_lib::lemma_multiset_commutative(threads.drop_last(), seq![x]);
        assert(threads =~= threads.drop_last() + seq![x]);
        assert(out =~= (sorted.take(k) + seq![x]) + sorted.skip(k));
    }
}

/// No thread directly follows one with the same root event.
pub open spec fn no_adjacent_repeats(s: Seq<FetchedRoomThread>) -> bool {
    forall|i: int| 0 <= i < s.len() - 1 ==> (#[trigger] s[i]).thread_root_event_id@ != s[i + 1].thread_root_event_id@
}

proof fn lemma_deduped_last(s: Seq<FetchedRoomThread>)
    ensures
        s.len() > 0 ==> deduped(s).len() > 0 && deduped(s).last().thread_root_event_id@ == s.last().thread_root_event_id@,
        no_adjacent_repeats(deduped(s)),
    decreases s.len(),
{
    if s.len() > 0 {
        let rest = s.drop_last();
        lemma_deduped_last(rest);
        let before = deduped(rest);
        let x = s.last();
        if !(before.len() > 0 && before.last().thread_root_event_id@ == x.thread_root_event_id@) {
            let out = before.push(x);
            assert forall|i: int| 0 <= i < out.len() - 1 implies (#[trigger] out[i]).thread_root_event_id@ != out[i + 1].thread_root_event_id@ by {
                if i == out.len() - 2 {
                    assert(out[i] == before.last());
                } else {
                    assert(out[i] == before[i] && out[i + 1] == before[i + 1]);
                }
            }
        }
    }
}

proof fn lemma_deduped_members(s: Seq<FetchedRoomThread>)
    ensures
        forall|i: int| 0 <= i < deduped(s).len() ==> exists|j: int| 0 <= j < s.len() && s[j] == #[trigger] deduped(s)[i],
    decreases s.len(),
{
    if s.len() > 0 {
        let rest = s.drop_last();
        lemma_deduped_members(rest);
        let before = deduped(rest);
        let x = s.last();
        let out = deduped(s);
        assert forall|i: int| 0 <= i < out.len() implies exists|j: int| 0 <= j < s.len() && s[j] == #[trigger] out[i] by {
            if i < before.len() {
                assert(out[i] == before[i]);
                let j = choose|j: int| 0 <= j < rest.len() && rest[j] == before[i];
                assert(s[j] == rest[j]);
            } else {
                assert(out[i] == x);
                assert(s[s.len() - 1] == x);
            }
        }
    }
}

proof fn lemma_deduped_covers(s: Seq<FetchedRoomThread>)
    ensures
        forall|j: int| 0 <= j < s.len() ==> exists|i: int| 0 <= i < deduped(s).len()
            && (#[trigger] deduped(s)[i]).thread_root_event_id@ == (#[trigger] s[j]).thread_root_event_id@,
    decreases s.len(),
{
    if s.len() > 0 {
        let rest = s.drop_last();
        lemma_deduped_covers(rest);
        lemma_deduped_last(rest);
        let before = deduped(rest);
        let out = deduped(s);
        assert forall|j: int| 0 <= j < s.len() implies exists|i: int| 0 <= i < out.len()
            && (#[trigger] out[i]).thread_root_event_id@ == (#[trigger] s[j]).thread_root_event_id@ by {
            if j < rest.len() {
                assert(s[j] == rest[j]);
                let i = choose|i: int| 0 <= i < before.len()
                    && (#[trigger] before[i]).thread_root_event_id@ == (#[trigger] rest[j]).thread_root_event_id@;
                assert(out[i] == before[i]);
            } else if out.len() == before.len() {
                assert(out[before.len() - 1] == before.last());
            } else {
                assert(out[out.len() - 1] == s.last());
            }
        }
    }
}

proof fn lemma_deduped_order(s: Seq<FetchedRoomThread>)
    requires
        in_time_order(s),
    ensures
        in_time_order(deduped(s)),
    decreases s.len(),
{
    if s.len() > 0 {
        let rest = s.drop_last();
        assert(in_time_order(rest)) by {
            assert forall|a: int, b: int| 0 <= a < b < rest.len() implies #[trigger] rest[a].timestamp <= #[trigger] rest[b].timestamp by {
                assert(rest[a] == s[a] && rest[b] == s[b]);
            }
        }
        lemma_deduped_order(rest);
        lemma_deduped_members(rest);
        let before = deduped(rest);
        let out = deduped(s);
        if out.len() > before.len() {
            assert forall|a: int, b: int| 0 <= a < b < out.len() implies #[trigger] out[a].timestamp <= #[trigger] out[b].timestamp by {
                if b == out.len() - 1 {
                    let j = choose|j: int| 0 <= j < rest.len() && rest[j] == before[a];
                    assert(out[a] == before[a]);
                    assert(s[j] == rest[j]);
                    assert(s[j].timestamp <= s[s.len() - 1].timestamp);
                } else {
                    assert(out[a] == before[a] && out[b] == before[b]);
                }
            }
        }
    }
}

/// After a page of threads arrives, the list is in time order, no thread
/// directly repeats the one before it, every listed thread was fetched, and
/// the root of every fetched thread is still listed.
pub proof fn lemma_loaded_threads_well_formed(entries: Seq<FetchedRoomThread>, threads: Seq<FetchedRoomThread>)
    ensures
        in_time_order(deduped(sorted_by_time(entries + threads))),
        no_adjacent_repeats(deduped(sorted_by_time(entries + threads))),
        forall|i: int| 0 <= i < deduped(sorted_by_time(entries + threads)).len()
            ==> (entries + threads).contains(#[trigger] deduped(sorted_by_time(entries + threads))[i]),
        forall|t: FetchedRoomThread| #[trigger] (entries + threads).contains(t)
            ==> exists|i: int| 0 <= i < deduped(sorted_by_time(entries + threads)).len()
                && deduped(sorted_by_time(entries + threads))[i].thread_root_event_id@ == t.thread_root_event_id@,
{
    let all = entries + threads;
    let sorted = sorted_by_time(all);
    lemma_sorted_by_time(all);
    lemma_deduped_last(sorted);
    lemma_deduped_members(sorted);
    lemma_deduped_covers(sorted);
    lemma_deduped_order(sorted);
    let d = deduped(sorted);
    assert forall|i: int| 0 <= i < d.len() implies all.contains(#[trigger] d[i]) by {
        let j = choose|j: int| 0 <= j < sorted.len() && sorted[j] == d[i];
        assert(sorted.contains(d[i]));
        vstd::seq_lib::to_multiset_contains(sorted, d[i]);
        vstd::seq_lib::to_multiset_contains(all, d[i]);
    }
    assert forall|t: FetchedRoomThread| #[trigger] all.contains(t) implies exists|i: int| 0 <= i < d.len()
        && d[i].thread_root_event_id@ == t.thread_root_event_id@ by {
        vstd::seq_lib::to_multiset_contains(sorted, t);
        vstd::seq_lib::to_multiset_contains(all, t);
        let j = choose|j: int| 0 <= j < sorted.len() && sorted[j] == t;
        let i = choose|i: int| 0 <= i < d.len()
            && (#[trigger] d[i]).thread_root_event_id@ == (#[trigger] sorted[j]).thread_root_event_id@;
    }
}

fn insert_by_time(sorted: &mut Vec<FetchedRoomThread>, thread: FetchedRoomThread)
    ensures
        final(sorted)@ == old(sorted)@.take(insertion_point(old(sorted)@, thread.timestamp)) + seq![thread]
            + old(sorted)@.skip(insertion_point(old(sorted)@, thread.timestamp)),
{
    let ghost s = sorted@;
    let ghost t = thread.timestamp;
    let mut k: usize = 0;
    while k < sorted.len() && sorted[k].timestamp <= thread.timestamp
        invariant
            sorted@ == s,
            t == thread.timestamp,
            0 <= k <= s.len(),
            insertion_point(s, t) == k + insertion_point(s.skip(k as int), t),
        decreases s.len() - k,
    {
        proof {
            assert(s.skip(k as int).drop_first() =~= s.skip(k + 1));
        }
        k += 1;
    }
    proof {
        assert(insertion_point(s.skip(k as int), t) == 0);
    }
    sorted.insert(k, thread);
    proof {
        assert(sorted@ =~= s.take(k as int) + seq![thread] + s.skip(k as int));
    }
}

/// `threads` stably sorted by time.
pub fn sort_threads_by_time(threads: Vec<FetchedRoomThread>) -> (sorted: Vec<FetchedRoomThread>)
    ensures
        sorted@ == sorted_by_time(threads@),
{
    let mut sorted: Vec<FetchedRoomThread> = Vec::new();
    let mut i: usize = 0;
    while i < threads.len()
        invariant
            0 <= i <= threads@.len(),
            sorted@ == sorted_by_time(threads@.take(i as int)),
        decreases threads@.len() - i,
    {
        proof {
            assert(threads@.take(i + 1).drop_last() =~= threads@.take(i as int));
        }
        insert_by_time(&mut sorted, threads[i].duplicate());
        i += 1;
    }
    proof {
        assert(threads@.take(threads@.len() as int) =~= threads@);
    }
    sorted
}

/// `threads` without a thread that directly follows one with the same root
/// event (`Vec::dedup_by` on the root event ID).
pub fn dedup_threads(threads: Vec<FetchedRoomThread>) -> (out: Vec<FetchedRoomThread>)
    ensures
        out@ == deduped(threads@),
{
    let mut out: Vec<FetchedRoomThread> = Vec::new();
    let mut i: usize = 0;
    while i < threads.len()
        invariant
            0 <= i <= threads@.len(),
            out@ == deduped(threads@.take(i as int)),
        decreases threads@.len() - i,
    {
        proof {
            assert(threads@.take(i + 1).drop_last() =~= threads@.take(i as int));
        }
        let n = out.len();
        if n > 0 && out[n - 1].thread_root_event_id == threads[i].thread_root_event_id {
        } else {
            out.push(threads[i].duplicate());
        }
        i += 1;
    }
    proof {
        assert(threads@.take(threads@.len() as int) =~= threads@);
    }
    out
}

/// A request for a page of a room's threads.
#[derive(Clone, Debug)]
pub struct ThreadsRequest {
    pub room_id: String,
    /// Where the page starts: `None` for the newest threads, else the
    /// token of the previous page.
    pub from: Option<String>,
}

/// The notice shown when fetching further threads failed while some are
/// shown already, with what its retry button asks for again.
#[derive(Clone, Debug)]
pub struct ThreadsFailureNotice {
    pub message: String,
    pub retry_room_id: Option<String>,
    pub retry_from: Option<String>,
}

/// The threads of the room the pane belongs to, fetched so far.
#[derive(Debug)]
pub struct ThreadsPaneState {
    pub room_id: Option<String>,
    /// The fetched threads, in time order.
    pub entries: Vec<FetchedRoomThread>,
    /// The token of the next (older) page, when there is one.
    pub prev_batch_token: Option<String>,
    pub is_loading: bool,
    /// Whether a first page was received (or failed).
    pub initialized: bool,
    /// The text shown instead of the list while it is empty.
    pub status_text: String,
}

impl ThreadsPaneState {
    /// The state of a pane that belongs to no room.
    pub fn new() -> (state: Self)
        ensures
            state.room_id is None,
            state.entries@.len() == 0,
            state.prev_batch_token is None,
            !state.is_loading,
            !state.initialized,
            state.status_text@.len() == 0,
    {
        ThreadsPaneState {
            room_id: None,
            entries: Vec::new(),
            prev_batch_token: None,
            is_loading: false,
            initialized: false,
            status_text: String::new(),
        }
    }

    /// Makes the state belong to `room_id`, the room shown: a state of
    /// another room starts over (empty, with a loading text).
    pub fn ensure_for_room(&mut self, room_id: Option<&String>)
        ensures
            match room_id {
                None => *final(self) == *old(self),
                Some(r) => if old(self).room_id matches Some(c) && c@ == r@ {
                    *final(self) == *old(self)
                } else {
                    &&& final(self).room_id matches Some(c) && c@ == r@
                    &&& final(self).entries@.len() == 0
                    &&& final(self).prev_batch_token is None
                    &&& !final(self).is_loading
                    &&& !final(self).initialized
                    &&& final(self).status_text@ == "Loading threads..."@
                },
            },
    {
        let room_id = match room_id {
            Some(r) => r,
            None => return,
        };
        let same = match &self.room_id {
            Some(current) => *current == *room_id,
            None => false,
        };
        if same {
            return;
        }
        *self = ThreadsPaneState {
            room_id: Some(room_id.clone()),
            entries: Vec::new(),
            prev_batch_token: None,
            is_loading: false,
            initialized: false,
            status_text: "Loading threads...".to_string(),
        };
    }

    /// Asks for a page of threads of the shown room `room_id`: the newest
    /// page, or with `load_more` the page before the last one received.
    /// Nothing is asked while a page is on its way, with no room, or for
    /// more when there is no earlier page.
    pub fn request_more_threads(&mut self, room_id: Option<&String>, load_more: bool) -> (request: Option<ThreadsRequest>)
        ensures
            ({
                let keep = match room_id {
                    Some(r) => old(self).room_id matches Some(c) && c@ == r@,
                    None => true,
                };
                let room = if keep {
                    match old(self).room_id {
                        Some(c) => Some(c@),
                        None => None,
                    }
                } else {
                    Some(room_id->0@)
                };
                let loading = keep && old(self).is_loading;
                let token = if keep { old(self).prev_batch_token } else { None };
                let initialized = keep && old(self).initialized;
                &&& (match final(self).room_id {
                    Some(c) => Some(c@),
                    None => None,
                }) == room
                &&& final(self).entries@ == if keep { old(self).entries@ } else { Seq::empty() }
                &&& final(self).prev_batch_token == token
                &&& final(self).initialized == initialized
                &&& if room is None || loading || (load_more && token is None) {
                    &&& request is None
                    &&& final(self).is_loading == loading
                    &&& final(self).status_text@ == if keep { old(self).status_text@ } else { "Loading threads..."@ }
                } else {
                    &&& request matches Some(req) && req.room_id@ == room->0
                        && req.from == if load_more { token } else { None }
                    &&& final(self).is_loading
                    &&& final(self).status_text@ == if initialized {
                        old(self).status_text@
                    } else {
                        "Loading threads..."@
                    }
                }
            }),
    {
        self.ensure_for_room(room_id);
        let room = match &self.room_id {
            Some(r) => r.clone(),
            None => return None,
        };
        if self.is_loading {
            return None;
        }
        let from = if load_more {
            match &self.prev_batch_token {
                Some(token) => Some(token.clone()),
                None => return None,
            }
        } else {
            None
        };
        self.is_loading = true;
        if !self.initialized {
            self.status_text = "Loading threads...".to_string();
        }
        Some(ThreadsRequest { room_id: room, from })
    }

    /// Takes in a page of `threads`: they join the list, which is sorted by
    /// time again, and a thread that directly repeats the one before it
    /// drops out.  The status text says when there are no threads.
    pub fn on_threads_loaded(&mut self, threads: &[FetchedRoomThread], prev_batch_token: Option<String>)
        ensures
            final(self).entries@ == deduped(sorted_by_time(old(self).entries@ + threads@)),
            !final(self).is_loading,
            final(self).initialized,
            final(self).prev_batch_token == prev_batch_token,
            final(self).room_id == old(self).room_id,
            final(self).status_text@ == if final(self).entries@.len() == 0 {
                "No threads yet."@
            } else {
                Seq::<char>::empty()
            },
    {
        self.is_loading = false;
        self.initialized = true;
        self.prev_batch_token = prev_batch_token;
        let mut all: Vec<FetchedRoomThread> = Vec::new();
        let mut i: usize = 0;
        while i < self.entries.len()
            invariant
                0 <= i <= self.entries@.len(),
                all@ == self.entries@.take(i as int),
            decreases self.entries@.len() - i,
        {
            all.push(self.entries[i].duplicate());
            i += 1;
            assert(all@ =~= self.entries@.take(i as int));
        }
        let mut j: usize = 0;
        while j < threads.len()
            invariant
                0 <= j <= threads@.len(),
                all@ == old(self).entries@ + threads@.take(j as int),
            decreases threads@.len() - j,
        {
            all.push(threads[j].duplicate());
            j += 1;
            assert(all@ =~= old(self).entries@ + threads@.take(j as int));
        }
        assert(threads@.take(threads@.len() as int) =~= threads@);
        self.entries = dedup_threads(sort_threads_by_time(all));
        self.status_text = if self.entries.len() == 0 {
            "No threads yet.".to_string()
        } else {
            String::new()
        };
    }

    /// Takes in the failure of a page request.  With no thread shown, the
    /// status text reports `error`; otherwise the list stays and a notice
    /// (whose retry asks for the same page again) is returned.
    pub fn on_threads_failed(&mut self, error: &str) -> (notice: Option<ThreadsFailureNotice>)
        ensures
            !final(self).is_loading,
            final(self).initialized,
            final(self).entries == old(self).entries,
            final(self).room_id == old(self).room_id,
            final(self).prev_batch_token == old(self).prev_batch_token,
            old(self).entries@.len() == 0 ==> {
                &&& notice is None
                &&& final(self).status_text@ == "Failed to load threads.\n\nError: "@ + error@
            },
            old(self).entries@.len() > 0 ==> {
                &&& final(self).status_text == old(self).status_text
                &&& notice matches Some(n) && n.message@ == "Failed to load more threads.\n\nError: "@ + error@
                    && n.retry_room_id == old(self).room_id && n.retry_from == old(self).prev_batch_token
            },
    {
        self.is_loading = false;
        self.initialized = true;
        if self.entries.len() == 0 {
            let mut text = "Failed to load threads.\n\nError: ".to_string();
            string_push_str(&mut text, error);
            self.status_text = text;
            None
        } else {
            let mut message = "Failed to load more threads.\n\nError: ".to_string();
            string_push_str(&mut message, error);
            Some(ThreadsFailureNotice {
                message,
                retry_room_id: match &self.room_id {
                    Some(r) => Some(r.clone()),
                    None => None,
                },
                retry_from: match &self.prev_batch_token {
                    Some(t) => Some(t.clone()),
                    None => None,
                },
            })
        }
    }

    /// What opening the pane asks for: the state first belongs to the shown
    /// room (as `ensure_for_room` leaves it); then the room's newest threads
    /// are asked for, when none were received yet and none are on their way.
    pub fn show_threads_pane(&mut self, room_id: Option<&String>) -> (request: Option<ThreadsRequest>)
        ensures
            ({
                let keep = match room_id {
                    Some(r) => old(self).room_id matches Some(c) && c@ == r@,
                    None => true,
                };
                let room = if keep {
                    match old(self).room_id {
                        Some(c) => Some(c@),
                        None => None,
                    }
                } else {
                    Some(room_id->0@)
                };
                let loading = keep && old(self).is_loading;
                let initialized = keep && old(self).initialized;
                &&& (match final(self).room_id {
                    Some(c) => Some(c@),
                    None => None,
                }) == room
                &&& final(self).entries@ == if keep { old(self).entries@ } else { Seq::empty() }
                &&& final(self).prev_batch_token == if keep { old(self).prev_batch_token } else { None }
                &&& final(self).initialized == initialized
                &&& if room is None || initialized || loading {
                    &&& request is None
                    &&& final(self).is_loading == loading
                    &&& final(self).status_text@ == if keep { old(self).status_text@ } else { "Loading threads..."@ }
                } else {
                    &&& request matches Some(req) && req.room_id@ == room->0 && req.from is None
                    &&& final(self).is_loading
                    &&& final(self).status_text@ == "Loading threads..."@
                }
            }),
    {
        self.ensure_for_room(room_id);
        if !self.initialized && !self.is_loading {
            self.request_more_threads(room_id, false)
        } else {
            None
        }
    }

    /// What the pane shows: the room's name, one line per thread (with the
    /// time the caller formatted for it, if any), the status text, and the
    /// loading indicator.
    pub fn pane_info(&self, room_name: &str, times: &[Option<String>]) -> (info: ThreadsPaneInfo)
        requires
            times@.len() == self.entries@.len(),
        ensures
            info.room_name@ == room_name@,
            info.entries@.len() == self.entries@.len(),
            forall|i: int| 0 <= i < info.entries@.len() ==> #[trigger] info.entries@[i].view_of()
                == entry_info_of(self.entries@[i], times@[i]),
            info.status_text@ == self.status_text@,
            info.show_entries == (self.entries@.len() > 0),
            info.loading_text@ == if self.entries@.len() == 0 {
                "Loading threads..."@
            } else {
                "Loading more threads..."@
            },
            info.show_loading == self.is_loading,
    {
        let mut entries: Vec<ThreadsPaneEntryInfo> = Vec::new();
        let mut i: usize = 0;
        while i < self.entries.len()
            invariant
                times@.len() == self.entries@.len(),
                0 <= i <= self.entries@.len(),
                entries@.len() == i,
                forall|k: int| 0 <= k < i ==> #[trigger] entries@[k].view_of() == entry_info_of(self.entries@[k], times@[k]),
            decreases self.entries@.len() - i,
        {
            entries.push(thread_entry_info(&self.entries[i], &times[i]));
            i += 1;
        }
        ThreadsPaneInfo {
            room_name: room_name.to_string(),
            entries,
            status_text: self.status_text.clone(),
            show_entries: self.entries.len() > 0,
            loading_text: if self.entries.len() == 0 {
                "Loading threads...".to_string()
            } else {
                "Loading more threads...".to_string()
            },
            show_loading: self.is_loading,
        }
    }
}

/// One line of the threads pane.
#[derive(Clone, Debug)]
pub struct ThreadsPaneEntryInfo {
    pub thread_root_event_id: String,
    pub title: String,
    pub subtitle: String,
    pub time: String,
    pub preview: String,
}

impl ThreadsPaneEntryInfo {
    /// This line as plain values: root event, title, subtitle, time, preview.
    pub open spec fn view_of(self) -> (Seq<char>, Seq<char>, Seq<char>, Seq<char>, Seq<char>) {
        (self.thread_root_event_id@, self.title@, self.subtitle@, self.time@, self.preview@)
    }
}

/// The line shown for `thread`: its title, its reply count ("1 reply" or
/// "N replies"), its time (empty when the caller had none) and its latest
/// reply, or an invitation to open it.
pub open spec fn entry_info_of(thread: FetchedRoomThread, time: Option<String>)
    -> (Seq<char>, Seq<char>, Seq<char>, Seq<char>, Seq<char>) {
    (
        thread.thread_root_event_id@,
        thread.title@,
        if thread.reply_count == 1 { "1 reply"@ } else { decimal(thread.reply_count as nat) + " replies"@ },
        match time {
            Some(t) => t@,
            None => Seq::<char>::empty(),
        },
        match thread.latest_reply_preview {
            Some(p) => p@,
            None => "Tap to open thread"@,
        },
    )
}

/// The line shown for `thread`, with `time` as the caller formatted it.
pub fn thread_entry_info(thread: &FetchedRoomThread, time: &Option<String>) -> (info: ThreadsPaneEntryInfo)
    ensures
        info.view_of() == entry_info_of(*thread, *time),
{
    let subtitle = if thread.reply_count == 1 {
        "1 reply".to_string()
    } else {
        let mut s = decimal_string_u64(thread.reply_count);
        string_push_str(&mut s, " replies");
        s
    };
    ThreadsPaneEntryInfo {
        thread_root_event_id: thread.thread_root_event_id.clone(),
        title: thread.title.clone(),
        subtitle,
        time: match time {
            Some(t) => t.clone(),
            None => String::new(),
        },
        preview: match &thread.latest_reply_preview {
            Some(p) => p.clone(),
            None => "Tap to open thread".to_string(),
        },
    }
}

/// Everything the threads pane shows.
#[derive(Clone, Debug)]
pub struct ThreadsPaneInfo {
    pub room_name: String,
    pub entries: Vec<ThreadsPaneEntryInfo>,
    pub status_text: String,
    pub show_entries: bool,
    pub loading_text: String,
    pub show_loading: bool,
}

/// What the threads pane asks of the room screen.
#[derive(Clone, Debug)]
pub enum ThreadsPaneAction {
    /// Open the thread with this root event.
    OpenThread(String),
    /// The list was scrolled to its top: fetch older threads.
    LoadMoreRequested,
    /// Close the pane (close button, Escape, back, or a click outside).
    CloseRequested,
    /// Nothing for the room screen.
    NoAction,
}

/// What the threads button asks of the room screen.
#[derive(Clone, Debug)]
pub enum ThreadsButtonAction {
    OpenRequested,
    /// Nothing for the room screen.
    NoAction,
}

/// The line of the threads pane, which remembers the thread it shows so
/// that a tap on it can open that thread.
#[derive(Debug)]
pub struct ThreadsPaneEntry {
    pub thread_root_event_id: Option<String>,
}

impl ThreadsPaneEntry {
    /// Shows `entry` on this line.
    pub fn set_entry(&mut self, entry: &ThreadsPaneEntryInfo)
        ensures
            final(self).thread_root_event_id matches Some(id) && id@ == entry.thread_root_event_id@,
    {
        self.thread_root_event_id = Some(entry.thread_root_event_id.clone());
    }

    /// What a tap on this line asks for: opening its thread, if it shows one.
    pub fn on_tap(&self) -> (action: ThreadsPaneAction)
        ensures
            match self.thread_root_event_id {
                Some(id) => action matches ThreadsPaneAction::OpenThread(e) && e@ == id@,
                None => action is NoAction,
            },
    {
        match &self.thread_root_event_id {
            Some(id) => ThreadsPaneAction::OpenThread(id.clone()),
            None => ThreadsPaneAction::NoAction,
        }
    }
}

/// The threads button, which asks to open the pane when clicked.
#[derive(Debug)]
pub struct ThreadsButton {}

impl ThreadsButton {
    /// What a click on the button asks for.
    pub fn on_click(&self) -> (action: ThreadsButtonAction)
        ensures
            action is OpenRequested,
    {
        ThreadsButtonAction::OpenRequested
    }
}

/// Whether a sliding pane is shown, and whether it is sliding out.
#[derive(Debug)]
pub struct PaneVisibility {
    pub visible: bool,
    pub is_animating_out: bool,
}

impl PaneVisibility {
    /// A hidden pane.
    pub fn new() -> (v: Self)
        ensures
            !v.visible && !v.is_animating_out,
    {
        PaneVisibility { visible: false, is_animating_out: false }
    }

    /// Whether the pane is shown (also while it slides out).
    pub fn is_currently_shown(&self) -> (shown: bool)
        ensures
            shown == self.visible,
    {
        self.visible
    }

    /// Shows the pane, stopping any slide out.
    pub fn show(&mut self)
        ensures
            final(self).visible && !final(self).is_animating_out,
    {
        self.visible = true;
        self.is_animating_out = false;
    }

    /// Starts sliding a shown pane out; a hidden pane stays as it is.
    pub fn hide_pane(&mut self)
        ensures
            old(self).visible ==> final(self).visible && final(self).is_animating_out,
            !old(self).visible ==> *final(self) == *old(self),
    {
        if !self.visible {
            return;
        }
        self.is_animating_out = true;
    }

    /// Once the slide-out animation is over, the pane is hidden; says
    /// whether that happened now (then key focus goes back and the backdrop
    /// hides).
    pub fn on_animation_step(&mut self, still_animating: bool) -> (finished: bool)
        ensures
            finished == (old(self).is_animating_out && !still_animating),
            finished ==> !final(self).visible && !final(self).is_animating_out,
            !finished ==> *final(self) == *old(self),
    {
        if self.is_animating_out && !still_animating {
            self.visible = false;
            self.is_animating_out = false;
            true
        } else {
            false
        }
    }
}

/// The threads pane: its visibility and what it shows.
#[derive(Debug)]
pub struct ThreadsSlidingPane {
    pub visibility: PaneVisibility,
    pub info: Option<ThreadsPaneInfo>,
}

impl ThreadsSlidingPane {
    /// A hidden pane with nothing to show.
    pub fn new() -> (pane: Self)
        ensures
            !pane.visibility.visible && !pane.visibility.is_animating_out && pane.info is None,
    {
        ThreadsSlidingPane { visibility: PaneVisibility::new(), info: None }
    }

    /// Whether the pane is shown.
    pub fn is_currently_shown(&self) -> (shown: bool)
        ensures
            shown == self.visibility.visible,
    {
        self.visibility.is_currently_shown()
    }

    /// Sets what the pane shows.
    pub fn set_info(&mut self, info: ThreadsPaneInfo)
        ensures
            final(self).info == Some(info),
            final(self).visibility == old(self).visibility,
    {
        self.info = Some(info);
    }

    /// Shows the pane.
    pub fn show(&mut self)
        ensures
            final(self).visibility.visible && !final(self).visibility.is_animating_out,
            final(self).info == old(self).info,
    {
        self.visibility.show();
    }

    /// Slides the pane out, when shown.
    pub fn hide_pane(&mut self)
        ensures
            old(self).visibility.visible ==> final(self).visibility.visible && final(self).visibility.is_animating_out,
            !old(self).visibility.visible ==> final(self).visibility == old(self).visibility,
            final(self).info == old(self).info,
    {
        self.visibility.hide_pane();
    }
}

/// A handle to a threads pane, which may hold none (then it does nothing).
#[derive(Debug)]
pub struct ThreadsSlidingPaneRef {
    pub inner: Option<ThreadsSlidingPane>,
}

impl ThreadsSlidingPaneRef {
    /// Whether the pane exists and is shown.
    pub fn is_currently_shown(&self) -> (shown: bool)
        ensures
            shown == (self.inner matches Some(p) && p.visibility.visible),
    {
        match &self.inner {
            Some(p) => p.is_currently_shown(),
            None => false,
        }
    }

    /// Sets what the pane shows.
    pub fn set_info(&mut self, info: ThreadsPaneInfo)
        ensures
            match old(self).inner {
                Some(p) => final(self).inner matches Some(q) && q.info == Some(info) && q.visibility == p.visibility,
                None => final(self).inner is None,
            },
    {
        match &mut self.inner {
            Some(p) => p.set_info(info),
            None => {},
        }
    }

    /// Shows the pane.
    pub fn show(&mut self)
        ensures
            match old(self).inner {
                Some(p) => final(self).inner matches Some(q) && q.visibility.visible && !q.visibility.is_animating_out
                    && q.info == p.info,
                None => final(self).inner is None,
            },
    {
        match &mut self.inner {
            Some(p) => p.show(),
            None => {},
        }
    }

    /// Slides the pane out, when shown.
    pub fn hide_pane(&mut self)
        ensures
            match old(self).inner {
                Some(p) => final(self).inner matches Some(q) && q.info == p.info
                    && (p.visibility.visible ==> q.visibility.visible && q.visibility.is_animating_out)
                    && (!p.visibility.visible ==> q.visibility == p.visibility),
                None => final(self).inner is None,
            },
    {
        match &mut self.inner {
            Some(p) => p.hide_pane(),
            None => {},
        }
    }
}

/// A handle to a threads pane line, which may hold none.
#[derive(Debug)]
pub struct ThreadsPaneEntryRef {
    pub inner: Option<ThreadsPaneEntry>,
}

impl ThreadsPaneEntryRef {
    /// Shows `entry` on the line, if there is one.
    pub fn set_entry(&mut self, entry: &ThreadsPaneEntryInfo)
        ensures
            match old(self).inner {
                Some(_) => final(self).inner matches Some(q)
                    && (q.thread_root_event_id matches Some(id) && id@ == entry.thread_root_event_id@),
                None => final(self).inner is None,
            },
    {
        match &mut self.inner {
            Some(e) => e.set_entry(entry),
            None => {},
        }
    }
}

} // verus!
