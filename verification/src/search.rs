//! Server-side message search in a room: result previews, the state of the
//! active search, which responses still count, and jumping the timeline to
//! a found event.

use vstd::prelude::*;
use crate::text::{chars_vec, is_white_space, is_white_space_char, string_from_range, string_push, trim_string, trimmed};

verus! {

broadcast use vstd::seq::group_seq_axioms, vstd::seq_lib::group_seq_properties;

/// The words of `s`: its maximal runs of characters that are not white
/// space, in order (what `str::split_whitespace` yields).
pub open spec fn words(s: Seq<char>) -> Seq<Seq<char>>
    decreases s.len(),
{
    if s.len() == 0 {
        Seq::empty()
    } else {
        let before = words(s.drop_last());
        let c = s.last();
        if is_white_space(c) {
            before
        } else if s.len() >= 2 && !is_white_space(s[s.len() - 2]) && before.len() > 0 {
            before.update(before.len() - 1, before.last().push(c))
        } else {
            before.push(seq![c])
        }
    }
}

/// `ws` joined with single spaces.
pub open spec fn joined_words(ws: Seq<Seq<char>>) -> Seq<char>
    decreases ws.len(),
{
    if ws.len() == 0 {
        Seq::empty()
    } else if ws.len() == 1 {
        ws[0]
    } else {
        joined_words(ws.drop_last()) + seq![' '] + ws.last()
    }
}

/// A one-line preview of `s`: its words joined by single spaces, cut after
/// `max_chars` characters, with an ellipsis when it was cut.
pub open spec fn preview(s: Seq<char>, max_chars: nat) -> Seq<char> {
    let one_line = joined_words(words(s));
    if one_line.len() <= max_chars {
        one_line
    } else {
        one_line.take(max_chars as int).push('…')
    }
}

proof fn lemma_words_nonempty(s: Seq<char>)
    requires
        s.len() > 0,
        !is_white_space(s.last()),
    ensures
        words(s).len() > 0,
{
}

proof fn lemma_words_all_nonempty(s: Seq<char>)
    ensures
        forall|k: int| 0 <= k < words(s).len() ==> (#[trigger] words(s)[k]).len() > 0,
    decreases s.len(),
{
    if s.len() > 0 {
        lemma_words_all_nonempty(s.drop_last());
        let before = words(s.drop_last());
        let c = s.last();
        if is_white_space(c) {
        } else if s.len() >= 2 && !is_white_space(s[s.len() - 2]) && before.len() > 0 {
            let u = before.update(before.len() - 1, before.last().push(c));
            assert forall|k: int| 0 <= k < u.len() implies (#[trigger] u[k]).len() > 0 by {
                if k < before.len() - 1 {
                    assert(u[k] == before[k]);
                }
            }
        } else {
            let u = before.push(seq![c]);
            assert forall|k: int| 0 <= k < u.len() implies (#[trigger] u[k]).len() > 0 by {
                if k < before.len() {
                    assert(u[k] == before[k]);
                }
            }
        }
    }
}

proof fn lemma_joined_extend_last(ws: Seq<Seq<char>>, c: char)
    requires
        ws.len() > 0,
    ensures
        joined_words(ws.update(ws.len() - 1, ws.last().push(c))) == joined_words(ws).push(c),
{
    let u = ws.update(ws.len() - 1, ws.last().push(c));
    if ws.len() == 1 {
    } else {
        assert(u.drop_last() =~= ws.drop_last());
        assert(joined_words(u) =~= joined_words(ws).push(c));
    }
}

proof fn lemma_joined_push(ws: Seq<Seq<char>>, w: Seq<char>)
    ensures
        joined_words(ws.push(w)) == if ws.len() == 0 { w } else { joined_words(ws) + seq![' '] + w },
{
    assert(ws.push(w).drop_last() =~= ws);
}

/// `s` with its words joined by single spaces: leading and trailing white
/// space dropped, every inner run of it made one space.
fn collapse_white_space(s: &str) -> (out: Vec<char>)
    ensures
        out@ == joined_words(words(s@)),
{
    let cs = chars_vec(s);
    let mut out: Vec<char> = Vec::new();
    let mut pending_space = false;
    let mut i: usize = 0;
    while i < cs.len()
        invariant
            cs@ == s@,
            0 <= i <= cs@.len(),
            out@ == joined_words(words(s@.take(i as int))),
            pending_space == (i > 0 && is_white_space(s@[i - 1]) && words(s@.take(i as int)).len() > 0),
            !pending_space && i > 0 && !is_white_space(s@[i - 1]) ==> words(s@.take(i as int)).len() > 0,
        decreases cs@.len() - i,
    {
        let c = cs[i];
        let ghost pre = s@.take(i as int);
        let ghost next = s@.take(i + 1);
        proof {
            assert(next.drop_last() =~= pre);
            assert(next.last() == c);
            if i > 0 {
                assert(next[next.len() - 2] == s@[i - 1]);
                assert(pre.last() == s@[i - 1]);
            }
        }
        if is_white_space_char(c) {
            pending_space = out.len() > 0;
            proof {
                if words(pre).len() > 0 {
                    assert(joined_words(words(pre)).len() > 0) by {
                        lemma_words_all_nonempty(pre);
                        lemma_joined_nonempty(words(pre));
                    }
                } else {
                    assert(joined_words(words(pre)) =~= Seq::<char>::empty());
                }
            }
        } else {
            if i > 0 && !is_white_space_char(cs[i - 1]) {
                proof {
                    lemma_joined_extend_last(words(pre), c);
                }
                out.push(c);
            } else {
                proof {
                    lemma_joined_push(words(pre), seq![c]);
                }
                if pending_space {
                    out.push(' ');
                }
                out.push(c);
                pending_space = false;
                proof {
                    if words(pre).len() > 0 {
                        assert(out@ =~= joined_words(words(pre)) + seq![' '] + seq![c]);
                    } else {
                        assert(out@ =~= seq![c]);
                    }
                }
            }
            proof {
                lemma_words_nonempty(next);
            }
        }
        i += 1;
    }
    proof {
        assert(s@.take(cs@.len() as int) =~= s@);
    }
    out
}

proof fn lemma_joined_nonempty(ws: Seq<Seq<char>>)
    requires
        ws.len() > 0,
        forall|k: int| 0 <= k < ws.len() ==> (#[trigger] ws[k]).len() > 0,
    ensures
        joined_words(ws).len() > 0,
    decreases ws.len(),
{
    if ws.len() > 1 {
        lemma_joined_nonempty(ws.drop_last());
    }
}

/// `t` is one line of words: it neither starts nor ends with white space,
/// and its only white space is single spaces between two other characters.
pub open spec fn is_collapsed(t: Seq<char>) -> bool {
    &&& t.len() > 0 ==> !is_white_space(t[0]) && !is_white_space(t[t.len() - 1])
    &&& forall|i: int| 0 <= i < t.len() && #[trigger] is_white_space(t[i]) ==> {
        &&& t[i] == ' '
        &&& 0 < i < t.len() - 1
        &&& !is_white_space(t[i - 1])
        &&& !is_white_space(t[i + 1])
    }
}

proof fn lemma_words_have_no_white_space(s: Seq<char>)
    ensures
        forall|k: int, j: int| 0 <= k < words(s).len() && 0 <= j < words(s)[k].len()
            ==> !is_white_space(#[trigger] words(s)[k][j]),
    decreases s.len(),
{
    if s.len() > 0 {
        lemma_words_have_no_white_space(s.drop_last());
        let before = words(s.drop_last());
        let c = s.last();
        if is_white_space(c) {
        } else if s.len() >= 2 && !is_white_space(s[s.len() - 2]) && before.len() > 0 {
            let u = before.update(before.len() - 1, before.last().push(c));
            assert forall|k: int, j: int| 0 <= k < u.len() && 0 <= j < u[k].len() implies !is_white_space(#[trigger] u[k][j]) by {
                if k < before.len() - 1 {
                    assert(u[k] == before[k]);
                } else if j < before.last().len() {
                    assert(u[k][j] == before[k][j]);
                }
            }
        } else {
            let u = before.push(seq![c]);
            assert forall|k: int, j: int| 0 <= k < u.len() && 0 <= j < u[k].len() implies !is_white_space(#[trigger] u[k][j]) by {
                if k < before.len() {
                    assert(u[k] == before[k]);
                }
            }
        }
    }
}

/// Words without white space, none empty, joined by single spaces make one line.
proof fn lemma_joined_is_collapsed(ws: Seq<Seq<char>>)
    requires
        forall|k: int| 0 <= k < ws.len() ==> (#[trigger] ws[k]).len() > 0,
        forall|k: int, j: int| 0 <= k < ws.len() && 0 <= j < ws[k].len() ==> !is_white_space(#[trigger] ws[k][j]),
    ensures
        is_collapsed(joined_words(ws)),
    decreases ws.len(),
{
    if ws.len() == 1 {
        let w = ws[0];
        assert forall|i: int| 0 <= i < w.len() && #[trigger] is_white_space(w[i]) implies false by {
            assert(!is_white_space(ws[0][i]));
        }
        assert(!is_white_space(ws[0][0]));
        assert(!is_white_space(ws[0][w.len() - 1]));
    } else if ws.len() > 1 {
        let head = ws.drop_last();
        assert forall|k: int, j: int| 0 <= k < head.len() && 0 <= j < head[k].len() implies !is_white_space(#[trigger] head[k][j]) by {
            assert(head[k] == ws[k]);
        }
        assert forall|k: int| 0 <= k < head.len() implies (#[trigger] head[k]).len() > 0 by {
            assert(head[k] == ws[k]);
        }
        lemma_joined_is_collapsed(head);
        lemma_joined_nonempty(head);
        let a = joined_words(head);
        let w = ws.last();
        let t = a + seq![' '] + w;
        assert(w.len() > 0 && w == ws[ws.len() - 1]);
        assert forall|j: int| 0 <= j < w.len() implies !is_white_space(#[trigger] w[j]) by {
            assert(!is_white_space(ws[ws.len() - 1][j]));
        }
        assert(t[0] == a[0]);
        assert(t[t.len() - 1] == w[w.len() - 1]);
        assert forall|i: int| 0 <= i < t.len() && #[trigger] is_white_space(t[i]) implies {
            &&& t[i] == ' '
            &&& 0 < i < t.len() - 1
            &&& !is_white_space(t[i - 1])
            &&& !is_white_space(t[i + 1])
        } by {
            if i < a.len() {
                assert(t[i] == a[i]);
                assert(is_white_space(a[i]));
                assert(t[i - 1] == a[i - 1]);
                assert(t[i + 1] == a[i + 1]);
            } else if i == a.len() {
                assert(t[i - 1] == a[a.len() - 1]);
                assert(t[i + 1] == w[0]);
            } else {
                assert(t[i] == w[i - a.len() - 1]);
            }
        }
        assert(joined_words(ws) == t);
    }
}

/// One line of words is its own words joined by single spaces.
proof fn lemma_collapsed_is_fixed(t: Seq<char>)
    requires
        is_collapsed(t),
    ensures
        joined_words(words(t)) == t,
    decreases t.len(),
{
    if t.len() > 0 {
        let p = t.drop_last();
        let c = t.last();
        assert(!is_white_space(c));
        if p.len() == 0 {
            assert(words(p) =~= Seq::<Seq<char>>::empty());
            assert(words(t) == seq![seq![c]]);
            assert(joined_words(words(t)) =~= t);
        } else if !is_white_space(p.last()) {
            assert(is_collapsed(p)) by {
                assert(p[0] == t[0]);
                assert forall|i: int| 0 <= i < p.len() && #[trigger] is_white_space(p[i]) implies {
                    &&& p[i] == ' '
                    &&& 0 < i < p.len() - 1
                    &&& !is_white_space(p[i - 1])
                    &&& !is_white_space(p[i + 1])
                } by {
                    assert(p[i] == t[i]);
                    assert(is_white_space(t[i]));
                    if i == p.len() - 1 {
                        assert(p[i] == p.last());
                    }
                }
            }
            lemma_collapsed_is_fixed(p);
            lemma_words_nonempty(p);
            assert(t[t.len() - 2] == p.last());
            lemma_joined_extend_last(words(p), c);
            assert(joined_words(words(t)) =~= t);
        } else {
            let q = p.drop_last();
            assert(is_white_space(t[t.len() - 2]));
            assert(q.len() > 0);
            assert(!is_white_space(t[t.len() - 3]));
            assert(is_collapsed(q)) by {
                assert(q[0] == t[0]);
                assert(q[q.len() - 1] == t[t.len() - 3]);
                assert forall|i: int| 0 <= i < q.len() && #[trigger] is_white_space(q[i]) implies {
                    &&& q[i] == ' '
                    &&& 0 < i < q.len() - 1
                    &&& !is_white_space(q[i - 1])
                    &&& !is_white_space(q[i + 1])
                } by {
                    assert(q[i] == t[i]);
                    assert(is_white_space(t[i]));
                    assert(q[i - 1] == t[i - 1]);
                    assert(q[i + 1] == t[i + 1]);
                }
            }
            lemma_collapsed_is_fixed(q);
            assert(p.drop_last() == q);
            assert(words(p) == words(q));
            lemma_words_nonempty(q);
            lemma_joined_push(words(q), seq![c]);
            assert(t[t.len() - 2] == ' ');
            assert(joined_words(words(t)) =~= t);
        }
    }
}

/// Making a preview of a preview changes nothing.
pub proof fn lemma_preview_idempotent(s: Seq<char>, max_chars: nat)
    ensures
        preview(preview(s, max_chars), max_chars) == preview(s, max_chars),
{
    let one_line = joined_words(words(s));
    lemma_words_all_nonempty(s);
    lemma_words_have_no_white_space(s);
    if words(s).len() == 0 {
        assert(one_line =~= Seq::<char>::empty());
        assert(words(one_line) =~= Seq::<Seq<char>>::empty());
    } else {
        lemma_joined_is_collapsed(words(s));
    }
    assert(is_collapsed(one_line));
    if one_line.len() <= max_chars {
        lemma_collapsed_is_fixed(one_line);
    } else {
        let r = one_line.take(max_chars as int).push('…');
        assert(!is_white_space('…'));
        assert(is_collapsed(r)) by {
            if max_chars > 0 {
                assert(r[0] == one_line[0]);
            }
            assert(r[r.len() - 1] == '…');
            assert forall|i: int| 0 <= i < r.len() && #[trigger] is_white_space(r[i]) implies {
                &&& r[i] == ' '
                &&& 0 < i < r.len() - 1
                &&& !is_white_space(r[i - 1])
                &&& !is_white_space(r[i + 1])
            } by {
                assert(i < max_chars);
                assert(r[i] == one_line[i]);
                assert(is_white_space(one_line[i]));
                assert(r[i - 1] == one_line[i - 1]);
                if i + 1 < max_chars {
                    assert(r[i + 1] == one_line[i + 1]);
                }
            }
        }
        lemma_collapsed_is_fixed(r);
        assert(r.take(max_chars as int) =~= one_line.take(max_chars as int));
    }
}

/// A single-line preview of `s`: runs of white space (newlines included)
/// collapse into single spaces, and past `max_chars` characters the text is
/// cut and ends with an ellipsis.
pub fn truncate_preview(s: &str, max_chars: usize) -> (out: String)
    ensures
        out@ == preview(s@, max_chars as nat),
{
    let normalized = collapse_white_space(s);
    if normalized.len() <= max_chars {
        return string_from_range(&normalized, 0, normalized.len());
    }
    let mut out = string_from_range(&normalized, 0, max_chars);
    string_push(&mut out, '…');
    proof {
        assert(normalized@.subrange(0, normalized@.len() as int) =~= normalized@);
    }
    out
}

/// A message found by a server-side search.
#[derive(Clone, Debug)]
pub struct SearchedMessage {
    pub event_id: String,
    pub sender_user_id: String,
    pub sender_display_name: Option<String>,
    /// When it was sent, in milliseconds since the Unix epoch.
    pub timestamp: u64,
    pub body: String,
}

/// One search result as the search pane shows it.
#[derive(Clone, Debug)]
pub struct MessageSearchHit {
    pub event_id: String,
    pub sender_display: String,
    pub timestamp_display: String,
    pub body_preview: String,
}

/// How many characters of a found message's body its preview keeps.
pub const SEARCH_PREVIEW_MAX_CHARS: usize = 240;

/// The result line for the found message `m`.  `timestamp_display` is its
/// time as the caller formatted it in the local time zone (`None` when the
/// timestamp cannot be shown); the sender is shown by display name, else by
/// user ID, and the body as a one-line preview.
pub fn message_search_hit_from_searched_message(m: &SearchedMessage, timestamp_display: Option<String>) -> (hit: MessageSearchHit)
    ensures
        hit.event_id@ == m.event_id@,
        hit.sender_display@ == match m.sender_display_name {
            Some(n) => n@,
            None => m.sender_user_id@,
        },
        hit.timestamp_display@ == match timestamp_display {
            Some(t) => t@,
            None => Seq::<char>::empty(),
        },
        hit.body_preview@ == preview(m.body@, SEARCH_PREVIEW_MAX_CHARS as nat),
{
    let sender_display = match &m.sender_display_name {
        Some(name) => name.clone(),
        None => m.sender_user_id.clone(),
    };
    let timestamp_display = match timestamp_display {
        Some(t) => t,
        None => String::new(),
    };
    MessageSearchHit {
        event_id: m.event_id.clone(),
        sender_display,
        timestamp_display,
        body_preview: truncate_preview(m.body.as_str(), SEARCH_PREVIEW_MAX_CHARS),
    }
}

/// A search request for the server.
#[derive(Clone, Debug)]
pub struct SearchRequest {
    pub room_id: String,
    /// The text searched for; empty to only abort the previous search.
    pub search_term: String,
    /// The token of the page to fetch next, `None` for the first page.
    pub next_batch: Option<String>,
    /// Whether a search still running is aborted first.
    pub abort_previous: bool,
}

/// What submitting a search query led to.
#[derive(Debug)]
pub enum SearchSubmission {
    /// No room is shown: the pane goes idle.
    NoRoom,
    /// The query was blank: the running search is aborted and the pane cleared.
    Cleared(SearchRequest),
    /// The room is encrypted, which server-side search cannot look into.
    Encrypted,
    /// A new search was sent.
    Started(SearchRequest),
}

/// The room ID used by abort-only requests when no room is shown.
pub open spec fn placeholder_room_id() -> Seq<char> {
    "!none:none.invalid"@
}

/// The shown room's ID, or a placeholder when none is shown (abort-only
/// requests need some room ID; their empty search term makes the server
/// side skip them).
pub fn current_room_id_or_placeholder(current_room_id: Option<&String>) -> (id: String)
    ensures
        id@ == match current_room_id {
            Some(r) => r@,
            None => placeholder_room_id(),
        },
{
    match current_room_id {
        Some(r) => r.clone(),
        None => "!none:none.invalid".to_string(),
    }
}

/// The active server-side search of a room's search pane.  It is reset when
/// the pane is closed, the query is cleared or the room changes.
#[derive(Debug)]
pub struct RoomSearchState {
    /// The query being searched; empty when idle.
    pub query: String,
    /// The room the query targets, so that late results for another room are
    /// ignored; `None` when idle.
    pub room_id: Option<String>,
    /// The token of the next page of results, when there are more.
    pub next_batch: Option<String>,
    /// Whether a request (first page or later one) is on its way.
    pub request_in_flight: bool,
}

impl RoomSearchState {
    /// No search is active.
    pub open spec fn is_idle(&self) -> bool {
        &&& self.query@.len() == 0
        &&& self.room_id is None
        &&& self.next_batch is None
        &&& !self.request_in_flight
    }

    /// Whether a response for `search_term` in `room_id` belongs to the
    /// search that is shown.
    pub open spec fn is_current(&self, room_id: Seq<char>, search_term: Seq<char>) -> bool {
        self.room_id matches Some(r) && r@ == room_id && self.query@ == search_term
    }

    /// An idle search.
    pub fn new() -> (state: Self)
        ensures
            state.is_idle(),
    {
        RoomSearchState { query: String::new(), room_id: None, next_batch: None, request_in_flight: false }
    }

    /// Makes the search idle.
    pub fn reset(&mut self)
        ensures
            final(self).is_idle(),
    {
        self.query = String::new();
        self.room_id = None;
        self.next_batch = None;
        self.request_in_flight = false;
    }

    /// Whether a response for `search_term` in `room_id` should be honoured:
    /// it matches the search that is shown.
    pub fn is_search_result_current(&self, room_id: &String, search_term: &str) -> (current: bool)
        ensures
            current == self.is_current(room_id@, search_term@),
    {
        match &self.room_id {
            Some(r) => *r == *room_id && crate::text::str_eq(self.query.as_str(), search_term),
            None => false,
        }
    }

    /// Submits a fresh search for `query` (trimmed) in the shown room.  A
    /// blank query aborts the running search and makes the state idle; so
    /// does an encrypted room, which the server cannot search.  With no room
    /// shown nothing changes.
    pub fn submit_message_search(
        &mut self,
        current_room_id: Option<&String>,
        room_is_encrypted: bool,
        query: &str,
    ) -> (outcome: SearchSubmission)
        ensures
            match current_room_id {
                None => outcome is NoRoom && *final(self) == *old(self),
                Some(room) => if trimmed(query@).len() == 0 {
                    &&& final(self).is_idle()
                    &&& outcome matches SearchSubmission::Cleared(r) && r.room_id@ == room@
                        && r.search_term@.len() == 0 && r.next_batch is None && r.abort_previous
                } else if room_is_encrypted {
                    final(self).is_idle() && outcome is Encrypted
                } else {
                    &&& final(self).query@ == trimmed(query@)
                    &&& final(self).room_id matches Some(r) && r@ == room@
                    &&& final(self).next_batch is None
                    &&& final(self).request_in_flight
                    &&& outcome matches SearchSubmission::Started(r) && r.room_id@ == room@
                        && r.search_term@ == trimmed(query@) && r.next_batch is None && r.abort_previous
                },
            },
    {
        let trimmed_query = trim_string(query);
        let room_id = match current_room_id {
            Some(r) => r.clone(),
            None => return SearchSubmission::NoRoom,
        };
        if trimmed_query.as_str().is_empty() {
            self.reset();
            return SearchSubmission::Cleared(SearchRequest {
                room_id,
                search_term: String::new(),
                next_batch: None,
                abort_previous: true,
            });
        }
        if room_is_encrypted {
            self.reset();
            return SearchSubmission::Encrypted;
        }
        *self = RoomSearchState {
            query: trimmed_query.clone(),
            room_id: Some(room_id.clone()),
            next_batch: None,
            request_in_flight: true,
        };
        SearchSubmission::Started(SearchRequest {
            room_id,
            search_term: trimmed_query,
            next_batch: None,
            abort_previous: true,
        })
    }

    /// Whether a further page of the shown search can be fetched now: the
    /// server gave a next-page token, no request is on its way, the search
    /// is for the shown room and its query is not empty.
    pub open spec fn can_load_more(&self, current_room_id: Option<Seq<char>>) -> bool {
        &&& !self.request_in_flight
        &&& self.next_batch is Some
        &&& self.room_id is Some
        &&& current_room_id == Some(self.room_id->0@)
        &&& self.query@.len() > 0
    }

    /// Requests the next page of the shown search, when it
    /// [can](Self::can_load_more); otherwise does nothing.
    pub fn submit_message_search_next_page(&mut self, current_room_id: Option<&String>) -> (request: Option<SearchRequest>)
        ensures
            match current_room_id {
                Some(r) => old(self).can_load_more(Some(r@)),
                None => false,
            } ==> {
                &&& request matches Some(req) && req.room_id == old(self).room_id->0
                    && req.search_term == old(self).query && req.next_batch == old(self).next_batch
                    && !req.abort_previous
                &&& final(self).request_in_flight
                &&& final(self).query == old(self).query
                &&& final(self).room_id == old(self).room_id
                &&& final(self).next_batch == old(self).next_batch
            },
            !(match current_room_id {
                Some(r) => old(self).can_load_more(Some(r@)),
                None => false,
            }) ==> request is None && *final(self) == *old(self),
    {
        if self.request_in_flight {
            return None;
        }
        let next_batch = match &self.next_batch {
            Some(nb) => nb.clone(),
            None => return None,
        };
        let state_room_id = match &self.room_id {
            Some(r) => r.clone(),
            None => return None,
        };
        let current = match current_room_id {
            Some(r) => r,
            None => return None,
        };
        if *current != state_room_id {
            return None;
        }
        if self.query.as_str().is_empty() {
            return None;
        }
        self.request_in_flight = true;
        Some(SearchRequest {
            room_id: state_room_id,
            search_term: self.query.clone(),
            next_batch: Some(next_batch),
            abort_previous: false,
        })
    }

    /// Takes in a page of results for `search_term` in `room_id`; says
    /// whether they belong to the shown search (late results of another
    /// search are dropped).  Their `next_batch` token is kept for the next
    /// page.
    pub fn on_search_results_received(&mut self, room_id: &String, search_term: &str, next_batch: Option<String>) -> (current: bool)
        ensures
            current == old(self).is_current(room_id@, search_term@),
            current ==> !final(self).request_in_flight && final(self).next_batch == next_batch
                && final(self).query == old(self).query && final(self).room_id == old(self).room_id,
            !current ==> *final(self) == *old(self),
    {
        if !self.is_search_result_current(room_id, search_term) {
            return false;
        }
        self.request_in_flight = false;
        self.next_batch = next_batch;
        true
    }

    /// Takes in the failure of the search for `search_term` in `room_id`;
    /// says whether it was the shown search.
    pub fn on_search_failed(&mut self, room_id: &String, search_term: &str) -> (current: bool)
        ensures
            current == old(self).is_current(room_id@, search_term@),
            current ==> !final(self).request_in_flight && final(self).next_batch == old(self).next_batch
                && final(self).query == old(self).query && final(self).room_id == old(self).room_id,
            !current ==> *final(self) == *old(self),
    {
        if !self.is_search_result_current(room_id, search_term) {
            return false;
        }
        self.request_in_flight = false;
        true
    }
}

impl Default for RoomSearchState {
    fn default() -> (state: Self)
        ensures
            state.is_idle(),
    {
        RoomSearchState::new()
    }
}

/// What the search button and pane asked for.
#[derive(Clone, Debug)]
pub enum SearchMessagesAction {
    OpenRequested,
    CloseRequested,
    QueryChanged(String),
    LoadMoreRequested,
    JumpToEvent(String),
    /// Nothing for the room screen.
    NoAction,
}

/// Whether some action of `actions` asks to close the pane.
pub open spec fn asks_close(actions: Seq<SearchMessagesAction>) -> bool {
    exists|i: int| 0 <= i < actions.len() && #[trigger] actions[i] is CloseRequested
}

/// Whether some action of `actions` asks to open the pane.
pub open spec fn asks_open(actions: Seq<SearchMessagesAction>) -> bool {
    exists|i: int| 0 <= i < actions.len() && #[trigger] actions[i] is OpenRequested
}

/// Whether some action of `actions` asks for more results.
pub open spec fn asks_more(actions: Seq<SearchMessagesAction>) -> bool {
    exists|i: int| 0 <= i < actions.len() && #[trigger] actions[i] is LoadMoreRequested
}

/// The query of the last query change in `actions`.
pub open spec fn last_query(actions: Seq<SearchMessagesAction>) -> Option<String>
    decreases actions.len(),
{
    if actions.len() == 0 {
        None
    } else if let SearchMessagesAction::QueryChanged(q) = actions.last() {
        Some(q)
    } else {
        last_query(actions.drop_last())
    }
}

/// The event of the last jump request in `actions`.
pub open spec fn last_jump(actions: Seq<SearchMessagesAction>) -> Option<String>
    decreases actions.len(),
{
    if actions.len() == 0 {
        None
    } else if let SearchMessagesAction::JumpToEvent(e) = actions.last() {
        Some(e)
    } else {
        last_jump(actions.drop_last())
    }
}

/// What the room screen does with one batch of search-pane actions.
#[derive(Debug)]
pub struct SearchEffects {
    /// Hide the pane and show the search button again.
    pub close_pane: bool,
    /// Clear and show the pane, hiding the search button.
    pub open_pane: bool,
    /// A request that aborts the running search.
    pub abort: Option<SearchRequest>,
    /// The event to jump the timeline to.
    pub jump_to: Option<String>,
    /// What submitting the new query led to.
    pub submission: Option<SearchSubmission>,
    /// The request for the next page of results.
    pub next_page: Option<SearchRequest>,
}

/// Handles one batch of search-pane actions.  Closing wins over everything
/// else: the running search is aborted and the state made idle.  Otherwise a
/// jump to a found event hides the pane (the state stays as it is).
/// Otherwise opening clears the state, then the last query change is
/// submitted and a request for more results is made.
pub fn handle_search_messages_actions(
    state: &mut RoomSearchState,
    actions: &[SearchMessagesAction],
    current_room_id: Option<&String>,
    room_is_encrypted: bool,
) -> (effects: SearchEffects)
    ensures
        asks_close(actions@) ==> {
            &&& effects.close_pane && !effects.open_pane
            &&& effects.abort matches Some(r) && r.room_id@ == match current_room_id {
                Some(c) => c@,
                None => placeholder_room_id(),
            } && r.search_term@.len() == 0 && r.next_batch is None && r.abort_previous
            &&& effects.jump_to is None && effects.submission is None && effects.next_page is None
            &&& final(state).is_idle()
        },
        !asks_close(actions@) && last_jump(actions@) is Some ==> {
            &&& effects.close_pane && !effects.open_pane
            &&& effects.jump_to == last_jump(actions@)
            &&& effects.abort is None && effects.submission is None && effects.next_page is None
            &&& *final(state) == *old(state)
        },
        !asks_close(actions@) && last_jump(actions@) is None ==> {
            &&& !effects.close_pane && effects.jump_to is None && effects.abort is None
            &&& effects.open_pane == asks_open(actions@)
            &&& (last_query(actions@) is None ==> effects.submission is None)
            &&& (!asks_more(actions@) ==> effects.next_page is None)
            &&& (!asks_open(actions@) && last_query(actions@) is None && !asks_more(actions@)
                ==> *final(state) == *old(state))
        },
{
    let mut requested_close = false;
    let mut requested_open = false;
    let mut new_query: Option<String> = None;
    let mut load_more = false;
    let mut jump_target: Option<String> = None;
    let mut i: usize = 0;
    while i < actions.len()
        invariant
            0 <= i <= actions@.len(),
            requested_close == asks_close(actions@.take(i as int)),
            requested_open == asks_open(actions@.take(i as int)),
            load_more == asks_more(actions@.take(i as int)),
            new_query == last_query(actions@.take(i as int)),
            jump_target == last_jump(actions@.take(i as int)),
        decreases actions@.len() - i,
    {
        let ghost pre = actions@.take(i as int);
        let ghost next = actions@.take(i + 1);
        proof {
            assert(next.drop_last() =~= pre);
            assert(next.last() == actions@[i as int]);
            assert forall|k: int| 0 <= k < pre.len() implies next[k] == pre[k] by {}
            assert(next[i as int] == actions@[i as int]);
        }
        match &actions[i] {
            SearchMessagesAction::OpenRequested => requested_open = true,
            SearchMessagesAction::CloseRequested => requested_close = true,
            SearchMessagesAction::QueryChanged(q) => new_query = Some(q.clone()),
            SearchMessagesAction::LoadMoreRequested => load_more = true,
            SearchMessagesAction::JumpToEvent(e) => jump_target = Some(e.clone()),
            SearchMessagesAction::NoAction => {},
        }
        i += 1;
    }
    proof {
        assert(actions@.take(actions@.len() as int) =~= actions@);
    }
    if requested_close {
        let abort = SearchRequest {
            room_id: current_room_id_or_placeholder(current_room_id),
            search_term: String::new(),
            next_batch: None,
            abort_previous: true,
        };
        state.reset();
        return SearchEffects {
            close_pane: true,
            open_pane: false,
            abort: Some(abort),
            jump_to: None,
            submission: None,
            next_page: None,
        };
    }
    if jump_target.is_some() {
        return SearchEffects {
            close_pane: true,
            open_pane: false,
            abort: None,
            jump_to: jump_target,
            submission: None,
            next_page: None,
        };
    }
    if requested_open {
        state.reset();
    }
    let submission = match new_query {
        Some(query) => Some(state.submit_message_search(current_room_id, room_is_encrypted, query.as_str())),
        None => None,
    };
    let next_page = if load_more {
        state.submit_message_search_next_page(current_room_id)
    } else {
        None
    };
    SearchEffects { close_pane: false, open_pane: requested_open, abort: None, jump_to: None, submission, next_page }
}

// ---------------------------------------------------------------------------
// Jumping to an event.
// ---------------------------------------------------------------------------

/// The index of the last item before `hi` whose event is `target`, looking
/// back through at most `budget` items.
pub open spec fn last_match_within(ids: Seq<Option<String>>, hi: int, target: Seq<char>, budget: int) -> Option<int>
    decreases hi,
{
    if hi <= 0 || budget <= 0 {
        None
    } else if ids[hi - 1] matches Some(e) && e@ == target {
        Some(hi - 1)
    } else {
        last_match_within(ids, hi - 1, target, budget - 1)
    }
}

/// Where a backwards search for an event in the timeline ended.
#[derive(Debug)]
pub struct EventSearch {
    /// The index of the event, when it was found.
    pub found_index: Option<usize>,
    /// How many items were looked at.
    pub items_searched: usize,
    /// The index below which a background search has to go on, when the
    /// event was not found: the items looked at are not searched again.
    pub starting_index: usize,
}

/// Looks for `target` among the events `event_ids` of the timeline items
/// before `max_tl_idx`, from the nearest backwards, through at most
/// `max_items` items.
pub fn find_event_backwards(
    event_ids: &[Option<String>],
    max_tl_idx: usize,
    target: &String,
    max_items: usize,
) -> (search: EventSearch)
    requires
        max_tl_idx <= event_ids@.len(),
    ensures
        search.found_index == match last_match_within(event_ids@, max_tl_idx as int, target@, max_items as int) {
            Some(k) => Some(k as usize),
            None => None::<usize>,
        },
        search.items_searched == match search.found_index {
            Some(k) => (max_tl_idx - k) as usize,
            None => if max_items <= max_tl_idx { max_items } else { max_tl_idx },
        },
        search.starting_index == max_tl_idx - search.items_searched,
{
    let mut hi: usize = max_tl_idx;
    let mut searched: usize = 0;
    while hi > 0 && searched < max_items
        invariant
            hi <= max_tl_idx <= event_ids@.len(),
            searched == max_tl_idx - hi,
            searched <= max_items,
            last_match_within(event_ids@, max_tl_idx as int, target@, max_items as int)
                == last_match_within(event_ids@, hi as int, target@, max_items - searched),
        decreases hi,
    {
        searched += 1;
        let is_target = match &event_ids[hi - 1] {
            Some(e) => *e == *target,
            None => false,
        };
        if is_target {
            return EventSearch { found_index: Some(hi - 1), items_searched: searched, starting_index: max_tl_idx - searched };
        }
        hi -= 1;
    }
    EventSearch { found_index: None, items_searched: searched, starting_index: max_tl_idx - searched }
}

/// A request to page back through a room's timeline until an event appears.
#[derive(Clone, Debug)]
pub struct BackwardsPaginateUntilEventRequest {
    pub room_id: String,
    pub target_event_id: String,
    /// The index below which the search goes on.
    pub starting_index: usize,
    /// The timeline's length when the request was made.
    pub current_tl_len: usize,
}

/// Asks for a background search of `target_event_id` in `room_id`.  A
/// request already pending for that room is reused (the first one, which
/// now looks for the new event); otherwise a new one is appended.
pub fn queue_backwards_paginate(
    requests: &mut Vec<BackwardsPaginateUntilEventRequest>,
    room_id: &String,
    target_event_id: &String,
    starting_index: usize,
    current_tl_len: usize,
)
    ensures
        (exists|i: int| 0 <= i < old(requests)@.len() && #[trigger] old(requests)@[i].room_id@ == room_id@) ==> {
            let i = choose|i: int| 0 <= i < old(requests)@.len() && #[trigger] old(requests)@[i].room_id@ == room_id@
                && forall|k: int| 0 <= k < i ==> old(requests)@[k].room_id@ != room_id@;
            &&& final(requests)@.len() == old(requests)@.len()
            &&& final(requests)@[i].target_event_id@ == target_event_id@
            &&& final(requests)@[i].room_id == old(requests)@[i].room_id
            &&& final(requests)@[i].starting_index == old(requests)@[i].starting_index
            &&& final(requests)@[i].current_tl_len == old(requests)@[i].current_tl_len
            &&& forall|k: int| 0 <= k < old(requests)@.len() && k != i ==> final(requests)@[k] == old(requests)@[k]
        },
        !(exists|i: int| 0 <= i < old(requests)@.len() && #[trigger] old(requests)@[i].room_id@ == room_id@) ==> {
            &&& final(requests)@.len() == old(requests)@.len() + 1
            &&& final(requests)@.take(old(requests)@.len() as int) == old(requests)@
            &&& final(requests)@.last().room_id@ == room_id@
            &&& final(requests)@.last().target_event_id@ == target_event_id@
            &&& final(requests)@.last().starting_index == starting_index
            &&& final(requests)@.last().current_tl_len == current_tl_len
        },
{
    let mut i: usize = 0;
    while i < requests.len()
        invariant
            0 <= i <= requests@.len(),
            requests@ == old(requests)@,
            forall|k: int| 0 <= k < i ==> requests@[k].room_id@ != room_id@,
        decreases requests@.len() - i,
    {
        if requests[i].room_id == *room_id {
            let mut existing = requests[i].clone_request();
            existing.target_event_id = target_event_id.clone();
            requests.set(i, existing);
            proof {
                let j = choose|j: int| 0 <= j < old(requests)@.len() && #[trigger] old(requests)@[j].room_id@ == room_id@
                    && forall|k: int| 0 <= k < j ==> old(requests)@[k].room_id@ != room_id@;
                assert(forall|k: int| 0 <= k < i ==> old(requests)@[k].room_id@ != room_id@);
                if j < i {
                    assert(false);
                } else if j > i {
                    assert(old(requests)@[i as int].room_id@ == room_id@);
                    assert(false);
                }
            }
            return;
        }
        i += 1;
    }
    requests.push(BackwardsPaginateUntilEventRequest {
        room_id: room_id.clone(),
        target_event_id: target_event_id.clone(),
        starting_index,
        current_tl_len,
    });
    proof {
        assert(requests@.take(old(requests)@.len() as int) =~= old(requests)@);
    }
}

impl BackwardsPaginateUntilEventRequest {
    /// A copy of this request.
    pub fn clone_request(&self) -> (r: Self)
        ensures
            r == *self,
    {
        BackwardsPaginateUntilEventRequest {
            room_id: self.room_id.clone(),
            target_event_id: self.target_event_id.clone(),
            starting_index: self.starting_index,
            current_tl_len: self.current_tl_len,
        }
    }
}

} // verus!
