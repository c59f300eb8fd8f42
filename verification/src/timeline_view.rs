//! Decisions of the timeline's drawing pass: how a message's delivery shows,
//! when a message joins the previous one in a compact view, what a reply
//! preview and a thread summary show, which drawn items must be redrawn,
//! and which approval requests have run out.

use vstd::prelude::*;
use crate::i18n::{formatted, lemma_format_one, tr_fmt, tr_key, translated, AppLanguage, Translations};
use crate::text::{decimal, decimal_string, replaced, string_push_str};

verus! {

broadcast use vstd::seq::group_seq_axioms, vstd::seq_lib::group_seq_properties;

/// Why the send queue parked a message until the user acts.
#[derive(Clone, Debug)]
pub enum QueueWedgeError {
    InsecureDevices,
    IdentityViolations,
    CrossVerificationRequired,
    MissingMediaContent,
    InvalidMimeType { mime_type: String },
    GenericApiError { msg: String },
}

/// The error of a failed send.
#[derive(Clone, Debug)]
pub enum SendError {
    /// The send queue parked the message.
    Wedged(QueueWedgeError),
    /// Any other error, as its text.
    Other(String),
}

/// Where a message sent through the send queue stands.
#[derive(Clone, Debug)]
pub enum EventSendState {
    NotSentYet,
    Sent,
    SendingFailed { error: SendError, is_recoverable: bool },
}

/// How a message's delivery shows in the timeline.
#[derive(Clone, Debug)]
pub enum MessageDeliveryState {
    /// On its way.
    Sending,
    /// Failed; the queue retries once the connection is back.
    FailedRetrying,
    /// Failed and parked until the user acts.
    FailedWedged { reason: String },
}

/// The reason shown for a parked send.
pub open spec fn wedge_reason(error: SendError) -> Seq<char> {
    match error {
        SendError::Wedged(w) => match w {
            QueueWedgeError::InsecureDevices => "Some devices in this room are unverified"@,
            QueueWedgeError::IdentityViolations => "A member's verified identity has changed"@,
            QueueWedgeError::CrossVerificationRequired => "This session must be verified before sending"@,
            QueueWedgeError::MissingMediaContent => "The attachment is no longer available"@,
            QueueWedgeError::InvalidMimeType { mime_type } => "Unsupported attachment type: "@ + mime_type@,
            QueueWedgeError::GenericApiError { msg } => msg@,
        },
        SendError::Other(text) => text@,
    }
}

/// A short, readable reason for a send that is parked and needs the user.
pub fn wedge_error_reason(error: &SendError) -> (reason: String)
    ensures
        reason@ == wedge_reason(*error),
{
    match error {
        SendError::Wedged(w) => match w {
            QueueWedgeError::InsecureDevices => "Some devices in this room are unverified".to_string(),
            QueueWedgeError::IdentityViolations => "A member's verified identity has changed".to_string(),
            QueueWedgeError::CrossVerificationRequired => "This session must be verified before sending".to_string(),
            QueueWedgeError::MissingMediaContent => "The attachment is no longer available".to_string(),
            QueueWedgeError::InvalidMimeType { mime_type } => {
                let mut s = "Unsupported attachment type: ".to_string();
                string_push_str(&mut s, mime_type.as_str());
                s
            },
            QueueWedgeError::GenericApiError { msg } => msg.clone(),
        },
        SendError::Other(text) => text.clone(),
    }
}

impl MessageDeliveryState {
    /// The delivery state shown for a message with send state `send_state`:
    /// none when it never went through the send queue or the server accepted
    /// it.
    pub fn from_item(send_state: Option<&EventSendState>) -> (state: Option<MessageDeliveryState>)
        ensures
            match send_state {
                None => state is None,
                Some(EventSendState::NotSentYet) => state matches Some(MessageDeliveryState::Sending),
                Some(EventSendState::Sent) => state is None,
                Some(EventSendState::SendingFailed { error, is_recoverable }) => if *is_recoverable {
                    state matches Some(MessageDeliveryState::FailedRetrying)
                } else {
                    state matches Some(MessageDeliveryState::FailedWedged { reason }) && reason@ == wedge_reason(*error)
                },
            },
    {
        match send_state {
            None => None,
            Some(EventSendState::NotSentYet) => Some(MessageDeliveryState::Sending),
            Some(EventSendState::Sent) => None,
            Some(EventSendState::SendingFailed { error, is_recoverable }) => {
                if *is_recoverable {
                    Some(MessageDeliveryState::FailedRetrying)
                } else {
                    Some(MessageDeliveryState::FailedWedged { reason: wedge_error_reason(error) })
                }
            },
        }
    }
}

/// What the send-state indicator of a message shows: (indicator shown,
/// sending dots shown and animated, failure button shown).
pub fn send_state_visibility(state: &Option<MessageDeliveryState>) -> (v: (bool, bool, bool))
    ensures
        ({
            let sending = *state matches Some(MessageDeliveryState::Sending);
            let failed = state is Some && !sending;
            v == (sending || failed, sending, failed)
        }),
{
    let sending = match state {
        Some(MessageDeliveryState::Sending) => true,
        _ => false,
    };
    let failed = match state {
        Some(MessageDeliveryState::FailedRetrying) => true,
        Some(MessageDeliveryState::FailedWedged { .. }) => true,
        _ => false,
    };
    (sending || failed, sending, failed)
}

/// Whether an item's profile and content were drawn (so it need not be
/// drawn again).
#[derive(Clone, Copy, Debug)]
pub struct ItemDrawnStatus {
    pub profile_drawn: bool,
    pub content_drawn: bool,
}

impl ItemDrawnStatus {
    /// Nothing drawn yet.
    pub fn new() -> (s: Self)
        ensures
            !s.profile_drawn && !s.content_drawn,
    {
        ItemDrawnStatus { profile_drawn: false, content_drawn: false }
    }

    /// Everything drawn.
    pub fn both_drawn() -> (s: Self)
        ensures
            s.profile_drawn && s.content_drawn,
    {
        ItemDrawnStatus { profile_drawn: true, content_drawn: true }
    }
}

/// How long after the previous message of the same sender a message still
/// joins it in a compact view: ten minutes, in milliseconds.
pub const COMPACT_VIEW_WINDOW_MILLIS: u64 = 600000;

/// What the drawing pass knows of the item before a message: whether it is a
/// message-like event, its sender and its time.
#[derive(Clone, Debug)]
pub struct PreviousItem {
    pub is_message_like: bool,
    pub sender: String,
    pub timestamp_millis: u64,
}

/// Whether a message by `sender` at `timestamp_millis` is drawn compactly
/// (without the sender's profile): the item before it is a message-like
/// event by the same sender, sent no later than it and less than ten
/// minutes before.
pub fn use_compact_view(prev: Option<&PreviousItem>, sender: &String, timestamp_millis: u64) -> (compact: bool)
    ensures
        compact == match prev {
            Some(p) => p.is_message_like && p.sender@ == sender@ && p.timestamp_millis <= timestamp_millis
                && timestamp_millis - p.timestamp_millis < COMPACT_VIEW_WINDOW_MILLIS,
            None => false,
        },
{
    match prev {
        Some(p) => {
            p.is_message_like && p.sender == *sender && p.timestamp_millis <= timestamp_millis
                && timestamp_millis - p.timestamp_millis < COMPACT_VIEW_WINDOW_MILLIS
        },
        None => false,
    }
}

/// Whether the widget of an item can be shown as it is: it already existed
/// and its content was drawn.
pub fn reuse_drawn_item(existed: bool, status: ItemDrawnStatus) -> (reuse: bool)
    ensures
        reuse == (existed && status.content_drawn),
{
    existed && status.content_drawn
}

/// What is known of the message a reply answers.
#[derive(Clone, Copy, Debug)]
pub enum ReplyDetails {
    /// It is known.
    Ready,
    /// Fetching it failed.
    Error,
    /// It is being fetched.
    Pending,
    /// It is not known and not being fetched.
    Unavailable,
}

/// What the reply preview above a message shows.
#[derive(Debug)]
pub struct ReplyPreviewPlan {
    pub show_reply: bool,
    /// Whether the preview is complete (`None` when that depends on whether
    /// the replied-to sender's avatar could be drawn).
    pub fully_drawn: Option<bool>,
    /// The key of the text shown for the sender, when it is not known.
    pub username_key: Option<&'static str>,
    /// The key of the text shown for the body, when it is not known.
    pub body_key: Option<&'static str>,
    /// The reply whose details must be fetched.
    pub fetch_details_for: Option<String>,
}

/// What the reply preview of a message shows: nothing when it is no reply;
/// the replied-to message when it is known; an error text when fetching it
/// failed; a loading text (and, when nobody fetches it, a request to fetch
/// the details of this reply) otherwise.
pub fn reply_preview_plan(in_reply_to: Option<ReplyDetails>, message_event_id: Option<&String>) -> (plan: ReplyPreviewPlan)
    ensures
        match in_reply_to {
            None => !plan.show_reply && plan.fully_drawn == Some(true) && plan.username_key is None
                && plan.body_key is None && plan.fetch_details_for is None,
            Some(ReplyDetails::Ready) => plan.show_reply && plan.fully_drawn is None && plan.username_key is None
                && plan.body_key is None && plan.fetch_details_for is None,
            Some(ReplyDetails::Error) => {
                &&& plan.show_reply && plan.fully_drawn == Some(true)
                &&& plan.username_key matches Some(k) && k@ == "room_screen.reply_preview.error_username"@
                &&& plan.body_key matches Some(b) && b@ == "room_screen.reply_preview.error_event"@
                &&& plan.fetch_details_for is None
            },
            Some(d) => {
                &&& plan.show_reply && plan.fully_drawn == Some(false)
                &&& plan.username_key matches Some(k) && k@ == "room_screen.reply_preview.loading_username"@
                &&& plan.body_key matches Some(b) && b@ == "room_screen.reply_preview.loading_event"@
                &&& match (d, message_event_id) {
                    (ReplyDetails::Unavailable, Some(e)) => plan.fetch_details_for matches Some(f) && f@ == e@,
                    _ => plan.fetch_details_for is None,
                }
            },
        },
{
    match in_reply_to {
        None => ReplyPreviewPlan {
            show_reply: false,
            fully_drawn: Some(true),
            username_key: None,
            body_key: None,
            fetch_details_for: None,
        },
        Some(ReplyDetails::Ready) => ReplyPreviewPlan {
            show_reply: true,
            fully_drawn: None,
            username_key: None,
            body_key: None,
            fetch_details_for: None,
        },
        Some(ReplyDetails::Error) => ReplyPreviewPlan {
            show_reply: true,
            fully_drawn: Some(true),
            username_key: Some("room_screen.reply_preview.error_username"),
            body_key: Some("room_screen.reply_preview.error_event"),
            fetch_details_for: None,
        },
        Some(d) => {
            let fetch = match d {
                ReplyDetails::Unavailable => match message_event_id {
                    Some(e) => Some(e.clone()),
                    None => None,
                },
                _ => None,
            };
            ReplyPreviewPlan {
                show_reply: true,
                fully_drawn: Some(false),
                username_key: Some("room_screen.reply_preview.loading_username"),
                body_key: Some("room_screen.reply_preview.loading_event"),
                fetch_details_for: fetch,
            }
        },
    }
}

/// A thread summary fetched for a thread's root.
#[derive(Clone, Debug)]
pub struct FetchedThreadSummary {
    pub num_replies: u32,
    pub latest_reply_preview_text: Option<String>,
}

/// What is known of the latest reply of a thread.
#[derive(Clone, Debug)]
pub enum LatestReply {
    /// It is known; its preview as the caller made it.
    Ready(String),
    Pending,
    Unavailable,
    Error,
}

/// What the thread summary under a thread's root shows.
#[derive(Debug)]
pub struct ThreadSummaryPlan {
    pub visible: bool,
    pub fully_drawn: bool,
    /// "1 reply" or "N replies", translated.
    pub count_text: String,
    /// The latest reply's preview, or a loading or error text.
    pub latest_text: String,
    /// The root whose summary details must be fetched.
    pub fetch_for: Option<String>,
}

/// The set of event IDs whose thread summary is being fetched.
pub open spec fn ids_set(ids: Seq<String>) -> Set<Seq<char>> {
    Set::new(|k: Seq<char>| exists|i: int| 0 <= i < ids.len() && #[trigger] ids[i]@ == k)
}

/// What the thread summary under a message shows.  In a thread's own
/// timeline, or for a message that roots no thread, it is hidden.
/// Otherwise the reply count comes from a fetched summary when there is
/// one; while the latest reply is not known, its fetched preview (or a
/// loading text) shows, and when nobody fetches it and no fetched preview
/// exists, a fetch is asked for once (`pending` remembers it).  The
/// summary counts as fully drawn (and need not be drawn again) only once
/// its latest reply is known or known to have failed.
pub fn thread_summary_plan(
    translations: &Translations,
    language: AppLanguage,
    is_thread_timeline: bool,
    local_num_replies: Option<u32>,
    root_event_id: Option<&String>,
    fetched: Option<&FetchedThreadSummary>,
    latest: &LatestReply,
    pending: &mut Vec<String>,
) -> (plan: ThreadSummaryPlan)
    requires
        translations.wf(),
    ensures
        is_thread_timeline || local_num_replies is None ==> !plan.visible && plan.fully_drawn
            && plan.fetch_for is None && final(pending)@ == old(pending)@,
        !is_thread_timeline && local_num_replies is Some ==> {
            let count = match fetched {
                Some(f) => f.num_replies,
                None => local_num_replies->0,
            };
            let wants_fetch = (*latest matches LatestReply::Unavailable) && root_event_id is Some
                && match fetched {
                    Some(f) => f.latest_reply_preview_text is None,
                    None => true,
                };
            let newly = wants_fetch && !ids_set(old(pending)@).contains(root_event_id->0@);
            &&& plan.visible
            &&& plan.fully_drawn == (*latest matches LatestReply::Ready(_) || *latest matches LatestReply::Error)
            &&& plan.count_text@ == if count == 1 {
                translated(*translations, language, "room_screen.thread_summary.one_reply"@)
            } else {
                replaced(translated(*translations, language, "room_screen.thread_summary.n_replies"@), "{n}"@, decimal(count as nat))
            }
            &&& plan.latest_text@ == match *latest {
                LatestReply::Ready(p) => p@,
                LatestReply::Error => translated(*translations, language, "room_screen.thread_summary.error_latest_reply"@),
                _ => match fetched {
                    Some(f) if f.latest_reply_preview_text is Some => f.latest_reply_preview_text->0@,
                    _ => translated(*translations, language, "room_screen.thread_summary.loading_latest_reply"@),
                },
            }
            &&& if newly {
                &&& plan.fetch_for matches Some(r) && r@ == root_event_id->0@
                &&& ids_set(final(pending)@) == ids_set(old(pending)@).insert(root_event_id->0@)
            } else {
                &&& plan.fetch_for is None
                &&& final(pending)@ == old(pending)@
            }
        },
{
    if is_thread_timeline {
        return ThreadSummaryPlan {
            visible: false,
            fully_drawn: true,
            count_text: String::new(),
            latest_text: String::new(),
            fetch_for: None,
        };
    }
    let local = match local_num_replies {
        Some(n) => n,
        None => return ThreadSummaryPlan {
            visible: false,
            fully_drawn: true,
            count_text: String::new(),
            latest_text: String::new(),
            fetch_for: None,
        },
    };
    let replies_count = match fetched {
        Some(f) => f.num_replies,
        None => local,
    };
    let mut fetch_for: Option<String> = None;
    let latest_text = match latest {
        LatestReply::Ready(p) => p.clone(),
        LatestReply::Error => tr_key(translations, language, "room_screen.thread_summary.error_latest_reply").to_owned(),
        _ => {
            let is_unavailable = match latest {
                LatestReply::Unavailable => true,
                _ => false,
            };
            if is_unavailable {
                match root_event_id {
                    Some(root) => {
                        let needs_refresh = match fetched {
                            Some(f) => f.latest_reply_preview_text.is_none(),
                            None => true,
                        };
                        if needs_refresh && !ids_contain(pending, root) {
                            let ghost before = pending@;
                            pending.push(root.clone());
                            proof {
                                lemma_ids_set_push(before, *root);
                            }
                            fetch_for = Some(root.clone());
                        }
                    },
                    None => {},
                }
            }
            match fetched {
                Some(f) => match &f.latest_reply_preview_text {
                    Some(t) => t.clone(),
                    None => tr_key(translations, language, "room_screen.thread_summary.loading_latest_reply").to_owned(),
                },
                None => tr_key(translations, language, "room_screen.thread_summary.loading_latest_reply").to_owned(),
            }
        },
    };
    let count_text = if replies_count == 1 {
        tr_key(translations, language, "room_screen.thread_summary.one_reply").to_owned()
    } else {
        let n_text = decimal_string(replies_count as usize);
        let n_str = n_text.as_str();
        let vars = [("n", n_str)];
        let t = tr_fmt(translations, language, "room_screen.thread_summary.n_replies", &vars);
        proof {
            assert(vars@ =~= seq![("n", n_str)]);
            lemma_format_one(translated(*translations, language, "room_screen.thread_summary.n_replies"@), "n", n_str);
            reveal_strlit("n");
            reveal_strlit("{n}");
            assert(seq!['{'] + "n"@ + seq!['}'] =~= "{n}"@);
        }
        t
    };
    let fully_drawn = match latest {
        LatestReply::Ready(_) | LatestReply::Error => true,
        _ => false,
    };
    ThreadSummaryPlan { visible: true, fully_drawn, count_text, latest_text, fetch_for }
}

pub(crate) fn ids_contain(ids: &Vec<String>, id: &String) -> (found: bool)
    ensures
        found == ids_set(ids@).contains(id@),
{
    let mut i: usize = 0;
    while i < ids.len()
        invariant
            0 <= i <= ids@.len(),
            forall|k: int| 0 <= k < i ==> ids@[k]@ != id@,
        decreases ids@.len() - i,
    {
        if ids[i] == *id {
            assert(ids@[i as int]@ == id@);
            return true;
        }
        i += 1;
    }
    false
}

proof fn lemma_ids_set_push(ids: Seq<String>, id: String)
    ensures
        ids_set(ids.push(id)) == ids_set(ids).insert(id@),
{
    let after = ids.push(id);
    assert forall|k: Seq<char>| ids_set(after).contains(k) == ids_set(ids).insert(id@).contains(k) by {
        if ids_set(ids).contains(k) {
            let j = choose|j: int| 0 <= j < ids.len() && #[trigger] ids[j]@ == k;
            assert(after[j] == ids[j]);
        }
        if k == id@ {
            assert(after[ids.len() as int]@ == k);
        }
        if ids_set(after).contains(k) && k != id@ {
            let j = choose|j: int| 0 <= j < after.len() && #[trigger] after[j]@ == k;
            assert(j < ids.len());
            assert(ids[j] == after[j]);
        }
    }
    assert(ids_set(after) =~= ids_set(ids).insert(id@));
}

// ---------------------------------------------------------------------------
// Redrawing and expiring.
// ---------------------------------------------------------------------------

/// The set of timeline item indices whose content was drawn since the last
/// update (so need not be drawn again).
#[derive(Debug)]
pub struct DrawnItems {
    indices: Vec<usize>,
}

impl View for DrawnItems {
    type V = Set<usize>;

    closed spec fn view(&self) -> Set<usize> {
        Set::new(|k: usize| exists|i: int| 0 <= i < self.indices@.len() && #[trigger] self.indices@[i] == k)
    }
}

impl DrawnItems {
    /// No item drawn.
    pub fn new() -> (d: Self)
        ensures
            d@ == Set::<usize>::empty(),
    {
        let d = DrawnItems { indices: Vec::new() };
        assert(d@ =~= Set::<usize>::empty());
        d
    }

    /// Whether item `index` was drawn.
    pub fn contains(&self, index: usize) -> (found: bool)
        ensures
            found == self@.contains(index),
    {
        let mut i: usize = 0;
        while i < self.indices.len()
            invariant
                0 <= i <= self.indices@.len(),
                forall|k: int| 0 <= k < i ==> self.indices@[k] != index,
            decreases self.indices@.len() - i,
        {
            if self.indices[i] == index {
                return true;
            }
            i += 1;
        }
        false
    }

    /// Records that item `index` was drawn.
    pub fn insert(&mut self, index: usize)
        ensures
            final(self)@ == old(self)@.insert(index),
    {
        if self.contains(index) {
            assert(self@ =~= self@.insert(index));
            return;
        }
        let ghost before = self@;
        self.indices.push(index);
        proof {
            assert forall|k: usize| self@.contains(k) == before.insert(index).contains(k) by {
                if before.contains(k) {
                    let j = choose|j: int| 0 <= j < old(self).indices@.len() && #[trigger] old(self).indices@[j] == k;
                    assert(self.indices@[j] == k);
                }
                if k == index {
                    assert(self.indices@[self.indices@.len() - 1] == k);
                }
            }
            assert(self@ =~= before.insert(index));
        }
    }

    /// Forgets that item `index` was drawn.
    pub fn remove(&mut self, index: usize)
        ensures
            final(self)@ == old(self)@.remove(index),
    {
        let ghost before = self@;
        let mut kept: Vec<usize> = Vec::new();
        let mut i: usize = 0;
        while i < self.indices.len()
            invariant
                0 <= i <= self.indices@.len(),
                self@ == before,
                forall|k: int| 0 <= k < kept@.len() ==> kept@[k] != index && before.contains(kept@[k]),
                forall|j: int| 0 <= j < i && #[trigger] self.indices@[j] != index ==> kept@.contains(self.indices@[j]),
            decreases self.indices@.len() - i,
        {
            if self.indices[i] != index {
                let ghost pre = kept@;
                kept.push(self.indices[i]);
                proof {
                    assert(kept@[pre.len() as int] == self.indices@[i as int]);
                    assert forall|j: int| 0 <= j < i + 1 && #[trigger] self.indices@[j] != index implies kept@.contains(self.indices@[j]) by {
                        if j < i {
                            assert(pre.contains(self.indices@[j]));
                            let m = choose|m: int| 0 <= m < pre.len() && pre[m] == self.indices@[j];
                            assert(kept@[m] == pre[m]);
                        } else {
                            assert(kept@[pre.len() as int] == self.indices@[j]);
                        }
                    }
                }
            }
            i += 1;
        }
        self.indices = kept;
        proof {
            assert forall|k: usize| self@.contains(k) == before.remove(index).contains(k) by {
                if self@.contains(k) {
                    let m = choose|m: int| 0 <= m < self.indices@.len() && #[trigger] self.indices@[m] == k;
                    assert(before.contains(self.indices@[m]));
                }
                if before.remove(index).contains(k) {
                    let j = choose|j: int| 0 <= j < old(self).indices@.len() && #[trigger] old(self).indices@[j] == k;
                    assert(self.indices@.contains(old(self).indices@[j]));
                }
            }
            assert(self@ =~= before.remove(index));
        }
    }

    /// Forgets that the items `start .. end` were drawn.
    pub fn remove_range(&mut self, start: usize, end: usize)
        ensures
            final(self)@ == old(self)@.filter(|k: usize| !(start <= k < end)),
    {
        let ghost before = self@;
        let ghost outside = |k: usize| !(start <= k < end);
        let mut kept: Vec<usize> = Vec::new();
        let mut i: usize = 0;
        while i < self.indices.len()
            invariant
                0 <= i <= self.indices@.len(),
                self@ == before,
                forall|k: int| 0 <= k < kept@.len() ==> !(start <= #[trigger] kept@[k] < end) && before.contains(kept@[k]),
                forall|j: int| 0 <= j < i && !(start <= #[trigger] self.indices@[j] < end) ==> kept@.contains(self.indices@[j]),
            decreases self.indices@.len() - i,
        {
            let v = self.indices[i];
            if !(start <= v && v < end) {
                let ghost pre = kept@;
                kept.push(v);
                proof {
                    assert(kept@[pre.len() as int] == self.indices@[i as int]);
                    assert forall|j: int| 0 <= j < i + 1 && !(start <= #[trigger] self.indices@[j] < end) implies kept@.contains(self.indices@[j]) by {
                        if j < i {
                            assert(pre.contains(self.indices@[j]));
                            let m = choose|m: int| 0 <= m < pre.len() && pre[m] == self.indices@[j];
                            assert(kept@[m] == pre[m]);
                        } else {
                            assert(kept@[pre.len() as int] == self.indices@[j]);
                        }
                    }
                }
            }
            i += 1;
        }
        self.indices = kept;
        proof {
            assert forall|k: usize| self@.contains(k) == before.filter(outside).contains(k) by {
                if self@.contains(k) {
                    let m = choose|m: int| 0 <= m < self.indices@.len() && #[trigger] self.indices@[m] == k;
                    assert(before.contains(self.indices@[m]));
                }
                if before.filter(outside).contains(k) {
                    let j = choose|j: int| 0 <= j < old(self).indices@.len() && #[trigger] old(self).indices@[j] == k;
                    assert(self.indices@.contains(old(self).indices@[j]));
                }
            }
            assert(self@ =~= before.filter(outside));
        }
    }

    /// Forgets every drawn item.
    pub fn clear(&mut self)
        ensures
            final(self)@ == Set::<usize>::empty(),
    {
        self.indices = Vec::new();
        assert(self@ =~= Set::<usize>::empty());
    }
}

/// The first position of event `event_id` among the items' events.
pub open spec fn first_event_position(event_ids: Seq<Option<String>>, event_id: Seq<char>) -> Option<int>
    decreases event_ids.len(),
{
    if event_ids.len() == 0 {
        None
    } else if event_ids[0] matches Some(e) && e@ == event_id {
        Some(0)
    } else {
        match first_event_position(event_ids.drop_first(), event_id) {
            Some(i) => Some(i + 1),
            None => None,
        }
    }
}

proof fn lemma_first_event_position(event_ids: Seq<Option<String>>, event_id: Seq<char>, i: int)
    requires
        0 <= i <= event_ids.len(),
        forall|k: int| 0 <= k < i ==> !(#[trigger] event_ids[k] matches Some(e) && e@ == event_id),
        i < event_ids.len() ==> (event_ids[i] matches Some(e) && e@ == event_id),
    ensures
        first_event_position(event_ids, event_id) == if i < event_ids.len() { Some(i) } else { None::<int> },
    decreases i,
{
    if i > 0 {
        lemma_first_event_position(event_ids.drop_first(), event_id, i - 1);
    }
}

/// Makes the item of event `event_id` (the first that holds it) be drawn
/// again; says whether the timeline holds that event.
pub fn invalidate_timeline_event_content(event_ids: &[Option<String>], drawn: &mut DrawnItems, event_id: &String) -> (found: bool)
    ensures
        found == (first_event_position(event_ids@, event_id@) is Some),
        match first_event_position(event_ids@, event_id@) {
            Some(k) => final(drawn)@ == old(drawn)@.remove(k as usize),
            None => final(drawn)@ == old(drawn)@,
        },
{
    let mut i: usize = 0;
    while i < event_ids.len()
        invariant
            0 <= i <= event_ids@.len(),
            drawn@ == old(drawn)@,
            forall|k: int| 0 <= k < i ==> !(#[trigger] event_ids@[k] matches Some(e) && e@ == event_id@),
        decreases event_ids@.len() - i,
    {
        let matches_event = match &event_ids[i] {
            Some(e) => *e == *event_id,
            None => false,
        };
        if matches_event {
            proof {
                lemma_first_event_position(event_ids@, event_id@, i as int);
            }
            drawn.remove(i);
            return true;
        }
        i += 1;
    }
    proof {
        lemma_first_event_position(event_ids@, event_id@, i as int);
    }
    false
}

/// An approval button's context: the event that asked for the approval.
#[derive(Clone, Debug)]
pub struct ApprovalButtonContext {
    pub source_event_id: String,
}

/// Drops the approval contexts whose request ran out, together with every
/// other context of the same source event; returns those source events
/// (whose items must be drawn again), in the order first met.  `expired`
/// says, for each context, whether its request ran out.
pub fn expire_approval_contexts(contexts: &mut Vec<ApprovalButtonContext>, expired: &[bool]) -> (sources: Vec<String>)
    requires
        expired@.len() == old(contexts)@.len(),
    ensures
        forall|k: Seq<char>| #[trigger] ids_set(sources@).contains(k) <==> exists|i: int|
            0 <= i < old(contexts)@.len() && expired@[i] && old(contexts)@[i].source_event_id@ == k,
        forall|i: int| 0 <= i < final(contexts)@.len() ==> !ids_set(sources@).contains(#[trigger] final(contexts)@[i].source_event_id@),
        forall|i: int| 0 <= i < old(contexts)@.len() && !ids_set(sources@).contains(#[trigger] old(contexts)@[i].source_event_id@)
            ==> final(contexts)@.contains(old(contexts)@[i]),
        forall|i: int| 0 <= i < final(contexts)@.len() ==> old(contexts)@.contains(#[trigger] final(contexts)@[i]),
{
    let mut sources: Vec<String> = Vec::new();
    let mut i: usize = 0;
    while i < contexts.len()
        invariant
            expired@.len() == contexts@.len(),
            contexts@ == old(contexts)@,
            0 <= i <= contexts@.len(),
            forall|k: Seq<char>| #[trigger] ids_set(sources@).contains(k) <==> exists|j: int|
                0 <= j < i && expired@[j] && contexts@[j].source_event_id@ == k,
        decreases contexts@.len() - i,
    {
        if expired[i] && !ids_contain(&sources, &contexts[i].source_event_id) {
            let ghost before = sources@;
            sources.push(contexts[i].source_event_id.clone());
            proof {
                lemma_ids_set_push(before, contexts@[i as int].source_event_id);
            }
        }
        proof {
            assert forall|k: Seq<char>| #[trigger] ids_set(sources@).contains(k) <==> exists|j: int|
                0 <= j < i + 1 && expired@[j] && contexts@[j].source_event_id@ == k by {
                if ids_set(sources@).contains(k) && !(exists|j: int| 0 <= j < i && expired@[j] && contexts@[j].source_event_id@ == k) {
                    assert(expired@[i as int] && contexts@[i as int].source_event_id@ == k);
                }
            }
        }
        i += 1;
    }
    if sources.len() == 0 {
        proof {
            assert forall|j: int| 0 <= j < contexts@.len() implies !ids_set(sources@).contains(#[trigger] contexts@[j].source_event_id@) by {}
        }
        return sources;
    }
    let mut kept: Vec<ApprovalButtonContext> = Vec::new();
    let mut j: usize = 0;
    while j < contexts.len()
        invariant
            contexts@ == old(contexts)@,
            0 <= j <= contexts@.len(),
            forall|m: int| 0 <= m < kept@.len() ==> !ids_set(sources@).contains(#[trigger] kept@[m].source_event_id@),
            forall|m: int| 0 <= m < kept@.len() ==> contexts@.contains(#[trigger] kept@[m]),
            forall|m: int| 0 <= m < j && !ids_set(sources@).contains(#[trigger] contexts@[m].source_event_id@)
                ==> kept@.contains(contexts@[m]),
        decreases contexts@.len() - j,
    {
        if !ids_contain(&sources, &contexts[j].source_event_id) {
            let ghost pre = kept@;
            kept.push(contexts[j].clone_context());
            proof {
                assert(kept@[pre.len() as int] == contexts@[j as int]);
                assert forall|m: int| 0 <= m < j + 1 && !ids_set(sources@).contains(#[trigger] contexts@[m].source_event_id@)
                    implies kept@.contains(contexts@[m]) by {
                    if m < j {
                        let q = choose|q: int| 0 <= q < pre.len() && pre[q] == contexts@[m];
                        assert(kept@[q] == pre[q]);
                    } else {
                        assert(kept@[pre.len() as int] == contexts@[m]);
                    }
                }
            }
        }
        j += 1;
    }
    *contexts = kept;
    sources
}

impl ApprovalButtonContext {
    /// A copy of this context.
    pub fn clone_context(&self) -> (c: Self)
        ensures
            c == *self,
    {
        ApprovalButtonContext { source_event_id: self.source_event_id.clone() }
    }
}

/// How the approval-expiry timer changes when the earliest deadline among
/// the pending approvals becomes `next_deadline_millis` (the current timer
/// being set for `current_deadline_millis`), at `now_millis`: nothing
/// changes when the deadline is the same; otherwise the timer stops and,
/// with a deadline, restarts for the time left (at least one millisecond).
pub fn approval_timer_update(next_deadline_millis: Option<u64>, current_deadline_millis: Option<u64>, now_millis: u64)
    -> (update: Option<Option<u64>>)
    ensures
        next_deadline_millis == current_deadline_millis ==> update is None,
        next_deadline_millis != current_deadline_millis ==> update == Some(match next_deadline_millis {
            Some(d) => Some(if d > now_millis && d - now_millis >= 1 { (d - now_millis) as u64 } else { 1u64 }),
            None => None,
        }),
{
    if next_deadline_millis == current_deadline_millis {
        return None;
    }
    match next_deadline_millis {
        Some(deadline) => {
            let left = if deadline > now_millis { deadline - now_millis } else { 0 };
            Some(Some(if left >= 1 { left } else { 1 }))
        },
        None => Some(None),
    }
}

/// The kind of a popup notice.
#[derive(Clone, Copy, Debug)]
pub enum PopupKind {
    Success,
    Info,
    Error,
}

/// The notice shown after pinning (`pin`) or unpinning a message: success,
/// already (un)pinned, or the error; success and "already" notices dismiss
/// themselves after a few seconds.
pub fn pin_result_notice(
    translations: &Translations,
    language: AppLanguage,
    pin: bool,
    result: &Result<bool, String>,
) -> (notice: (String, bool, PopupKind))
    requires
        translations.wf(),
    ensures
        match result {
            Ok(true) => notice.0@ == translated(*translations, language,
                if pin { "room_screen.popup.pin.pinned_success"@ } else { "room_screen.popup.pin.unpinned_success"@ })
                && notice.1 && notice.2 is Success,
            Ok(false) => notice.0@ == translated(*translations, language,
                if pin { "room_screen.popup.pin.already_pinned"@ } else { "room_screen.popup.pin.already_unpinned"@ })
                && notice.1 && notice.2 is Info,
            Err(e) => notice.0@ == replaced(translated(*translations, language,
                if pin { "room_screen.popup.pin.pin_failed"@ } else { "room_screen.popup.pin.unpin_failed"@ }),
                "{error}"@, e@)
                && !notice.1 && notice.2 is Error,
        },
{
    match result {
        Ok(true) => (
            tr_key(translations, language,
                if pin { "room_screen.popup.pin.pinned_success" } else { "room_screen.popup.pin.unpinned_success" }).to_owned(),
            true,
            PopupKind::Success,
        ),
        Ok(false) => (
            tr_key(translations, language,
                if pin { "room_screen.popup.pin.already_pinned" } else { "room_screen.popup.pin.already_unpinned" }).to_owned(),
            true,
            PopupKind::Info,
        ),
        Err(e) => {
            let es = e.as_str();
            let vars = [("error", es)];
            let key = if pin { "room_screen.popup.pin.pin_failed" } else { "room_screen.popup.pin.unpin_failed" };
            let text = tr_fmt(translations, language, key, &vars);
            proof {
                assert(vars@ =~= seq![("error", es)]);
                lemma_format_one(translated(*translations, language, key@), "error", es);
                reveal_strlit("error");
                reveal_strlit("{error}");
                assert(seq!['{'] + "error"@ + seq!['}'] =~= "{error}"@);
            }
            (text, false, PopupKind::Error)
        },
    }
}

} // verus!
