//! What the timeline decides when it draws a message: which item template
//! shows it, the text of emotes, server notices and verification requests,
//! which controls it offers, and what must be drawn again later.

use vstd::prelude::*;
use crate::i18n::{lemma_format_one, tr_fmt, tr_key, translated, AppLanguage, Translations};
use crate::message_content::placeholder;
use crate::text::{replaced, str_eq, string_push_str};
use crate::timeline_view::ItemDrawnStatus;

verus! {

broadcast use vstd::seq::group_seq_axioms, vstd::seq_lib::group_seq_properties;

/// The kind of a message-like timeline event, as the drawing tells them apart.
#[derive(Clone, Copy, Debug, PartialEq, Eq, Structural)]
pub enum MessageKind {
    Text,
    Notice,
    ServerNotice,
    Emote,
    Image,
    Location,
    File,
    Audio,
    Video,
    VerificationRequest,
    /// A custom message type that carries an agent-chat body.
    AgentChatCustom,
    /// Any other message type.
    UnsupportedMessage,
    Sticker,
    Redacted,
    /// Any other message-like event.
    Other,
}

/// The templates of timeline items.
#[derive(Clone, Copy, Debug, PartialEq, Eq, Structural)]
pub enum ItemTemplate {
    Message,
    CondensedMessage,
    ImageMessage,
    CondensedImageMessage,
    AudioMessage,
    VideoMessage,
    StickerMessage,
    CondensedStickerMessage,
}

/// The template of a message of `kind`; `compact` when it follows a message
/// of the same sender closely and hides the sender's profile.
pub open spec fn template_for(kind: MessageKind, compact: bool) -> ItemTemplate {
    match kind {
        MessageKind::Text | MessageKind::Notice | MessageKind::Emote | MessageKind::Location
        | MessageKind::File | MessageKind::AgentChatCustom | MessageKind::Redacted => if compact {
            ItemTemplate::CondensedMessage
        } else {
            ItemTemplate::Message
        },
        MessageKind::Image => if compact {
            ItemTemplate::CondensedImageMessage
        } else {
            ItemTemplate::ImageMessage
        },
        MessageKind::Audio => if compact {
            ItemTemplate::CondensedMessage
        } else {
            ItemTemplate::AudioMessage
        },
        MessageKind::Video => if compact {
            ItemTemplate::CondensedMessage
        } else {
            ItemTemplate::VideoMessage
        },
        MessageKind::Sticker => if compact {
            ItemTemplate::CondensedStickerMessage
        } else {
            ItemTemplate::StickerMessage
        },
        MessageKind::ServerNotice | MessageKind::VerificationRequest | MessageKind::UnsupportedMessage
        | MessageKind::Other => ItemTemplate::Message,
    }
}

/// The template of a message of `kind`.
pub fn message_template(kind: MessageKind, compact: bool) -> (template: ItemTemplate)
    ensures
        template == template_for(kind, compact),
{
    match kind {
        MessageKind::Text | MessageKind::Notice | MessageKind::Emote | MessageKind::Location
        | MessageKind::File | MessageKind::AgentChatCustom | MessageKind::Redacted => if compact {
            ItemTemplate::CondensedMessage
        } else {
            ItemTemplate::Message
        },
        MessageKind::Image => if compact {
            ItemTemplate::CondensedImageMessage
        } else {
            ItemTemplate::ImageMessage
        },
        MessageKind::Audio => if compact {
            ItemTemplate::CondensedMessage
        } else {
            ItemTemplate::AudioMessage
        },
        MessageKind::Video => if compact {
            ItemTemplate::CondensedMessage
        } else {
            ItemTemplate::VideoMessage
        },
        MessageKind::Sticker => if compact {
            ItemTemplate::CondensedStickerMessage
        } else {
            ItemTemplate::StickerMessage
        },
        MessageKind::ServerNotice | MessageKind::VerificationRequest | MessageKind::UnsupportedMessage
        | MessageKind::Other => ItemTemplate::Message,
    }
}

/// Whether `template` shows the sender's profile (avatar, name and
/// timestamp) beside the message.
pub open spec fn shows_sender_profile(template: ItemTemplate) -> bool {
    match template {
        ItemTemplate::Message | ItemTemplate::ImageMessage | ItemTemplate::AudioMessage
        | ItemTemplate::VideoMessage | ItemTemplate::StickerMessage => true,
        ItemTemplate::CondensedMessage | ItemTemplate::CondensedImageMessage
        | ItemTemplate::CondensedStickerMessage => false,
    }
}

/// The condensed counterpart of a full template: media without a condensed
/// template of their own fall back to the condensed text message.
pub open spec fn condensed(template: ItemTemplate) -> ItemTemplate {
    match template {
        ItemTemplate::ImageMessage | ItemTemplate::CondensedImageMessage => ItemTemplate::CondensedImageMessage,
        ItemTemplate::StickerMessage | ItemTemplate::CondensedStickerMessage => ItemTemplate::CondensedStickerMessage,
        _ => ItemTemplate::CondensedMessage,
    }
}

/// Server notices, verification requests, unsupported and other
/// message-like events are always drawn in full; every other kind has a
/// condensed form.
pub open spec fn always_full(kind: MessageKind) -> bool {
    kind is ServerNotice || kind is VerificationRequest || kind is UnsupportedMessage || kind is Other
}

/// A message drawn in full shows its sender's profile; in compact view
/// (closely following a message of the same sender) every kind that has a
/// condensed form hides it, taking the condensed counterpart of its full
/// template, and the kinds always drawn in full ignore compact view.
pub proof fn lemma_compact_view_hides_profile(kind: MessageKind)
    ensures
        shows_sender_profile(template_for(kind, false)),
        !always_full(kind) ==> !shows_sender_profile(template_for(kind, true)),
        !always_full(kind) ==> template_for(kind, true) == condensed(template_for(kind, false)),
        always_full(kind) ==> template_for(kind, true) == template_for(kind, false),
{
}

/// Whether a message of `kind` offers a copy button: text and emotes do;
/// notices only from bots (whose notices are replies, not management).
pub fn shows_copy_button(kind: MessageKind, sender_is_bot: bool) -> (shown: bool)
    ensures
        shown == match kind {
            MessageKind::Text | MessageKind::Emote => true,
            MessageKind::Notice => sender_is_bot,
            _ => false,
        },
{
    match kind {
        MessageKind::Text | MessageKind::Emote => true,
        MessageKind::Notice => sender_is_bot,
        _ => false,
    }
}

/// An emote's text: `* {username} {body}`, as the Matrix spec suggests.
pub open spec fn emote_text_of(username: Seq<char>, body: Seq<char>) -> Seq<char> {
    "* "@ + username + " "@ + body
}

/// The text of an emote by `username` with body `body`.
pub fn emote_text(username: &str, body: &str) -> (text: String)
    ensures
        text@ == emote_text_of(username@, body@),
{
    let mut text = String::new();
    string_push_str(&mut text, "* ");
    string_push_str(&mut text, username);
    string_push_str(&mut text, " ");
    string_push_str(&mut text, body);
    assert(text@ =~= emote_text_of(username@, body@));
    text
}

/// The HTML of a server notice: its translated title in bold, its body, and
/// its type, with the limit type and the admin contact where given.
pub open spec fn server_notice_text(
    translations: Translations,
    language: AppLanguage,
    body: Seq<char>,
    notice_type: Seq<char>,
    limit_type: Option<Seq<char>>,
    admin_contact: Option<Seq<char>>,
) -> Seq<char> {
    "<b>"@ + translated(translations, language, "room_screen.server_notice.title"@) + "</b> "@ + body + "\n\n<i>"@
        + translated(translations, language, "room_screen.server_notice.notice_type"@) + "</i>: "@ + notice_type
        + match limit_type {
        Some(l) => "\n<i>"@ + translated(translations, language, "room_screen.server_notice.limit_type"@) + "</i> "@ + l,
        None => Seq::empty(),
    } + match admin_contact {
        Some(c) => "\n<i>"@ + translated(translations, language, "room_screen.server_notice.admin_contact"@) + "</i> "@
            + c,
        None => Seq::empty(),
    }
}

/// The HTML of a server notice.
pub fn server_notice_html(
    translations: &Translations,
    language: AppLanguage,
    body: &str,
    notice_type: &str,
    limit_type: Option<&str>,
    admin_contact: Option<&str>,
) -> (html: String)
    requires
        translations.wf(),
    ensures
        html@ == server_notice_text(*translations, language, body@, notice_type@, match limit_type {
            Some(l) => Some(l@),
            None => None,
        }, match admin_contact {
            Some(c) => Some(c@),
            None => None,
        }),
{
    let mut html = String::new();
    string_push_str(&mut html, "<b>");
    string_push_str(&mut html, tr_key(translations, language, "room_screen.server_notice.title"));
    string_push_str(&mut html, "</b> ");
    string_push_str(&mut html, body);
    string_push_str(&mut html, "\n\n<i>");
    string_push_str(&mut html, tr_key(translations, language, "room_screen.server_notice.notice_type"));
    string_push_str(&mut html, "</i>: ");
    string_push_str(&mut html, notice_type);
    let ghost head = html@;
    if let Some(l) = limit_type {
        string_push_str(&mut html, "\n<i>");
        string_push_str(&mut html, tr_key(translations, language, "room_screen.server_notice.limit_type"));
        string_push_str(&mut html, "</i> ");
        string_push_str(&mut html, l);
    }
    let ghost middle = html@;
    if let Some(c) = admin_contact {
        string_push_str(&mut html, "\n<i>");
        string_push_str(&mut html, tr_key(translations, language, "room_screen.server_notice.admin_contact"));
        string_push_str(&mut html, "</i> ");
        string_push_str(&mut html, c);
    }
    proof {
        let lim = match limit_type {
            Some(l) => "\n<i>"@ + translated(*translations, language, "room_screen.server_notice.limit_type"@) + "</i> "@
                + l@,
            None => Seq::<char>::empty(),
        };
        let con = match admin_contact {
            Some(c) => "\n<i>"@ + translated(*translations, language, "room_screen.server_notice.admin_contact"@)
                + "</i> "@ + c@,
            None => Seq::<char>::empty(),
        };
        assert(middle =~= head + lim);
        assert(html@ =~= head + lim + con);
    }
    html
}

/// The user-facing methods of a verification request, joined by `", "`.
pub open spec fn joined_methods(methods: Seq<Seq<char>>) -> Seq<char>
    decreases methods.len(),
{
    if methods.len() == 0 {
        Seq::empty()
    } else if methods.len() == 1 {
        methods[0]
    } else {
        joined_methods(methods.drop_last()) + ", "@ + methods.last()
    }
}

/// The HTML of a verification request sent to `to_user`, offering `methods`.
pub open spec fn verification_request_text(
    translations: Translations,
    language: AppLanguage,
    to_user: Seq<char>,
    methods: Seq<Seq<char>>,
) -> Seq<char> {
    "<i>"@ + translated(translations, language, "room_screen.verification.sent_prefix"@) + "<b>"@
        + translated(translations, language, "room_screen.verification.request"@) + "</b>"@
        + replaced(translated(translations, language, "room_screen.verification.sent_to_suffix"@),
            placeholder("user_id"@), to_user) + "<br>("@
        + translated(translations, language, "room_screen.verification.supported_methods"@) + ": "@
        + joined_methods(methods) + ")</i>"@
}

/// The HTML of a verification request.
pub fn verification_request_html(
    translations: &Translations,
    language: AppLanguage,
    to_user: &str,
    methods: &Vec<String>,
) -> (html: String)
    requires
        translations.wf(),
    ensures
        html@ == verification_request_text(*translations, language, to_user@, methods@.map_values(|m: String| m@)),
{
    let vars = [("user_id", to_user)];
    let suffix = tr_fmt(translations, language, "room_screen.verification.sent_to_suffix", &vars);
    proof {
        assert(vars@ =~= seq![("user_id", to_user)]);
        lemma_format_one(translated(*translations, language, "room_screen.verification.sent_to_suffix"@), "user_id", to_user);
    }
    let ghost views = methods@.map_values(|m: String| m@);
    let mut joined = String::new();
    let mut i: usize = 0;
    while i < methods.len()
        invariant
            0 <= i <= methods@.len(),
            views == methods@.map_values(|m: String| m@),
            joined@ == joined_methods(views.take(i as int)),
        decreases methods@.len() - i,
    {
        if i > 0 {
            string_push_str(&mut joined, ", ");
        }
        string_push_str(&mut joined, methods[i].as_str());
        proof {
            assert(views.take(i + 1).drop_last() =~= views.take(i as int));
            if i == 0 {
                assert(joined@ =~= views.take(1)[0]);
            }
        }
        i += 1;
    }
    assert(views.take(methods@.len() as int) =~= views);
    let mut html = String::new();
    string_push_str(&mut html, "<i>");
    string_push_str(&mut html, tr_key(translations, language, "room_screen.verification.sent_prefix"));
    string_push_str(&mut html, "<b>");
    string_push_str(&mut html, tr_key(translations, language, "room_screen.verification.request"));
    string_push_str(&mut html, "</b>");
    string_push_str(&mut html, suffix.as_str());
    string_push_str(&mut html, "<br>(");
    string_push_str(&mut html, tr_key(translations, language, "room_screen.verification.supported_methods"));
    string_push_str(&mut html, ": ");
    string_push_str(&mut html, joined.as_str());
    string_push_str(&mut html, ")</i>");
    html
}

/// Whether a message is highlighted: the server says so, or it mentions the
/// whole room.
pub fn should_be_highlighted(is_highlighted: bool, mentions_room: bool) -> (highlighted: bool)
    ensures
        highlighted == (is_highlighted || mentions_room),
{
    is_highlighted || mentions_room
}

/// The thread a message belongs to: the thread it is in, else its own
/// thread when it is the root of one (it has a thread summary).
pub fn thread_root_of_item(
    thread_root: Option<String>,
    has_thread_summary: bool,
    own_event_id: Option<String>,
) -> (root: Option<String>)
    ensures
        root == match thread_root {
            Some(t) => Some(t),
            None => if has_thread_summary { own_event_id } else { None },
        },
{
    match thread_root {
        Some(t) => Some(t),
        None => if has_thread_summary {
            own_event_id
        } else {
            None
        },
    }
}

/// Whether the sender's profile need not be drawn: a compact item shows
/// none, and a reused item keeps one already drawn.
pub fn skip_profile_draw(compact: bool, used_cached_item: bool, status: ItemDrawnStatus) -> (skip: bool)
    ensures
        skip == (compact || (used_cached_item && status.profile_drawn)),
{
    compact || (used_cached_item && status.profile_drawn)
}

/// Whether drawing stops early: a reused item whose content and profile
/// were both drawn before.
pub fn fully_cached(used_cached_item: bool, status: ItemDrawnStatus) -> (cached: bool)
    ensures
        cached == (used_cached_item && status.content_drawn && status.profile_drawn),
{
    used_cached_item && status.content_drawn && status.profile_drawn
}

/// A message's content counts as drawn only if its body, the preview of the
/// message it replies to, and its thread summary all were.
pub fn content_fully_drawn(body_drawn: bool, reply_drawn: bool, thread_summary_drawn: bool) -> (drawn: bool)
    ensures
        drawn == (body_drawn && reply_drawn && thread_summary_drawn),
{
    body_drawn && reply_drawn && thread_summary_drawn
}

/// Whether the "edited" mark shows: for an edited message that is not
/// being streamed.
pub fn shows_edited_indicator(is_edited: bool, is_streaming: bool) -> (shown: bool)
    ensures
        shown == (is_edited && !is_streaming),
{
    is_edited && !is_streaming
}

/// The first pending download of the file at `mxc`, among the `mxc://`
/// URIs of the pending downloads.
pub fn pending_download_index(pending_mxcs: &Vec<String>, mxc: &str) -> (found: Option<usize>)
    ensures
        match found {
            Some(i) => i < pending_mxcs@.len() && pending_mxcs@[i as int]@ == mxc@
                && forall|k: int| 0 <= k < i ==> pending_mxcs@[k]@ != mxc@,
            None => forall|k: int| 0 <= k < pending_mxcs@.len() ==> pending_mxcs@[k]@ != mxc@,
        },
{
    let mut i: usize = 0;
    while i < pending_mxcs.len()
        invariant
            0 <= i <= pending_mxcs@.len(),
            forall|k: int| 0 <= k < i ==> pending_mxcs@[k]@ != mxc@,
        decreases pending_mxcs@.len() - i,
    {
        if str_eq(pending_mxcs[i].as_str(), mxc) {
            return Some(i);
        }
        i += 1;
    }
    None
}

} // verus!
