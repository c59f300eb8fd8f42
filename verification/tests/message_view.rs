use robrix::i18n::{AppLanguage, Translations};
use robrix::message_view::{
    content_fully_drawn, emote_text, fully_cached, message_template, pending_download_index, server_notice_html,
    should_be_highlighted, shows_copy_button, shows_edited_indicator, skip_profile_draw, thread_root_of_item,
    verification_request_html, ItemTemplate, MessageKind,
};
use robrix::timeline_view::ItemDrawnStatus;

fn translations() -> Translations {
    Translations::from_json(
        r#"{
            "room_screen.server_notice.title": "Server notice",
            "room_screen.server_notice.notice_type": "Type",
            "room_screen.server_notice.limit_type": "Limit:",
            "room_screen.server_notice.admin_contact": "Contact:",
            "room_screen.verification.sent_prefix": "Sent a ",
            "room_screen.verification.request": "verification request",
            "room_screen.verification.sent_to_suffix": " to {user_id}",
            "room_screen.verification.supported_methods": "Supported methods"
        }"#,
        "{}",
    )
}

#[test]
fn templates_by_kind_and_compactness() {
    assert_eq!(message_template(MessageKind::Text, false), ItemTemplate::Message);
    assert_eq!(message_template(MessageKind::Text, true), ItemTemplate::CondensedMessage);
    assert_eq!(message_template(MessageKind::Image, true), ItemTemplate::CondensedImageMessage);
    assert_eq!(message_template(MessageKind::Image, false), ItemTemplate::ImageMessage);
    assert_eq!(message_template(MessageKind::Audio, false), ItemTemplate::AudioMessage);
    assert_eq!(message_template(MessageKind::Audio, true), ItemTemplate::CondensedMessage);
    assert_eq!(message_template(MessageKind::Video, false), ItemTemplate::VideoMessage);
    assert_eq!(message_template(MessageKind::Sticker, true), ItemTemplate::CondensedStickerMessage);
    assert_eq!(message_template(MessageKind::Sticker, false), ItemTemplate::StickerMessage);
    assert_eq!(message_template(MessageKind::ServerNotice, true), ItemTemplate::Message);
    assert_eq!(message_template(MessageKind::VerificationRequest, true), ItemTemplate::Message);
    assert_eq!(message_template(MessageKind::AgentChatCustom, true), ItemTemplate::CondensedMessage);
    assert_eq!(message_template(MessageKind::UnsupportedMessage, true), ItemTemplate::Message);
    assert_eq!(message_template(MessageKind::Redacted, true), ItemTemplate::CondensedMessage);
    assert_eq!(message_template(MessageKind::Other, true), ItemTemplate::Message);
}

#[test]
fn copy_button_for_text_and_bot_notices() {
    assert!(shows_copy_button(MessageKind::Text, false));
    assert!(shows_copy_button(MessageKind::Emote, false));
    assert!(!shows_copy_button(MessageKind::Notice, false));
    assert!(shows_copy_button(MessageKind::Notice, true));
    assert!(!shows_copy_button(MessageKind::Image, true));
}

#[test]
fn emote_is_prefixed_with_username() {
    assert_eq!(emote_text("alice", "waves"), "* alice waves");
}

#[test]
fn server_notice_with_and_without_details() {
    let t = translations();
    assert_eq!(
        server_notice_html(&t, AppLanguage::English, "Quota reached", "m.server_notice.usage_limit_reached", Some("monthly_active_user"), Some("mailto:admin@x")),
        "<b>Server notice</b> Quota reached\n\n<i>Type</i>: m.server_notice.usage_limit_reached\n<i>Limit:</i> monthly_active_user\n<i>Contact:</i> mailto:admin@x"
    );
    assert_eq!(
        server_notice_html(&t, AppLanguage::English, "Hi", "t", None, None),
        "<b>Server notice</b> Hi\n\n<i>Type</i>: t"
    );
}

#[test]
fn verification_request_lists_methods() {
    let t = translations();
    let methods = vec!["m.sas.v1".to_string(), "m.qr_code.show.v1".to_string()];
    assert_eq!(
        verification_request_html(&t, AppLanguage::English, "@bob:x", &methods),
        "<i>Sent a <b>verification request</b> to @bob:x<br>(Supported methods: m.sas.v1, m.qr_code.show.v1)</i>"
    );
    assert_eq!(
        verification_request_html(&t, AppLanguage::English, "@bob:x", &Vec::new()),
        "<i>Sent a <b>verification request</b> to @bob:x<br>(Supported methods: )</i>"
    );
}

#[test]
fn highlight_thread_root_and_edits() {
    assert!(should_be_highlighted(false, true));
    assert!(!should_be_highlighted(false, false));
    assert_eq!(thread_root_of_item(Some("$t".into()), true, Some("$me".into())), Some("$t".to_string()));
    assert_eq!(thread_root_of_item(None, true, Some("$me".into())), Some("$me".to_string()));
    assert_eq!(thread_root_of_item(None, false, Some("$me".into())), None);
    assert!(shows_edited_indicator(true, false));
    assert!(!shows_edited_indicator(true, true));
}

#[test]
fn drawing_shortcuts() {
    let both = ItemDrawnStatus::both_drawn();
    let none = ItemDrawnStatus::new();
    assert!(skip_profile_draw(true, false, none));
    assert!(skip_profile_draw(false, true, both));
    assert!(!skip_profile_draw(false, false, both));
    assert!(fully_cached(true, both));
    assert!(!fully_cached(true, none));
    assert!(!fully_cached(false, both));
    assert!(content_fully_drawn(true, true, true));
    assert!(!content_fully_drawn(true, false, true));
}

#[test]
fn pending_download_lookup() {
    let pending = vec!["mxc://a".to_string(), "mxc://b".to_string(), "mxc://b".to_string()];
    assert_eq!(pending_download_index(&pending, "mxc://b"), Some(1));
    assert_eq!(pending_download_index(&pending, "mxc://c"), None);
}
