use robrix::i18n::{AppLanguage, Translations};
use robrix::message_content::{
    apply_room_mention, audio_message_html, file_message_html, geo_uri_coordinates, image_display,
    image_fetch_drawn, image_fetch_failed_text, location_html, redacted_message_html, shorten_coordinate,
    video_message_html, populate_preview_of_timeline_item, ImageDisplay, MediaFetchState, MediaSource, PreviewContent,
};
use robrix::message_view::MessageKind;

fn translations() -> Translations {
    Translations::from_json(
        r#"{
            "room_screen.location.label": "Location:",
            "room_screen.location.open_osm": "OSM",
            "room_screen.location.open_google_maps": "Google",
            "room_screen.location.open_apple_maps": "Apple",
            "room_screen.location.invalid_html": "Invalid location: {body}",
            "room_screen.file.download": "Download",
            "room_screen.file.encrypted_not_supported": "Encrypted files are not supported",
            "room_screen.audio.preview_html": "Audio <b>{filename}</b>{mime}{duration}{size}{caption}",
            "room_screen.video.preview_html": "Video <b>{filename}</b>{mime}{duration}{size}{dimensions}{caption}",
            "room_screen.redacted.generic": "Deleted message",
            "room_screen.redacted.self": "Message deleted by its sender",
            "room_screen.redacted.self_with_reason": "Deleted by its sender: {reason}",
            "room_screen.redacted.other": "Deleted by {redactor}",
            "room_screen.redacted.other_with_reason": "Deleted by {redactor}: {reason}",
            "room_screen.image.unsupported_type": "{body}: {mime} is not supported",
            "room_screen.image.no_source_url": "{body}: no source",
            "room_screen.image.failed_to_fetch": "Could not fetch {body} ({status})"
        }"#,
        r#"{
            "room_screen.location.label": "位置："
        }"#,
    )
}

fn pair(a: &str, b: &str) -> Option<(String, String)> {
    Some((a.to_string(), b.to_string()))
}

#[test]
fn geo_uri_parsing() {
    assert_eq!(geo_uri_coordinates("geo:51.5008,0.1247"), pair("51.5008", "0.1247"));
    assert_eq!(geo_uri_coordinates("geo:1,2,3"), pair("1", "2"));
    assert_eq!(geo_uri_coordinates("geo:1,2;u=35"), pair("1", "2;u=35"));
    assert_eq!(geo_uri_coordinates("geo:12.34"), None);
    assert_eq!(geo_uri_coordinates("geo"), None);
    assert_eq!(geo_uri_coordinates("geo:"), None);
    // The scheme is skipped by its four bytes, whatever they are.
    assert_eq!(geo_uri_coordinates("xyz:3,4"), pair("3", "4"));
    assert_eq!(geo_uri_coordinates("ééa,b"), pair("a", "b"));
    // Byte four inside a character: no coordinates.
    assert_eq!(geo_uri_coordinates("aéé,b"), None);
}

#[test]
fn coordinates_are_cut_after_six_digits() {
    assert_eq!(shorten_coordinate("51.50081234567"), "51.500812");
    assert_eq!(shorten_coordinate("-0.1247000"), "-0.124700");
    assert_eq!(shorten_coordinate("51.5"), "51.5");
    assert_eq!(shorten_coordinate("51"), "51");
    assert_eq!(shorten_coordinate("1.1234é5"), "1.1234é");
    // The cut would fall inside a character: kept whole.
    assert_eq!(shorten_coordinate("1.12345éx"), "1.12345éx");
}

#[test]
fn location_html_with_links() {
    let t = translations();
    let html = location_html(&t, AppLanguage::English, "geo:51.50081234567,-0.1247", "Big Ben");
    assert_eq!(
        html,
        "Location: <a href=\"geo:51.50081234567,-0.1247\">51.500812,-0.1247</a><br><ul>\
         <li><a href=\"https://www.openstreetmap.org/?mlat=51.50081234567&amp;mlon=-0.1247#map=15/51.50081234567/-0.1247\">OSM</a></li>\
         <li><a href=\"https://www.google.com/maps/search/?api=1&amp;query=51.50081234567,-0.1247\">Google</a></li>\
         <li><a href=\"https://maps.apple.com/?ll=51.50081234567,-0.1247&amp;q=51.50081234567,-0.1247\">Apple</a></li></ul>"
    );
    let zh = location_html(&t, AppLanguage::ChineseSimplified, "geo:1,2", "x");
    assert!(zh.starts_with("位置： <a href=\"geo:1,2\">1,2</a>"));
}

#[test]
fn location_html_escapes_coordinates() {
    let t = translations();
    let html = location_html(&t, AppLanguage::English, "geo:\"1<,&2", "x");
    assert!(html.starts_with("Location: <a href=\"geo:&quot;1&lt;,&amp;2\">\"1&lt;,&amp;2</a>"));
    assert!(html.contains("mlat=&quot;1&lt;&amp;mlon=&amp;2"));
}

#[test]
fn location_html_invalid_uri() {
    let t = translations();
    assert_eq!(
        location_html(&t, AppLanguage::English, "geo:nowhere", "<b>home</b>"),
        "Invalid location: &lt;b&gt;home&lt;/b&gt;"
    );
}

#[test]
fn room_mention_becomes_link() {
    let room = "!r:x".to_string();
    assert_eq!(
        apply_room_mention("hi @room and @room!".to_string(), Some(&room)),
        "hi <a href=\"https://matrix.to/#/!r:x\">@room</a> and <a href=\"https://matrix.to/#/!r:x\">@room</a>!"
    );
    assert_eq!(apply_room_mention("hi @room".to_string(), None), "hi @room");
    assert_eq!(apply_room_mention("hi all".to_string(), Some(&room)), "hi all");
}

#[test]
fn file_html_plain_and_encrypted() {
    let t = translations();
    let plain = MediaSource::Plain("mxc://x/a&b".to_string());
    assert_eq!(
        file_message_html(&t, AppLanguage::English, "r<e>port.pdf", Some("1.2 MiB"), None, Some("my <file>"), &plain),
        "<b>r&lt;e&gt;port.pdf</b>  (1.2 MiB)<br><i>my &lt;file&gt;</i><br>→ <a href=\"mxc://x/a&amp;b\">Download</a>"
    );
    assert_eq!(
        file_message_html(&t, AppLanguage::English, "a.txt", None, Some("<b>bold</b>"), Some("ignored"), &MediaSource::Encrypted),
        "<b>a.txt</b><br><i><b>bold</b></i><br>→ <i>Encrypted files are not supported</i>"
    );
    assert_eq!(
        file_message_html(&t, AppLanguage::English, "a.txt", None, None, None, &MediaSource::Encrypted),
        "<b>a.txt</b><br>→ <i>Encrypted files are not supported</i>"
    );
}

#[test]
fn audio_html_details() {
    let t = translations();
    assert_eq!(
        audio_message_html(&t, AppLanguage::English, "song.ogg", Some("audio/ogg"), Some("12.50"), Some("3 KiB"), None, Some("live")),
        "Audio <b>song.ogg</b>  audio/ogg,  12.50 sec,  (3 KiB),<br><i>live</i>"
    );
    assert_eq!(
        audio_message_html(&t, AppLanguage::English, "s&t.ogg", None, None, None, None, None),
        "Audio <b>s&amp;t.ogg</b>"
    );
}

#[test]
fn video_html_details() {
    let t = translations();
    assert_eq!(
        video_message_html(
            &t, AppLanguage::English, "clip.mp4", Some("video/mp4"), Some("3.00"), Some("5 MiB"),
            Some(1920), Some(1080), Some("<i>x</i>"), None,
        ),
        "Video <b>clip.mp4</b>  video/mp4,  3.00 sec,  (5 MiB),  1920x1080,<br><i><i>x</i></i>"
    );
    // Dimensions only when both are known.
    assert_eq!(
        video_message_html(&t, AppLanguage::English, "clip.mp4", None, None, None, Some(640), None, None, None),
        "Video <b>clip.mp4</b>"
    );
}

#[test]
fn redacted_message_cases() {
    let t = translations();
    let en = AppLanguage::English;
    assert_eq!(
        redacted_message_html(&t, en, None, "@s:x", None),
        ("Deleted message".to_string(), true)
    );
    assert_eq!(
        redacted_message_html(&t, en, Some(("@s:x", None)), "@s:x", None),
        ("Message deleted by its sender".to_string(), true)
    );
    assert_eq!(
        redacted_message_html(&t, en, Some(("@s:x", Some("<oops>"))), "@s:x", None),
        ("Deleted by its sender: &lt;oops&gt;".to_string(), true)
    );
    assert_eq!(
        redacted_message_html(&t, en, Some(("@m:x", None)), "@s:x", Some("Mod & Co")),
        ("Deleted by Mod &amp; Co".to_string(), true)
    );
    assert_eq!(
        redacted_message_html(&t, en, Some(("@m:x", Some("spam"))), "@s:x", None),
        ("Deleted by @m:x: spam".to_string(), false)
    );
}

fn text_of(display: ImageDisplay) -> Option<String> {
    match display {
        ImageDisplay::Text(t) => Some(t),
        _ => None,
    }
}

#[test]
fn image_display_choices() {
    let t = translations();
    let en = AppLanguage::English;
    assert!(matches!(image_display(&t, en, "cat.gif", true, Some("image/gif"), true, true, false), ImageDisplay::Animated));
    assert_eq!(
        text_of(image_display(&t, en, "cat.gif", true, None, true, false, false)),
        Some("cat.gif\n\nAnimated image messages require the animated image widget.".to_string())
    );
    assert_eq!(
        text_of(image_display(&t, en, "pic.tiff", true, Some("image/tiff"), false, true, false)),
        Some("pic.tiff: image/tiff is not supported".to_string())
    );
    assert_eq!(
        text_of(image_display(&t, en, "pic.png", false, None, false, true, false)),
        Some("pic.png: no source".to_string())
    );
    assert!(matches!(image_display(&t, en, "pic.png", true, Some("image/png"), false, true, true), ImageDisplay::Fetch));
    assert!(matches!(image_display(&t, en, "pic.png", true, None, false, false, false), ImageDisplay::Fetch));
}

#[test]
fn image_fetch_states() {
    assert!(image_fetch_drawn(MediaFetchState::Loaded));
    assert!(!image_fetch_drawn(MediaFetchState::Requested));
    assert!(image_fetch_drawn(MediaFetchState::Failed));
    let t = translations();
    assert_eq!(image_fetch_failed_text(&t, AppLanguage::English, "pic.png", "404"), "Could not fetch pic.png (404)");
}

#[test]
fn preview_of_timeline_items() {
    assert_eq!(
        populate_preview_of_timeline_item(MessageKind::Text, "hi", Some("<b>hi</b>"), "other"),
        PreviewContent::Html("<b>hi</b>".to_string())
    );
    assert_eq!(
        populate_preview_of_timeline_item(MessageKind::Notice, "hi", None, "other"),
        PreviewContent::Plaintext("hi".to_string())
    );
    assert_eq!(
        populate_preview_of_timeline_item(MessageKind::Image, "pic.png", None, "<i>sent an image</i>"),
        PreviewContent::Html("<i>sent an image</i>".to_string())
    );
}
