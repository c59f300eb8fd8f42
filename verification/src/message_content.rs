//! The HTML that the timeline shows for the content of a message: room
//! mentions turned into links, locations with links to map services, files,
//! audio and video with their details, and redacted messages.
//!
//! Every piece of text that comes from the message is escaped for HTML
//! before it is put into the markup.

use vstd::prelude::*;
use crate::message_view::MessageKind;
use crate::html::{escape_attribute, escape_text, html_attribute_escaped, html_text_escaped};
use crate::i18n::{lemma_format_cons, lemma_format_one, tr_fmt, tr_key, translated, AppLanguage, Translations};
use crate::text::{
    char_boundary_offset, chars_vec, contains_seq, decimal, decimal_string_u64, is_char_offset,
    lemma_utf8_len_take_mono, lemma_utf8_len_take_strict, replace_all, replaced, str_contains, str_eq,
    string_from_range, string_push_str, utf8_len, walk_chars,
};

verus! {

broadcast use vstd::seq::group_seq_axioms, vstd::seq_lib::group_seq_properties;

// ---------------------------------------------------------------------------
// Byte offsets and characters.
// ---------------------------------------------------------------------------

/// The number of characters of `s` whose encoding ends at byte `off`
/// (meaningful where `off` is a character boundary of `s`).
pub open spec fn char_index_of_byte(s: Seq<char>, off: int) -> int {
    choose|k: int| 0 <= k <= s.len() && utf8_len(#[trigger] s.take(k)) == off
}

/// The characters after byte `off` of `s` (`str::get(off..)`), if `off` is
/// a character boundary.
pub open spec fn suffix_from_byte(s: Seq<char>, off: int) -> Option<Seq<char>> {
    if is_char_offset(s, off) {
        Some(s.skip(char_index_of_byte(s, off)))
    } else {
        None
    }
}

/// The characters before byte `off` of `s` (`str::get(..off)`), if `off` is
/// a character boundary.
pub open spec fn prefix_to_byte(s: Seq<char>, off: int) -> Option<Seq<char>> {
    if is_char_offset(s, off) {
        Some(s.take(char_index_of_byte(s, off)))
    } else {
        None
    }
}

/// The unique character count of a character boundary.
proof fn lemma_char_index_of_byte(s: Seq<char>, k: int)
    requires
        0 <= k <= s.len(),
    ensures
        is_char_offset(s, utf8_len(s.take(k)) as int),
        char_index_of_byte(s, utf8_len(s.take(k)) as int) == k,
{
    let off = utf8_len(s.take(k)) as int;
    assert(is_char_offset(s, off));
    let j = char_index_of_byte(s, off);
    if j != k {
        if j < k {
            lemma_utf8_len_take_strict(s, j, k);
        } else {
            lemma_utf8_len_take_strict(s, k, j);
        }
    }
}

/// The number of characters of `s` before byte `off`, if `off` is a
/// character boundary of `s`.
fn char_index_at_byte(s: &str, off: usize) -> (k: Option<usize>)
    ensures
        match k {
            Some(k) => k <= s@.len() && utf8_len(s@.take(k as int)) == off && is_char_offset(s@, off as int)
                && char_index_of_byte(s@, off as int) == k,
            None => !is_char_offset(s@, off as int),
        },
{
    let len = s.as_bytes().len();
    proof {
        assert(s@.take(0) =~= Seq::<char>::empty());
        assert(s@.take(s@.len() as int) =~= s@);
    }
    let mut j: usize = 0;
    let mut b: usize = 0;
    while b < off && b < len
        invariant
            0 <= j <= s@.len(),
            j <= b,
            b == utf8_len(s@.take(j as int)),
            len == utf8_len(s@),
            s@.take(s@.len() as int) == s@,
            forall|k: int| 0 <= k < j ==> utf8_len(#[trigger] s@.take(k)) < off,
        decreases len - b,
    {
        proof {
            if j == s@.len() {
                assert(false);
            }
        }
        let (n, next) = walk_chars(s, b, 1, Ghost(j as int));
        proof {
            assert(n == 1);
            assert forall|k: int| 0 <= k < j + 1 implies utf8_len(#[trigger] s@.take(k)) < off by {
                if k < j {
                } else {
                    assert(k == j);
                }
            }
            lemma_utf8_len_take_strict(s@, j as int, j + 1);
            lemma_utf8_len_take_mono(s@, j + 1, s@.len() as int);
        }
        j = j + n;
        b = next;
    }
    if b == off {
        proof {
            lemma_char_index_of_byte(s@, j as int);
        }
        Some(j)
    } else {
        proof {
            assert forall|k: int| 0 <= k <= s@.len() implies utf8_len(#[trigger] s@.take(k)) != off by {
                if k < j {
                } else if k == j {
                } else {
                    lemma_utf8_len_take_strict(s@, j as int, k);
                    if b >= len {
                        lemma_utf8_len_take_mono(s@, k, s@.len() as int);
                        lemma_utf8_len_take_strict(s@, j as int, k);
                    }
                }
            }
        }
        None
    }
}

/// The position of the first `c` in `s`.
pub open spec fn index_of_char(s: Seq<char>, c: char) -> Option<int>
    decreases s.len(),
{
    if s.len() == 0 {
        None
    } else if s[0] == c {
        Some(0)
    } else {
        match index_of_char(s.drop_first(), c) {
            Some(i) => Some(i + 1),
            None => None,
        }
    }
}

proof fn lemma_index_of_char(s: Seq<char>, c: char, i: int)
    requires
        0 <= i <= s.len(),
        forall|k: int| 0 <= k < i ==> s[k] != c,
        i < s.len() ==> s[i] == c,
    ensures
        index_of_char(s, c) == if i < s.len() { Some(i) } else { None::<int> },
    decreases i,
{
    if i > 0 {
        lemma_index_of_char(s.drop_first(), c, i - 1);
    }
}

/// The position of the first `c` in `cs[from..]`.
fn find_char(cs: &Vec<char>, from: usize, c: char) -> (found: Option<usize>)
    requires
        from <= cs@.len(),
    ensures
        match found {
            Some(i) => from <= i < cs@.len() && index_of_char(cs@.skip(from as int), c) == Some(i - from),
            None => index_of_char(cs@.skip(from as int), c) is None,
        },
{
    let ghost rest = cs@.skip(from as int);
    let mut i: usize = from;
    while i < cs.len()
        invariant
            from <= i <= cs@.len(),
            rest == cs@.skip(from as int),
            forall|k: int| from <= k < i ==> cs@[k] != c,
        decreases cs@.len() - i,
    {
        if cs[i] == c {
            proof {
                assert forall|k: int| 0 <= k < i - from implies rest[k] != c by {
                    assert(rest[k] == cs@[k + from]);
                }
                lemma_index_of_char(rest, c, i - from);
            }
            return Some(i);
        }
        i += 1;
    }
    proof {
        assert forall|k: int| 0 <= k < i - from implies rest[k] != c by {
            assert(rest[k] == cs@[k + from]);
        }
        lemma_index_of_char(rest, c, i - from);
    }
    None
}

// ---------------------------------------------------------------------------
// Locations.
// ---------------------------------------------------------------------------

/// The number of bytes of the scheme at the start of a geo URI (`geo:`).
pub const GEO_URI_SCHEME_LEN: usize = 4;

/// The latitude and longitude of a geo URI: after the scheme's bytes, the
/// text up to the first comma, and the text after it up to the next comma
/// (or the end).  None when the URI is too short or holds no comma there.
pub open spec fn geo_coordinates(uri: Seq<char>) -> Option<(Seq<char>, Seq<char>)> {
    match suffix_from_byte(uri, GEO_URI_SCHEME_LEN as int) {
        Some(rest) => match index_of_char(rest, ',') {
            Some(p) => {
                let after = rest.skip(p + 1);
                let long = match index_of_char(after, ',') {
                    Some(q) => after.take(q),
                    None => after,
                };
                Some((rest.take(p), long))
            },
            None => None,
        },
        None => None,
    }
}

/// A coordinate cut after six digits of its fraction: up to the byte seven
/// past its first `.`, when that byte is a character boundary; else whole.
pub open spec fn short_coordinate(coord: Seq<char>) -> Seq<char> {
    match index_of_char(coord, '.') {
        Some(p) => match prefix_to_byte(coord, utf8_len(coord.take(p)) + 7int) {
            Some(short) => short,
            None => coord,
        },
        None => coord,
    }
}

/// The latitude and longitude of the geo URI `uri` (`"geo:lat,long"`).
pub fn geo_uri_coordinates(uri: &str) -> (coords: Option<(String, String)>)
    ensures
        match coords {
            Some((lat, long)) => geo_coordinates(uri@) == Some((lat@, long@)),
            None => geo_coordinates(uri@) is None,
        },
{
    let k = match char_index_at_byte(uri, GEO_URI_SCHEME_LEN) {
        Some(k) => k,
        None => return None,
    };
    let cs = chars_vec(uri);
    let ghost rest = uri@.skip(k as int);
    let p = match find_char(&cs, k, ',') {
        Some(p) => p,
        None => return None,
    };
    let lat = string_from_range(&cs, k, p);
    let ghost after = rest.skip(p - k + 1);
    proof {
        assert(cs@.skip(p + 1) =~= after);
        assert(rest.take(p - k) =~= cs@.subrange(k as int, p as int));
    }
    let end = match find_char(&cs, p + 1, ',') {
        Some(q) => {
            proof {
                assert(after.take(q - p - 1) =~= cs@.subrange(p + 1, q as int));
            }
            q
        },
        None => {
            proof {
                assert(after =~= cs@.subrange(p + 1, cs@.len() as int));
            }
            cs.len()
        },
    };
    let long = string_from_range(&cs, p + 1, end);
    Some((lat, long))
}

/// `coord` cut after six digits of its fraction, as the timeline shows it.
pub fn shorten_coordinate(coord: &str) -> (short: String)
    ensures
        short@ == short_coordinate(coord@),
{
    let cs = chars_vec(coord);
    proof {
        assert(cs@.skip(0) =~= cs@);
    }
    let p = match find_char(&cs, 0, '.') {
        Some(p) => p,
        None => return coord.to_owned(),
    };
    let dot = char_boundary_offset(coord, p);
    let len = coord.as_bytes().len();
    proof {
        lemma_utf8_len_take_mono(coord@, p as int, coord@.len() as int);
        assert(coord@.take(coord@.len() as int) =~= coord@);
    }
    if dot > len || len - dot < 7 {
        // The byte seven past the dot lies beyond the end.
        proof {
            assert forall|k: int| 0 <= k <= coord@.len() implies utf8_len(#[trigger] coord@.take(k)) != dot + 7 by {
                lemma_utf8_len_take_mono(coord@, k, coord@.len() as int);
            }
        }
        return coord.to_owned();
    }
    match char_index_at_byte(coord, dot + 7) {
        Some(m) => {
            let short = string_from_range(&cs, 0, m);
            assert(short@ =~= coord@.take(m as int));
            short
        },
        None => coord.to_owned(),
    }
}

/// The placeholder `{name}` of a translated template.
pub open spec fn placeholder(name: Seq<char>) -> Seq<char> {
    seq!['{'] + name + seq!['}']
}

/// The text of an optional string.
pub open spec fn opt_view(s: Option<&str>) -> Option<Seq<char>> {
    match s {
        Some(t) => Some(t@),
        None => None,
    }
}

/// What a location message shows: its coordinates, cut short, linking to
/// the geo URI, and links to three map services; or, when the geo URI holds
/// no coordinates, the message's body in a translated notice.
pub open spec fn location_html_text(
    translations: Translations,
    language: AppLanguage,
    geo_uri: Seq<char>,
    body: Seq<char>,
) -> Seq<char> {
    match geo_coordinates(geo_uri) {
        Some((lat, long)) => {
            let a_lat = html_attribute_escaped(lat);
            let a_long = html_attribute_escaped(long);
            translated(translations, language, "room_screen.location.label"@) + " <a href=\""@
                + html_attribute_escaped(geo_uri) + "\">"@ + html_text_escaped(short_coordinate(lat)) + ","@
                + html_text_escaped(short_coordinate(long))
                + "</a><br><ul><li><a href=\"https://www.openstreetmap.org/?mlat="@ + a_lat + "&amp;mlon="@
                + a_long + "#map=15/"@ + a_lat + "/"@ + a_long + "\">"@
                + translated(translations, language, "room_screen.location.open_osm"@)
                + "</a></li><li><a href=\"https://www.google.com/maps/search/?api=1&amp;query="@ + a_lat + ","@
                + a_long + "\">"@ + translated(translations, language, "room_screen.location.open_google_maps"@)
                + "</a></li><li><a href=\"https://maps.apple.com/?ll="@ + a_lat + ","@ + a_long + "&amp;q="@
                + a_lat + ","@ + a_long + "\">"@
                + translated(translations, language, "room_screen.location.open_apple_maps"@)
                + "</a></li></ul>"@
        },
        None => replaced(
            translated(translations, language, "room_screen.location.invalid_html"@),
            placeholder("body"@),
            html_text_escaped(body),
        ),
    }
}

/// The HTML of a location message with geo URI `geo_uri` and body `body`.
pub fn location_html(translations: &Translations, language: AppLanguage, geo_uri: &str, body: &str) -> (html: String)
    requires
        translations.wf(),
    ensures
        html@ == location_html_text(*translations, language, geo_uri@, body@),
{
    match geo_uri_coordinates(geo_uri) {
        Some((lat, long)) => {
            let short_lat = escape_text(shorten_coordinate(lat.as_str()).as_str());
            let short_long = escape_text(shorten_coordinate(long.as_str()).as_str());
            let safe_lat = escape_attribute(lat.as_str());
            let safe_long = escape_attribute(long.as_str());
            let safe_geo_uri = escape_attribute(geo_uri);
            let a_lat = safe_lat.as_str();
            let a_long = safe_long.as_str();
            let mut html = tr_key(translations, language, "room_screen.location.label").to_owned();
            string_push_str(&mut html, " <a href=\"");
            string_push_str(&mut html, safe_geo_uri.as_str());
            string_push_str(&mut html, "\">");
            string_push_str(&mut html, short_lat.as_str());
            string_push_str(&mut html, ",");
            string_push_str(&mut html, short_long.as_str());
            string_push_str(&mut html, "</a><br><ul><li><a href=\"https://www.openstreetmap.org/?mlat=");
            string_push_str(&mut html, a_lat);
            string_push_str(&mut html, "&amp;mlon=");
            string_push_str(&mut html, a_long);
            string_push_str(&mut html, "#map=15/");
            string_push_str(&mut html, a_lat);
            string_push_str(&mut html, "/");
            string_push_str(&mut html, a_long);
            string_push_str(&mut html, "\">");
            string_push_str(&mut html, tr_key(translations, language, "room_screen.location.open_osm"));
            string_push_str(&mut html, "</a></li><li><a href=\"https://www.google.com/maps/search/?api=1&amp;query=");
            string_push_str(&mut html, a_lat);
            string_push_str(&mut html, ",");
            string_push_str(&mut html, a_long);
            string_push_str(&mut html, "\">");
            string_push_str(&mut html, tr_key(translations, language, "room_screen.location.open_google_maps"));
            string_push_str(&mut html, "</a></li><li><a href=\"https://maps.apple.com/?ll=");
            string_push_str(&mut html, a_lat);
            string_push_str(&mut html, ",");
            string_push_str(&mut html, a_long);
            string_push_str(&mut html, "&amp;q=");
            string_push_str(&mut html, a_lat);
            string_push_str(&mut html, ",");
            string_push_str(&mut html, a_long);
            string_push_str(&mut html, "\">");
            string_push_str(&mut html, tr_key(translations, language, "room_screen.location.open_apple_maps"));
            string_push_str(&mut html, "</a></li></ul>");
            html
        },
        None => {
            let escaped_body = escape_text(body);
            let value = escaped_body.as_str();
            let vars = [("body", value)];
            let text = tr_fmt(translations, language, "room_screen.location.invalid_html", &vars);
            proof {
                assert(vars@ =~= seq![("body", value)]);
                lemma_format_one(translated(*translations, language, "room_screen.location.invalid_html"@), "body", value);
            }
            text
        },
    }
}

// ---------------------------------------------------------------------------
// Room mentions.
// ---------------------------------------------------------------------------

/// A message's HTML with each `@room` made a link to the room, when the
/// message mentions the whole room `room_id` and its text holds `@room`.
pub open spec fn with_room_mention(html: Seq<char>, room_id: Option<Seq<char>>) -> Seq<char> {
    match room_id {
        Some(id) => if contains_seq(html, "@room"@) {
            replaced(html, "@room"@, "<a href=\"https://matrix.to/#/"@ + id + "\">@room</a>"@)
        } else {
            html
        },
        None => html,
    }
}

/// Makes each `@room` of `html` a link to the mentioned room.
pub fn apply_room_mention(html: String, room_id: Option<&String>) -> (out: String)
    ensures
        out@ == with_room_mention(html@, match room_id {
            Some(id) => Some(id@),
            None => None,
        }),
{
    match room_id {
        Some(id) => {
            if str_contains(html.as_str(), "@room") {
                let mut link = String::new();
                string_push_str(&mut link, "<a href=\"https://matrix.to/#/");
                string_push_str(&mut link, id.as_str());
                string_push_str(&mut link, "\">@room</a>");
                proof {
                    reveal_strlit("@room");
                    assert(link@ =~= "<a href=\"https://matrix.to/#/"@ + id@ + "\">@room</a>"@);
                }
                replace_all(html.as_str(), "@room", link.as_str())
            } else {
                html
            }
        },
        None => html,
    }
}

// ---------------------------------------------------------------------------
// Files, audio and video.
// ---------------------------------------------------------------------------

/// Where the content of a file is.
#[derive(Clone, Debug)]
pub enum MediaSource {
    /// Unencrypted, at this `mxc://` URI.
    Plain(String),
    /// Encrypted.
    Encrypted,
}

/// The caption under a file: its HTML caption as it is, else its plain
/// caption escaped, in italics on a line of its own.
pub open spec fn caption_part(html_caption: Option<Seq<char>>, caption: Option<Seq<char>>) -> Seq<char> {
    match html_caption {
        Some(h) => "<br><i>"@ + h + "</i>"@,
        None => match caption {
            Some(c) => "<br><i>"@ + html_text_escaped(c) + "</i>"@,
            None => Seq::empty(),
        },
    }
}

fn caption_html(html_caption: Option<&str>, caption: Option<&str>) -> (html: String)
    ensures
        html@ == caption_part(opt_view(html_caption), opt_view(caption)),
{
    let mut html = String::new();
    proof {
        assert(html@ == Seq::<char>::empty());
    }
    match html_caption {
        Some(h) => {
            string_push_str(&mut html, "<br><i>");
            string_push_str(&mut html, h);
            string_push_str(&mut html, "</i>");
        },
        None => match caption {
            Some(c) => {
                let escaped = escape_text(c);
                string_push_str(&mut html, "<br><i>");
                string_push_str(&mut html, escaped.as_str());
                string_push_str(&mut html, "</i>");
            },
            None => {},
        },
    }
    proof {
        assert(html@ =~= caption_part(opt_view(html_caption), opt_view(caption)));
    }
    html
}

/// A detail of a file, between two spaces and what follows it: `before`,
/// the detail, `after`; nothing when the detail is not known.
pub open spec fn detail_part(detail: Option<Seq<char>>, before: Seq<char>, after: Seq<char>) -> Seq<char> {
    match detail {
        Some(d) => before + d + after,
        None => Seq::empty(),
    }
}

fn detail_html(detail: Option<&str>, before: &str, after: &str) -> (html: String)
    ensures
        html@ == detail_part(opt_view(detail), before@, after@),
{
    let mut html = String::new();
    proof {
        assert(html@ == Seq::<char>::empty());
    }
    if let Some(d) = detail {
        string_push_str(&mut html, before);
        string_push_str(&mut html, d);
        string_push_str(&mut html, after);
        proof {
            assert(html@ =~= before@ + d@ + after@);
        }
    }
    html
}

/// What a file message shows: its escaped name in bold, its size, its
/// caption, and a link to download it (or a notice that encrypted files
/// cannot be downloaded).  `size_label` is the size as the UI writes it.
pub open spec fn file_html_text(
    translations: Translations,
    language: AppLanguage,
    filename: Seq<char>,
    size_label: Option<Seq<char>>,
    html_caption: Option<Seq<char>>,
    caption: Option<Seq<char>>,
    source: MediaSource,
) -> Seq<char> {
    "<b>"@ + html_text_escaped(filename) + "</b>"@ + detail_part(size_label, "  ("@, ")"@)
        + caption_part(html_caption, caption) + match source {
        MediaSource::Plain(mxc) => "<br>→ <a href=\""@ + html_text_escaped(mxc@) + "\">"@
            + translated(translations, language, "room_screen.file.download"@) + "</a>"@,
        MediaSource::Encrypted => "<br>→ <i>"@
            + translated(translations, language, "room_screen.file.encrypted_not_supported"@) + "</i>"@,
    }
}

/// The HTML of a file message.
pub fn file_message_html(
    translations: &Translations,
    language: AppLanguage,
    filename: &str,
    size_label: Option<&str>,
    html_caption: Option<&str>,
    caption: Option<&str>,
    source: &MediaSource,
) -> (html: String)
    requires
        translations.wf(),
    ensures
        html@ == file_html_text(*translations, language, filename@, opt_view(size_label), opt_view(html_caption),
            opt_view(caption), *source),
{
    let escaped_name = escape_text(filename);
    let size = detail_html(size_label, "  (", ")");
    let caption_text = caption_html(html_caption, caption);
    let mut link = String::new();
    match source {
        MediaSource::Plain(mxc) => {
            let escaped_uri = escape_text(mxc.as_str());
            string_push_str(&mut link, "<br>→ <a href=\"");
            string_push_str(&mut link, escaped_uri.as_str());
            string_push_str(&mut link, "\">");
            string_push_str(&mut link, tr_key(translations, language, "room_screen.file.download"));
            string_push_str(&mut link, "</a>");
        },
        MediaSource::Encrypted => {
            string_push_str(&mut link, "<br>→ <i>");
            string_push_str(&mut link, tr_key(translations, language, "room_screen.file.encrypted_not_supported"));
            string_push_str(&mut link, "</i>");
        },
    }
    let mut html = String::new();
    string_push_str(&mut html, "<b>");
    string_push_str(&mut html, escaped_name.as_str());
    string_push_str(&mut html, "</b>");
    string_push_str(&mut html, size.as_str());
    string_push_str(&mut html, caption_text.as_str());
    string_push_str(&mut html, link.as_str());
    proof {
        assert(html@ =~= file_html_text(*translations, language, filename@, opt_view(size_label),
            opt_view(html_caption), opt_view(caption), *source));
    }
    html
}

/// An optional text escaped for an HTML text node.
pub open spec fn opt_escaped(s: Option<Seq<char>>) -> Option<Seq<char>> {
    match s {
        Some(t) => Some(html_text_escaped(t)),
        None => None,
    }
}

/// The details of an audio message put into its translated template: the
/// escaped file name, and the MIME type, duration (in seconds, as the UI
/// writes them), size and caption, each where known.
pub open spec fn audio_html_text(
    translations: Translations,
    language: AppLanguage,
    filename: Seq<char>,
    mime: Option<Seq<char>>,
    duration_secs: Option<Seq<char>>,
    size_label: Option<Seq<char>>,
    html_caption: Option<Seq<char>>,
    caption: Option<Seq<char>>,
) -> Seq<char> {
    replaced(
        replaced(
            replaced(
                replaced(
                    replaced(
                        translated(translations, language, "room_screen.audio.preview_html"@),
                        placeholder("filename"@),
                        html_text_escaped(filename),
                    ),
                    placeholder("mime"@),
                    detail_part(opt_escaped(mime), "  "@, ","@),
                ),
                placeholder("duration"@),
                detail_part(duration_secs, "  "@, " sec,"@),
            ),
            placeholder("size"@),
            detail_part(size_label, "  ("@, "),"@),
        ),
        placeholder("caption"@),
        caption_part(html_caption, caption),
    )
}

/// The HTML of an audio message.
pub fn audio_message_html(
    translations: &Translations,
    language: AppLanguage,
    filename: &str,
    mime: Option<&str>,
    duration_secs: Option<&str>,
    size_label: Option<&str>,
    html_caption: Option<&str>,
    caption: Option<&str>,
) -> (html: String)
    requires
        translations.wf(),
    ensures
        html@ == audio_html_text(*translations, language, filename@, opt_view(mime), opt_view(duration_secs),
            opt_view(size_label), opt_view(html_caption), opt_view(caption)),
{
    let escaped_name = escape_text(filename);
    let escaped_mime = match mime {
        Some(m) => Some(escape_text(m)),
        None => None,
    };
    let mime_part = detail_html(
        match &escaped_mime {
            Some(m) => Some(m.as_str()),
            None => None,
        },
        "  ",
        ",",
    );
    let duration_part = detail_html(duration_secs, "  ", " sec,");
    let size_part = detail_html(size_label, "  (", "),");
    let caption_text = caption_html(html_caption, caption);
    let f = escaped_name.as_str();
    let m = mime_part.as_str();
    let d = duration_part.as_str();
    let z = size_part.as_str();
    let c = caption_text.as_str();
    let vars = [("filename", f), ("mime", m), ("duration", d), ("size", z), ("caption", c)];
    let html = tr_fmt(translations, language, "room_screen.audio.preview_html", &vars);
    proof {
        let t0 = translated(*translations, language, "room_screen.audio.preview_html"@);
        let r1 = seq![("mime", m), ("duration", d), ("size", z), ("caption", c)];
        let r2 = seq![("duration", d), ("size", z), ("caption", c)];
        let r3 = seq![("size", z), ("caption", c)];
        assert(vars@ =~= seq![("filename", f)] + r1);
        assert(r1 =~= seq![("mime", m)] + r2);
        assert(r2 =~= seq![("duration", d)] + r3);
        assert(r3 =~= seq![("size", z)] + seq![("caption", c)]);
        lemma_format_cons(t0, "filename", f, r1);
        let t1 = replaced(t0, placeholder("filename"@), f@);
        lemma_format_cons(t1, "mime", m, r2);
        let t2 = replaced(t1, placeholder("mime"@), m@);
        lemma_format_cons(t2, "duration", d, r3);
        let t3 = replaced(t2, placeholder("duration"@), d@);
        lemma_format_cons(t3, "size", z, seq![("caption", c)]);
        let t4 = replaced(t3, placeholder("size"@), z@);
        lemma_format_one(t4, "caption", c);
    }
    html
}

/// The dimensions of a video, where both are known: `"  {width}x{height},"`.
pub open spec fn dimensions_part(width: Option<u64>, height: Option<u64>) -> Seq<char> {
    match (width, height) {
        (Some(w), Some(h)) => "  "@ + decimal(w as nat) + "x"@ + decimal(h as nat) + ","@,
        _ => Seq::empty(),
    }
}

/// The details of a video message put into its translated template, as
/// for audio, with its dimensions.
pub open spec fn video_html_text(
    translations: Translations,
    language: AppLanguage,
    filename: Seq<char>,
    mime: Option<Seq<char>>,
    duration_secs: Option<Seq<char>>,
    size_label: Option<Seq<char>>,
    width: Option<u64>,
    height: Option<u64>,
    html_caption: Option<Seq<char>>,
    caption: Option<Seq<char>>,
) -> Seq<char> {
    replaced(
        replaced(
            replaced(
                replaced(
                    replaced(
                        replaced(
                            translated(translations, language, "room_screen.video.preview_html"@),
                            placeholder("filename"@),
                            html_text_escaped(filename),
                        ),
                        placeholder("mime"@),
                        detail_part(opt_escaped(mime), "  "@, ","@),
                    ),
                    placeholder("duration"@),
                    detail_part(duration_secs, "  "@, " sec,"@),
                ),
                placeholder("size"@),
                detail_part(size_label, "  ("@, "),"@),
            ),
            placeholder("dimensions"@),
            dimensions_part(width, height),
        ),
        placeholder("caption"@),
        caption_part(html_caption, caption),
    )
}

/// The HTML of a video message.
pub fn video_message_html(
    translations: &Translations,
    language: AppLanguage,
    filename: &str,
    mime: Option<&str>,
    duration_secs: Option<&str>,
    size_label: Option<&str>,
    width: Option<u64>,
    height: Option<u64>,
    html_caption: Option<&str>,
    caption: Option<&str>,
) -> (html: String)
    requires
        translations.wf(),
    ensures
        html@ == video_html_text(*translations, language, filename@, opt_view(mime), opt_view(duration_secs),
            opt_view(size_label), width, height, opt_view(html_caption), opt_view(caption)),
{
    let escaped_name = escape_text(filename);
    let escaped_mime = match mime {
        Some(m) => Some(escape_text(m)),
        None => None,
    };
    let mime_part = detail_html(
        match &escaped_mime {
            Some(m) => Some(m.as_str()),
            None => None,
        },
        "  ",
        ",",
    );
    let duration_part = detail_html(duration_secs, "  ", " sec,");
    let size_part = detail_html(size_label, "  (", "),");
    let mut dims = String::new();
    proof {
        assert(dims@ == Seq::<char>::empty());
    }
    if let (Some(w), Some(h)) = (width, height) {
        string_push_str(&mut dims, "  ");
        string_push_str(&mut dims, decimal_string_u64(w).as_str());
        string_push_str(&mut dims, "x");
        string_push_str(&mut dims, decimal_string_u64(h).as_str());
        string_push_str(&mut dims, ",");
    }
    proof {
        assert(dims@ =~= dimensions_part(width, height));
    }
    let caption_text = caption_html(html_caption, caption);
    let f = escaped_name.as_str();
    let m = mime_part.as_str();
    let d = duration_part.as_str();
    let z = size_part.as_str();
    let x = dims.as_str();
    let c = caption_text.as_str();
    let vars = [("filename", f), ("mime", m), ("duration", d), ("size", z), ("dimensions", x), ("caption", c)];
    let html = tr_fmt(translations, language, "room_screen.video.preview_html", &vars);
    proof {
        let t0 = translated(*translations, language, "room_screen.video.preview_html"@);
        let r1 = seq![("mime", m), ("duration", d), ("size", z), ("dimensions", x), ("caption", c)];
        let r2 = seq![("duration", d), ("size", z), ("dimensions", x), ("caption", c)];
        let r3 = seq![("size", z), ("dimensions", x), ("caption", c)];
        let r4 = seq![("dimensions", x), ("caption", c)];
        assert(vars@ =~= seq![("filename", f)] + r1);
        assert(r1 =~= seq![("mime", m)] + r2);
        assert(r2 =~= seq![("duration", d)] + r3);
        assert(r3 =~= seq![("size", z)] + r4);
        assert(r4 =~= seq![("dimensions", x)] + seq![("caption", c)]);
        lemma_format_cons(t0, "filename", f, r1);
        let t1 = replaced(t0, placeholder("filename"@), f@);
        lemma_format_cons(t1, "mime", m, r2);
        let t2 = replaced(t1, placeholder("mime"@), m@);
        lemma_format_cons(t2, "duration", d, r3);
        let t3 = replaced(t2, placeholder("duration"@), d@);
        lemma_format_cons(t3, "size", z, r4);
        let t4 = replaced(t3, placeholder("size"@), z@);
        lemma_format_cons(t4, "dimensions", x, seq![("caption", c)]);
        let t5 = replaced(t4, placeholder("dimensions"@), x@);
        lemma_format_one(t5, "caption", c);
    }
    html
}

// ---------------------------------------------------------------------------
// Redacted messages.
// ---------------------------------------------------------------------------

/// What a redacted message shows, and whether that is final: a generic
/// notice when the redaction is not known; when the sender redacted it,
/// a notice with the reason, if any; when someone else did, a notice naming
/// them (by display name, else user ID), with the reason, if any, which is
/// final only once their name is known.
pub open spec fn redacted_html_text(
    translations: Translations,
    language: AppLanguage,
    redaction: Option<(Seq<char>, Option<Seq<char>>)>,
    sender: Seq<char>,
    redactor_name: Option<Seq<char>>,
) -> (Seq<char>, bool) {
    match redaction {
        None => (translated(translations, language, "room_screen.redacted.generic"@), true),
        Some((redactor, reason)) => if redactor == sender {
            (
                match reason {
                    Some(r) => replaced(
                        translated(translations, language, "room_screen.redacted.self_with_reason"@),
                        placeholder("reason"@),
                        html_text_escaped(r),
                    ),
                    None => translated(translations, language, "room_screen.redacted.self"@),
                },
                true,
            )
        } else {
            let name = html_text_escaped(match redactor_name {
                Some(n) => n,
                None => redactor,
            });
            (
                match reason {
                    Some(r) => replaced(
                        replaced(
                            translated(translations, language, "room_screen.redacted.other_with_reason"@),
                            placeholder("redactor"@),
                            name,
                        ),
                        placeholder("reason"@),
                        html_text_escaped(r),
                    ),
                    None => replaced(
                        translated(translations, language, "room_screen.redacted.other"@),
                        placeholder("redactor"@),
                        name,
                    ),
                },
                redactor_name is Some,
            )
        },
    }
}

/// The HTML of a redacted message sent by `sender`, and whether it is fully
/// drawn.  `redaction` holds who redacted it and why, when known;
/// `redactor_name` the redactor's display name, when known.
pub fn redacted_message_html(
    translations: &Translations,
    language: AppLanguage,
    redaction: Option<(&str, Option<&str>)>,
    sender: &str,
    redactor_name: Option<&str>,
) -> (result: (String, bool))
    requires
        translations.wf(),
    ensures
        (result.0@, result.1) == redacted_html_text(*translations, language, match redaction {
            Some((r, why)) => Some((r@, opt_view(why))),
            None => None,
        }, sender@, opt_view(redactor_name)),
{
    match redaction {
        None => (tr_key(translations, language, "room_screen.redacted.generic").to_owned(), true),
        Some((redactor, reason)) => {
            if str_eq(redactor, sender) {
                let text = match reason {
                    Some(r) => {
                        let escaped = escape_text(r);
                        let why = escaped.as_str();
                        let vars = [("reason", why)];
                        let text = tr_fmt(translations, language, "room_screen.redacted.self_with_reason", &vars);
                        proof {
                            assert(vars@ =~= seq![("reason", why)]);
                            lemma_format_one(
                                translated(*translations, language, "room_screen.redacted.self_with_reason"@),
                                "reason",
                                why,
                            );
                        }
                        text
                    },
                    None => tr_key(translations, language, "room_screen.redacted.self").to_owned(),
                };
                (text, true)
            } else {
                let shown = match redactor_name {
                    Some(n) => n,
                    None => redactor,
                };
                let escaped_name = escape_text(shown);
                let name = escaped_name.as_str();
                let text = match reason {
                    Some(r) => {
                        let escaped = escape_text(r);
                        let why = escaped.as_str();
                        let vars = [("redactor", name), ("reason", why)];
                        let text = tr_fmt(translations, language, "room_screen.redacted.other_with_reason", &vars);
                        proof {
                            let t0 = translated(*translations, language, "room_screen.redacted.other_with_reason"@);
                            assert(vars@ =~= seq![("redactor", name)] + seq![("reason", why)]);
                            lemma_format_cons(t0, "redactor", name, seq![("reason", why)]);
                            lemma_format_one(replaced(t0, placeholder("redactor"@), name@), "reason", why);
                        }
                        text
                    },
                    None => {
                        let vars = [("redactor", name)];
                        let text = tr_fmt(translations, language, "room_screen.redacted.other", &vars);
                        proof {
                            assert(vars@ =~= seq![("redactor", name)]);
                            lemma_format_one(
                                translated(*translations, language, "room_screen.redacted.other"@),
                                "redactor",
                                name,
                            );
                        }
                        text
                    },
                };
                (text, redactor_name.is_some())
            }
        },
    }
}

// ---------------------------------------------------------------------------
// Images.
// ---------------------------------------------------------------------------

/// How an image message is shown.
#[derive(Debug)]
pub enum ImageDisplay {
    /// In the animated-image widget.
    Animated,
    /// As this text, in place of the image; the content then counts as drawn.
    Text(String),
    /// Fetched through the media cache: the thumbnail if there is one, else
    /// the original.
    Fetch,
}

/// The text shown in place of an animated image when the item has no
/// animated-image widget.
pub open spec fn animated_fallback_text(body: Seq<char>) -> Seq<char> {
    body + "\n\nAnimated image messages require the animated image widget."@
}

/// How an image message with body `body` is shown.  `has_info` says whether
/// the message describes the image, `mime` is its declared MIME type,
/// `is_animated` whether the type (or else the file name) is that of an
/// animated image, and `mime_supported` whether a static image of that type
/// can be decoded.  Animated images go to the animated-image widget if the
/// item has one; a type that cannot be decoded, or a missing description,
/// is explained in text.
pub fn image_display(
    translations: &Translations,
    language: AppLanguage,
    body: &str,
    has_info: bool,
    mime: Option<&str>,
    is_animated: bool,
    has_animated_widget: bool,
    mime_supported: bool,
) -> (display: ImageDisplay)
    requires
        translations.wf(),
    ensures
        match display {
            ImageDisplay::Animated => is_animated && has_animated_widget,
            ImageDisplay::Text(t) => if is_animated {
                !has_animated_widget && t@ == animated_fallback_text(body@)
            } else if mime is Some && !mime_supported {
                t@ == replaced(
                    replaced(translated(*translations, language, "room_screen.image.unsupported_type"@),
                        placeholder("body"@), body@),
                    placeholder("mime"@),
                    mime->0@,
                )
            } else {
                !has_info && t@ == replaced(translated(*translations, language, "room_screen.image.no_source_url"@),
                    placeholder("body"@), body@)
            },
            ImageDisplay::Fetch => !is_animated && !(mime is Some && !mime_supported) && has_info,
        },
{
    if is_animated {
        if has_animated_widget {
            return ImageDisplay::Animated;
        }
        let mut text = String::new();
        string_push_str(&mut text, body);
        string_push_str(&mut text, "\n\nAnimated image messages require the animated image widget.");
        assert(text@ =~= animated_fallback_text(body@));
        return ImageDisplay::Text(text);
    }
    if let Some(m) = mime {
        if !mime_supported {
            let vars = [("body", body), ("mime", m)];
            let text = tr_fmt(translations, language, "room_screen.image.unsupported_type", &vars);
            proof {
                let t0 = translated(*translations, language, "room_screen.image.unsupported_type"@);
                assert(vars@ =~= seq![("body", body)] + seq![("mime", m)]);
                lemma_format_cons(t0, "body", body, seq![("mime", m)]);
                lemma_format_one(replaced(t0, placeholder("body"@), body@), "mime", m);
            }
            return ImageDisplay::Text(text);
        }
    }
    if !has_info {
        let vars = [("body", body)];
        let text = tr_fmt(translations, language, "room_screen.image.no_source_url", &vars);
        proof {
            assert(vars@ =~= seq![("body", body)]);
            lemma_format_one(translated(*translations, language, "room_screen.image.no_source_url"@), "body", body);
        }
        return ImageDisplay::Text(text);
    }
    ImageDisplay::Fetch
}

/// Where a fetched image stands in the media cache.
#[derive(Clone, Copy, Debug, PartialEq, Eq, Structural)]
pub enum MediaFetchState {
    Loaded,
    Requested,
    Failed,
}

/// Whether a fetched image counts as drawn: once loaded, or once failed
/// (retrying is then up to the user); not while it is still requested.
pub fn image_fetch_drawn(state: MediaFetchState) -> (drawn: bool)
    ensures
        drawn == (state != MediaFetchState::Requested),
{
    match state {
        MediaFetchState::Requested => false,
        _ => true,
    }
}

/// The text shown when an image could not be fetched: its body and the
/// HTTP status.
pub fn image_fetch_failed_text(translations: &Translations, language: AppLanguage, body: &str, status: &str) -> (text: String)
    requires
        translations.wf(),
    ensures
        text@ == replaced(
            replaced(translated(*translations, language, "room_screen.image.failed_to_fetch"@), placeholder("body"@), body@),
            placeholder("status"@),
            status@,
        ),
{
    let vars = [("body", body), ("status", status)];
    let text = tr_fmt(translations, language, "room_screen.image.failed_to_fetch", &vars);
    proof {
        let t0 = translated(*translations, language, "room_screen.image.failed_to_fetch"@);
        assert(vars@ =~= seq![("body", body)] + seq![("status", status)]);
        lemma_format_cons(t0, "body", body, seq![("status", status)]);
        lemma_format_one(replaced(t0, placeholder("body"@), body@), "status", status);
    }
    text
}

// ---------------------------------------------------------------------------
// Previews.
// ---------------------------------------------------------------------------

/// What the preview of a timeline item shows.
#[derive(Debug, PartialEq, Eq)]
pub enum PreviewContent {
    Html(String),
    Plaintext(String),
}

/// The preview of a timeline item (as shown above a reply, for instance).
/// A text or notice message previews its own body: its HTML body when it is
/// formatted as HTML, else its plain text.  Any other item shows
/// `other_preview_html`, the generic preview of its content with its
/// sender's name.  The bodies come as the timeline's text rendering has
/// prepared them (leading HTML white space trimmed and URLs made links);
/// that preparation is done by the caller and is not stated here.
pub fn populate_preview_of_timeline_item(
    kind: MessageKind,
    body: &str,
    html_body: Option<&str>,
    other_preview_html: &str,
) -> (preview: PreviewContent)
    ensures
        match preview {
            PreviewContent::Html(t) => match kind {
                MessageKind::Text | MessageKind::Notice => html_body matches Some(h) && t@ == h@,
                _ => t@ == other_preview_html@,
            },
            PreviewContent::Plaintext(t) => (kind == MessageKind::Text || kind == MessageKind::Notice)
                && html_body is None && t@ == body@,
        },
{
    match kind {
        MessageKind::Text | MessageKind::Notice => match html_body {
            Some(h) => PreviewContent::Html(h.to_owned()),
            None => PreviewContent::Plaintext(body.to_owned()),
        },
        _ => PreviewContent::Html(other_preview_html.to_owned()),
    }
}

} // verus!
