//! The state behind the Home screen: the greeting, personalized once the
//! user's display name is known, and the snapshot of recent rooms with the
//! status line shown while it is loading or empty.

use vstd::prelude::*;
use crate::i18n::{lemma_format_one, tr_fmt, tr_key, translated, AppLanguage, Translations};
use crate::rooms::RoomNameId;
use crate::text::{replaced, str_eq};

verus! {

/// The number of rows of the "Recent conversations" section.
pub const MAX_RECENT_ROOMS: usize = 5;

/// The avatar of a recent room: its initial letters, or the image bytes.
#[derive(Clone, Debug)]
pub enum RecentRoomAvatar {
    Text(String),
    Image(Vec<u8>),
}

/// One row of the "Recent conversations" section.
#[derive(Clone, Debug)]
pub struct RecentRoomInfo {
    pub room_name_id: RoomNameId,
    /// The timestamp (in milliseconds) and HTML text of the latest message.
    pub latest: Option<(u64, String)>,
    pub is_marked_unread: bool,
    pub num_unread_mentions: u64,
    pub num_unread_messages: u64,
    pub room_avatar: RecentRoomAvatar,
}

/// A recent room's avatar as plain values.
pub enum RecentRoomAvatarView {
    Text(Seq<char>),
    Image(Seq<u8>),
}

/// A recent room as plain values.
pub struct RecentRoomView {
    pub display_name: Seq<char>,
    pub room_id: Seq<char>,
    pub latest: Option<(u64, Seq<char>)>,
    pub is_marked_unread: bool,
    pub num_unread_mentions: u64,
    pub num_unread_messages: u64,
    pub room_avatar: RecentRoomAvatarView,
}

impl View for RecentRoomAvatar {
    type V = RecentRoomAvatarView;

    open spec fn view(&self) -> RecentRoomAvatarView {
        match self {
            RecentRoomAvatar::Text(t) => RecentRoomAvatarView::Text(t@),
            RecentRoomAvatar::Image(bytes) => RecentRoomAvatarView::Image(bytes@),
        }
    }
}

impl View for RecentRoomInfo {
    type V = RecentRoomView;

    open spec fn view(&self) -> RecentRoomView {
        RecentRoomView {
            display_name: self.room_name_id.display_name@,
            room_id: self.room_name_id.room_id@,
            latest: match self.latest {
                Some((ts, html)) => Some((ts, html@)),
                None => None,
            },
            is_marked_unread: self.is_marked_unread,
            num_unread_mentions: self.num_unread_mentions,
            num_unread_messages: self.num_unread_messages,
            room_avatar: self.room_avatar@,
        }
    }
}

/// The recent rooms of a snapshot as plain values.
pub open spec fn recents_view(rooms: Seq<RecentRoomInfo>) -> Seq<RecentRoomView> {
    rooms.map_values(|r: RecentRoomInfo| r@)
}

fn same_bytes(a: &Vec<u8>, b: &Vec<u8>) -> (same: bool)
    ensures
        same == (a@ == b@),
{
    if a.len() != b.len() {
        return false;
    }
    let mut i: usize = 0;
    while i < a.len()
        invariant
            0 <= i <= a@.len(),
            a@.len() == b@.len(),
            forall|k: int| 0 <= k < i ==> a@[k] == b@[k],
        decreases a@.len() - i,
    {
        if a[i] != b[i] {
            return false;
        }
        i += 1;
    }
    assert(a@ =~= b@);
    true
}

fn same_recent_room(a: &RecentRoomInfo, b: &RecentRoomInfo) -> (same: bool)
    ensures
        same == (a@ == b@),
{
    if !str_eq(a.room_name_id.display_name.as_str(), b.room_name_id.display_name.as_str())
        || !str_eq(a.room_name_id.room_id.as_str(), b.room_name_id.room_id.as_str())
        || a.is_marked_unread != b.is_marked_unread
        || a.num_unread_mentions != b.num_unread_mentions
        || a.num_unread_messages != b.num_unread_messages
    {
        return false;
    }
    let same_latest = match (&a.latest, &b.latest) {
        (Some((ta, ha)), Some((tb, hb))) => *ta == *tb && str_eq(ha.as_str(), hb.as_str()),
        (None, None) => true,
        _ => false,
    };
    if !same_latest {
        return false;
    }
    match (&a.room_avatar, &b.room_avatar) {
        (RecentRoomAvatar::Text(x), RecentRoomAvatar::Text(y)) => str_eq(x.as_str(), y.as_str()),
        (RecentRoomAvatar::Image(x), RecentRoomAvatar::Image(y)) => same_bytes(x, y),
        _ => false,
    }
}

/// Whether two snapshots of recent rooms hold the same rooms, in the same
/// order, with the same latest messages, counts and avatars.
pub fn same_recent_rooms(a: &Vec<RecentRoomInfo>, b: &Vec<RecentRoomInfo>) -> (same: bool)
    ensures
        same == (recents_view(a@) == recents_view(b@)),
{
    if a.len() != b.len() {
        proof {
            assert(recents_view(a@).len() != recents_view(b@).len());
        }
        return false;
    }
    let mut i: usize = 0;
    while i < a.len()
        invariant
            0 <= i <= a@.len(),
            a@.len() == b@.len(),
            forall|k: int| 0 <= k < i ==> a@[k]@ == b@[k]@,
        decreases a@.len() - i,
    {
        if !same_recent_room(&a[i], &b[i]) {
            proof {
                assert(recents_view(a@)[i as int] != recents_view(b@)[i as int]);
            }
            return false;
        }
        i += 1;
    }
    assert(recents_view(a@) =~= recents_view(b@));
    true
}

/// The Home screen's state as plain values.
pub struct WelcomeView {
    pub app_language: AppLanguage,
    pub app_language_initialized: bool,
    pub greeting_name: Option<Seq<char>>,
    pub recent_rooms: Seq<RecentRoomView>,
    pub all_rooms_loaded: bool,
    pub populated_once: bool,
}

/// What a refresh with the snapshot `recents` (and whether all rooms had
/// loaded) makes of the state, and whether the rows must be filled again:
/// nothing changes when the rows were filled before from an equal snapshot.
pub open spec fn refreshed(state: WelcomeView, recents: Seq<RecentRoomView>, all_loaded: bool) -> (WelcomeView, bool) {
    if state.populated_once && recents == state.recent_rooms && all_loaded == state.all_rooms_loaded {
        (state, false)
    } else {
        (WelcomeView { recent_rooms: recents, all_rooms_loaded: all_loaded, populated_once: true, ..state }, true)
    }
}

/// The state of the Home screen.
pub struct WelcomeState {
    pub app_language: AppLanguage,
    pub app_language_initialized: bool,
    /// The current user's display name, once known, used in the greeting.
    pub greeting_name: Option<String>,
    /// The most recently displayed snapshot of recent rooms.
    pub recent_rooms: Vec<RecentRoomInfo>,
    /// Whether the rooms list had finished loading all rooms as of the last refresh.
    pub all_rooms_loaded: bool,
    /// Whether the recent-rooms section was filled at least once.
    pub populated_once: bool,
}

impl View for WelcomeState {
    type V = WelcomeView;

    open spec fn view(&self) -> WelcomeView {
        WelcomeView {
            app_language: self.app_language,
            app_language_initialized: self.app_language_initialized,
            greeting_name: match self.greeting_name {
                Some(n) => Some(n@),
                None => None,
            },
            recent_rooms: recents_view(self.recent_rooms@),
            all_rooms_loaded: self.all_rooms_loaded,
            populated_once: self.populated_once,
        }
    }
}

impl WelcomeState {
    /// A Home screen that has shown nothing yet.
    pub fn new() -> (state: Self)
        ensures
            state@ == (WelcomeView {
                app_language: AppLanguage::English,
                app_language_initialized: false,
                greeting_name: None,
                recent_rooms: Seq::empty(),
                all_rooms_loaded: false,
                populated_once: false,
            }),
    {
        let state = WelcomeState {
            app_language: AppLanguage::English,
            app_language_initialized: false,
            greeting_name: None,
            recent_rooms: Vec::new(),
            all_rooms_loaded: false,
            populated_once: false,
        };
        assert(recents_view(state.recent_rooms@) =~= Seq::empty());
        state
    }

    /// Whether the texts must be set (again) for the app's language.
    pub fn language_needs_update(&self, app_language: AppLanguage) -> (update: bool)
        ensures
            update == (!self.app_language_initialized || self.app_language != app_language),
    {
        !self.app_language_initialized || self.app_language != app_language
    }

    /// Takes the app's language for the texts of the screen.
    pub fn set_app_language(&mut self, app_language: AppLanguage)
        ensures
            final(self)@ == (WelcomeView {
                app_language,
                app_language_initialized: true,
                ..old(self)@
            }),
    {
        self.app_language = app_language;
        self.app_language_initialized = true;
    }

    /// The greeting: personalized with the user's name once it is known,
    /// else the generic welcome title.
    pub fn greeting_text(&self, translations: &Translations) -> (text: String)
        requires
            translations.wf(),
        ensures
            text@ == match self.greeting_name {
                Some(name) => replaced(
                    translated(*translations, self.app_language, "home.greeting"@),
                    "{name}"@,
                    name@,
                ),
                None => translated(*translations, self.app_language, "welcome_screen.title"@),
            },
    {
        match &self.greeting_name {
            Some(name) => {
                let placeholder = "name";
                let value = name.as_str();
                let vars = [(placeholder, value)];
                let text = tr_fmt(translations, self.app_language, "home.greeting", &vars);
                proof {
                    assert(vars@ =~= seq![(placeholder, value)]);
                    lemma_format_one(
                        translated(*translations, self.app_language, "home.greeting"@),
                        placeholder,
                        value,
                    );
                    reveal_strlit("name");
                    reveal_strlit("{name}");
                    assert(seq!['{'] + placeholder@ + seq!['}'] =~= "{name}"@);
                }
                text
            },
            None => tr_key(translations, self.app_language, "welcome_screen.title").to_owned(),
        }
    }

    /// Takes the user's display name, if the greeting has none yet and the
    /// profile is known; says whether the greeting changed.
    pub fn set_greeting_name(&mut self, profile_name: Option<String>) -> (changed: bool)
        ensures
            changed == (old(self).greeting_name is None && profile_name is Some),
            final(self)@ == if changed {
                WelcomeView { greeting_name: Some(profile_name->0@), ..old(self)@ }
            } else {
                old(self)@
            },
    {
        if self.greeting_name.is_none() {
            if let Some(name) = profile_name {
                self.greeting_name = Some(name);
                return true;
            }
        }
        false
    }

    /// Whether an event makes the screen fetch its dynamic content again:
    /// a background update signal, or a screen never filled yet.
    pub fn should_refresh(&self, is_signal: bool) -> (refresh: bool)
        ensures
            refresh == (is_signal || !self.populated_once),
    {
        is_signal || !self.populated_once
    }

    /// Takes a new snapshot of recent rooms; says whether the rows must be
    /// filled again.
    pub fn refresh_recent_rooms(&mut self, recents: Vec<RecentRoomInfo>, all_loaded: bool) -> (repopulate: bool)
        ensures
            (final(self)@, repopulate) == refreshed(old(self)@, recents_view(recents@), all_loaded),
    {
        if self.populated_once
            && same_recent_rooms(&recents, &self.recent_rooms)
            && all_loaded == self.all_rooms_loaded
        {
            return false;
        }
        self.recent_rooms = recents;
        self.all_rooms_loaded = all_loaded;
        self.populated_once = true;
        true
    }

    /// Forgets everything of the account: on logout or an account switch.
    pub fn clear(&mut self)
        ensures
            final(self)@ == (WelcomeView {
                greeting_name: None,
                recent_rooms: Seq::empty(),
                all_rooms_loaded: false,
                populated_once: false,
                ..old(self)@
            }),
    {
        self.greeting_name = None;
        self.recent_rooms.clear();
        self.all_rooms_loaded = false;
        self.populated_once = false;
        assert(recents_view(self.recent_rooms@) =~= Seq::empty());
    }

    /// The translation key of the status line, shown while there is no
    /// recent room: empty once all rooms loaded, else still loading.
    pub fn recent_status_key(&self) -> (key: Option<&'static str>)
        ensures
            match key {
                Some(k) => self.recent_rooms@.len() == 0 && k@ == if self.all_rooms_loaded {
                    "home.recent.empty"@
                } else {
                    "home.recent.loading"@
                },
                None => self.recent_rooms@.len() > 0,
            },
    {
        if self.recent_rooms.len() > 0 {
            None
        } else if self.all_rooms_loaded {
            Some("home.recent.empty")
        } else {
            Some("home.recent.loading")
        }
    }

    /// Whether row `index` of the section shows a room.
    pub fn row_shown(&self, index: usize) -> (shown: bool)
        ensures
            shown == (index < MAX_RECENT_ROOMS && index < self.recent_rooms@.len()),
    {
        index < MAX_RECENT_ROOMS && index < self.recent_rooms.len()
    }

    /// Whether the divider below row `index` is shown: only between two
    /// shown rows.
    pub fn divider_shown(&self, index: usize) -> (shown: bool)
        ensures
            shown == (index + 1 < MAX_RECENT_ROOMS && index + 1 < self.recent_rooms@.len()),
    {
        index < MAX_RECENT_ROOMS - 1 && index + 1 < self.recent_rooms.len()
    }

    /// The room to open when row `index` is tapped, if the row shows one.
    pub fn tapped_room(&self, index: usize) -> (room: Option<RoomNameId>)
        ensures
            match room {
                Some(r) => index < MAX_RECENT_ROOMS && index < self.recent_rooms@.len()
                    && r == self.recent_rooms@[index as int].room_name_id,
                None => !(index < MAX_RECENT_ROOMS && index < self.recent_rooms@.len()),
            },
    {
        if index < MAX_RECENT_ROOMS && index < self.recent_rooms.len() {
            Some(self.recent_rooms[index].room_name_id.duplicate())
        } else {
            None
        }
    }
}

/// A refresh with the snapshot just taken changes nothing and asks for no
/// new rows: the rows are filled again only when the rooms or their
/// loading state changed.
pub proof fn lemma_refresh_idempotent(state: WelcomeView, recents: Seq<RecentRoomView>, all_loaded: bool)
    ensures
        ({
            let (once, _) = refreshed(state, recents, all_loaded);
            refreshed(once, recents, all_loaded) == (once, false)
        }),
{
}

} // verus!
