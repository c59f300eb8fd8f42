//! The room info pane: what it shows of a room and its members, the state
//! of its pages (info or people), the optimistic favourite toggle, and who
//! a direct message is with.

use vstd::prelude::*;
use crate::rooms_list::{room_shows_agent_badge, row_shows_badge, AgentBadgeContext};
use crate::text::{chars_vec, decimal, decimal_string, string_from_range, string_push, string_push_str};
use crate::threads_pane::PaneVisibility;

verus! {

broadcast use vstd::seq::group_seq_axioms, vstd::seq_lib::group_seq_properties;

/// How many more members the people page lists each time it is scrolled
/// near its end (and how many it lists at first).
pub const PEOPLE_PAGE_STEP: usize = 40;

/// Whether a room-wide modal opened from the room info pane (reporting the
/// room, confirming leaving it) is open over the pane.
#[derive(Debug)]
pub struct ActionModalFlag {
    pub open: bool,
}

/// Records whether such a modal is open, so the pane does not close itself
/// on Escape or a tap outside while one is open over it.
pub fn set_room_info_action_modal_open(flag: &mut ActionModalFlag, open: bool)
    ensures
        final(flag).open == open,
{
    flag.open = open;
}

/// Whether such a modal is open.
pub fn is_room_info_action_modal_open(flag: &ActionModalFlag) -> (open: bool)
    ensures
        open == flag.open,
{
    flag.open
}

/// What the info button asks for.
#[derive(Clone, Debug)]
pub enum InfoButtonAction {
    OpenRequested,
    /// Nothing for the room screen.
    NoAction,
}

/// The info button, which asks to open the pane when clicked.
#[derive(Debug)]
pub struct InfoButton {}

impl InfoButton {
    /// What a click on the button asks for.
    pub fn on_click(&self) -> (action: InfoButtonAction)
        ensures
            action is OpenRequested,
    {
        InfoButtonAction::OpenRequested
    }
}

/// What the room info pane asks of the room screen.
#[derive(Clone, Debug)]
pub enum RoomInfoPaneAction {
    InviteUser,
    ShowPeoplePage,
    /// A person row was tapped (only rows emit this).
    PersonClicked(String),
    /// Open this person's profile (only the pane showing its people page
    /// emits this, after one of its own rows was tapped).
    OpenPeopleProfile(String),
    ReportRoom,
    LeaveRoom,
    /// Nothing for the room screen.
    NoAction,
}

/// One member as the people page lists it.
#[derive(Clone, Debug)]
pub struct RoomInfoPeopleEntryInfo {
    pub user_id: String,
    pub display_name: String,
    /// The member's role ("Admin", ...), empty for a plain member.
    pub level: String,
    pub is_bot: bool,
    pub avatar_uri: Option<String>,
    pub avatar_fallback_text: String,
}

/// A row of the people page, which remembers the member it shows.
#[derive(Debug)]
pub struct RoomInfoPeopleEntry {
    pub user_id: Option<String>,
    /// Whether the bot badge is shown.
    pub show_bot_badge: bool,
    /// Whether the role chip is shown.
    pub show_level_chip: bool,
}

impl RoomInfoPeopleEntry {
    /// An empty row.
    pub fn new() -> (row: Self)
        ensures
            row.user_id is None && !row.show_bot_badge && !row.show_level_chip,
    {
        RoomInfoPeopleEntry { user_id: None, show_bot_badge: false, show_level_chip: false }
    }

    /// Shows `entry` on this row: the bot badge for a bot, the role chip for
    /// a member with a role.
    pub fn set_entry(&mut self, entry: &RoomInfoPeopleEntryInfo)
        ensures
            final(self).user_id matches Some(u) && u@ == entry.user_id@,
            final(self).show_bot_badge == entry.is_bot,
            final(self).show_level_chip == (entry.level@.len() > 0),
    {
        self.user_id = Some(entry.user_id.clone());
        self.show_bot_badge = entry.is_bot;
        self.show_level_chip = !entry.level.as_str().is_empty();
    }

    /// What a tap on the row asks for: this person, if the row shows one.
    pub fn on_tap(&self) -> (action: RoomInfoPaneAction)
        ensures
            match self.user_id {
                Some(u) => action matches RoomInfoPaneAction::PersonClicked(p) && p@ == u@,
                None => action is NoAction,
            },
    {
        match &self.user_id {
            Some(u) => RoomInfoPaneAction::PersonClicked(u.clone()),
            None => RoomInfoPaneAction::NoAction,
        }
    }
}

/// Everything the room info pane shows of a room.
#[derive(Clone, Debug)]
pub struct RoomInfoPaneInfo {
    pub room_name: String,
    pub room_id: String,
    pub topic: String,
    /// "Public", "Private" or "Unknown".
    pub visibility: String,
    /// "Encrypted", "Unencrypted" or "Unknown".
    pub encryption: String,
    pub is_encrypted: bool,
    /// Whether the room carries the user's favourite tag.
    pub is_favorite: bool,
    /// Whether a bot or agent takes part in the room.
    pub is_agent_enabled: bool,
    /// Whether the bot pill follows the room's name.
    pub show_title_bot_pill: bool,
    pub member_count: usize,
    /// The user's role in the room, empty until the members are known.
    pub my_role: String,
    pub room_avatar_uri: Option<String>,
    pub room_avatar_fallback_text: String,
    /// The member rows, in display order.
    pub people_entries: Vec<RoomInfoPeopleEntryInfo>,
    pub people_count_text: String,
    pub show_people_loading: bool,
}

/// The members who are not the user (`me`), in order.
pub open spec fn others(user_ids: Seq<String>, me: Option<Seq<char>>) -> Seq<String>
    decreases user_ids.len(),
{
    if user_ids.len() == 0 {
        Seq::empty()
    } else {
        let rest = others(user_ids.drop_last(), me);
        if me == Some(user_ids.last()@) {
            rest
        } else {
            rest.push(user_ids.last())
        }
    }
}

/// The other party of a direct conversation among `user_ids`: the one member
/// that is not the user, when there is exactly one (counting repeats).
pub fn room_info_dm_target_from_user_ids(user_ids: &[String], my_user_id: Option<&String>) -> (target: Option<String>)
    ensures
        ({
            let me = match my_user_id {
                Some(m) => Some(m@),
                None => None,
            };
            let o = others(user_ids@, me);
            if o.len() == 1 {
                target matches Some(t) && t@ == o[0]@
            } else {
                target is None
            }
        }),
{
    let ghost me = match my_user_id {
        Some(m) => Some(m@),
        None => None,
    };
    let mut dm_target: Option<String> = None;
    let mut i: usize = 0;
    while i < user_ids.len()
        invariant
            me == match my_user_id {
                Some(m) => Some(m@),
                None => None::<Seq<char>>,
            },
            0 <= i <= user_ids@.len(),
            others(user_ids@.take(i as int), me).len() <= 1,
            match dm_target {
                Some(t) => others(user_ids@.take(i as int), me).len() == 1
                    && t@ == others(user_ids@.take(i as int), me)[0]@,
                None => others(user_ids@.take(i as int), me).len() == 0,
            },
        decreases user_ids@.len() - i,
    {
        let ghost pre = user_ids@.take(i as int);
        let ghost next = user_ids@.take(i + 1);
        proof {
            assert(next.drop_last() =~= pre);
            assert(next.last() == user_ids@[i as int]);
        }
        let is_me = match my_user_id {
            Some(m) => *m == user_ids[i],
            None => false,
        };
        if is_me {
            i += 1;
            continue;
        }
        if dm_target.is_some() {
            proof {
                lemma_others_grow(user_ids@, me, i as int + 1);
            }
            return None;
        }
        dm_target = Some(user_ids[i].clone());
        i += 1;
    }
    proof {
        assert(user_ids@.take(user_ids@.len() as int) =~= user_ids@);
    }
    dm_target
}

proof fn lemma_others_grow(user_ids: Seq<String>, me: Option<Seq<char>>, k: int)
    requires
        0 <= k <= user_ids.len(),
    ensures
        others(user_ids.take(k), me).len() <= others(user_ids, me).len(),
    decreases user_ids.len() - k,
{
    if k < user_ids.len() {
        lemma_others_grow(user_ids, me, k + 1);
        assert(user_ids.take(k + 1).drop_last() =~= user_ids.take(k));
    } else {
        assert(user_ids.take(k) =~= user_ids);
    }
}

/// Whether the room info pane's title shows the bot pill: as a rooms-list
/// row would, or when a member is a registered agent.  Without app state
/// it never does.
pub open spec fn title_shows_badge(
    context: Option<AgentBadgeContext>,
    room_id: Seq<char>,
    dm_target: Option<Seq<char>>,
    members: Seq<Seq<char>>,
) -> bool {
    match context {
        None => false,
        Some(c) => row_shows_badge(c, room_id, dm_target)
            || exists|i: int| 0 <= i < members.len() && c.agents().contains(#[trigger] members[i]),
    }
}

/// Whether the room info pane's title shows the bot pill: as a rooms-list
/// row would, or when a member is a registered agent.  Without app state
/// it never does.
pub fn room_info_title_shows_agent_badge(
    context: Option<&AgentBadgeContext>,
    room_id: &String,
    dm_target: Option<&String>,
    member_user_ids: &[String],
) -> (shown: bool)
    ensures
        shown == title_shows_badge(
            match context {
                Some(c) => Some(*c),
                None => None,
            },
            room_id@,
            match dm_target {
                Some(u) => Some(u@),
                None => None,
            },
            member_user_ids@.map_values(|m: String| m@),
        ),
{
    let ctx = match context {
        Some(c) => c,
        None => return false,
    };
    if room_shows_agent_badge(ctx, room_id, dm_target) {
        return true;
    }
    let mut i: usize = 0;
    while i < member_user_ids.len()
        invariant
            context == Some(ctx),
            !(ctx.bound_rooms().contains(room_id@) || (dm_target matches Some(u) && ctx.agents().contains(u@))),
            0 <= i <= member_user_ids@.len(),
            forall|k: int| 0 <= k < i ==> !ctx.agents().contains(#[trigger] member_user_ids@[k]@),
        decreases member_user_ids@.len() - i,
    {
        if ctx.is_registered_agent(&member_user_ids[i]) {
            assert(ctx.agents().contains(member_user_ids@.map_values(|m: String| m@)[i as int]));
            return true;
        }
        i += 1;
    }
    proof {
        let members = member_user_ids@.map_values(|m: String| m@);
        assert forall|k: int| 0 <= k < members.len() implies !ctx.agents().contains(#[trigger] members[k]) by {
            assert(members[k] == member_user_ids@[k]@);
        }
    }
    false
}

/// The pane's title pill and the room's row in the rooms list agree:
/// whenever the row shows the pill, so does the title, and they differ only
/// where a member of the room is a registered agent.
pub proof fn lemma_title_pill_agrees_with_row(
    context: AgentBadgeContext,
    room_id: Seq<char>,
    dm_target: Option<Seq<char>>,
    members: Seq<Seq<char>>,
)
    ensures
        row_shows_badge(context, room_id, dm_target) ==> title_shows_badge(Some(context), room_id, dm_target, members),
        (forall|i: int| 0 <= i < members.len() ==> !context.agents().contains(#[trigger] members[i]))
            ==> title_shows_badge(Some(context), room_id, dm_target, members) == row_shows_badge(context, room_id, dm_target),
{
}

/// The topic as the about card shows it: cut after `preview_chars`
/// characters (with "...") while collapsed and longer than that.
pub open spec fn topic_display(topic: Seq<char>, preview_chars: nat, expanded: bool) -> Seq<char> {
    if topic.len() > preview_chars && !expanded {
        topic.take(preview_chars as int) + "..."@
    } else {
        topic
    }
}

/// What the pane draws for its current state.
#[derive(Debug)]
pub struct RoomInfoDrawPlan {
    /// The back button (shown on the people page).
    pub back_button_visible: bool,
    /// The header title: "Info", or nothing on the people page.
    pub header_title: String,
    /// The topic as shown.
    pub topic_text: String,
    /// Whether the topic can be expanded or collapsed.
    pub topic_toggle_visible: bool,
    /// "Collapse" when expanded, else "Expand".
    pub topic_toggle_text: String,
    /// "N members".
    pub members_meta_text: String,
    /// "N".
    pub members_count_text: String,
    /// How many member avatars the members card stacks (at most three).
    pub stack_shown: usize,
    /// How many members the stack leaves out, and its "+N" chip text.
    pub stack_more: usize,
    pub stack_more_text: String,
    /// Whether the user's role chip shows.
    pub my_role_visible: bool,
    /// How many member rows the people list holds.
    pub visible_people_count: usize,
    /// Whether the "no members" text shows.
    pub people_empty_visible: bool,
    /// Whether the member list shows.
    pub members_list_visible: bool,
}

/// The state of the room info pane.
#[derive(Debug)]
pub struct RoomInfoSlidingPane {
    pub visibility: PaneVisibility,
    /// Whether the pane is docked in place (a tab of the room) rather than
    /// sliding over it: then it never closes itself.
    pub inline: bool,
    pub info: Option<RoomInfoPaneInfo>,
    pub show_people_page: bool,
    pub topic_expanded: bool,
    /// How many member rows the people page lists.
    pub people_display_count: usize,
    /// The favourite value the user just set for a room, kept until the
    /// room reports it too.
    pub pending_favorite: Option<(String, bool)>,
}

impl RoomInfoSlidingPane {
    /// A hidden pane with nothing to show.
    pub fn new() -> (pane: Self)
        ensures
            !pane.visibility.visible && !pane.visibility.is_animating_out,
            !pane.inline,
            pane.info is None,
            !pane.show_people_page && !pane.topic_expanded,
            pane.people_display_count == 0,
            pane.pending_favorite is None,
    {
        RoomInfoSlidingPane {
            visibility: PaneVisibility::new(),
            inline: false,
            info: None,
            show_people_page: false,
            topic_expanded: false,
            people_display_count: 0,
            pending_favorite: None,
        }
    }

    /// Whether the pane is shown.
    pub fn is_currently_shown(&self) -> (shown: bool)
        ensures
            shown == self.visibility.visible,
    {
        self.visibility.is_currently_shown()
    }

    /// Docks the pane in place (or makes it slide over the room again).
    pub fn set_inline(&mut self, inline: bool)
        ensures
            final(self).inline == inline,
            final(self).visibility == old(self).visibility,
            final(self).info == old(self).info,
            final(self).show_people_page == old(self).show_people_page,
            final(self).topic_expanded == old(self).topic_expanded,
            final(self).people_display_count == old(self).people_display_count,
            final(self).pending_favorite == old(self).pending_favorite,
    {
        self.inline = inline;
    }

    /// Shows the pane on its info page, with the topic collapsed.
    pub fn show(&mut self)
        ensures
            final(self).visibility.visible && !final(self).visibility.is_animating_out,
            !final(self).show_people_page && !final(self).topic_expanded,
            final(self).people_display_count == 0,
            final(self).info == old(self).info,
            final(self).inline == old(self).inline,
            final(self).pending_favorite == old(self).pending_favorite,
    {
        self.visibility.show();
        self.show_people_page = false;
        self.topic_expanded = false;
        self.people_display_count = 0;
    }

    /// Slides the pane out, when shown.
    pub fn hide_pane(&mut self)
        ensures
            old(self).visibility.visible ==> final(self).visibility.visible && final(self).visibility.is_animating_out,
            !old(self).visibility.visible ==> final(self).visibility == old(self).visibility,
            final(self).info == old(self).info,
            final(self).inline == old(self).inline,
            final(self).show_people_page == old(self).show_people_page,
            final(self).topic_expanded == old(self).topic_expanded,
            final(self).people_display_count == old(self).people_display_count,
            final(self).pending_favorite == old(self).pending_favorite,
    {
        self.visibility.hide_pane();
    }

    /// Sets what the pane shows.  Another room brings back the info page
    /// (topic collapsed, no member paging) and drops a pending favourite; for
    /// the same room, a pending favourite wins over `info` until `info`
    /// agrees with it.  On the people page, the list keeps at least a first
    /// page of members, and never more rows than there are members.
    pub fn set_info(&mut self, info: RoomInfoPaneInfo)
        ensures
            ({
                let room_changed = old(self).info matches Some(cur) && cur.room_id@ != info.room_id@;
                let pending_same = old(self).pending_favorite matches Some(p) && p.0@ == info.room_id@;
                let n = info.people_entries@.len();
                let count0 = if room_changed { 0 } else { old(self).people_display_count as int };
                let first = if n < PEOPLE_PAGE_STEP { n as int } else { PEOPLE_PAGE_STEP as int };
                let pending_value = match old(self).pending_favorite {
                    Some(p) => p.1,
                    None => false,
                };
                &&& final(self).info matches Some(i) && i.room_id@ == info.room_id@
                    && i.is_favorite == if pending_same { pending_value } else { info.is_favorite }
                    && i.people_entries@ == info.people_entries@
                &&& final(self).pending_favorite == if pending_same && info.is_favorite != pending_value {
                    old(self).pending_favorite
                } else {
                    None
                }
                &&& final(self).show_people_page == (!room_changed && old(self).show_people_page)
                &&& final(self).topic_expanded == (!room_changed && old(self).topic_expanded)
                &&& final(self).people_display_count == if final(self).show_people_page {
                    (if count0 >= first { if count0 <= n { count0 } else { n as int } } else { first }) as usize
                } else {
                    count0 as usize
                }
                &&& final(self).visibility == old(self).visibility
                &&& final(self).inline == old(self).inline
            }),
    {
        let mut info = info;
        let room_changed = match &self.info {
            Some(current) => current.room_id != info.room_id,
            None => false,
        };
        if room_changed {
            self.show_people_page = false;
            self.people_display_count = 0;
            self.topic_expanded = false;
        }
        let pending = match &self.pending_favorite {
            Some((room, value)) => Some((room.clone(), *value)),
            None => None,
        };
        match pending {
            Some((pending_room, pending_value)) => {
                if pending_room == info.room_id {
                    if info.is_favorite == pending_value {
                        self.pending_favorite = None;
                    } else {
                        info.is_favorite = pending_value;
                    }
                } else {
                    self.pending_favorite = None;
                }
            },
            None => {},
        }
        let n = info.people_entries.len();
        self.info = Some(info);
        if self.show_people_page {
            let first = if n < PEOPLE_PAGE_STEP { n } else { PEOPLE_PAGE_STEP };
            let at_least = if self.people_display_count >= first { self.people_display_count } else { first };
            self.people_display_count = if at_least <= n { at_least } else { n };
        }
    }

    /// A tap on the favourite star: flips the shown value at once and keeps
    /// it pending; returns the room and the new value to write.  Nothing
    /// happens before the pane has info.
    pub fn toggle_favorite(&mut self) -> (request: Option<(String, bool)>)
        ensures
            match old(self).info {
                None => request is None && *final(self) == *old(self),
                Some(i) => {
                    &&& request matches Some(r) && r.0@ == i.room_id@ && r.1 == !i.is_favorite
                    &&& final(self).pending_favorite matches Some(p) && p.0@ == i.room_id@ && p.1 == !i.is_favorite
                    &&& final(self).info matches Some(f) && f.is_favorite == !i.is_favorite && f.room_id == i.room_id
                },
            },
    {
        let toggled = match &mut self.info {
            Some(info) => {
                let new_is_favorite = !info.is_favorite;
                info.is_favorite = new_is_favorite;
                Some((info.room_id.clone(), new_is_favorite))
            },
            None => None,
        };
        match toggled {
            Some((room_id, new_is_favorite)) => {
                self.pending_favorite = Some((room_id.clone(), new_is_favorite));
                Some((room_id, new_is_favorite))
            },
            None => None,
        }
    }

    /// A tap on the members card: opens the people page at its top with a
    /// first page of members.
    pub fn open_people_page(&mut self) -> (action: RoomInfoPaneAction)
        ensures
            action is ShowPeoplePage,
            final(self).show_people_page,
            final(self).people_display_count == match old(self).info {
                Some(i) => if i.people_entries@.len() < PEOPLE_PAGE_STEP { i.people_entries@.len() } else { PEOPLE_PAGE_STEP as nat },
                None => 0,
            },
            final(self).info == old(self).info,
    {
        self.show_people_page = true;
        self.people_display_count = match &self.info {
            Some(info) => if info.people_entries.len() < PEOPLE_PAGE_STEP { info.people_entries.len() } else { PEOPLE_PAGE_STEP },
            None => 0,
        };
        RoomInfoPaneAction::ShowPeoplePage
    }

    /// The back button: returns to the info page.
    pub fn close_people_page(&mut self)
        ensures
            !final(self).show_people_page,
            final(self).people_display_count == old(self).people_display_count,
            final(self).info == old(self).info,
    {
        self.show_people_page = false;
    }

    /// The topic's expand/collapse button.
    pub fn toggle_topic(&mut self)
        ensures
            final(self).topic_expanded == !old(self).topic_expanded,
            final(self).info == old(self).info,
    {
        self.topic_expanded = !self.topic_expanded;
    }

    /// A tap on a person row: only the pane showing its people page passes
    /// it on as a request to open that person's profile.
    pub fn on_person_clicked(&self, user_id: &String) -> (action: RoomInfoPaneAction)
        ensures
            self.show_people_page ==> (action matches RoomInfoPaneAction::OpenPeopleProfile(u) && u@ == user_id@),
            !self.show_people_page ==> action is NoAction,
    {
        if self.show_people_page {
            RoomInfoPaneAction::OpenPeopleProfile(user_id.clone())
        } else {
            RoomInfoPaneAction::NoAction
        }
    }

    /// The people list was scrolled so that rows up to
    /// `last_visible_row` show: near the end of what is listed, the next
    /// page of members is listed too.  Says whether the list grew.
    pub fn on_people_scrolled(&mut self, last_visible_row: usize) -> (grew: bool)
        ensures
            ({
                let n = match old(self).info {
                    Some(i) => i.people_entries@.len() as int,
                    None => 0,
                };
                let count = old(self).people_display_count as int;
                let threshold = if count >= 5 { count - 5 } else { 0 };
                let grows = old(self).show_people_page && old(self).info is Some && count < n
                    && last_visible_row >= threshold;
                &&& grew == grows
                &&& final(self).people_display_count == if grows {
                    (if count + PEOPLE_PAGE_STEP <= n { count + PEOPLE_PAGE_STEP } else { n }) as usize
                } else {
                    old(self).people_display_count
                }
                &&& final(self).info == old(self).info
                &&& final(self).show_people_page == old(self).show_people_page
            }),
    {
        if !self.show_people_page {
            return false;
        }
        let n = match &self.info {
            Some(info) => info.people_entries.len(),
            None => return false,
        };
        if self.people_display_count >= n {
            return false;
        }
        let threshold = if self.people_display_count >= 5 { self.people_display_count - 5 } else { 0 };
        if last_visible_row >= threshold {
            self.people_display_count = if n >= PEOPLE_PAGE_STEP && self.people_display_count <= n - PEOPLE_PAGE_STEP {
                self.people_display_count + PEOPLE_PAGE_STEP
            } else {
                n
            };
            true
        } else {
            false
        }
    }

    /// Whether the pane closes itself for an event: never when docked in
    /// place; only by its close button while a room-wide modal is open over
    /// it; otherwise by its close button, the back key or button, Escape, or
    /// a tap outside its content.
    pub fn close_requested(
        &self,
        modal_open: bool,
        close_clicked: bool,
        back_pressed: bool,
        escape_released: bool,
        tapped_outside: bool,
    ) -> (close: bool)
        ensures
            close == (!self.inline && (close_clicked
                || (!modal_open && (back_pressed || escape_released || tapped_outside)))),
    {
        if self.inline {
            return false;
        }
        if modal_open {
            close_clicked
        } else {
            close_clicked || back_pressed || escape_released || tapped_outside
        }
    }

    /// What the pane draws now, with the topic cut after `topic_preview_chars`
    /// characters while collapsed.  On the people page an empty list gets a
    /// first page of members.
    pub fn draw_plan(&mut self, topic_preview_chars: usize) -> (plan: Option<RoomInfoDrawPlan>)
        requires
            old(self).info matches Some(i) ==> i.people_entries@.len() < usize::MAX,
        ensures
            match old(self).info {
                None => plan is None && *final(self) == *old(self),
                Some(info) => plan matches Some(p) && {
                    let n = info.people_entries@.len();
                    let first = if n < PEOPLE_PAGE_STEP { n } else { PEOPLE_PAGE_STEP as nat };
                    let count = if old(self).show_people_page && old(self).people_display_count == 0 {
                        first
                    } else {
                        old(self).people_display_count as nat
                    };
                    let shown = if n < 3 { n } else { 3 };
                    &&& final(self).people_display_count == count
                    &&& final(self).info == old(self).info
                    &&& final(self).show_people_page == old(self).show_people_page
                    &&& p.back_button_visible == old(self).show_people_page
                    &&& p.header_title@ == if old(self).show_people_page { Seq::<char>::empty() } else { "Info"@ }
                    &&& p.topic_text@ == topic_display(info.topic@, topic_preview_chars as nat, old(self).topic_expanded)
                    &&& p.topic_toggle_visible == (info.topic@.len() > topic_preview_chars)
                    &&& p.topic_toggle_text@ == if old(self).topic_expanded { "Collapse"@ } else { "Expand"@ }
                    &&& p.members_meta_text@ == decimal(info.member_count as nat) + " members"@
                    &&& p.members_count_text@ == decimal(info.member_count as nat)
                    &&& p.stack_shown == shown
                    &&& p.stack_more == n - shown
                    &&& p.stack_more_text@ == seq!['+'] + decimal((n - shown) as nat)
                    &&& p.my_role_visible == (info.my_role@.len() > 0)
                    &&& p.visible_people_count == if count < n { count } else { n }
                    &&& p.people_empty_visible == (!info.show_people_loading && n == 0)
                    &&& p.members_list_visible == ((if count < n { count } else { n }) > 0)
                },
            },
    {
        let show_people_page = self.show_people_page;
        let topic_expanded = self.topic_expanded;
        let n = match &self.info {
            Some(info) => info.people_entries.len(),
            None => return None,
        };
        if show_people_page && self.people_display_count == 0 {
            self.people_display_count = if n < PEOPLE_PAGE_STEP { n } else { PEOPLE_PAGE_STEP };
        }
        let count = self.people_display_count;
        let info = match &self.info {
            Some(info) => info,
            None => return None,
        };
        let topic_chars = chars_vec(info.topic.as_str());
        let topic_has_more = topic_chars.len() > topic_preview_chars;
        let topic_text = if topic_has_more && !topic_expanded {
            let mut preview = string_from_range(&topic_chars, 0, topic_preview_chars);
            string_push_str(&mut preview, "...");
            preview
        } else {
            info.topic.clone()
        };
        let mut members_meta_text = decimal_string(info.member_count);
        string_push_str(&mut members_meta_text, " members");
        let stack_shown = if n < 3 { n } else { 3 };
        let stack_more = n - stack_shown;
        let mut stack_more_text = String::new();
        string_push(&mut stack_more_text, '+');
        string_push_str(&mut stack_more_text, decimal_string(stack_more).as_str());
        proof {
            assert(stack_more_text@ =~= seq!['+'] + decimal(stack_more as nat));
            assert(topic_chars@.subrange(0, topic_preview_chars as int) =~= info.topic@.take(topic_preview_chars as int));
        }
        let visible_people_count = if count < n { count } else { n };
        Some(RoomInfoDrawPlan {
            back_button_visible: show_people_page,
            header_title: if show_people_page { String::new() } else { "Info".to_string() },
            topic_text,
            topic_toggle_visible: topic_has_more,
            topic_toggle_text: if topic_expanded { "Collapse".to_string() } else { "Expand".to_string() },
            members_meta_text,
            members_count_text: decimal_string(info.member_count),
            stack_shown,
            stack_more,
            stack_more_text,
            my_role_visible: !info.my_role.as_str().is_empty(),
            visible_people_count,
            people_empty_visible: !info.show_people_loading && n == 0,
            members_list_visible: visible_people_count > 0,
        })
    }
}

/// A handle to a room info pane, which may hold none (then it does nothing).
#[derive(Debug)]
pub struct RoomInfoSlidingPaneRef {
    pub inner: Option<RoomInfoSlidingPane>,
}

impl RoomInfoSlidingPaneRef {
    /// Whether the pane exists and is shown.
    pub fn is_currently_shown(&self) -> (shown: bool)
        ensures
            shown == (self.inner matches Some(p) && p.visibility.visible),
    {
        match &self.inner {
            Some(p) => p.is_currently_shown(),
            None => false,
        }
    }

    /// Sets what the pane shows (see [`RoomInfoSlidingPane::set_info`]).
    pub fn set_info(&mut self, info: RoomInfoPaneInfo)
        ensures
            old(self).inner is None ==> final(self).inner is None,
            old(self).inner is Some ==> (final(self).inner matches Some(q) && (q.info matches Some(i) && i.room_id@ == info.room_id@)),
    {
        match &mut self.inner {
            Some(p) => p.set_info(info),
            None => {},
        }
    }

    /// Docks the pane in place, or makes it slide over the room.
    pub fn set_inline(&mut self, inline: bool)
        ensures
            match old(self).inner {
                Some(p) => final(self).inner matches Some(q) && q.inline == inline && q.info == p.info
                    && q.visibility == p.visibility,
                None => final(self).inner is None,
            },
    {
        match &mut self.inner {
            Some(p) => p.set_inline(inline),
            None => {},
        }
    }

    /// Shows the pane on its info page.
    pub fn show(&mut self)
        ensures
            match old(self).inner {
                Some(p) => final(self).inner matches Some(q) && q.visibility.visible && !q.visibility.is_animating_out
                    && !q.show_people_page && !q.topic_expanded && q.people_display_count == 0
                    && q.info == p.info && q.inline == p.inline && q.pending_favorite == p.pending_favorite,
                None => final(self).inner is None,
            },
    {
        match &mut self.inner {
            Some(p) => p.show(),
            None => {},
        }
    }

    /// Slides the pane out, when shown.
    pub fn hide_pane(&mut self)
        ensures
            match old(self).inner {
                Some(p) => final(self).inner matches Some(q) && q.info == p.info
                    && (p.visibility.visible ==> q.visibility.visible && q.visibility.is_animating_out)
                    && (!p.visibility.visible ==> q.visibility == p.visibility)
                    && q.inline == p.inline && q.show_people_page == p.show_people_page
                    && q.topic_expanded == p.topic_expanded && q.people_display_count == p.people_display_count
                    && q.pending_favorite == p.pending_favorite,
                None => final(self).inner is None,
            },
    {
        match &mut self.inner {
            Some(p) => p.hide_pane(),
            None => {},
        }
    }
}

/// A handle to a people row, which may hold none.
#[derive(Debug)]
pub struct RoomInfoPeopleEntryRef {
    pub inner: Option<RoomInfoPeopleEntry>,
}

impl RoomInfoPeopleEntryRef {
    /// Shows `entry` on the row, if there is one.
    pub fn set_entry(&mut self, entry: &RoomInfoPeopleEntryInfo)
        ensures
            match old(self).inner {
                Some(_) => final(self).inner matches Some(q) && (q.user_id matches Some(u) && u@ == entry.user_id@)
                    && q.show_bot_badge == entry.is_bot && q.show_level_chip == (entry.level@.len() > 0),
                None => final(self).inner is None,
            },
    {
        match &mut self.inner {
            Some(row) => row.set_entry(entry),
            None => {},
        }
    }
}


/// What the app's bot settings say of the current user's bots: whether bots
/// are enabled, the user's parent bot as the settings resolve it (when they
/// can), and the users known to be bots.
#[derive(Clone, Debug)]
pub struct BotIdentitySettings {
    pub enabled: bool,
    pub resolved_bot_user_id: Option<String>,
    pub known_bot_user_ids: Vec<String>,
}

/// What the room info pane knows of bots; the pane is rebuilt when it changes.
#[derive(Clone, Debug, PartialEq, Eq)]
pub struct RoomInfoBotIdentityFingerprint {
    pub resolved_parent_bot_user_id: Option<String>,
    pub known_bot_user_ids: Vec<String>,
}

/// The bot identity the room info pane draws with: the resolved parent bot
/// only while bots are enabled, and the known bots; nothing without app
/// state.
pub fn room_info_bot_identity_fingerprint(settings: Option<&BotIdentitySettings>) -> (f: RoomInfoBotIdentityFingerprint)
    ensures
        match settings {
            None => f.resolved_parent_bot_user_id is None && f.known_bot_user_ids@.len() == 0,
            Some(s) => {
                &&& f.resolved_parent_bot_user_id == if s.enabled { s.resolved_bot_user_id } else { None }
                &&& f.known_bot_user_ids@ == s.known_bot_user_ids@
            },
        },
{
    match settings {
        None => RoomInfoBotIdentityFingerprint { resolved_parent_bot_user_id: None, known_bot_user_ids: Vec::new() },
        Some(s) => {
            let resolved = if s.enabled {
                match &s.resolved_bot_user_id {
                    Some(id) => Some(id.clone()),
                    None => None,
                }
            } else {
                None
            };
            let mut known: Vec<String> = Vec::new();
            let mut i: usize = 0;
            while i < s.known_bot_user_ids.len()
                invariant
                    0 <= i <= s.known_bot_user_ids@.len(),
                    known@ == s.known_bot_user_ids@.take(i as int),
                decreases s.known_bot_user_ids@.len() - i,
            {
                known.push(s.known_bot_user_ids[i].clone());
                i += 1;
                assert(known@ =~= s.known_bot_user_ids@.take(i as int));
            }
            assert(s.known_bot_user_ids@.take(s.known_bot_user_ids@.len() as int) =~= s.known_bot_user_ids@);
            RoomInfoBotIdentityFingerprint { resolved_parent_bot_user_id: resolved, known_bot_user_ids: known }
        },
    }
}

} // verus!
