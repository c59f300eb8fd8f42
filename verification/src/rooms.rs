//! Identities of rooms, threads and timelines as the UI refers to them.
//!
//! Matrix identifiers are carried as their string form.

use vstd::prelude::*;
use vstd::std_specs::cmp::PartialEqSpecImpl;

verus! {

/// A room's display name together with its ID.
#[derive(Clone, Debug)]
pub struct RoomNameId {
    pub display_name: String,
    pub room_id: String,
}

impl RoomNameId {
    pub fn new(display_name: String, room_id: String) -> (r: Self)
        ensures
            r.display_name@ == display_name@,
            r.room_id@ == room_id@,
    {
        RoomNameId { display_name, room_id }
    }

    pub fn room_id(&self) -> (id: &String)
        ensures
            id@ == self.room_id@,
    {
        &self.room_id
    }

    /// A copy of this name and ID.
    pub fn duplicate(&self) -> (r: Self)
        ensures
            r == *self,
    {
        RoomNameId { display_name: self.display_name.clone(), room_id: self.room_id.clone() }
    }
}

/// The kind of view that is currently selected in the UI.
#[derive(Clone, Debug)]
pub enum SelectedRoom {
    JoinedRoom { room_name_id: RoomNameId },
    InvitedRoom { room_name_id: RoomNameId },
    Space { space_name_id: RoomNameId },
    Thread { room_name_id: RoomNameId, thread_root_event_id: String },
}

/// Which timeline of a room: the main one or that of a single thread.
#[derive(Clone, Debug)]
pub enum TimelineKind {
    MainRoom { room_id: String },
    Thread { room_id: String, thread_root_event_id: String },
}

/// A timeline kind as plain values.
pub enum TimelineKindView {
    MainRoom { room_id: Seq<char> },
    Thread { room_id: Seq<char>, thread_root_event_id: Seq<char> },
}

/// A selected view as plain values.
pub enum SelectedRoomView {
    JoinedRoom { room_id: Seq<char> },
    InvitedRoom { room_id: Seq<char> },
    Space { space_id: Seq<char> },
    Thread { room_id: Seq<char>, thread_root_event_id: Seq<char> },
}

impl View for TimelineKind {
    type V = TimelineKindView;

    open spec fn view(&self) -> TimelineKindView {
        match self {
            TimelineKind::MainRoom { room_id } => TimelineKindView::MainRoom { room_id: room_id@ },
            TimelineKind::Thread { room_id, thread_root_event_id } => TimelineKindView::Thread {
                room_id: room_id@,
                thread_root_event_id: thread_root_event_id@,
            },
        }
    }
}

impl View for SelectedRoom {
    type V = SelectedRoomView;

    open spec fn view(&self) -> SelectedRoomView {
        match self {
            SelectedRoom::JoinedRoom { room_name_id } => SelectedRoomView::JoinedRoom {
                room_id: room_name_id.room_id@,
            },
            SelectedRoom::InvitedRoom { room_name_id } => SelectedRoomView::InvitedRoom {
                room_id: room_name_id.room_id@,
            },
            SelectedRoom::Space { space_name_id } => SelectedRoomView::Space {
                space_id: space_name_id.room_id@,
            },
            SelectedRoom::Thread { room_name_id, thread_root_event_id } => SelectedRoomView::Thread {
                room_id: room_name_id.room_id@,
                thread_root_event_id: thread_root_event_id@,
            },
        }
    }
}

/// An optional timeline kind as plain values.
pub open spec fn opt_kind_view(kind: Option<TimelineKind>) -> Option<TimelineKindView> {
    match kind {
        Some(k) => Some(k@),
        None => None,
    }
}

impl TimelineKindView {
    pub open spec fn room_id(self) -> Seq<char> {
        match self {
            TimelineKindView::MainRoom { room_id } => room_id,
            TimelineKindView::Thread { room_id, .. } => room_id,
        }
    }
}

impl TimelineKind {
    /// A copy of this timeline kind.
    pub fn duplicate(&self) -> (r: Self)
        ensures
            r == *self,
    {
        match self {
            TimelineKind::MainRoom { room_id } => TimelineKind::MainRoom { room_id: room_id.clone() },
            TimelineKind::Thread { room_id, thread_root_event_id } => TimelineKind::Thread {
                room_id: room_id.clone(),
                thread_root_event_id: thread_root_event_id.clone(),
            },
        }
    }

    /// The room this timeline belongs to.
    pub fn room_id(&self) -> (id: &String)
        ensures
            id@ == self@.room_id(),
    {
        match self {
            TimelineKind::MainRoom { room_id } => room_id,
            TimelineKind::Thread { room_id, .. } => room_id,
        }
    }

    /// Whether both name the same timeline.
    pub fn same_as(&self, other: &TimelineKind) -> (same: bool)
        ensures
            same == (self@ == other@),
    {
        match self {
            TimelineKind::MainRoom { room_id: a } => match other {
                TimelineKind::MainRoom { room_id: b } => {
                    let r = *a == *b;
                    proof {
                        if !r {
                            assert(self@->MainRoom_room_id != other@->MainRoom_room_id);
                        }
                    }
                    r
                },
                _ => false,
            },
            TimelineKind::Thread { room_id: a, thread_root_event_id: ta } => match other {
                TimelineKind::Thread { room_id: b, thread_root_event_id: tb } => {
                    let r1 = *a == *b;
                    let r2 = *ta == *tb;
                    proof {
                        if !r1 {
                            assert(self@->Thread_room_id != other@->Thread_room_id);
                        }
                        if !r2 {
                            assert(self@->thread_root_event_id != other@->thread_root_event_id);
                        }
                    }
                    r1 && r2
                },
                _ => false,
            },
        }
    }
}

impl PartialEq for TimelineKind {
    fn eq(&self, other: &Self) -> (same: bool) {
        self.same_as(other)
    }
}

impl PartialEqSpecImpl for TimelineKind {
    open spec fn obeys_eq_spec() -> bool {
        true
    }

    open spec fn eq_spec(&self, other: &Self) -> bool {
        self@ == other@
    }
}

/// What a room screen hands to the widgets inside it while they handle
/// events and draw: the room, its timeline, and what is known of its
/// members and bots.  Matrix IDs and URIs are carried as strings.
#[derive(Debug)]
pub struct RoomScreenProps {
    /// The ID of the room screen's widget, to address actions to it.
    pub room_screen_widget_uid: u64,
    pub room_name_id: RoomNameId,
    pub timeline_kind: TimelineKind,
    /// The user IDs of the room's members, once fetched.
    pub room_member_ids: Option<Vec<String>>,
    pub is_encrypted: Option<bool>,
    pub is_direct_room: bool,
    pub room_bot_user_ids: Vec<String>,
    pub room_members_sync_pending: bool,
    pub room_avatar_url: Option<String>,
    pub app_service_enabled: bool,
    pub app_service_room_bound: bool,
    pub has_persisted_management_binding: bool,
    pub bound_bot_user_id: Option<String>,
    pub resolved_parent_bot_user_id: Option<String>,
    pub persisted_bound_bot_user_ids: Vec<String>,
    pub known_bot_user_ids: Vec<String>,
    /// Whether the current user may invite users to this room.
    pub can_invite: bool,
    /// Invites sent from here that still await acceptance.
    pub pending_invited_users: Vec<String>,
}

} // verus!
