//! The room settings dialog: what it shows of a room, and the requests its
//! buttons and fields make.

use vstd::prelude::*;
use crate::text::{chars_vec, string_from_range, string_push, string_push_str, trim_string, trimmed};

verus! {

broadcast use vstd::seq::group_seq_axioms, vstd::seq_lib::group_seq_properties;

/// A request the settings dialog makes.
#[derive(Clone, Debug)]
pub enum RoomSettingsAction {
    /// Open the dialog for a room (or space).
    Open { room_id: String, room_name: Option<String>, is_space: bool },
    Close,
    /// Save the room's name and topic.
    Save { room_id: String, room_name: String, room_topic: String },
    Cancel,
    /// Publish the room in the directory, or stop.
    SetDirectoryPublish { room_id: String, enabled: bool },
    /// Add a local address.
    AddLocalAddress { room_id: String, alias: String },
    /// Always show media, or hide it.
    SetMediaVisibility { room_id: String, always_show: bool },
    LeaveRoom { room_id: String },
    /// Upload the image at this local path as the room's avatar.
    UploadRoomAvatar { room_id: String, avatar_path: String },
    /// Nothing to do.
    NoAction,
}

/// A request of the dialog as plain values.
pub enum RoomSettingsActionView {
    Open { room_id: Seq<char>, room_name: Option<Seq<char>>, is_space: bool },
    Close,
    Save { room_id: Seq<char>, room_name: Seq<char>, room_topic: Seq<char> },
    Cancel,
    SetDirectoryPublish { room_id: Seq<char>, enabled: bool },
    AddLocalAddress { room_id: Seq<char>, alias: Seq<char> },
    SetMediaVisibility { room_id: Seq<char>, always_show: bool },
    LeaveRoom { room_id: Seq<char> },
    UploadRoomAvatar { room_id: Seq<char>, avatar_path: Seq<char> },
    NoAction,
}

impl View for RoomSettingsAction {
    type V = RoomSettingsActionView;

    open spec fn view(&self) -> RoomSettingsActionView {
        match self {
            RoomSettingsAction::Open { room_id, room_name, is_space } => RoomSettingsActionView::Open {
                room_id: room_id@,
                room_name: match room_name {
                    Some(n) => Some(n@),
                    None => None,
                },
                is_space: *is_space,
            },
            RoomSettingsAction::Close => RoomSettingsActionView::Close,
            RoomSettingsAction::Save { room_id, room_name, room_topic } => RoomSettingsActionView::Save {
                room_id: room_id@,
                room_name: room_name@,
                room_topic: room_topic@,
            },
            RoomSettingsAction::Cancel => RoomSettingsActionView::Cancel,
            RoomSettingsAction::SetDirectoryPublish { room_id, enabled } => RoomSettingsActionView::SetDirectoryPublish {
                room_id: room_id@,
                enabled: *enabled,
            },
            RoomSettingsAction::AddLocalAddress { room_id, alias } => RoomSettingsActionView::AddLocalAddress {
                room_id: room_id@,
                alias: alias@,
            },
            RoomSettingsAction::SetMediaVisibility { room_id, always_show } => RoomSettingsActionView::SetMediaVisibility {
                room_id: room_id@,
                always_show: *always_show,
            },
            RoomSettingsAction::LeaveRoom { room_id } => RoomSettingsActionView::LeaveRoom { room_id: room_id@ },
            RoomSettingsAction::UploadRoomAvatar { room_id, avatar_path } => RoomSettingsActionView::UploadRoomAvatar {
                room_id: room_id@,
                avatar_path: avatar_path@,
            },
            RoomSettingsAction::NoAction => RoomSettingsActionView::NoAction,
        }
    }
}

/// Requests as plain values.
pub open spec fn actions_view(actions: Seq<RoomSettingsAction>) -> Seq<RoomSettingsActionView> {
    actions.map_values(|a: RoomSettingsAction| a@)
}

/// `s` without its leading `#` characters.
pub open spec fn without_leading_hashes(s: Seq<char>) -> Seq<char>
    decreases s.len(),
{
    if s.len() > 0 && s[0] == '#' {
        without_leading_hashes(s.drop_first())
    } else {
        s
    }
}

/// The local address typed in `input`, normalised: trimmed, without its
/// leading `#` characters.
pub open spec fn normalized_alias(input: Seq<char>) -> Seq<char> {
    without_leading_hashes(trimmed(input))
}

/// `trimmed(input)` without its leading `#` characters (`trim_start_matches('#')`).
fn alias_from_input(input: &str) -> (alias: String)
    ensures
        alias@ == normalized_alias(input@),
{
    let t = trim_string(input);
    let cs = chars_vec(t.as_str());
    let mut a: usize = 0;
    while a < cs.len() && cs[a] == '#'
        invariant
            cs@ == t@,
            a <= cs@.len(),
            without_leading_hashes(t@) == without_leading_hashes(t@.skip(a as int)),
        decreases cs@.len() - a,
    {
        proof {
            assert(t@.skip(a as int).drop_first() =~= t@.skip(a + 1));
        }
        a += 1;
    }
    proof {
        assert(t@.skip(a as int) =~= t@.subrange(a as int, cs@.len() as int));
    }
    string_from_range(&cs, a, cs.len())
}

/// The dialog's title for a room named `room_name`.
pub open spec fn settings_title(room_name: Seq<char>) -> Seq<char> {
    "Room Settings – "@ + room_name
}

/// The letter the avatar shows: the name's first character, or `?`.
pub open spec fn avatar_letter(room_name: Seq<char>) -> Seq<char> {
    if room_name.len() > 0 { seq![room_name[0]] } else { "?"@ }
}

/// What happened in the dialog during one frame.
#[derive(Clone, Debug)]
pub struct RoomSettingsEvents {
    pub close_clicked: bool,
    pub cancel_clicked: bool,
    pub save_clicked: bool,
    /// The texts of the name and topic fields.
    pub name_text: String,
    pub topic_text: String,
    /// The new state of the directory toggle, when it changed.
    pub publish_changed: Option<bool>,
    pub add_address_clicked: bool,
    /// The text of the new address field.
    pub address_text: String,
    /// The media option chosen (0: hide, 1: always show), when it changed.
    pub media_selected: Option<usize>,
    pub leave_clicked: bool,
    /// The image the user picked for the avatar, when one was picked.
    pub picked_avatar_path: Option<String>,
}

/// The settings dialog.
#[derive(Debug)]
pub struct RoomSettingsModal {
    pub room_id: Option<String>,
    pub original_name: String,
    pub original_topic: String,
    pub always_show_media: bool,
    pub title: String,
    pub name_input: String,
    pub topic_input: String,
    pub room_id_input: String,
    pub main_alias_text: String,
    pub avatar_text: String,
    /// The error under the name field, when shown.
    pub name_error: Option<String>,
    pub address_input: String,
}

/// The requests a frame's events make once neither close, cancel nor save
/// was clicked: in this order, the directory toggle, a non-empty new
/// address, the media option, leaving, and a new avatar — each only for a
/// dialog showing a room.
pub open spec fn other_requests(room_id: Option<Seq<char>>, events: RoomSettingsEvents) -> Seq<RoomSettingsActionView> {
    match room_id {
        None => Seq::empty(),
        Some(r) => {
            let alias = normalized_alias(events.address_text@);
            (match events.publish_changed {
                Some(enabled) => seq![RoomSettingsActionView::SetDirectoryPublish { room_id: r, enabled }],
                None => Seq::empty(),
            }) + (if events.add_address_clicked && alias.len() > 0 {
                seq![RoomSettingsActionView::AddLocalAddress { room_id: r, alias }]
            } else {
                Seq::empty()
            }) + (match events.media_selected {
                Some(i) => seq![RoomSettingsActionView::SetMediaVisibility { room_id: r, always_show: i == 1 }],
                None => Seq::empty(),
            }) + (if events.leave_clicked {
                seq![RoomSettingsActionView::LeaveRoom { room_id: r }]
            } else {
                Seq::empty()
            }) + (match events.picked_avatar_path {
                Some(p) => seq![RoomSettingsActionView::UploadRoomAvatar { room_id: r, avatar_path: p@ }],
                None => Seq::empty(),
            })
        },
    }
}

impl RoomSettingsModal {
    /// An empty dialog.
    pub fn new() -> (modal: Self)
        ensures
            modal.room_id is None,
            modal.name_error is None,
    {
        RoomSettingsModal {
            room_id: None,
            original_name: String::new(),
            original_topic: String::new(),
            always_show_media: false,
            title: String::new(),
            name_input: String::new(),
            topic_input: String::new(),
            room_id_input: String::new(),
            main_alias_text: String::new(),
            avatar_text: String::new(),
            name_error: None,
            address_input: String::new(),
        }
    }

    /// The room ID as plain values, if a room is shown.
    pub open spec fn room_view(&self) -> Option<Seq<char>> {
        match self.room_id {
            Some(r) => Some(r@),
            None => None,
        }
    }

    /// Fills the dialog for the room `room_id`.
    pub fn show(&mut self, room_id: String, room_name: &str, room_topic: &str, canonical_alias: Option<&str>)
        ensures
            final(self).room_view() == Some(room_id@),
            final(self).original_name@ == room_name@,
            final(self).original_topic@ == room_topic@,
            !final(self).always_show_media,
            final(self).title@ == settings_title(room_name@),
            final(self).name_input@ == room_name@,
            final(self).topic_input@ == room_topic@,
            final(self).room_id_input@ == room_id@,
            final(self).main_alias_text@ == match canonical_alias {
                Some(a) => a@,
                None => "No main address set"@,
            },
            final(self).avatar_text@ == avatar_letter(room_name@),
            final(self).name_error is None,
    {
        self.room_id_input = room_id.clone();
        self.room_id = Some(room_id);
        self.original_name = room_name.to_string();
        self.original_topic = room_topic.to_string();
        self.always_show_media = false;
        let mut title = "Room Settings – ".to_string();
        string_push_str(&mut title, room_name);
        self.title = title;
        self.name_input = room_name.to_string();
        self.topic_input = room_topic.to_string();
        self.main_alias_text = match canonical_alias {
            Some(a) => a.to_string(),
            None => "No main address set".to_string(),
        };
        let cs = chars_vec(room_name);
        let mut avatar = String::new();
        if cs.len() > 0 {
            string_push(&mut avatar, cs[0]);
        } else {
            string_push(&mut avatar, '?');
        }
        proof {
            reveal_strlit("?");
            if cs@.len() > 0 {
                assert(avatar@ =~= seq![room_name@[0]]);
            } else {
                assert(avatar@ =~= "?"@);
            }
        }
        self.avatar_text = avatar;
        self.name_error = None;
    }

    /// Takes in a topic fetched later (and whether the room is public, which
    /// the directory toggle shows by itself).
    pub fn apply_fetched_settings(&mut self, topic: Option<String>, is_public: bool)
        ensures
            match topic {
                Some(t) => final(self).original_topic@ == t@ && final(self).topic_input@ == t@,
                None => final(self).original_topic == old(self).original_topic
                    && final(self).topic_input == old(self).topic_input,
            },
            final(self).room_id == old(self).room_id,
    {
        match topic {
            Some(t) => {
                self.original_topic = t.clone();
                self.topic_input = t;
            },
            None => {},
        }
    }

    /// Handles one frame of events and returns the requests they make.
    /// Closing wins, then cancelling, then saving: saving with a blank name
    /// shows an error instead; otherwise it saves the trimmed name and topic
    /// of a shown room.  With none of those, the other fields make their
    /// requests (see [`other_requests`]); a new address also empties its
    /// field, and the media option is remembered.
    #[verifier::rlimit(40)]
    pub fn handle_actions(&mut self, events: &RoomSettingsEvents) -> (requests: Vec<RoomSettingsAction>)
        ensures
            events.close_clicked ==> actions_view(requests@) == seq![RoomSettingsActionView::Close]
                && *final(self) == *old(self),
            !events.close_clicked && events.cancel_clicked ==> actions_view(requests@) == seq![RoomSettingsActionView::Cancel]
                && *final(self) == *old(self),
            !events.close_clicked && !events.cancel_clicked && events.save_clicked ==> {
                if trimmed(events.name_text@).len() == 0 {
                    &&& requests@.len() == 0
                    &&& final(self).name_error matches Some(e) && e@ == "Room name cannot be empty"@
                } else {
                    &&& final(self).name_error is None
                    &&& actions_view(requests@) == match old(self).room_id {
                        Some(r) => seq![RoomSettingsActionView::Save {
                            room_id: r@,
                            room_name: trimmed(events.name_text@),
                            room_topic: trimmed(events.topic_text@),
                        }],
                        None => Seq::empty(),
                    }
                }
            },
            !events.close_clicked && !events.cancel_clicked && !events.save_clicked ==> {
                &&& actions_view(requests@) == other_requests(old(self).room_view(), *events)
                &&& final(self).always_show_media == match events.media_selected {
                    Some(i) => i == 1,
                    None => old(self).always_show_media,
                }
                &&& final(self).room_id == old(self).room_id
            },
    {
        let mut requests: Vec<RoomSettingsAction> = Vec::new();
        if events.close_clicked {
            requests.push(RoomSettingsAction::Close);
            return requests;
        }
        if events.cancel_clicked {
            requests.push(RoomSettingsAction::Cancel);
            return requests;
        }
        if events.save_clicked {
            let name = trim_string(events.name_text.as_str());
            if name.as_str().is_empty() {
                self.name_error = Some("Room name cannot be empty".to_string());
            } else {
                self.name_error = None;
                match &self.room_id {
                    Some(room_id) => {
                        requests.push(RoomSettingsAction::Save {
                            room_id: room_id.clone(),
                            room_name: name,
                            room_topic: trim_string(events.topic_text.as_str()),
                        });
                        assert(actions_view(requests@) =~= seq![requests@[0]@]);
                    },
                    None => {},
                }
            }
            proof {
                if requests@.len() == 0 {
                    assert(actions_view(requests@) =~= Seq::<RoomSettingsActionView>::empty());
                }
            }
            return requests;
        }
        match &self.room_id {
            Some(r) => {
                let room_id = r.clone();
                self.field_requests(room_id, events)
            },
            None => {
                match events.media_selected {
                    Some(selected) => self.always_show_media = selected == 1,
                    None => {},
                }
                assert(actions_view(requests@) =~= Seq::<RoomSettingsActionView>::empty());
                requests
            },
        }
    }

    /// The requests of the fields other than close, cancel and save, for the
    /// shown room `room_id`.
    #[verifier::spinoff_prover]
    #[verifier::rlimit(40)]
    fn field_requests(&mut self, room_id: String, events: &RoomSettingsEvents) -> (requests: Vec<RoomSettingsAction>)
        requires
            old(self).room_view() == Some(room_id@),
        ensures
            actions_view(requests@) == other_requests(Some(room_id@), *events),
            final(self).always_show_media == match events.media_selected {
                Some(i) => i == 1,
                None => old(self).always_show_media,
            },
            final(self).room_id == old(self).room_id,
    {
        let mut requests: Vec<RoomSettingsAction> = Vec::new();
        let ghost r = room_id@;
        let ghost mut expected: Seq<RoomSettingsActionView> = Seq::empty();
        match events.publish_changed {
            Some(enabled) => {
                requests.push(RoomSettingsAction::SetDirectoryPublish { room_id: room_id.clone(), enabled });
                proof {
                    expected = seq![RoomSettingsActionView::SetDirectoryPublish { room_id: r, enabled }];
                }
            },
            None => {},
        }
        assert(actions_view(requests@) =~= expected);
        if events.add_address_clicked {
            let alias = alias_from_input(events.address_text.as_str());
            if !alias.as_str().is_empty() {
                let ghost a = alias@;
                let ghost pre = requests@;
                requests.push(RoomSettingsAction::AddLocalAddress { room_id: room_id.clone(), alias });
                self.address_input = String::new();
                proof {
                    expected = expected + seq![RoomSettingsActionView::AddLocalAddress { room_id: r, alias: a }];
                    assert(actions_view(requests@) =~= actions_view(pre).push(requests@.last()@));
                }
            }
        }
        assert(actions_view(requests@) =~= expected);
        match events.media_selected {
            Some(selected) => {
                let always_show = selected == 1;
                self.always_show_media = always_show;
                let ghost pre = requests@;
                requests.push(RoomSettingsAction::SetMediaVisibility { room_id: room_id.clone(), always_show });
                proof {
                    expected = expected + seq![RoomSettingsActionView::SetMediaVisibility { room_id: r, always_show }];
                    assert(actions_view(requests@) =~= actions_view(pre).push(requests@.last()@));
                }
            },
            None => {},
        }
        assert(actions_view(requests@) =~= expected);
        if events.leave_clicked {
            let ghost pre = requests@;
            requests.push(RoomSettingsAction::LeaveRoom { room_id: room_id.clone() });
            proof {
                expected = expected + seq![RoomSettingsActionView::LeaveRoom { room_id: r }];
                assert(actions_view(requests@) =~= actions_view(pre).push(requests@.last()@));
            }
        }
        assert(actions_view(requests@) =~= expected);
        match &events.picked_avatar_path {
            Some(path) => {
                let ghost pre = requests@;
                requests.push(RoomSettingsAction::UploadRoomAvatar { room_id: room_id.clone(), avatar_path: path.clone() });
                proof {
                    expected = expected + seq![RoomSettingsActionView::UploadRoomAvatar { room_id: r, avatar_path: path@ }];
                    assert(actions_view(requests@) =~= actions_view(pre).push(requests@.last()@));
                }
            },
            None => {},
        }
        proof {
            assert(actions_view(requests@) =~= expected);
            assert(expected =~= other_requests(Some(r), *events));
        }
        requests
    }
}

} // verus!
