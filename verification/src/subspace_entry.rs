//! A line of the space lobby (a room or a subspace) as a small state
//! machine: whether its buttons are shown, and by a tap or by the pointer
//! hovering, whether a subspace is expanded, and what each hover, tap or
//! button click asks of the lobby.

use vstd::prelude::*;
use crate::text::str_eq;

verus! {

/// What a line of the lobby asks of the lobby.
#[derive(Clone, Debug)]
pub enum SubspaceEntryAction {
    SpaceClicked { space_id: String },
    RoomClicked { room_id: String },
    JoinClicked { room_id: String, is_space: bool },
    LeaveClicked { room_id: String, is_space: bool },
    ViewClicked { room_id: String },
    /// Unlink this child from the space whose lobby is shown; this does not
    /// leave the room.
    RemoveFromSpaceClicked { room_id: String, is_space: bool },
    NoAction,
}

/// The buttons of a line.
#[derive(Clone, Copy, Debug, PartialEq, Eq, Structural)]
pub enum EntryButton {
    Join,
    Leave,
    View,
    RemoveFromSpace,
}

/// The state of one line.
#[derive(Debug)]
pub struct SubspaceEntry {
    pub room_id: Option<String>,
    pub is_space: bool,
    pub show_buttons_view: bool,
    /// Whether the buttons were shown by a tap (touch) rather than by the
    /// pointer hovering.
    pub buttons_shown_by_tap: bool,
    pub is_expanded: bool,
}

impl SubspaceEntry {
    /// A line not bound to any room yet.
    pub fn new() -> (entry: Self)
        ensures
            entry.room_id is None,
            !entry.is_space,
            !entry.show_buttons_view,
            !entry.buttons_shown_by_tap,
            !entry.is_expanded,
    {
        SubspaceEntry {
            room_id: None,
            is_space: false,
            show_buttons_view: false,
            buttons_shown_by_tap: false,
            is_expanded: false,
        }
    }

    /// Binds the line to a room (with `expanded` for a subspace, `None` for a
    /// room).  A line that now shows another room hides its buttons.  Says
    /// whether the expand arrow must jump to its state without animation:
    /// the line shows another space, or the space's expansion changed.
    pub fn bind(&mut self, room_id: &String, expanded: Option<bool>) -> (snap_arrow: bool)
        ensures
            ({
                let id_changed = !(old(self).room_id matches Some(id) && id@ == room_id@);
                &&& final(self).room_id == Some(*room_id)
                &&& final(self).is_space == (expanded is Some)
                &&& final(self).is_expanded == match expanded {
                    Some(e) => e,
                    None => old(self).is_expanded,
                }
                &&& final(self).show_buttons_view == (old(self).show_buttons_view && !id_changed)
                &&& final(self).buttons_shown_by_tap == (old(self).buttons_shown_by_tap && !id_changed)
                &&& snap_arrow == match expanded {
                    Some(e) => id_changed || old(self).is_expanded != e,
                    None => false,
                }
            }),
    {
        let id_changed = match &self.room_id {
            Some(id) => !str_eq(id.as_str(), room_id.as_str()),
            None => true,
        };
        let snap = match expanded {
            Some(e) => id_changed || self.is_expanded != e,
            None => false,
        };
        self.room_id = Some(room_id.clone());
        self.is_space = expanded.is_some();
        if let Some(e) = expanded {
            self.is_expanded = e;
        }
        if id_changed {
            self.show_buttons_view = false;
            self.buttons_shown_by_tap = false;
        }
        snap
    }

    /// The pointer entered the line: the buttons show, as shown by hovering.
    /// Says whether they were hidden before (and the line must be redrawn).
    pub fn on_hover_in(&mut self) -> (changed: bool)
        ensures
            changed == !old(self).show_buttons_view,
            final(self).show_buttons_view,
            final(self).buttons_shown_by_tap == (old(self).buttons_shown_by_tap && !changed),
            final(self).room_id == old(self).room_id,
            final(self).is_space == old(self).is_space,
            final(self).is_expanded == old(self).is_expanded,
    {
        if !self.show_buttons_view {
            self.show_buttons_view = true;
            self.buttons_shown_by_tap = false;
            true
        } else {
            false
        }
    }

    /// The pointer left the line.  Unless it is still inside the line or
    /// over the shown buttons, the buttons hide.  Says whether they did.
    pub fn on_hover_out(&mut self, inside_entry: bool, over_buttons: bool) -> (hidden: bool)
        ensures
            hidden == (!inside_entry && !(old(self).show_buttons_view && over_buttons)),
            final(self).show_buttons_view == (old(self).show_buttons_view && !hidden),
            final(self).buttons_shown_by_tap == (old(self).buttons_shown_by_tap && !hidden),
            final(self).room_id == old(self).room_id,
            final(self).is_space == old(self).is_space,
            final(self).is_expanded == old(self).is_expanded,
    {
        let is_over_buttons_view = self.show_buttons_view && over_buttons;
        if !inside_entry && !is_over_buttons_view {
            self.show_buttons_view = false;
            self.buttons_shown_by_tap = false;
            true
        } else {
            false
        }
    }

    /// A touch tap shows the hidden buttons (as shown by the tap) or hides
    /// the shown ones.
    pub fn toggle_buttons_for_tap(&mut self)
        ensures
            final(self).show_buttons_view == !old(self).show_buttons_view,
            final(self).buttons_shown_by_tap == !old(self).show_buttons_view,
            final(self).room_id == old(self).room_id,
            final(self).is_space == old(self).is_space,
            final(self).is_expanded == old(self).is_expanded,
    {
        if self.show_buttons_view {
            self.show_buttons_view = false;
            self.buttons_shown_by_tap = false;
        } else {
            self.show_buttons_view = true;
            self.buttons_shown_by_tap = true;
        }
    }

    /// A tap on the line (`on_buttons` when it fell where the buttons are,
    /// `is_touch` for a touch, `in_expand_region` for a touch on or left of
    /// the avatar).  On the shown buttons it does nothing here.  A touch on a
    /// subspace's avatar, or a mouse click on a subspace, expands or
    /// collapses it and asks the lobby to follow; a mouse click on a room
    /// reports it; any other touch shows or hides the buttons.
    pub fn on_tap(&mut self, on_buttons: bool, is_touch: bool, in_expand_region: bool) -> (action: SubspaceEntryAction)
        ensures
            ({
                let on_shown_buttons = old(self).show_buttons_view && on_buttons;
                let expands = !on_shown_buttons && (if is_touch {
                    old(self).is_space && in_expand_region
                } else {
                    old(self).is_space && old(self).room_id is Some
                });
                let toggles_buttons = !on_shown_buttons && is_touch && !(old(self).is_space && in_expand_region);
                &&& action == if expands {
                    match old(self).room_id {
                        Some(id) => SubspaceEntryAction::SpaceClicked { space_id: id },
                        None => SubspaceEntryAction::NoAction,
                    }
                } else if !on_shown_buttons && !is_touch && !old(self).is_space && old(self).room_id is Some {
                    SubspaceEntryAction::RoomClicked { room_id: old(self).room_id->0 }
                } else {
                    SubspaceEntryAction::NoAction
                }
                &&& final(self).is_expanded == (old(self).is_expanded != expands)
                &&& final(self).show_buttons_view == (old(self).show_buttons_view != toggles_buttons)
                &&& final(self).buttons_shown_by_tap == if toggles_buttons {
                    !old(self).show_buttons_view
                } else {
                    old(self).buttons_shown_by_tap
                }
                &&& final(self).room_id == old(self).room_id
                &&& final(self).is_space == old(self).is_space
            }),
    {
        if self.show_buttons_view && on_buttons {
            // The buttons handle their own taps.
            SubspaceEntryAction::NoAction
        } else if is_touch && self.is_space {
            if in_expand_region {
                self.is_expanded = !self.is_expanded;
                match &self.room_id {
                    Some(id) => SubspaceEntryAction::SpaceClicked { space_id: id.clone() },
                    None => SubspaceEntryAction::NoAction,
                }
            } else {
                self.toggle_buttons_for_tap();
                SubspaceEntryAction::NoAction
            }
        } else if is_touch {
            self.toggle_buttons_for_tap();
            SubspaceEntryAction::NoAction
        } else {
            match &self.room_id {
                Some(id) => if self.is_space {
                    self.is_expanded = !self.is_expanded;
                    SubspaceEntryAction::SpaceClicked { space_id: id.clone() }
                } else {
                    SubspaceEntryAction::RoomClicked { room_id: id.clone() }
                },
                None => SubspaceEntryAction::NoAction,
            }
        }
    }

    /// A click on one of the line's buttons, for the room it shows.
    pub fn on_button_clicked(&self, button: EntryButton) -> (action: SubspaceEntryAction)
        ensures
            action == match self.room_id {
                Some(id) => match button {
                    EntryButton::Join => SubspaceEntryAction::JoinClicked { room_id: id, is_space: self.is_space },
                    EntryButton::Leave => SubspaceEntryAction::LeaveClicked { room_id: id, is_space: self.is_space },
                    EntryButton::View => SubspaceEntryAction::ViewClicked { room_id: id },
                    EntryButton::RemoveFromSpace => SubspaceEntryAction::RemoveFromSpaceClicked {
                        room_id: id,
                        is_space: self.is_space,
                    },
                },
                None => SubspaceEntryAction::NoAction,
            },
    {
        match &self.room_id {
            Some(id) => {
                let room_id = id.clone();
                match button {
                    EntryButton::Join => SubspaceEntryAction::JoinClicked { room_id, is_space: self.is_space },
                    EntryButton::Leave => SubspaceEntryAction::LeaveClicked { room_id, is_space: self.is_space },
                    EntryButton::View => SubspaceEntryAction::ViewClicked { room_id },
                    EntryButton::RemoveFromSpace => SubspaceEntryAction::RemoveFromSpaceClicked {
                        room_id,
                        is_space: self.is_space,
                    },
                }
            },
            None => SubspaceEntryAction::NoAction,
        }
    }
}

} // verus!
