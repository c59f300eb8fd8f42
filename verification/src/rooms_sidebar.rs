//! The tabs of the mobile home screen: the list of rooms, or the workspace
//! (spaces) list.  The mobile tabs are built lazily, so the Rooms tab is
//! highlighted the first time they exist, and again after a change of the
//! view mode rebuilds them.

use vstd::prelude::*;

verus! {

/// The page shown in the body of the mobile home screen.
#[derive(Clone, Copy, Debug, PartialEq, Eq, Structural)]
pub enum HomePage {
    Rooms,
    Workspace,
}

/// The state of the home tabs.
pub struct RoomsSideBarState {
    /// Whether the Rooms tab was highlighted since the tabs were last built.
    pub home_tab_initialized: bool,
    pub active_page: HomePage,
}

impl RoomsSideBarState {
    /// Tabs not built yet, on the Rooms page.
    pub fn new() -> (state: Self)
        ensures
            !state.home_tab_initialized,
            state.active_page == HomePage::Rooms,
    {
        RoomsSideBarState { home_tab_initialized: false, active_page: HomePage::Rooms }
    }

    /// A new view mode rebuilds the tabs, whose highlight must then be set again.
    pub fn apply_view_mode(&mut self)
        ensures
            !final(self).home_tab_initialized,
            final(self).active_page == old(self).active_page,
    {
        self.home_tab_initialized = false;
    }

    /// The tab at `selected` of the tab set was chosen: the first shows the
    /// rooms, the second the workspace; anything else changes nothing.
    pub fn select_tab(&mut self, selected: Option<usize>)
        ensures
            final(self).home_tab_initialized == old(self).home_tab_initialized,
            final(self).active_page == match selected {
                Some(0) => HomePage::Rooms,
                Some(1) => HomePage::Workspace,
                _ => old(self).active_page,
            },
    {
        match selected {
            Some(0) => self.active_page = HomePage::Rooms,
            Some(1) => self.active_page = HomePage::Workspace,
            _ => {},
        }
    }

    /// Shows the rooms, as when a space is opened from the workspace tab.
    pub fn show_rooms_tab(&mut self)
        ensures
            final(self).home_tab_initialized == old(self).home_tab_initialized,
            final(self).active_page == HomePage::Rooms,
    {
        self.active_page = HomePage::Rooms;
    }

    /// After an event: the first time the tabs exist, highlight the Rooms tab
    /// and show its page.  Says whether that happened.
    pub fn initialize_tabs(&mut self, tabs_exist: bool) -> (highlighted: bool)
        ensures
            highlighted == (!old(self).home_tab_initialized && tabs_exist),
            final(self).home_tab_initialized == (old(self).home_tab_initialized || tabs_exist),
            final(self).active_page == if highlighted { HomePage::Rooms } else { old(self).active_page },
    {
        if !self.home_tab_initialized && tabs_exist {
            self.home_tab_initialized = true;
            self.active_page = HomePage::Rooms;
            true
        } else {
            false
        }
    }
}

} // verus!
