//! The dialog for reporting a room to the homeserver's administrators.

use vstd::prelude::*;
use crate::rooms::RoomNameId;
use crate::text::{string_push_str, trim_string, trimmed};

verus! {

/// What the report dialog asks of the app.
#[derive(Clone, Debug)]
pub enum ReportRoomModalAction {
    /// Open the dialog for this room.
    Open { room_id: String, room_name_id: RoomNameId },
    /// Close the dialog.
    Close,
    /// Send the report with this reason.
    Submit(String),
}

/// The text asking the user to report `room_name` (its display name).
pub open spec fn report_body(room_name: Seq<char>) -> Seq<char> {
    "Report "@ + room_name + " to your homeserver administrators. Please provide a reason."@
}

/// The error shown when the reason is blank.
pub open spec fn missing_reason_text() -> Seq<char> {
    "Please enter a reason before reporting."@
}

/// The report dialog.
#[derive(Debug)]
pub struct ReportRoomModal {
    pub is_showing_error: bool,
    pub title: String,
    pub body: String,
    /// The reason typed so far.
    pub reason: String,
    /// The error line under the reason.
    pub status: String,
    pub buttons_enabled: bool,
}

impl ReportRoomModal {
    /// An empty dialog.
    pub fn new() -> (modal: Self)
        ensures
            !modal.is_showing_error,
            modal.reason@.len() == 0,
            modal.status@.len() == 0,
    {
        ReportRoomModal {
            is_showing_error: false,
            title: String::new(),
            body: String::new(),
            reason: String::new(),
            status: String::new(),
            buttons_enabled: true,
        }
    }

    /// Prepares the dialog for reporting `room_name_id`: no error, no reason.
    pub fn show(&mut self, room_name_id: &RoomNameId)
        ensures
            !final(self).is_showing_error,
            final(self).title@ == "Report Room"@,
            final(self).body@ == report_body(room_name_id.display_name@),
            final(self).reason@.len() == 0,
            final(self).status@.len() == 0,
            final(self).buttons_enabled,
    {
        self.is_showing_error = false;
        self.title = "Report Room".to_string();
        let mut body = "Report ".to_string();
        string_push_str(&mut body, room_name_id.display_name.as_str());
        string_push_str(&mut body, " to your homeserver administrators. Please provide a reason.");
        self.body = body;
        self.reason = String::new();
        self.status = String::new();
        self.buttons_enabled = true;
    }

    /// Handles the dialog's inputs of one frame: cancelling (or dismissing)
    /// closes it; editing the reason clears a shown error; submitting (the
    /// report button or Enter) sends the trimmed reason, or shows an error
    /// when it is blank.
    pub fn handle_actions(
        &mut self,
        cancelled: bool,
        dismissed: bool,
        reason_changed: Option<String>,
        submitted: bool,
    ) -> (action: Option<ReportRoomModalAction>)
        ensures
            cancelled || dismissed ==> (action matches Some(ReportRoomModalAction::Close)) && *final(self) == *old(self),
            !(cancelled || dismissed) ==> {
                let reason = match reason_changed {
                    Some(r) => r@,
                    None => old(self).reason@,
                };
                let error_cleared = old(self).is_showing_error && reason_changed is Some;
                &&& final(self).reason@ == reason
                &&& if submitted && trimmed(reason).len() == 0 {
                    &&& action is None
                    &&& final(self).is_showing_error
                    &&& final(self).status@ == missing_reason_text()
                } else {
                    &&& final(self).is_showing_error == (old(self).is_showing_error && !error_cleared)
                    &&& final(self).status@ == if error_cleared { Seq::<char>::empty() } else { old(self).status@ }
                    &&& if submitted {
                        action matches Some(ReportRoomModalAction::Submit(r)) && r@ == trimmed(reason)
                    } else {
                        action is None
                    }
                }
            },
    {
        if cancelled || dismissed {
            return Some(ReportRoomModalAction::Close);
        }
        match reason_changed {
            Some(text) => {
                self.reason = text;
                if self.is_showing_error {
                    self.is_showing_error = false;
                    self.status = String::new();
                }
            },
            None => {},
        }
        if submitted {
            let reason = trim_string(self.reason.as_str());
            if reason.as_str().is_empty() {
                self.is_showing_error = true;
                self.status = "Please enter a reason before reporting.".to_string();
                return None;
            }
            return Some(ReportRoomModalAction::Submit(reason));
        }
        None
    }
}

/// A handle to the report dialog, which may hold none.
#[derive(Debug)]
pub struct ReportRoomModalRef {
    pub inner: Option<ReportRoomModal>,
}

impl ReportRoomModalRef {
    /// Prepares the dialog for reporting `room_name_id`, if there is one.
    pub fn show(&mut self, room_name_id: &RoomNameId)
        ensures
            match old(self).inner {
                Some(_) => final(self).inner matches Some(m) && !m.is_showing_error
                    && m.body@ == report_body(room_name_id.display_name@) && m.reason@.len() == 0,
                None => final(self).inner is None,
            },
    {
        match &mut self.inner {
            Some(m) => m.show(room_name_id),
            None => {},
        }
    }
}

} // verus!
