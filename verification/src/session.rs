//! Which meeting is open, and which notes belong to it.

use vstd::prelude::*;

use crate::text::{blank, is_blank, same};

verus! {

/// The meeting that is recorded into and edited: its id and its directory.
pub struct CurrentMeeting<D> {
    pub id: String,
    pub dir: D,
}

/// What a program holds of the meeting that is open, if one is.
pub struct Session<D> {
    pub meeting: Option<CurrentMeeting<D>>,
    pub notes: String,
}

impl<D> Session<D> {
    /// No meeting is open.
    pub fn new() -> (r: Self)
        ensures
            r.meeting is None,
            r.notes@ == Seq::<char>::empty(),
    {
        Session { meeting: None, notes: String::new() }
    }

    /// Take new notes. They are to be written to the open meeting, for which
    /// one is to be created if there is none; but no meeting is created for
    /// blank notes. Returns whether they are to be written.
    pub fn set_notes(&mut self, notes: String) -> (r: bool)
        ensures
            final(self).notes == notes,
            final(self).meeting == old(self).meeting,
            r == (old(self).meeting is Some || !is_blank(notes@)),
    {
        let write: bool = self.meeting.is_some() || !blank(notes.as_str());
        self.notes = notes;
        write
    }

    /// Open a meeting that was created because one was needed; the notes stay.
    pub fn adopt(&mut self, meeting: CurrentMeeting<D>)
        ensures
            final(self).meeting == Some(meeting),
            final(self).notes == old(self).notes,
    {
        self.meeting = Some(meeting);
    }

    /// Open a new meeting, which has no notes yet.
    pub fn begin(&mut self, meeting: CurrentMeeting<D>)
        ensures
            final(self).meeting == Some(meeting),
            final(self).notes@ == Seq::<char>::empty(),
    {
        self.meeting = Some(meeting);
        self.notes = String::new();
    }

    /// Open a meeting that was loaded, with its notes.
    pub fn open(&mut self, meeting: CurrentMeeting<D>, notes: String)
        ensures
            final(self).meeting == Some(meeting),
            final(self).notes == notes,
    {
        self.meeting = Some(meeting);
        self.notes = notes;
    }

    /// A meeting was deleted: if it was the open one, none is open any more.
    pub fn forget(&mut self, id: &str)
        ensures
            final(self).notes == old(self).notes,
            final(self).meeting == (if old(self).meeting is Some && old(self).meeting->0.id@
                == id@ {
                None
            } else {
                old(self).meeting
            }),
    {
        let is_open: bool = match &self.meeting {
            Some(m) => same(m.id.as_str(), id),
            None => false,
        };
        if is_open {
            self.meeting = None;
        }
    }
}

} // verus!
