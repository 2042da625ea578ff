//! The event field of an announce.
use vstd::prelude::*;

verus! {

/// What happened to the download since the peer last announced.
#[derive(Clone, Copy, Debug, PartialEq, Eq, Structural)]
pub enum Event {
    /// One of the announces that a peer makes at regular intervals.
    Regular,
    Completed,
    Started,
    Stopped,
}

impl Event {
    /// The number that stands for this event on the wire.
    pub open spec fn code(self) -> u32 {
        match self {
            Event::Regular => 0,
            Event::Completed => 1,
            Event::Started => 2,
            Event::Stopped => 3,
        }
    }

    /// The event that `code` stands for, if any.
    pub open spec fn of_code(code: u32) -> Option<Event> {
        if code == 0 {
            Some(Event::Regular)
        } else if code == 1 {
            Some(Event::Completed)
        } else if code == 2 {
            Some(Event::Started)
        } else if code == 3 {
            Some(Event::Stopped)
        } else {
            None
        }
    }

    /// Every event is found again from its number, and a number that names
    /// an event is that event's number.
    pub proof fn lemma_code_round_trip(e: Event, code: u32)
        ensures
            Event::of_code(e.code()) == Some(e),
            Event::of_code(code) == Some(e) ==> e.code() == code,
    {
    }

    /// The number that stands for this event on the wire.
    pub fn to_code(&self) -> (code: u32)
        ensures
            code == self.code(),
    {
        match self {
            Event::Regular => 0,
            Event::Completed => 1,
            Event::Started => 2,
            Event::Stopped => 3,
        }
    }

    /// The event that `code` stands for; `None` for any number above 3.
    pub fn from_code(code: u32) -> (event: Option<Event>)
        ensures
            event == Event::of_code(code),
    {
        if code == 0 {
            Some(Event::Regular)
        } else if code == 1 {
            Some(Event::Completed)
        } else if code == 2 {
            Some(Event::Started)
        } else if code == 3 {
            Some(Event::Stopped)
        } else {
            None
        }
    }
}

} // verus!
