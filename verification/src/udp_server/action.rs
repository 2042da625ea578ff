//! The action field that opens every packet.
use vstd::prelude::*;

verus! {

/// What a packet asks for, or answers.
#[derive(Clone, Copy, Debug, PartialEq, Eq, Structural)]
pub enum Action {
    Connect,
    Announce,
    Scrape,
    Error,
}

impl Action {
    /// The number that stands for this action on the wire.
    pub open spec fn code(self) -> u32 {
        match self {
            Action::Connect => 0,
            Action::Announce => 1,
            Action::Scrape => 2,
            Action::Error => 3,
        }
    }

    /// The action that `code` stands for, if any.
    pub open spec fn of_code(code: u32) -> Option<Action> {
        if code == 0 {
            Some(Action::Connect)
        } else if code == 1 {
            Some(Action::Announce)
        } else if code == 2 {
            Some(Action::Scrape)
        } else if code == 3 {
            Some(Action::Error)
        } else {
            None
        }
    }

    /// Every action is found again from its number, and a number that names
    /// an action is that action's number.
    pub proof fn lemma_code_round_trip(a: Action, code: u32)
        ensures
            Action::of_code(a.code()) == Some(a),
            Action::of_code(code) == Some(a) ==> a.code() == code,
    {
    }

    /// The number that stands for this action on the wire.
    pub fn to_code(&self) -> (code: u32)
        ensures
            code == self.code(),
    {
        match self {
            Action::Connect => 0,
            Action::Announce => 1,
            Action::Scrape => 2,
            Action::Error => 3,
        }
    }

    /// The action that `code` stands for; `None` for any number above 3.
    pub fn from_code(code: u32) -> (action: Option<Action>)
        ensures
            action == Action::of_code(code),
    {
        if code == 0 {
            Some(Action::Connect)
        } else if code == 1 {
            Some(Action::Announce)
        } else if code == 2 {
            Some(Action::Scrape)
        } else if code == 3 {
            Some(Action::Error)
        } else {
            None
        }
    }
}

} // verus!
