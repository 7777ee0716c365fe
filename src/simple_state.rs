//! The four-state automaton shared by the single-character patterns.
use vstd::prelude::*;

use crate::accepts::Accepts;

verus! {

/// Two independent facts about a single-character pattern's tracking set:
/// whether the empty string is tracked (`Start`, `Both`), and whether the last
/// character completed a match (`End`, `Both`).
#[derive(Clone, Copy, Debug, PartialEq, Eq, Structural)]
pub enum SimpleState {
    Start,
    End,
    Both,
    Neither,
}

impl SimpleState {
    /// The empty string is tracked.
    pub open spec fn has_empty(self) -> bool {
        self is Start || self is Both
    }

    /// The character just consumed completed a match.
    pub open spec fn has_end(self) -> bool {
        self is End || self is Both
    }

    /// The state holding exactly the two given facts.
    pub open spec fn from_facts(empty: bool, end: bool) -> SimpleState {
        if empty && end {
            SimpleState::Both
        } else if empty {
            SimpleState::Start
        } else if end {
            SimpleState::End
        } else {
            SimpleState::Neither
        }
    }

    pub open spec fn spec_accepts(&self) -> Accepts {
        match self {
            SimpleState::End | SimpleState::Both => Accepts::Yes,
            SimpleState::Start => Accepts::No,
            SimpleState::Neither => Accepts::Never,
        }
    }

    /// Adds the empty string to the tracking set.
    pub fn start(&mut self)
        ensures
            *final(self) == SimpleState::from_facts(true, old(self).has_end()),
    {
        *self = match *self {
            SimpleState::Neither | SimpleState::Start => SimpleState::Start,
            SimpleState::Both | SimpleState::End => SimpleState::Both,
        };
    }

    /// Steps over a character that the pattern's predicate accepts: a tracked
    /// empty string becomes a completed match, and nothing else survives.
    pub fn advance(&mut self)
        ensures
            *final(self) == SimpleState::from_facts(false, old(self).has_empty()),
    {
        *self = match *self {
            SimpleState::Neither | SimpleState::End => SimpleState::Neither,
            SimpleState::Both | SimpleState::Start => SimpleState::End,
        };
    }

    /// Steps over a character that the pattern's predicate rejects.
    pub fn die(&mut self)
        ensures
            *final(self) == SimpleState::Neither,
    {
        *self = SimpleState::Neither;
    }

    #[verifier::when_used_as_spec(spec_accepts)]
    pub fn accepts(&self) -> (r: Accepts)
        ensures
            r == self.spec_accepts(),
    {
        match *self {
            SimpleState::End | SimpleState::Both => Accepts::Yes,
            SimpleState::Start => Accepts::No,
            SimpleState::Neither => Accepts::Never,
        }
    }
}

} // verus!
