//! The tracking state of a pattern tree, one node per pattern node.
use vstd::prelude::*;

use crate::accepts::Accepts;
use crate::pattern::{CharClass, Pattern};
use crate::regex::Regex;
use crate::simple_state::SimpleState;

verus! {

/// The tracking state of one match attempt. Each node holds the dynamic part
/// of its pattern node; a single-character node borrows its class from the
/// pattern.
pub enum Tracker<'a> {
    /// Whether the empty string is tracked.
    Empty(bool),
    Single(&'a CharClass, SimpleState),
    Sequence(Box<Tracker<'a>>, Box<Tracker<'a>>),
    Alternation(Box<Tracker<'a>>, Box<Tracker<'a>>),
    /// Whether a complete repetition ends here, and the state of the
    /// repetition under way.
    ZeroOrMore(bool, Box<Tracker<'a>>),
    /// Whether the empty string is tracked, and the state of the inner pattern.
    Optional(bool, Box<Tracker<'a>>),
}

/// The boolean reading of a tracking state's answer.
pub open spec fn accepted<'a>(t: Tracker<'a>) -> bool {
    t.spec_accepts().spec_is_accepted()
}

impl<'a> Tracker<'a> {
    /// The pattern this state tracks.
    pub open spec fn pattern(self) -> Pattern
        decreases self,
    {
        match self {
            Tracker::Empty(_) => Pattern::Empty,
            Tracker::Single(k, _) => Pattern::Single(*k),
            Tracker::Sequence(a, b) => Pattern::Sequence(Box::new(a.pattern()), Box::new(b.pattern())),
            Tracker::Alternation(a, b) => Pattern::Alternation(
                Box::new(a.pattern()),
                Box::new(b.pattern()),
            ),
            Tracker::ZeroOrMore(_, a) => Pattern::ZeroOrMore(Box::new(a.pattern())),
            Tracker::Optional(_, a) => Pattern::Optional(Box::new(a.pattern())),
        }
    }

    /// `start` keeps an `Always` answer.
    pub proof fn lemma_start_keeps_always(self)
        ensures
            self.spec_accepts() is Always ==> self.spec_start().spec_accepts() is Always,
        decreases self,
    {
        match self {
            Tracker::Sequence(a, b) => {
                a.lemma_start_keeps_always();
                b.lemma_start_keeps_always();
            },
            Tracker::Alternation(a, b) => {
                a.lemma_start_keeps_always();
                b.lemma_start_keeps_always();
            },
            Tracker::ZeroOrMore(_, a) => {
                a.lemma_start_keeps_always();
            },
            Tracker::Optional(_, a) => {
                a.lemma_start_keeps_always();
            },
            _ => {},
        }
    }

    /// `start` does not change the pattern a state tracks.
    pub proof fn lemma_start_keeps_pattern(self)
        ensures
            self.spec_start().pattern() == self.pattern(),
        decreases self,
    {
        match self {
            Tracker::Sequence(a, b) => {
                a.lemma_start_keeps_pattern();
                b.lemma_start_keeps_pattern();
            },
            Tracker::Alternation(a, b) => {
                a.lemma_start_keeps_pattern();
                b.lemma_start_keeps_pattern();
            },
            Tracker::ZeroOrMore(_, a) => {
                a.lemma_start_keeps_pattern();
            },
            Tracker::Optional(_, a) => {
                a.lemma_start_keeps_pattern();
            },
            _ => {},
        }
    }

    /// `advance` does not change the pattern a state tracks.
    pub proof fn lemma_advance_keeps_pattern(self, c: char)
        ensures
            self.spec_advance(c).pattern() == self.pattern(),
        decreases self,
    {
        match self {
            Tracker::Sequence(a, b) => {
                a.lemma_advance_keeps_pattern(c);
                b.lemma_advance_keeps_pattern(c);
                b.spec_advance(c).lemma_start_keeps_pattern();
            },
            Tracker::Alternation(a, b) => {
                a.lemma_advance_keeps_pattern(c);
                b.lemma_advance_keeps_pattern(c);
            },
            Tracker::ZeroOrMore(_, a) => {
                a.lemma_advance_keeps_pattern(c);
                a.spec_advance(c).lemma_start_keeps_pattern();
            },
            Tracker::Optional(_, a) => {
                a.lemma_advance_keeps_pattern(c);
            },
            _ => {},
        }
    }
}

impl<'a> Regex for Tracker<'a> {
    open spec fn spec_start(self) -> Self
        decreases self,
    {
        match self {
            Tracker::Empty(_) => Tracker::Empty(true),
            Tracker::Single(k, s) => Tracker::Single(k, SimpleState::from_facts(true, s.has_end())),
            Tracker::Sequence(a, b) => {
                let a2 = a.spec_start();
                if a2.spec_accepts().spec_is_accepted() {
                    Tracker::Sequence(Box::new(a2), Box::new(b.spec_start()))
                } else {
                    Tracker::Sequence(Box::new(a2), b)
                }
            },
            Tracker::Alternation(a, b) => Tracker::Alternation(
                Box::new(a.spec_start()),
                Box::new(b.spec_start()),
            ),
            Tracker::ZeroOrMore(_, a) => Tracker::ZeroOrMore(true, Box::new(a.spec_start())),
            Tracker::Optional(_, a) => Tracker::Optional(true, Box::new(a.spec_start())),
        }
    }

    open spec fn spec_advance(self, c: char) -> Self
        decreases self,
    {
        match self {
            Tracker::Empty(_) => Tracker::Empty(false),
            Tracker::Single(k, s) => Tracker::Single(
                k,
                if k.spec_contains(c) {
                    SimpleState::from_facts(false, s.has_empty())
                } else {
                    SimpleState::Neither
                },
            ),
            Tracker::Sequence(a, b) => {
                let b2 = b.spec_advance(c);
                let a2 = a.spec_advance(c);
                if a2.spec_accepts().spec_is_accepted() {
                    Tracker::Sequence(Box::new(a2), Box::new(b2.spec_start()))
                } else {
                    Tracker::Sequence(Box::new(a2), Box::new(b2))
                }
            },
            Tracker::Alternation(a, b) => Tracker::Alternation(
                Box::new(a.spec_advance(c)),
                Box::new(b.spec_advance(c)),
            ),
            Tracker::ZeroOrMore(_, a) => {
                let a2 = a.spec_advance(c);
                if a2.spec_accepts().spec_is_accepted() {
                    Tracker::ZeroOrMore(true, Box::new(a2.spec_start()))
                } else {
                    Tracker::ZeroOrMore(false, Box::new(a2))
                }
            },
            Tracker::Optional(_, a) => Tracker::Optional(false, Box::new(a.spec_advance(c))),
        }
    }

    // No node answers `Always` by itself: a tracked empty string, or a
    // repetition that has just completed, is dropped by the next character
    // unless the rest of the pattern keeps it alive, so either is only a `Yes`.
    // A sequence whose second operand is dead answers `Never` only when its
    // first operand is dead as well, since a later match of the first would
    // start the second afresh.
    open spec fn spec_accepts(self) -> Accepts
        decreases self,
    {
        match self {
            Tracker::Empty(e) => if e {
                Accepts::Yes
            } else {
                Accepts::Never
            },
            Tracker::Single(_, s) => s.spec_accepts(),
            Tracker::Sequence(a, b) => {
                let rb = b.spec_accepts();
                if rb is Never && !(a.spec_accepts() is Never) {
                    Accepts::No
                } else {
                    rb
                }
            },
            Tracker::Alternation(a, b) => a.spec_accepts().spec_combine(b.spec_accepts()),
            Tracker::ZeroOrMore(init, a) => if init {
                Accepts::Yes.spec_combine(a.spec_accepts())
            } else {
                a.spec_accepts()
            },
            Tracker::Optional(init, a) => if init {
                Accepts::Yes.spec_combine(a.spec_accepts())
            } else {
                a.spec_accepts()
            },
        }
    }

    fn start(&mut self)
        decreases *old(self),
    {
        match self {
            Tracker::Empty(e) => {
                *e = true;
            },
            Tracker::Single(_, s) => {
                s.start();
            },
            Tracker::Sequence(a, b) => {
                a.start();
                if a.accepts().is_accepted() {
                    b.start();
                }
            },
            Tracker::Alternation(a, b) => {
                a.start();
                b.start();
            },
            Tracker::ZeroOrMore(init, a) => {
                *init = true;
                a.start();
            },
            Tracker::Optional(init, a) => {
                *init = true;
                a.start();
            },
        }
    }

    fn advance(&mut self, c: char)
        decreases *old(self),
    {
        match self {
            Tracker::Empty(e) => {
                *e = false;
            },
            Tracker::Single(k, s) => {
                if k.contains(c) {
                    s.advance();
                } else {
                    s.die();
                }
            },
            Tracker::Sequence(a, b) => {
                // The second operand steps over `c` from where it stood before
                // this character; only then may a match of the first operand
                // that ends with `c` start it afresh.
                b.advance(c);
                a.advance(c);
                if a.accepts().is_accepted() {
                    b.start();
                }
            },
            Tracker::Alternation(a, b) => {
                a.advance(c);
                b.advance(c);
            },
            Tracker::ZeroOrMore(init, a) => {
                *init = false;
                a.advance(c);
                // A repetition that ends here lets the next one begin at the
                // very next character.
                if a.accepts().is_accepted() {
                    *init = true;
                    a.start();
                }
            },
            Tracker::Optional(init, a) => {
                *init = false;
                a.advance(c);
            },
        }
    }

    fn accepts(&self) -> (r: Accepts)
        decreases *self,
    {
        match self {
            Tracker::Empty(e) => if *e {
                Accepts::Yes
            } else {
                Accepts::Never
            },
            Tracker::Single(_, s) => s.accepts(),
            Tracker::Sequence(a, b) => {
                let rb = b.accepts();
                if rb == Accepts::Never && a.accepts() != Accepts::Never {
                    Accepts::No
                } else {
                    rb
                }
            },
            Tracker::Alternation(a, b) => a.accepts().combine(b.accepts()),
            Tracker::ZeroOrMore(init, a) | Tracker::Optional(init, a) => {
                let ra = a.accepts();
                if *init {
                    Accepts::Yes.combine(ra)
                } else {
                    ra
                }
            },
        }
    }

    proof fn lemma_final_stays(self, c: char)
        decreases self,
    {
        match self {
            Tracker::Sequence(a, b) => {
                a.lemma_final_stays(c);
                b.lemma_final_stays(c);
                b.spec_advance(c).lemma_start_keeps_always();
            },
            Tracker::Alternation(a, b) => {
                a.lemma_final_stays(c);
                b.lemma_final_stays(c);
            },
            Tracker::ZeroOrMore(_, a) => {
                a.lemma_final_stays(c);
                a.spec_advance(c).lemma_start_keeps_always();
            },
            Tracker::Optional(_, a) => {
                a.lemma_final_stays(c);
            },
            _ => {},
        }
    }
}

} // verus!
