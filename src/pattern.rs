//! Pattern trees and the language each one denotes.
use vstd::prelude::*;

verus! {

/// The characters a single-character pattern accepts.
pub enum CharClass {
    /// Every character.
    Any,
    /// Exactly this character.
    Exactly(char),
    /// Every character whose scalar value lies between the two, both included.
    Range(char, char),
    /// Every character of the list.
    OneOf(Vec<char>),
}

impl CharClass {
    pub open spec fn spec_contains(&self, c: char) -> bool {
        match self {
            CharClass::Any => true,
            CharClass::Exactly(x) => c == *x,
            CharClass::Range(lo, hi) => (*lo as u32) <= (c as u32) && (c as u32) <= (*hi as u32),
            CharClass::OneOf(v) => v@.contains(c),
        }
    }

    #[verifier::when_used_as_spec(spec_contains)]
    pub fn contains(&self, c: char) -> (r: bool)
        ensures
            r == self.spec_contains(c),
    {
        match self {
            CharClass::Any => true,
            CharClass::Exactly(x) => c == *x,
            CharClass::Range(lo, hi) => (*lo as u32) <= (c as u32) && (c as u32) <= (*hi as u32),
            CharClass::OneOf(v) => list_contains(v, c),
        }
    }
}

fn list_contains(v: &Vec<char>, c: char) -> (r: bool)
    ensures
        r == v@.contains(c),
{
    let mut i: usize = 0;
    while i < v.len()
        invariant
            0 <= i <= v.len(),
            forall|j: int| 0 <= j < i ==> v@[j] != c,
        decreases v.len() - i,
    {
        if v[i] == c {
            assert(v@[i as int] == c);
            return true;
        }
        i = i + 1;
    }
    false
}

/// An immutable description of a whole-input match rule.
pub enum Pattern {
    /// Matches only the empty string.
    Empty,
    /// Matches one character of the class.
    Single(CharClass),
    /// Matches a string made of a match of the first followed by a match of the
    /// second.
    Sequence(Box<Pattern>, Box<Pattern>),
    /// Matches what either side matches.
    Alternation(Box<Pattern>, Box<Pattern>),
    /// Matches any number of consecutive matches of the inner pattern.
    ZeroOrMore(Box<Pattern>),
    /// Matches the empty string or a match of the inner pattern.
    Optional(Box<Pattern>),
}

impl Pattern {
    /// The language of the pattern: whether the whole of `s` matches it.
    pub open spec fn matches(self, s: Seq<char>) -> bool
        decreases self, s.len(), 1int, 0int,
    {
        match self {
            Pattern::Empty => s.len() == 0,
            Pattern::Single(cls) => s.len() == 1 && cls.spec_contains(s[0]),
            Pattern::Sequence(_, _) => self.split_within(s, s.len() as int),
            Pattern::Alternation(a, b) => a.matches(s) || b.matches(s),
            Pattern::ZeroOrMore(_) => s.len() == 0 || self.last_piece_within(s, s.len() - 1),
            Pattern::Optional(a) => s.len() == 0 || a.matches(s),
        }
    }

    /// For a sequence: `s` splits at some position in `0..=i` into a match of
    /// the first operand followed by a match of the second.
    pub open spec fn split_within(self, s: Seq<char>, i: int) -> bool
        decreases self, s.len(), 0int, i,
    {
        match self {
            Pattern::Sequence(a, b) => (0 <= i <= s.len() && a.matches(s.subrange(0, i))
                && b.matches(s.subrange(i, s.len() as int))) || (0 < i <= s.len()
                && self.split_within(s, i - 1)),
            _ => false,
        }
    }

    /// For a repetition: `s` ends with a non-empty match of the repeated
    /// pattern that begins at some position in `0..=k`, after a match of the
    /// repetition. Empty pieces add nothing to a partition, so the last one is
    /// taken non-empty.
    pub open spec fn last_piece_within(self, s: Seq<char>, k: int) -> bool
        decreases self, s.len(), 0int, k,
    {
        match self {
            Pattern::ZeroOrMore(a) => (0 <= k < s.len() && self.matches(s.subrange(0, k))
                && a.matches(s.subrange(k, s.len() as int))) || (0 < k < s.len()
                && self.last_piece_within(s, k - 1)),
            _ => false,
        }
    }
}

proof fn lemma_split_within(a: Pattern, b: Pattern, s: Seq<char>, i: int)
    requires
        0 <= i <= s.len(),
    ensures
        Pattern::Sequence(Box::new(a), Box::new(b)).split_within(s, i) <==> exists|j: int|
            0 <= j <= i && #[trigger] a.matches(s.subrange(0, j)) && b.matches(
                s.subrange(j, s.len() as int),
            ),
    decreases i,
{
    let p = Pattern::Sequence(Box::new(a), Box::new(b));
    if i > 0 {
        lemma_split_within(a, b, s, i - 1);
    }
    if p.split_within(s, i) {
        if a.matches(s.subrange(0, i)) && b.matches(s.subrange(i, s.len() as int)) {
        } else {
            let j = choose|j: int|
                0 <= j <= i - 1 && #[trigger] a.matches(s.subrange(0, j)) && b.matches(
                    s.subrange(j, s.len() as int),
                );
            assert(0 <= j <= i && a.matches(s.subrange(0, j)));
        }
    }
}

/// A sequence matches `s` exactly when `s` splits at some position into a
/// match of the first operand followed by a match of the second.
pub proof fn lemma_sequence_matches(a: Pattern, b: Pattern, s: Seq<char>)
    ensures
        Pattern::Sequence(Box::new(a), Box::new(b)).matches(s) <==> exists|i: int|
            0 <= i <= s.len() && #[trigger] a.matches(s.subrange(0, i)) && b.matches(
                s.subrange(i, s.len() as int),
            ),
{
    lemma_split_within(a, b, s, s.len() as int);
}

proof fn lemma_last_piece_within(a: Pattern, s: Seq<char>, k: int)
    requires
        0 <= k < s.len(),
    ensures
        Pattern::ZeroOrMore(Box::new(a)).last_piece_within(s, k) <==> exists|j: int|
            0 <= j <= k && #[trigger] Pattern::ZeroOrMore(Box::new(a)).matches(s.subrange(0, j))
                && a.matches(s.subrange(j, s.len() as int)),
    decreases k,
{
    let p = Pattern::ZeroOrMore(Box::new(a));
    if k > 0 {
        lemma_last_piece_within(a, s, k - 1);
    }
    if p.last_piece_within(s, k) {
        if p.matches(s.subrange(0, k)) && a.matches(s.subrange(k, s.len() as int)) {
        } else {
            let j = choose|j: int|
                0 <= j <= k - 1 && #[trigger] p.matches(s.subrange(0, j)) && a.matches(
                    s.subrange(j, s.len() as int),
                );
            assert(0 <= j <= k && p.matches(s.subrange(0, j)));
        }
    }
}

/// A repetition matches `s` exactly when `s` is empty or ends with a non-empty
/// match of the repeated pattern that follows a match of the repetition.
pub proof fn lemma_zero_or_more_matches(a: Pattern, s: Seq<char>)
    ensures
        Pattern::ZeroOrMore(Box::new(a)).matches(s) <==> (s.len() == 0 || exists|k: int|
            0 <= k < s.len() && #[trigger] Pattern::ZeroOrMore(Box::new(a)).matches(
                s.subrange(0, k),
            ) && a.matches(s.subrange(k, s.len() as int))),
{
    if s.len() > 0 {
        lemma_last_piece_within(a, s, s.len() - 1);
    }
}

} // verus!
