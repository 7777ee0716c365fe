//! Constructors for pattern trees.
use vstd::prelude::*;

use crate::pattern::{CharClass, Pattern};

verus! {

/// Matches only the empty string.
pub fn empty() -> (p: Pattern)
    ensures
        p == Pattern::Empty,
        forall|s: Seq<char>| #[trigger] p.matches(s) <==> s.len() == 0,
{
    Pattern::Empty
}

/// Matches any one character.
pub fn dot() -> (p: Pattern)
    ensures
        p == Pattern::Single(CharClass::Any),
        forall|s: Seq<char>| #[trigger] p.matches(s) <==> s.len() == 1,
{
    Pattern::Single(CharClass::Any)
}

/// Matches exactly the one-character string `ch`.
pub fn byte(ch: char) -> (p: Pattern)
    ensures
        p == Pattern::Single(CharClass::Exactly(ch)),
        forall|s: Seq<char>| #[trigger] p.matches(s) <==> s == seq![ch],
{
    let p = Pattern::Single(CharClass::Exactly(ch));
    assert forall|s: Seq<char>| #[trigger] p.matches(s) <==> s == seq![ch] by {
        if s.len() == 1 && s[0] == ch {
            assert(s =~= seq![ch]);
        }
    }
    p
}

/// Matches one character whose scalar value lies between those of `min_ch`
/// and `max_ch`, both included.
pub fn byte_range(min_ch: char, max_ch: char) -> (p: Pattern)
    ensures
        p == Pattern::Single(CharClass::Range(min_ch, max_ch)),
        forall|s: Seq<char>| #[trigger]
            p.matches(s) <==> (s.len() == 1 && (min_ch as u32) <= (s[0] as u32) && (s[0] as u32)
                <= (max_ch as u32)),
{
    Pattern::Single(CharClass::Range(min_ch, max_ch))
}

/// Matches one character that occurs in `chars`.
pub fn one_of(chars: &str) -> (p: Pattern)
    ensures
        p matches Pattern::Single(CharClass::OneOf(_)),
        forall|s: Seq<char>| #[trigger] p.matches(s) <==> (s.len() == 1 && chars@.contains(s[0])),
{
    let mut set: Vec<char> = Vec::new();
    for c in it: chars.chars()
        invariant
            it.seq() == chars@,
            set@ == chars@.take(it.index() as int),
    {
        let ghost i = it.index() as int;
        set.push(c);
        assert(set@ =~= chars@.take(i + 1));
    }
    assert(set@ =~= chars@);
    Pattern::Single(CharClass::OneOf(set))
}

/// Matches a match of `first` followed by a match of `second`.
pub fn seq(first: Pattern, second: Pattern) -> (p: Pattern)
    ensures
        p == Pattern::Sequence(Box::new(first), Box::new(second)),
{
    Pattern::Sequence(Box::new(first), Box::new(second))
}

/// Matches what `left` or `right` matches.
pub fn alt(left: Pattern, right: Pattern) -> (p: Pattern)
    ensures
        p == Pattern::Alternation(Box::new(left), Box::new(right)),
        forall|s: Seq<char>| #[trigger] p.matches(s) == (left.matches(s) || right.matches(s)),
{
    Pattern::Alternation(Box::new(left), Box::new(right))
}

/// Matches any number of consecutive matches of `regex`, none included.
pub fn star(regex: Pattern) -> (p: Pattern)
    ensures
        p == Pattern::ZeroOrMore(Box::new(regex)),
{
    Pattern::ZeroOrMore(Box::new(regex))
}

/// Matches the empty string or a match of `regex`.
pub fn maybe(regex: Pattern) -> (p: Pattern)
    ensures
        p == Pattern::Optional(Box::new(regex)),
        forall|s: Seq<char>| #[trigger] p.matches(s) == (s.len() == 0 || regex.matches(s)),
{
    Pattern::Optional(Box::new(regex))
}

} // verus!
