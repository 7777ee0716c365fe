//! Laws of the pattern language that relate a composite pattern to its parts.
use vstd::prelude::*;

use crate::pattern::{lemma_sequence_matches, lemma_zero_or_more_matches, Pattern};

verus! {

/// A sequence of `a` and `b` matches `s` exactly when `s` is the concatenation
/// of a match of `a` and a match of `b`, for some way of splitting it.
pub proof fn lemma_sequence_law(a: Pattern, b: Pattern, s: Seq<char>)
    ensures
        Pattern::Sequence(Box::new(a), Box::new(b)).matches(s) <==> exists|s1: Seq<char>, s2: Seq<char>|
            s1 + s2 == s && #[trigger] a.matches(s1) && #[trigger] b.matches(s2),
{
    lemma_sequence_matches(a, b, s);
    if Pattern::Sequence(Box::new(a), Box::new(b)).matches(s) {
        let i = choose|i: int|
            0 <= i <= s.len() && #[trigger] a.matches(s.subrange(0, i)) && b.matches(
                s.subrange(i, s.len() as int),
            );
        let s1 = s.subrange(0, i);
        let s2 = s.subrange(i, s.len() as int);
        assert(s1 + s2 =~= s);
        assert(a.matches(s1) && b.matches(s2));
    }
    if exists|s1: Seq<char>, s2: Seq<char>|
        s1 + s2 == s && #[trigger] a.matches(s1) && #[trigger] b.matches(s2) {
        let (s1, s2) = choose|s1: Seq<char>, s2: Seq<char>|
            s1 + s2 == s && #[trigger] a.matches(s1) && #[trigger] b.matches(s2);
        let i = s1.len() as int;
        assert(s.subrange(0, i) =~= s1);
        assert(s.subrange(i, s.len() as int) =~= s2);
        assert(a.matches(s.subrange(0, i)));
    }
}

proof fn lemma_parts_of_match(a: Pattern, s: Seq<char>) -> (parts: Seq<Seq<char>>)
    requires
        Pattern::ZeroOrMore(Box::new(a)).matches(s),
    ensures
        parts.flatten_alt() == s,
        forall|i: int| 0 <= i < parts.len() ==> #[trigger] a.matches(parts[i]),
    decreases s.len(),
{
    lemma_zero_or_more_matches(a, s);
    if s.len() == 0 {
        let parts = Seq::<Seq<char>>::empty();
        assert(parts.flatten_alt() =~= s);
        parts
    } else {
        let k = choose|k: int|
            0 <= k < s.len() && #[trigger] Pattern::ZeroOrMore(Box::new(a)).matches(
                s.subrange(0, k),
            ) && a.matches(s.subrange(k, s.len() as int));
        let front = lemma_parts_of_match(a, s.subrange(0, k));
        let parts = front.push(s.subrange(k, s.len() as int));
        assert(parts.drop_last() =~= front);
        assert(parts.flatten_alt() =~= s);
        parts
    }
}

proof fn lemma_match_of_parts(a: Pattern, parts: Seq<Seq<char>>)
    requires
        forall|i: int| 0 <= i < parts.len() ==> #[trigger] a.matches(parts[i]),
    ensures
        Pattern::ZeroOrMore(Box::new(a)).matches(parts.flatten_alt()),
    decreases parts.len(),
{
    let star = Pattern::ZeroOrMore(Box::new(a));
    let s = parts.flatten_alt();
    if parts.len() > 0 {
        let front = parts.drop_last();
        let last = parts.last();
        assert forall|i: int| 0 <= i < front.len() implies #[trigger] a.matches(front[i]) by {
            assert(front[i] == parts[i]);
        }
        lemma_match_of_parts(a, front);
        let u = front.flatten_alt();
        assert(s == u + last);
        if last.len() == 0 {
            assert(s =~= u);
        } else {
            let k = u.len() as int;
            assert(s.subrange(0, k) =~= u);
            assert(s.subrange(k, s.len() as int) =~= last);
            assert(a.matches(parts[parts.len() - 1]));
            lemma_zero_or_more_matches(a, s);
            assert(star.matches(s.subrange(0, k)));
        }
    }
}

/// A repetition of `a` matches `s` exactly when `s` is the concatenation of
/// zero or more consecutive pieces, each of them a match of `a`.
pub proof fn lemma_zero_or_more_law(a: Pattern, s: Seq<char>)
    ensures
        Pattern::ZeroOrMore(Box::new(a)).matches(s) <==> exists|parts: Seq<Seq<char>>|
            #[trigger] parts.flatten() == s && forall|i: int|
                0 <= i < parts.len() ==> #[trigger] a.matches(parts[i]),
{
    if Pattern::ZeroOrMore(Box::new(a)).matches(s) {
        let parts = lemma_parts_of_match(a, s);
        parts.lemma_flatten_and_flatten_alt_are_equivalent();
        assert(parts.flatten() == s);
    }
    if exists|parts: Seq<Seq<char>>|
        #[trigger] parts.flatten() == s && forall|i: int|
            0 <= i < parts.len() ==> #[trigger] a.matches(parts[i]) {
        let parts = choose|parts: Seq<Seq<char>>|
            #[trigger] parts.flatten() == s && forall|i: int|
                0 <= i < parts.len() ==> #[trigger] a.matches(parts[i]);
        parts.lemma_flatten_and_flatten_alt_are_equivalent();
        lemma_match_of_parts(a, parts);
    }
}

} // verus!
