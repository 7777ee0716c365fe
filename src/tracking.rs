//! What a tracking state knows about the input it has consumed.
//!
//! A state is read against the input so far and a set of start positions: the
//! strings it tracks are the suffixes of the input that begin at those
//! positions. `Tracker::tracks` says that every node of the state holds exactly
//! the facts about those strings that its pattern node needs, and the lemmas
//! here show that `start` and `advance` keep it so and that `accepts` then tells
//! whether a tracked string matches.
use vstd::prelude::*;

use crate::pattern::{lemma_sequence_matches, lemma_zero_or_more_matches, Pattern};
use crate::regex::{drive, scan, Regex};
use crate::simple_state::SimpleState;
use crate::tracker::{accepted, Tracker};

verus! {

/// Every start position lies within an input of length `n`.
pub open spec fn within(starts: Set<int>, n: int) -> bool {
    forall|i: int| #[trigger] starts.contains(i) ==> 0 <= i <= n
}

/// The input from some start position on matches `p`.
pub open spec fn live(p: Pattern, input: Seq<char>, starts: Set<int>) -> bool {
    exists|i: int| #[trigger]
        starts.contains(i) && p.matches(input.subrange(i, input.len() as int))
}

/// The positions at which a match of `p` that begins at a start position ends.
pub open spec fn ends(p: Pattern, input: Seq<char>, starts: Set<int>) -> Set<int> {
    Set::new(
        |j: int|
            0 <= j <= input.len() && exists|i: int| #[trigger]
                starts.contains(i) && i <= j && p.matches(input.subrange(i, j)),
    )
}

impl<'a> Tracker<'a> {
    /// The state tracks the suffixes of `input` that begin at `starts`.
    pub open spec fn tracks(self, input: Seq<char>, starts: Set<int>) -> bool
        decreases self,
    {
        let n = input.len() as int;
        match self {
            Tracker::Empty(e) => e == starts.contains(n),
            Tracker::Single(k, s) => s.has_empty() == starts.contains(n) && s.has_end() == (n >= 1
                && starts.contains(n - 1) && k.spec_contains(input[n - 1])),
            Tracker::Sequence(a, b) => a.tracks(input, starts) && b.tracks(
                input,
                ends(a.pattern(), input, starts),
            ),
            Tracker::Alternation(a, b) => a.tracks(input, starts) && b.tracks(input, starts),
            Tracker::ZeroOrMore(init, a) => {
                let mid = ends(self.pattern(), input, starts);
                init == mid.contains(n) && a.tracks(input, mid)
            },
            Tracker::Optional(init, a) => init == starts.contains(n) && a.tracks(input, starts),
        }
    }
}

proof fn lemma_ends_at_end(p: Pattern, input: Seq<char>, starts: Set<int>)
    requires
        within(starts, input.len() as int),
    ensures
        within(ends(p, input, starts), input.len() as int),
        ends(p, input, starts).contains(input.len() as int) == live(p, input, starts),
{
    let n = input.len() as int;
    if live(p, input, starts) {
        let i = choose|i: int| #[trigger]
            starts.contains(i) && p.matches(input.subrange(i, n));
        assert(ends(p, input, starts).contains(n));
    }
}

proof fn lemma_ends_start(p: Pattern, input: Seq<char>, starts: Set<int>)
    requires
        within(starts, input.len() as int),
    ensures
        ends(p, input, starts.insert(input.len() as int)) == if live(
            p,
            input,
            starts.insert(input.len() as int),
        ) {
            ends(p, input, starts).insert(input.len() as int)
        } else {
            ends(p, input, starts)
        },
{
    let n = input.len() as int;
    let s2 = starts.insert(n);
    let e = ends(p, input, starts);
    let e2 = ends(p, input, s2);
    let goal = if live(p, input, s2) {
        e.insert(n)
    } else {
        e
    };
    assert forall|j: int| e2.contains(j) <==> goal.contains(j) by {
        if e2.contains(j) && j < n {
            let i = choose|i: int| #[trigger] s2.contains(i) && i <= j && p.matches(input.subrange(i, j));
            assert(starts.contains(i));
        }
        if e.contains(j) {
            let i = choose|i: int| #[trigger]
                starts.contains(i) && i <= j && p.matches(input.subrange(i, j));
            assert(s2.contains(i));
        }
        if e2.contains(j) && j == n {
            let i = choose|i: int| #[trigger] s2.contains(i) && i <= j && p.matches(input.subrange(i, j));
            assert(live(p, input, s2));
        }
        if j == n && live(p, input, s2) {
            let i = choose|i: int| #[trigger] s2.contains(i) && p.matches(input.subrange(i, n));
            assert(e2.contains(n));
        }
    }
    assert(e2 =~= goal);
}

proof fn lemma_ends_advance(p: Pattern, input: Seq<char>, starts: Set<int>, c: char)
    requires
        within(starts, input.len() as int),
    ensures
        ends(p, input.push(c), starts) == if live(p, input.push(c), starts) {
            ends(p, input, starts).insert(input.len() as int + 1)
        } else {
            ends(p, input, starts)
        },
{
    let n = input.len() as int;
    let m = input.push(c);
    let e = ends(p, input, starts);
    let e2 = ends(p, m, starts);
    let goal = if live(p, m, starts) {
        e.insert(n + 1)
    } else {
        e
    };
    assert forall|j: int| e2.contains(j) <==> goal.contains(j) by {
        if e2.contains(j) && j <= n {
            let i = choose|i: int| #[trigger] starts.contains(i) && i <= j && p.matches(m.subrange(i, j));
            assert(m.subrange(i, j) =~= input.subrange(i, j));
        }
        if e.contains(j) {
            let i = choose|i: int| #[trigger]
                starts.contains(i) && i <= j && p.matches(input.subrange(i, j));
            assert(m.subrange(i, j) =~= input.subrange(i, j));
        }
        if e2.contains(j) && j == n + 1 {
            let i = choose|i: int| #[trigger] starts.contains(i) && i <= j && p.matches(m.subrange(i, j));
            assert(live(p, m, starts));
        }
        if j == n + 1 && live(p, m, starts) {
            let i = choose|i: int| #[trigger] starts.contains(i) && p.matches(m.subrange(i, n + 1));
            assert(e2.contains(n + 1));
        }
    }
    assert(e2 =~= goal);
}

/// A non-empty match of a repetition ends with a non-empty match of the
/// repeated pattern.
proof fn lemma_last_piece(a: Pattern, x: Seq<char>, i: int)
    requires
        0 <= i < x.len(),
    ensures
        Pattern::ZeroOrMore(Box::new(a)).matches(x.subrange(i, x.len() as int)) <==> exists|k: int|
            i <= k < x.len() && #[trigger] Pattern::ZeroOrMore(Box::new(a)).matches(x.subrange(i, k))
                && a.matches(x.subrange(k, x.len() as int)),
{
    let star = Pattern::ZeroOrMore(Box::new(a));
    let n = x.len() as int;
    let s = x.subrange(i, n);
    if star.matches(s) {
        lemma_zero_or_more_matches(a, s);
        let kk = choose|kk: int|
            0 <= kk < s.len() && #[trigger] star.matches(s.subrange(0, kk)) && a.matches(
                s.subrange(kk, s.len() as int),
            );
        assert(s.subrange(0, kk) =~= x.subrange(i, i + kk));
        assert(s.subrange(kk, s.len() as int) =~= x.subrange(i + kk, n));
        assert(star.matches(x.subrange(i, i + kk)));
    }
    if exists|k: int|
        i <= k < x.len() && #[trigger] star.matches(x.subrange(i, k)) && a.matches(
            x.subrange(k, x.len() as int),
        ) {
        let k = choose|k: int|
            i <= k < x.len() && #[trigger] star.matches(x.subrange(i, k)) && a.matches(
                x.subrange(k, x.len() as int),
            );
        assert(s.subrange(0, k - i) =~= x.subrange(i, k));
        assert(s.subrange(k - i, s.len() as int) =~= x.subrange(k, n));
        assert(star.matches(s.subrange(0, k - i)));
        lemma_zero_or_more_matches(a, s);
    }
}

impl<'a> Tracker<'a> {
    /// A state that tracks its strings accepts exactly when one of them
    /// matches its pattern.
    pub proof fn lemma_accepts(self, input: Seq<char>, starts: Set<int>)
        requires
            within(starts, input.len() as int),
            self.tracks(input, starts),
        ensures
            accepted(self) == live(self.pattern(), input, starts),
        decreases self,
    {
        let n = input.len() as int;
        match self {
            Tracker::Empty(e) => {
                if e {
                    assert(Pattern::Empty.matches(input.subrange(n, n)));
                    assert(starts.contains(n));
                }
                if live(Pattern::Empty, input, starts) {
                    let i = choose|i: int| #[trigger]
                        starts.contains(i) && Pattern::Empty.matches(input.subrange(i, n));
                    assert(i == n);
                }
            },
            Tracker::Single(k, st) => {
                let p = Pattern::Single(*k);
                if st.has_end() {
                    assert(input.subrange(n - 1, n)[0] == input[n - 1]);
                    assert(p.matches(input.subrange(n - 1, n)));
                    assert(starts.contains(n - 1));
                }
                if live(p, input, starts) {
                    let i = choose|i: int| #[trigger]
                        starts.contains(i) && p.matches(input.subrange(i, n));
                    assert(i == n - 1);
                    assert(input.subrange(n - 1, n)[0] == input[n - 1]);
                }
            },
            Tracker::Sequence(a, b) => {
                let pa = a.pattern();
                let pb = b.pattern();
                let mid = ends(pa, input, starts);
                lemma_ends_at_end(pa, input, starts);
                b.lemma_accepts(input, mid);
                if live(pb, input, mid) {
                    let j = choose|j: int| #[trigger]
                        mid.contains(j) && pb.matches(input.subrange(j, n));
                    let i = choose|i: int| #[trigger]
                        starts.contains(i) && i <= j && pa.matches(input.subrange(i, j));
                    let s = input.subrange(i, n);
                    assert(s.subrange(0, j - i) =~= input.subrange(i, j));
                    assert(s.subrange(j - i, s.len() as int) =~= input.subrange(j, n));
                    assert(pa.matches(s.subrange(0, j - i)));
                    lemma_sequence_matches(pa, pb, s);
                    assert(self.pattern().matches(s));
                }
                if live(self.pattern(), input, starts) {
                    let i = choose|i: int| #[trigger]
                        starts.contains(i) && self.pattern().matches(input.subrange(i, n));
                    let s = input.subrange(i, n);
                    lemma_sequence_matches(pa, pb, s);
                    let k = choose|k: int|
                        0 <= k <= s.len() && #[trigger] pa.matches(s.subrange(0, k)) && pb.matches(
                            s.subrange(k, s.len() as int),
                        );
                    assert(s.subrange(0, k) =~= input.subrange(i, i + k));
                    assert(s.subrange(k, s.len() as int) =~= input.subrange(i + k, n));
                    assert(mid.contains(i + k));
                }
            },
            Tracker::Alternation(a, b) => {
                a.lemma_accepts(input, starts);
                b.lemma_accepts(input, starts);
                let p = self.pattern();
                if live(a.pattern(), input, starts) {
                    let i = choose|i: int| #[trigger]
                        starts.contains(i) && a.pattern().matches(input.subrange(i, n));
                    assert(p.matches(input.subrange(i, n)));
                }
                if live(b.pattern(), input, starts) {
                    let i = choose|i: int| #[trigger]
                        starts.contains(i) && b.pattern().matches(input.subrange(i, n));
                    assert(p.matches(input.subrange(i, n)));
                }
            },
            Tracker::ZeroOrMore(init, a) => {
                let pa = a.pattern();
                let star = self.pattern();
                let mid = ends(star, input, starts);
                lemma_ends_at_end(star, input, starts);
                a.lemma_accepts(input, mid);
                if live(pa, input, mid) {
                    let k = choose|k: int| #[trigger]
                        mid.contains(k) && pa.matches(input.subrange(k, n));
                    if k < n {
                        let i = choose|i: int| #[trigger]
                            starts.contains(i) && i <= k && star.matches(input.subrange(i, k));
                        lemma_last_piece(pa, input, i);
                        assert(star.matches(input.subrange(i, n)));
                        assert(mid.contains(n));
                    }
                }
            },
            Tracker::Optional(init, a) => {
                a.lemma_accepts(input, starts);
                let p = self.pattern();
                if init {
                    assert(p.matches(input.subrange(n, n)));
                    assert(starts.contains(n));
                }
                if live(a.pattern(), input, starts) {
                    let i = choose|i: int| #[trigger]
                        starts.contains(i) && a.pattern().matches(input.subrange(i, n));
                    assert(p.matches(input.subrange(i, n)));
                }
                if live(p, input, starts) {
                    let i = choose|i: int| #[trigger]
                        starts.contains(i) && p.matches(input.subrange(i, n));
                    if i < n {
                        assert(a.pattern().matches(input.subrange(i, n)));
                    }
                }
            },
        }
    }

    /// After `start` the state tracks the empty string as well.
    pub proof fn lemma_start(self, input: Seq<char>, starts: Set<int>)
        requires
            within(starts, input.len() as int),
            self.tracks(input, starts),
        ensures
            self.spec_start().tracks(input, starts.insert(input.len() as int)),
        decreases self,
    {
        let n = input.len() as int;
        let s2 = starts.insert(n);
        match self {
            Tracker::Sequence(a, b) => {
                let pa = a.pattern();
                let mid = ends(pa, input, starts);
                let a2 = a.spec_start();
                a.lemma_start(input, starts);
                a.lemma_start_keeps_pattern();
                a2.lemma_accepts(input, s2);
                lemma_ends_start(pa, input, starts);
                lemma_ends_at_end(pa, input, starts);
                b.lemma_start(input, mid);
            },
            Tracker::Alternation(a, b) => {
                a.lemma_start(input, starts);
                b.lemma_start(input, starts);
            },
            Tracker::ZeroOrMore(init, a) => {
                let star = self.pattern();
                let mid = ends(star, input, starts);
                lemma_ends_at_end(star, input, starts);
                a.lemma_start(input, mid);
                self.lemma_start_keeps_pattern();
                lemma_ends_start(star, input, starts);
                assert(star.matches(input.subrange(n, n)));
                assert(s2.contains(n));
                assert(live(star, input, s2));
            },
            Tracker::Optional(init, a) => {
                a.lemma_start(input, starts);
            },
            _ => {},
        }
    }

    /// After `advance(c)` the state tracks the same strings, each extended by
    /// `c`.
    pub proof fn lemma_advance(self, input: Seq<char>, starts: Set<int>, c: char)
        requires
            within(starts, input.len() as int),
            self.tracks(input, starts),
        ensures
            self.spec_advance(c).tracks(input.push(c), starts),
        decreases self,
    {
        let n = input.len() as int;
        let m = input.push(c);
        assert(within(starts, n + 1));
        match self {
            Tracker::Single(k, st) => {
                assert(m[n] == c);
            },
            Tracker::Sequence(a, b) => {
                let pa = a.pattern();
                let mid = ends(pa, input, starts);
                lemma_ends_at_end(pa, input, starts);
                assert(within(mid, n + 1));
                let b2 = b.spec_advance(c);
                let a2 = a.spec_advance(c);
                b.lemma_advance(input, mid, c);
                a.lemma_advance(input, starts, c);
                a.lemma_advance_keeps_pattern(c);
                a2.lemma_accepts(m, starts);
                lemma_ends_advance(pa, input, starts, c);
                b2.lemma_start(m, mid);
            },
            Tracker::Alternation(a, b) => {
                a.lemma_advance(input, starts, c);
                b.lemma_advance(input, starts, c);
            },
            Tracker::ZeroOrMore(init, a) => {
                let pa = a.pattern();
                let star = self.pattern();
                let mid = ends(star, input, starts);
                lemma_ends_at_end(star, input, starts);
                assert(within(mid, n + 1));
                let a2 = a.spec_advance(c);
                a.lemma_advance(input, mid, c);
                a.lemma_advance_keeps_pattern(c);
                self.lemma_advance_keeps_pattern(c);
                a2.lemma_accepts(m, mid);
                lemma_ends_advance(star, input, starts, c);
                if live(star, m, starts) {
                    let i = choose|i: int| #[trigger]
                        starts.contains(i) && star.matches(m.subrange(i, n + 1));
                    lemma_last_piece(pa, m, i);
                    let k = choose|k: int|
                        i <= k < m.len() && #[trigger] star.matches(m.subrange(i, k)) && pa.matches(
                            m.subrange(k, m.len() as int),
                        );
                    assert(m.subrange(i, k) =~= input.subrange(i, k));
                    assert(mid.contains(k));
                    assert(live(pa, m, mid));
                }
                if live(pa, m, mid) {
                    let k = choose|k: int| #[trigger]
                        mid.contains(k) && pa.matches(m.subrange(k, n + 1));
                    let i = choose|i: int| #[trigger]
                        starts.contains(i) && i <= k && star.matches(input.subrange(i, k));
                    assert(m.subrange(i, k) =~= input.subrange(i, k));
                    lemma_last_piece(pa, m, i);
                    assert(star.matches(m.subrange(i, n + 1)));
                }
                if accepted(a2) {
                    a2.lemma_start(m, mid);
                }
            },
            Tracker::Optional(init, a) => {
                a.lemma_advance(input, starts, c);
            },
            _ => {},
        }
    }
}

/// Advancing over `w` keeps a state tracking the same start positions of the
/// longer input, and keeps its pattern.
pub proof fn lemma_scan<'a>(t: Tracker<'a>, input: Seq<char>, starts: Set<int>, w: Seq<char>)
    requires
        within(starts, input.len() as int),
        t.tracks(input, starts),
    ensures
        scan(t, w).tracks(input + w, starts),
        scan(t, w).pattern() == t.pattern(),
    decreases w.len(),
{
    if w.len() == 0 {
        assert(input + w =~= input);
    } else {
        let v = w.drop_last();
        lemma_scan(t, input, starts, v);
        let u = scan(t, v);
        u.lemma_advance(input + v, starts, w.last());
        u.lemma_advance_keeps_pattern(w.last());
        assert((input + v).push(w.last()) =~= input + w);
    }
}

impl Pattern {
    /// A fresh tracking state for one match attempt: it tracks no string yet.
    pub fn tracker<'a>(&'a self) -> (t: Tracker<'a>)
        ensures
            t.pattern() == *self,
            t.tracks(Seq::empty(), Set::empty()),
        decreases self,
    {
        match self {
            Pattern::Empty => Tracker::Empty(false),
            Pattern::Single(k) => Tracker::Single(k, SimpleState::Neither),
            Pattern::Sequence(a, b) => {
                let ta = a.tracker();
                let tb = b.tracker();
                assert(ends(ta.pattern(), Seq::empty(), Set::empty()) =~= Set::<int>::empty());
                Tracker::Sequence(Box::new(ta), Box::new(tb))
            },
            Pattern::Alternation(a, b) => {
                let ta = a.tracker();
                let tb = b.tracker();
                Tracker::Alternation(Box::new(ta), Box::new(tb))
            },
            Pattern::ZeroOrMore(a) => {
                let ta = a.tracker();
                assert(ends(*self, Seq::empty(), Set::empty()) =~= Set::<int>::empty());
                Tracker::ZeroOrMore(false, Box::new(ta))
            },
            Pattern::Optional(a) => {
                let ta = a.tracker();
                Tracker::Optional(false, Box::new(ta))
            },
        }
    }

    /// Whether the whole of `input` matches the pattern (not merely some part
    /// of it).
    pub fn is_match(&self, input: &str) -> (r: bool)
        ensures
            r == self.matches(input@),
    {
        let t = self.tracker();
        let ghost t0 = t;
        let r = drive(t, input);
        proof {
            let e = Seq::<char>::empty();
            let s0 = Set::<int>::empty().insert(0);
            t0.lemma_start(e, Set::empty());
            t0.lemma_start_keeps_pattern();
            let t1 = t0.spec_start();
            lemma_scan(t1, e, s0, input@);
            assert(e + input@ =~= input@);
            scan(t1, input@).lemma_accepts(input@, s0);
            assert(input@.subrange(0, input@.len() as int) =~= input@);
            if self.matches(input@) {
                assert(s0.contains(0));
            }
        }
        r
    }
}

} // verus!
