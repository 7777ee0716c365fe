//! The tracking-state capability and the matching driver built on it.
use vstd::prelude::*;

use crate::accepts::Accepts;

verus! {

/// A tracking state: a mutable record of which strings, among those started
/// since the state was made, are still partial matches of some rule.
///
/// `start` adds the empty string to the tracked strings, `advance` appends a
/// character to each of them, and `accepts` says whether one of them is a
/// complete match. An implementation may answer `Always` or `Never` only when
/// the answer survives every further `advance`, which `lemma_final_stays`
/// obliges it to prove.
pub trait Regex: Sized {
    /// The state after `start`.
    spec fn spec_start(self) -> Self;

    /// The state after `advance(c)`.
    spec fn spec_advance(self, c: char) -> Self;

    /// The answer `accepts` gives.
    spec fn spec_accepts(self) -> Accepts;

    /// Tracks the empty string as well.
    fn start(&mut self)
        ensures
            *final(self) == old(self).spec_start(),
    ;

    /// Appends `c` to every tracked string.
    fn advance(&mut self, c: char)
        ensures
            *final(self) == old(self).spec_advance(c),
    ;

    /// Whether a tracked string is a complete match.
    fn accepts(&self) -> (r: Accepts)
        ensures
            r == self.spec_accepts(),
    ;

    /// A final answer is kept by every step.
    proof fn lemma_final_stays(self, c: char)
        ensures
            self.spec_accepts() is Always ==> self.spec_advance(c).spec_accepts() is Always,
            self.spec_accepts() is Never ==> self.spec_advance(c).spec_accepts() is Never,
    ;
}

/// The state reached from `st` by advancing over each character of `s` in
/// turn.
pub open spec fn scan<R: Regex>(st: R, s: Seq<char>) -> R
    decreases s.len(),
{
    if s.len() == 0 {
        st
    } else {
        scan(st, s.drop_last()).spec_advance(s.last())
    }
}

/// A final answer after a prefix of the input is still the answer after the
/// whole input.
pub proof fn lemma_final_answer_kept<R: Regex>(st: R, s: Seq<char>, i: int)
    requires
        0 <= i <= s.len(),
    ensures
        scan(st, s.take(i)).spec_accepts() is Always ==> scan(st, s).spec_accepts() is Always,
        scan(st, s.take(i)).spec_accepts() is Never ==> scan(st, s).spec_accepts() is Never,
    decreases s.len() - i,
{
    if i == s.len() {
        assert(s.take(i) =~= s);
    } else {
        let t = s.drop_last();
        assert(t.take(i) =~= s.take(i));
        lemma_final_answer_kept(st, t, i);
        scan(st, t).lemma_final_stays(s.last());
    }
}

/// Stopping at the first final answer gives the same verdict as scanning the
/// whole input: when the answer after some prefix is `Always` or `Never`, its
/// boolean reading is that of the answer after the whole input.
pub proof fn lemma_short_circuit_sound<R: Regex>(st: R, s: Seq<char>, i: int)
    requires
        0 <= i <= s.len(),
        scan(st, s.take(i)).spec_accepts().spec_is_final(),
    ensures
        scan(st, s.take(i)).spec_accepts().spec_is_accepted() == scan(
            st,
            s,
        ).spec_accepts().spec_is_accepted(),
{
    lemma_final_answer_kept(st, s, i);
}

/// Starts `st`, feeds it `input` one character at a time, and returns whether
/// it accepts the input, stopping as soon as its answer is final. The verdict
/// is the one of the full scan.
pub fn drive<R: Regex>(state: R, input: &str) -> (r: bool)
    ensures
        r == scan(state.spec_start(), input@).spec_accepts().spec_is_accepted(),
{
    let mut st = state;
    st.start();
    let ghost st0 = st;
    for c in it: input.chars()
        invariant
            it.seq() == input@,
            st0 == state.spec_start(),
            st == scan(st0, input@.take(it.index() as int)),
    {
        let ghost i = it.index() as int;
        assert(input@.take(i + 1).drop_last() =~= input@.take(i));
        st.advance(c);
        let answer = st.accepts();
        if answer.is_final() {
            proof {
                lemma_short_circuit_sound(st0, input@, i + 1);
            }
            return answer.is_accepted();
        }
    }
    assert(input@.take(input@.len() as int) =~= input@);
    st.accepts().is_accepted()
}

} // verus!
