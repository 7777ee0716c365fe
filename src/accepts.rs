//! The four-valued answer of a tracking state and the lattice that combines
//! answers.
use vstd::prelude::*;

verus! {

/// What a tracking state says about the strings it is tracking.
///
/// `Yes` and `No` are ordinary answers that a later character may revise.
/// `Always` is a final yes: no sequence of further characters can make the
/// state reject. `Never` is a final no: no sequence of further characters can
/// make it accept.
#[derive(Clone, Copy, Debug, PartialEq, Eq, Structural)]
pub enum Accepts {
    Yes,
    No,
    Always,
    Never,
}

impl Accepts {
    /// The boolean reading of an answer: `Yes` and `Always` accept.
    pub open spec fn spec_is_accepted(self) -> bool {
        self is Yes || self is Always
    }

    /// Whether the answer can no longer change as characters are added.
    pub open spec fn spec_is_final(self) -> bool {
        self is Always || self is Never
    }

    /// The join of two answers: `Always` absorbs everything, `Never` is the
    /// identity, and `Yes` dominates `No`.
    pub open spec fn spec_combine(self, other: Accepts) -> Accepts {
        if self is Always || other is Always {
            Accepts::Always
        } else if self is Yes || other is Yes {
            Accepts::Yes
        } else if self is No || other is No {
            Accepts::No
        } else {
            Accepts::Never
        }
    }

    #[verifier::when_used_as_spec(spec_is_accepted)]
    pub fn is_accepted(self) -> (r: bool)
        ensures
            r == self.spec_is_accepted(),
    {
        match self {
            Accepts::Yes | Accepts::Always => true,
            Accepts::No | Accepts::Never => false,
        }
    }

    #[verifier::when_used_as_spec(spec_is_final)]
    pub fn is_final(self) -> (r: bool)
        ensures
            r == self.spec_is_final(),
    {
        match self {
            Accepts::Always | Accepts::Never => true,
            Accepts::Yes | Accepts::No => false,
        }
    }

    #[verifier::when_used_as_spec(spec_combine)]
    pub fn combine(self, other: Accepts) -> (r: Accepts)
        ensures
            r == self.spec_combine(other),
            r.spec_is_accepted() == (self.spec_is_accepted() || other.spec_is_accepted()),
    {
        match (self, other) {
            (Accepts::Always, _) | (_, Accepts::Always) => Accepts::Always,
            (Accepts::Yes, _) | (_, Accepts::Yes) => Accepts::Yes,
            (Accepts::No, _) | (_, Accepts::No) => Accepts::No,
            (Accepts::Never, Accepts::Never) => Accepts::Never,
        }
    }
}

/// `combine` is commutative.
pub proof fn lemma_combine_commutative(x: Accepts, y: Accepts)
    ensures
        x.spec_combine(y) == y.spec_combine(x),
{
}

/// `combine` is associative.
pub proof fn lemma_combine_associative(x: Accepts, y: Accepts, z: Accepts)
    ensures
        x.spec_combine(y).spec_combine(z) == x.spec_combine(y.spec_combine(z)),
{
}

/// `Always` absorbs any answer it is combined with, and `Never` combined with
/// itself stays `Never`.
pub proof fn lemma_combine_bounds(x: Accepts)
    ensures
        Accepts::Always.spec_combine(x) == Accepts::Always,
        Accepts::Never.spec_combine(Accepts::Never) == Accepts::Never,
        Accepts::Never.spec_combine(x) == x,
{
}

} // verus!
