//! The byte tally: how many bytes were confirmed identical and how many
//! were found to differ.

use vstd::prelude::*;

verus! {

/// Mathematical model of a tally.
pub struct Tally {
    pub agreement: nat,
    pub disagreement: nat,
}

/// The empty tally, identity of `combine`.
pub open spec fn zero() -> Tally {
    Tally { agreement: 0, disagreement: 0 }
}

/// Combining sums both counts independently.
pub open spec fn combine(a: Tally, b: Tally) -> Tally {
    Tally {
        agreement: a.agreement + b.agreement,
        disagreement: a.disagreement + b.disagreement,
    }
}

/// Agreement and disagreement byte counts of one comparison run, or of a
/// single unit of work inside a run.
pub struct BytesComparison {
    disagreement: usize,
    agreement: usize,
}

impl View for BytesComparison {
    type V = Tally;

    closed spec fn view(&self) -> Tally {
        Tally { agreement: self.agreement as nat, disagreement: self.disagreement as nat }
    }
}

/// Whether two tallies can be combined without leaving `usize`.
pub open spec fn combinable(a: Tally, b: Tally) -> bool {
    a.agreement + b.agreement <= usize::MAX && a.disagreement + b.disagreement <= usize::MAX
}

impl BytesComparison {
    pub fn new(agreement: usize, disagreement: usize) -> (r: Self)
        ensures
            r@ == (Tally { agreement: agreement as nat, disagreement: disagreement as nat }),
    {
        BytesComparison { disagreement, agreement }
    }

    /// The empty tally.
    pub fn empty() -> (r: Self)
        ensures
            r@ == zero(),
    {
        BytesComparison { disagreement: 0, agreement: 0 }
    }

    /// A tally recording `n` bytes that agree.
    pub fn agreed(n: usize) -> (r: Self)
        ensures
            r@ == (Tally { agreement: n as nat, disagreement: 0 }),
    {
        BytesComparison { disagreement: 0, agreement: n }
    }

    /// A tally recording `n` bytes that disagree.
    pub fn disagreed(n: usize) -> (r: Self)
        ensures
            r@ == (Tally { agreement: 0, disagreement: n as nat }),
    {
        BytesComparison { disagreement: n, agreement: 0 }
    }

    pub fn agreement(&self) -> (r: usize)
        ensures
            r == self@.agreement,
    {
        self.agreement
    }

    pub fn disagreement(&self) -> (r: usize)
        ensures
            r == self@.disagreement,
    {
        self.disagreement
    }

    /// Whether `other` can be combined with this tally.
    pub fn fits_with(&self, other: &Self) -> (r: bool)
        ensures
            r == combinable(self@, other@),
    {
        self.agreement <= usize::MAX - other.agreement && self.disagreement <= usize::MAX
            - other.disagreement
    }

    /// Combine two tallies.
    pub fn add(self, other: Self) -> (r: Self)
        requires
            combinable(self@, other@),
        ensures
            r@ == combine(self@, other@),
    {
        BytesComparison {
            disagreement: self.disagreement + other.disagreement,
            agreement: self.agreement + other.agreement,
        }
    }

    /// Fold `other` into this tally.
    pub fn add_assign(&mut self, other: Self)
        requires
            combinable(old(self)@, other@),
        ensures
            final(self)@ == combine(old(self)@, other@),
    {
        self.disagreement = self.disagreement + other.disagreement;
        self.agreement = self.agreement + other.agreement;
    }
}

/// Combining tallies does not depend on their order.
pub proof fn lemma_combine_commutative(a: Tally, b: Tally)
    ensures
        combine(a, b) == combine(b, a),
{
}

/// Combining tallies does not depend on their grouping.
pub proof fn lemma_combine_associative(a: Tally, b: Tally, c: Tally)
    ensures
        combine(combine(a, b), c) == combine(a, combine(b, c)),
{
}

/// The empty tally changes nothing when combined.
pub proof fn lemma_combine_identity(a: Tally)
    ensures
        combine(a, zero()) == a,
        combine(zero(), a) == a,
{
}

} // verus!
