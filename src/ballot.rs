use vstd::prelude::*;

verus! {

/// Identifier of a replica within the cluster configuration.
pub type NodeId = u64;

/// Ballot of an election round, ordered lexicographically by `(n, priority, pid)`.
#[derive(Clone, Copy, Debug, PartialEq, Eq, Structural)]
pub struct Ballot {
    /// Round number.
    pub n: u32,
    /// Priority that lets an operator bias elections.
    pub priority: u32,
    /// Owner of the ballot.
    pub pid: NodeId,
}

impl Ballot {
    /// Strict lexicographic order on `(n, priority, pid)`.
    pub open spec fn lt(self, o: Ballot) -> bool {
        self.n < o.n || (self.n == o.n && (self.priority < o.priority || (self.priority == o.priority
            && self.pid < o.pid)))
    }

    pub open spec fn le(self, o: Ballot) -> bool {
        self == o || self.lt(o)
    }

    pub fn with(n: u32, priority: u32, pid: NodeId) -> (r: Ballot)
        ensures
            r == (Ballot { n, priority, pid }),
    {
        Ballot { n, priority, pid }
    }

    /// Ballot below every ballot that a replica can hold.
    pub open spec fn zero_spec() -> Ballot {
        Ballot { n: 0, priority: 0, pid: 0 }
    }

    pub fn zero() -> (r: Ballot)
        ensures
            r == Ballot::zero_spec(),
            forall|b: Ballot| r.le(b),
    {
        Ballot { n: 0, priority: 0, pid: 0 }
    }

    pub fn less_than(&self, o: &Ballot) -> (r: bool)
        ensures
            r == self.lt(*o),
    {
        self.n < o.n || (self.n == o.n && (self.priority < o.priority || (self.priority
            == o.priority && self.pid < o.pid)))
    }

    pub fn at_most(&self, o: &Ballot) -> (r: bool)
        ensures
            r == self.le(*o),
    {
        *self == *o || self.less_than(o)
    }
}

/// The order on ballots is a strict total order.
pub proof fn lemma_ballot_total_order(a: Ballot, b: Ballot, c: Ballot)
    ensures
        !a.lt(a),
        a.lt(b) ==> !b.lt(a),
        a.lt(b) && b.lt(c) ==> a.lt(c),
        a.lt(b) || a == b || b.lt(a),
        a.le(b) && b.le(a) ==> a == b,
        a.le(b) <==> !b.lt(a),
{
}

} // verus!
