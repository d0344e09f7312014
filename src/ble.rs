use vstd::prelude::*;
use crate::ballot::{lemma_ballot_total_order, Ballot, NodeId};

verus! {

/// Heartbeat request of round `round`.
#[derive(Clone, Copy, Debug, PartialEq, Eq, Structural)]
pub struct HeartbeatRequest {
    pub round: u32,
}

/// "I am alive and this is my ballot", in answer to the request of `round`.
#[derive(Clone, Copy, Debug, PartialEq, Eq, Structural)]
pub struct HeartbeatReply {
    pub round: u32,
    pub from: NodeId,
    pub ballot: Ballot,
}

#[derive(Clone, Copy, Debug, PartialEq, Eq, Structural)]
pub enum BleMsg {
    Request(HeartbeatRequest),
    Reply(HeartbeatReply),
}

/// A message between the election components of two replicas.
#[derive(Clone, Copy, Debug, PartialEq, Eq, Structural)]
pub struct BleMessage {
    pub from: NodeId,
    pub to: NodeId,
    pub msg: BleMsg,
}

/// The larger of two ballots.
pub open spec fn max_ballot(a: Ballot, b: Ballot) -> Ballot {
    if a.lt(b) {
        b
    } else {
        a
    }
}

/// The highest of `b` and the ballots of `replies`.
pub open spec fn top_ballot(b: Ballot, replies: Seq<HeartbeatReply>) -> Ballot
    decreases replies.len(),
{
    if replies.len() == 0 {
        b
    } else {
        max_ballot(top_ballot(b, replies.drop_last()), replies.last().ballot)
    }
}

/// Smallest number of replicas that is a strict majority of `n`.
pub open spec fn majority(n: nat) -> nat {
    n / 2 + 1
}

/// Ballot leader election of one replica.
pub struct BallotLeaderElection {
    pid: NodeId,
    peers: Vec<NodeId>,
    current_ballot: Ballot,
    leader: Option<Ballot>,
    hb_round: u32,
    replies: Vec<HeartbeatReply>,
    outgoing: Vec<BleMessage>,
}

impl BallotLeaderElection {
    pub closed spec fn pid_spec(&self) -> NodeId {
        self.pid
    }

    pub closed spec fn peers_spec(&self) -> Seq<NodeId> {
        self.peers@
    }

    pub closed spec fn ballot_spec(&self) -> Ballot {
        self.current_ballot
    }

    pub closed spec fn leader_spec(&self) -> Option<Ballot> {
        self.leader
    }

    pub closed spec fn round_spec(&self) -> u32 {
        self.hb_round
    }

    pub closed spec fn replies_spec(&self) -> Seq<HeartbeatReply> {
        self.replies@
    }

    pub closed spec fn outgoing_spec(&self) -> Seq<BleMessage> {
        self.outgoing@
    }

    /// This replica takes itself to be the leader with ballot `b`.
    pub open spec fn believes_leader_with(&self, b: Ballot) -> bool {
        self.leader_spec() == Some(b) && b.pid == self.pid_spec()
    }

    /// The answer to a heartbeat request of `from`.
    pub open spec fn answer(&self, from: NodeId, req: HeartbeatRequest) -> BleMessage {
        let reply = HeartbeatReply { round: req.round, from: self.pid_spec(), ballot: self.ballot_spec() };
        BleMessage { from: self.pid_spec(), to: from, msg: BleMsg::Reply(reply) }
    }

    /// A reply is collected when it answers the current round and comes from
    /// another replica that has not answered yet.
    pub open spec fn takes_reply(&self, reply: HeartbeatReply) -> bool {
        &&& reply.round == self.round_spec()
        &&& reply.from != self.pid_spec()
        &&& forall|j: int|
            0 <= j < self.replies_spec().len() ==> (#[trigger] self.replies_spec()[j]).from
                != reply.from
    }

    /// Election state of replica `pid` among `peers` (the other replicas),
    /// with a first ballot of round 0.
    pub fn new(pid: NodeId, peers: Vec<NodeId>, priority: u32) -> (r: BallotLeaderElection)
        ensures
            r.pid_spec() == pid,
            r.peers_spec() == peers@,
            r.ballot_spec() == (Ballot { n: 0, priority, pid }),
            r.leader_spec() is None,
            r.round_spec() == 0,
            r.replies_spec().len() == 0,
            r.outgoing_spec().len() == 0,
    {
        BallotLeaderElection {
            pid,
            peers,
            current_ballot: Ballot::with(0, priority, pid),
            leader: None,
            hb_round: 0,
            replies: Vec::new(),
            outgoing: Vec::new(),
        }
    }

    pub fn get_pid(&self) -> (r: NodeId)
        ensures
            r == self.pid_spec(),
    {
        self.pid
    }

    pub fn get_current_ballot(&self) -> (r: Ballot)
        ensures
            r == self.ballot_spec(),
    {
        self.current_ballot
    }

    /// Number of the current heartbeat round.
    pub fn get_round(&self) -> (r: u32)
        ensures
            r == self.round_spec(),
    {
        self.hb_round
    }

    /// Ballot of the leader elected last, if any.
    pub fn get_leader(&self) -> (r: Option<Ballot>)
        ensures
            r == self.leader_spec(),
    {
        self.leader
    }

    /// Replies collected in the current round.
    pub fn get_replies(&self) -> (r: Vec<HeartbeatReply>)
        ensures
            r@ == self.replies_spec(),
    {
        self.replies.clone()
    }

    /// Hands out the messages to send and forgets them.
    pub fn take_outgoing(&mut self) -> (r: Vec<BleMessage>)
        ensures
            r@ == old(self).outgoing_spec(),
            final(self).outgoing_spec().len() == 0,
            final(self).pid_spec() == old(self).pid_spec(),
            final(self).peers_spec() == old(self).peers_spec(),
            final(self).ballot_spec() == old(self).ballot_spec(),
            final(self).leader_spec() == old(self).leader_spec(),
            final(self).round_spec() == old(self).round_spec(),
            final(self).replies_spec() == old(self).replies_spec(),
    {
        let mut out: Vec<BleMessage> = Vec::new();
        std::mem::swap(&mut out, &mut self.outgoing);
        out
    }

    /// Answers a heartbeat request of replica `from` with the local ballot.
    pub fn handle_request(&mut self, from: NodeId, req: HeartbeatRequest)
        ensures
            final(self).outgoing_spec() == old(self).outgoing_spec().push(old(self).answer(from, req)),
            final(self).pid_spec() == old(self).pid_spec(),
            final(self).peers_spec() == old(self).peers_spec(),
            final(self).ballot_spec() == old(self).ballot_spec(),
            final(self).leader_spec() == old(self).leader_spec(),
            final(self).round_spec() == old(self).round_spec(),
            final(self).replies_spec() == old(self).replies_spec(),
    {
        let reply = HeartbeatReply { round: req.round, from: self.pid, ballot: self.current_ballot };
        self.outgoing.push(BleMessage { from: self.pid, to: from, msg: BleMsg::Reply(reply) });
    }

    /// Collects a reply of the current round, once per replica; a reply of
    /// another round, of this replica or a repeated one is dropped.
    pub fn handle_reply(&mut self, reply: HeartbeatReply)
        ensures
            final(self).replies_spec() == (if old(self).takes_reply(reply) {
                old(self).replies_spec().push(reply)
            } else {
                old(self).replies_spec()
            }),
            final(self).pid_spec() == old(self).pid_spec(),
            final(self).peers_spec() == old(self).peers_spec(),
            final(self).ballot_spec() == old(self).ballot_spec(),
            final(self).leader_spec() == old(self).leader_spec(),
            final(self).round_spec() == old(self).round_spec(),
            final(self).outgoing_spec() == old(self).outgoing_spec(),
    {
        if reply.round != self.hb_round || reply.from == self.pid {
            return;
        }
        let mut j: usize = 0;
        while j < self.replies.len()
            invariant
                0 <= j <= self.replies@.len(),
                forall|k: int| 0 <= k < j ==> (#[trigger] self.replies@[k]).from != reply.from,
            decreases self.replies@.len() - j,
        {
            if self.replies[j].from == reply.from {
                return;
            }
            j = j + 1;
        }
        self.replies.push(reply);
    }

    /// Enough replicas answered in the current round, this one included.
    pub open spec fn quorum_alive(&self) -> bool {
        self.replies_spec().len() + 1 >= majority(self.peers_spec().len() + 1)
    }

    /// Highest ballot of the current round, the local one included.
    pub open spec fn top(&self) -> Ballot {
        top_ballot(self.ballot_spec(), self.replies_spec())
    }

    /// The round that ends elects a new leader.
    pub open spec fn elects(&self) -> bool {
        self.quorum_alive() && (self.leader_spec() is None || self.leader_spec().unwrap().lt(
            self.top(),
        ))
    }

    /// The leader did not answer: the local ballot moves past its round.
    pub open spec fn bumps(&self) -> bool {
        &&& self.quorum_alive()
        &&& self.leader_spec() is Some
        &&& self.top().lt(self.leader_spec().unwrap())
        &&& self.leader_spec().unwrap().n < u32::MAX
    }

    /// Requests of round `round` to every peer.
    pub open spec fn requests(&self, round: u32) -> Seq<BleMessage> {
        Seq::new(
            self.peers_spec().len(),
            |k: int|
                BleMessage {
                    from: self.pid_spec(),
                    to: self.peers_spec()[k],
                    msg: BleMsg::Request(HeartbeatRequest { round }),
                },
        )
    }

    pub open spec fn next_round(&self) -> u32 {
        if self.round_spec() == u32::MAX {
            0
        } else {
            (self.round_spec() + 1) as u32
        }
    }

    fn top_of_round(&self) -> (r: Ballot)
        ensures
            r == self.top(),
    {
        let mut top = self.current_ballot;
        let mut i: usize = 0;
        while i < self.replies.len()
            invariant
                0 <= i <= self.replies@.len(),
                top == top_ballot(self.current_ballot, self.replies@.subrange(0, i as int)),
            decreases self.replies@.len() - i,
        {
            let b = self.replies[i].ballot;
            assert(self.replies@.subrange(0, i + 1).drop_last() =~= self.replies@.subrange(
                0,
                i as int,
            ));
            if top.less_than(&b) {
                top = b;
            }
            i = i + 1;
        }
        assert(self.replies@.subrange(0, i as int) =~= self.replies@);
        top
    }

    /// Ends the current heartbeat round and starts the next one. With a
    /// majority alive, the highest ballot seen becomes leader when it beats
    /// the known leader, and is returned; when the known leader did not
    /// answer, the local ballot moves to the round after the leader's.
    ///
    /// That raise is how a replica gets itself promoted past a failed
    /// leader: its next ballot is strictly greater than any ballot the failed
    /// leader holds, so when the next round elects it, it leads with a fresh
    /// ballot that a returning old leader cannot match.
    pub fn hb_timeout(&mut self) -> (r: Option<Ballot>)
        ensures
            r == (if old(self).elects() {
                Some(old(self).top())
            } else {
                None
            }),
            final(self).leader_spec() == (if old(self).elects() {
                Some(old(self).top())
            } else {
                old(self).leader_spec()
            }),
            final(self).ballot_spec() == (if old(self).bumps() {
                Ballot { n: (old(self).leader_spec().unwrap().n + 1) as u32, ..old(self).ballot_spec() }
            } else {
                old(self).ballot_spec()
            }),
            final(self).round_spec() == old(self).next_round(),
            final(self).replies_spec().len() == 0,
            final(self).outgoing_spec() == old(self).outgoing_spec() + old(self).requests(
                old(self).next_round(),
            ),
            final(self).pid_spec() == old(self).pid_spec(),
            final(self).peers_spec() == old(self).peers_spec(),
    {
        let mut result: Option<Ballot> = None;
        let n = self.peers.len();
        assert((n + 1) / 2 == n / 2 + n % 2);
        if self.replies.len() >= n / 2 + n % 2 {
            assert(self.quorum_alive());
            let top = self.top_of_round();
            proof {
                lemma_ballot_total_order(top, top, top);
            }
            match self.leader {
                None => {
                    self.leader = Some(top);
                    result = Some(top);
                },
                Some(l) => {
                    if l.less_than(&top) {
                        self.leader = Some(top);
                        result = Some(top);
                    } else if top.less_than(&l) && l.n < u32::MAX {
                        self.current_ballot = Ballot { n: l.n + 1, ..self.current_ballot };
                    }
                },
            }
        }
        self.hb_round = if self.hb_round == u32::MAX { 0 } else { self.hb_round + 1 };
        self.replies = Vec::new();
        let mut reqs: Vec<BleMessage> = Vec::new();
        let mut k: usize = 0;
        while k < self.peers.len()
            invariant
                0 <= k <= self.peers@.len(),
                reqs@ == self.requests(self.hb_round).subrange(0, k as int),
            decreases self.peers@.len() - k,
        {
            let to = self.peers[k];
            reqs.push(
                BleMessage {
                    from: self.pid,
                    to,
                    msg: BleMsg::Request(HeartbeatRequest { round: self.hb_round }),
                },
            );
            k = k + 1;
            assert(reqs@ =~= self.requests(self.hb_round).subrange(0, k as int));
        }
        assert(reqs@ =~= self.requests(self.hb_round));
        self.outgoing.append(&mut reqs);
        result
    }
}

/// Among replicas with distinct identifiers, at most one takes itself to be
/// the leader with a given ballot.
pub proof fn lemma_leader_unique(replicas: Seq<BallotLeaderElection>, b: Ballot, i: int, j: int)
    requires
        forall|x: int, y: int|
            0 <= x < replicas.len() && 0 <= y < replicas.len() && x != y ==> (
            #[trigger] replicas[x]).pid_spec() != (#[trigger] replicas[y]).pid_spec(),
        0 <= i < replicas.len(),
        0 <= j < replicas.len(),
        replicas[i].believes_leader_with(b),
        replicas[j].believes_leader_with(b),
    ensures
        i == j,
{
}

} // verus!
