use vstd::prelude::*;
use crate::ballot::{Ballot, NodeId};
use crate::ble::majority;
use crate::storage::{LogEntry, LogModel, LogStore, Proposal, TrimError};

verus! {

/// Role of a replica in the replication protocol.
#[derive(Clone, Copy, Debug, PartialEq, Eq, Structural)]
pub enum Role {
    Follower,
    Leader,
}

/// Phase of the current ballot at this replica.
#[derive(Clone, Copy, Debug, PartialEq, Eq, Structural)]
pub enum Phase {
    /// No ballot is being served.
    Idle,
    /// Leader: collecting promises. Follower: promised, waiting to be synced.
    Prepare,
    /// Replicating entries under the promised ballot.
    Accept,
}

/// Errors of an append request.
#[derive(Clone, Copy, Debug, PartialEq, Eq, Structural)]
pub enum ProposeErr {
    /// This replica is not the active leader.
    NotLeader,
    /// The log holds a stop-sign: the configuration epoch has ended.
    Reconfiguration,
}

/// A follower's answer to `Prepare`.
#[derive(Clone, Debug)]
pub struct Promise<T> {
    pub n: Ballot,
    pub accepted_round: Ballot,
    pub accepted_idx: usize,
    pub decided_idx: usize,
    /// Position of the first slot of `suffix`.
    pub suffix_start: usize,
    pub suffix: Vec<Proposal<T>>,
}

/// Messages of the replication protocol.
#[derive(Clone, Debug)]
pub enum PaxosMsg<T> {
    Prepare { n: Ballot, decided_idx: usize },
    Promise(Promise<T>),
    AcceptSync { n: Ballot, sync_idx: usize, suffix: Vec<Proposal<T>>, decided_idx: usize },
    AcceptDecide { n: Ballot, idx: usize, entry: Proposal<T>, decided_idx: usize },
    Accepted { n: Ballot, accepted_idx: usize },
    Decide { n: Ballot, decided_idx: usize },
    Compaction { trim_idx: usize },
}

/// A protocol message from one replica to another.
#[derive(Clone, Debug)]
pub struct Message<T> {
    pub from: NodeId,
    pub to: NodeId,
    pub msg: PaxosMsg<T>,
}

/// Bookkeeping of the leader, one slot per replica of `nodes` (this one first).
pub struct LeaderState<T> {
    pub n_leader: Ballot,
    pub nodes: Vec<NodeId>,
    /// Highest index that each replica is known to have accepted.
    pub accepted_indexes: Vec<usize>,
    pub promises: Vec<Option<Promise<T>>>,
}

impl<T> LeaderState<T> {
    pub open spec fn wf(&self) -> bool {
        &&& self.accepted_indexes@.len() == self.nodes@.len()
        &&& self.promises@.len() == self.nodes@.len()
    }
}

/// Number of entries of `s` that are at least `c`.
pub open spec fn count_at_least(s: Seq<usize>, c: usize) -> nat
    decreases s.len(),
{
    if s.len() == 0 {
        0
    } else {
        count_at_least(s.drop_last(), c) + if s.last() >= c {
            1nat
        } else {
            0nat
        }
    }
}

/// A message that carries no log slots, so that a copy of it is itself.
pub open spec fn is_small<T>(m: PaxosMsg<T>) -> bool {
    match m {
        PaxosMsg::Prepare { .. } => true,
        PaxosMsg::AcceptDecide { .. } => true,
        PaxosMsg::Accepted { .. } => true,
        PaxosMsg::Decide { .. } => true,
        PaxosMsg::Compaction { .. } => true,
        _ => false,
    }
}

fn copy_small<T: Copy>(m: &PaxosMsg<T>) -> (r: PaxosMsg<T>)
    requires
        is_small(*m),
    ensures
        r == *m,
{
    match m {
        PaxosMsg::Prepare { n, decided_idx } => PaxosMsg::Prepare { n: *n, decided_idx: *decided_idx },
        PaxosMsg::AcceptDecide { n, idx, entry, decided_idx } => PaxosMsg::AcceptDecide {
            n: *n,
            idx: *idx,
            entry: *entry,
            decided_idx: *decided_idx,
        },
        PaxosMsg::Accepted { n, accepted_idx } => PaxosMsg::Accepted {
            n: *n,
            accepted_idx: *accepted_idx,
        },
        PaxosMsg::Decide { n, decided_idx } => PaxosMsg::Decide { n: *n, decided_idx: *decided_idx },
        PaxosMsg::Compaction { trim_idx } => PaxosMsg::Compaction { trim_idx: *trim_idx },
        _ => {
            proof {
                assert(false);
            }
            PaxosMsg::Compaction { trim_idx: 0 }
        },
    }
}

/// The sequence-paxos engine of one replica.
pub struct SequencePaxos<T> {
    pid: NodeId,
    peers: Vec<NodeId>,
    log: LogStore<T>,
    role: Role,
    phase: Phase,
    leader: Option<Ballot>,
    leader_state: LeaderState<T>,
    outgoing: Vec<Message<T>>,
}

impl<T: Copy> SequencePaxos<T> {
    pub closed spec fn pid_spec(&self) -> NodeId {
        self.pid
    }

    pub closed spec fn peers_spec(&self) -> Seq<NodeId> {
        self.peers@
    }

    pub closed spec fn log_spec(&self) -> LogModel<T> {
        self.log@
    }

    pub closed spec fn promise_spec(&self) -> Ballot {
        self.log.promise_spec()
    }

    pub closed spec fn role_spec(&self) -> Role {
        self.role
    }

    pub closed spec fn phase_spec(&self) -> Phase {
        self.phase
    }

    pub closed spec fn leader_spec(&self) -> Option<Ballot> {
        self.leader
    }

    pub closed spec fn outgoing_spec(&self) -> Seq<Message<T>> {
        self.outgoing@
    }

    pub closed spec fn accepted_spec(&self) -> Seq<usize> {
        self.leader_state.accepted_indexes@
    }

    pub closed spec fn nodes_spec(&self) -> Seq<NodeId> {
        self.leader_state.nodes@
    }

    pub closed spec fn wf(&self) -> bool {
        &&& self.log@.wf()
        &&& self.leader_state.wf()
        &&& self.leader_state.nodes@.len() == self.peers@.len() + 1
        &&& self.leader_state.nodes@[0] == self.pid
        &&& self.peers@.len() + 1 <= usize::MAX
        &&& self.role == Role::Leader ==> self.log.promise_spec().pid == self.pid
    }

    /// A leader leads under a ballot of its own.
    pub proof fn lemma_leader_owns_ballot(&self)
        requires
            self.wf(),
            self.role_spec() == Role::Leader,
        ensures
            self.promise_spec().pid == self.pid_spec(),
    {
    }

    /// This replica leads the ballot it promised and replicates under it.
    pub open spec fn is_active_leader(&self) -> bool {
        self.role_spec() == Role::Leader && self.phase_spec() == Phase::Accept
    }

    /// `m` sent to every peer.
    pub open spec fn to_peers(&self, m: PaxosMsg<T>) -> Seq<Message<T>> {
        Seq::new(
            self.peers_spec().len(),
            |k: int| Message { from: self.pid_spec(), to: self.peers_spec()[k], msg: m },
        )
    }

    /// What stays as it was when only the log, the outgoing messages and the
    /// leader's accepted indexes change.
    pub open spec fn same_roles(&self, other: &Self) -> bool {
        &&& other.pid_spec() == self.pid_spec()
        &&& other.peers_spec() == self.peers_spec()
        &&& other.promise_spec() == self.promise_spec()
        &&& other.role_spec() == self.role_spec()
        &&& other.phase_spec() == self.phase_spec()
        &&& other.leader_spec() == self.leader_spec()
        &&& other.nodes_spec() == self.nodes_spec()
    }

    /// What stays as it was when only the log and the outgoing messages change.
    pub open spec fn same_protocol_state(&self, other: &Self) -> bool {
        &&& self.same_roles(other)
        &&& other.accepted_spec() == self.accepted_spec()
        &&& other.promises_spec() == self.promises_spec()
        &&& other.accepted_round_spec() == self.accepted_round_spec()
    }

    /// Slot `k` is the first slot of replica `id` among the leader's nodes,
    /// and not this replica's own.
    pub open spec fn is_peer_slot(&self, id: NodeId, k: int) -> bool {
        &&& 0 < k < self.nodes_spec().len()
        &&& self.nodes_spec()[k] == id
        &&& forall|j: int| 0 <= j < k ==> self.nodes_spec()[j] != id
    }

    /// What `handle_accepted(from, n, accepted_idx)` does: as active leader
    /// of `n`, it raises the accepted index of `from` to what `from` reports
    /// (cut at the log's end), and decides up to it when a majority has
    /// accepted that far, telling the peers; otherwise nothing changes.
    pub open spec fn accepted_post(pre: Self, post: Self, from: NodeId, n: Ballot, accepted_idx: usize) -> bool {
        let len = pre.log_spec().len();
        let a = if accepted_idx <= len { accepted_idx } else { len as usize };
        let applies = pre.is_active_leader() && n == pre.promise_spec() && exists|k: int|
            pre.is_peer_slot(from, k);
        &&& pre.same_roles(&post)
        &&& if applies {
            let k = choose|k: int| pre.is_peer_slot(from, k);
            let acc = if a > pre.accepted_spec()[k] {
                pre.accepted_spec().update(k, a)
            } else {
                pre.accepted_spec()
            };
            let quorum = a > pre.log_spec().decided_idx && count_at_least(acc, a) >= majority(
                pre.nodes_spec().len(),
            );
            &&& post.accepted_spec() == acc
            &&& post.log_spec() == (if quorum {
                pre.log_spec().decided_to(a as nat)
            } else {
                pre.log_spec()
            })
            &&& post.outgoing_spec() == (if quorum {
                pre.outgoing_spec() + pre.to_peers(
                    PaxosMsg::Decide { n: pre.promise_spec(), decided_idx: a },
                )
            } else {
                pre.outgoing_spec()
            })
        } else {
            &&& post.accepted_spec() == pre.accepted_spec()
            &&& post.log_spec() == pre.log_spec()
            &&& post.outgoing_spec() == pre.outgoing_spec()
        }
    }

    /// A well-formed engine holds a well-formed log.
    pub proof fn lemma_wf_log(&self)
        requires
            self.wf(),
        ensures
            self.log_spec().wf(),
    {
    }

    /// Engine of replica `pid`, whose peers are the other replicas of the
    /// configuration.
    pub fn new(pid: NodeId, peers: Vec<NodeId>) -> (r: SequencePaxos<T>)
        requires
            peers@.len() < usize::MAX,
        ensures
            r.wf(),
            r.pid_spec() == pid,
            r.peers_spec() == peers@,
            r.log_spec().len() == 0,
            r.log_spec().decided_idx == 0,
            r.role_spec() == Role::Follower,
            r.phase_spec() == Phase::Idle,
            r.leader_spec() is None,
            r.promise_spec() == Ballot::zero_spec(),
            r.accepted_round_spec() == Ballot::zero_spec(),
            r.outgoing_spec().len() == 0,
            r.nodes_spec() == seq![pid] + peers@,
            r.accepted_spec() == Seq::new(peers@.len() + 1, |j: int| 0usize),
            r.promises_spec().len() == peers@.len() + 1,
            forall|j: int|
                0 <= j < r.promises_spec().len() ==> (#[trigger] r.promises_spec()[j]) is None,
    {
        let mut nodes: Vec<NodeId> = Vec::new();
        nodes.push(pid);
        let mut accepted_indexes: Vec<usize> = Vec::new();
        accepted_indexes.push(0);
        assert(accepted_indexes@ =~= Seq::new(1, |j: int| 0usize));
        let mut promises: Vec<Option<Promise<T>>> = Vec::new();
        promises.push(None);
        let mut k: usize = 0;
        while k < peers.len()
            invariant
                0 <= k <= peers@.len(),
                nodes@ == seq![pid] + peers@.subrange(0, k as int),
                accepted_indexes@ == Seq::new((k + 1) as nat, |j: int| 0usize),
                promises@.len() == k + 1,
                forall|j: int| 0 <= j < promises@.len() ==> (#[trigger] promises@[j]) is None,
            decreases peers@.len() - k,
        {
            nodes.push(peers[k]);
            accepted_indexes.push(0);
            promises.push(None);
            k = k + 1;
            assert(nodes@ =~= seq![pid] + peers@.subrange(0, k as int));
            assert(accepted_indexes@ =~= Seq::new((k + 1) as nat, |j: int| 0usize));
        }
        assert(peers@.subrange(0, k as int) =~= peers@);
        let leader_state = LeaderState {
            n_leader: Ballot::zero(),
            nodes,
            accepted_indexes,
            promises,
        };
        SequencePaxos {
            pid,
            peers,
            log: LogStore::new(),
            role: Role::Follower,
            phase: Phase::Idle,
            leader: None,
            leader_state,
            outgoing: Vec::new(),
        }
    }

    pub fn get_pid(&self) -> (r: NodeId)
        ensures
            r == self.pid_spec(),
    {
        self.pid
    }

    /// Identifier of the replica that this one takes to be the leader.
    pub fn get_current_leader(&self) -> (r: Option<NodeId>)
        ensures
            r == (match self.leader_spec() {
                Some(b) => Some(b.pid),
                None => None,
            }),
    {
        match self.leader {
            Some(b) => Some(b.pid),
            None => None,
        }
    }

    /// Highest ballot promised.
    pub fn get_promise(&self) -> (r: Ballot)
        ensures
            r == self.promise_spec(),
    {
        self.log.get_promise()
    }

    pub fn get_decided_idx(&self) -> (r: usize)
        ensures
            r == self.log_spec().decided_idx,
    {
        self.log.get_decided_idx()
    }

    pub fn get_trim_idx(&self) -> (r: usize)
        ensures
            r == self.log_spec().trim_idx,
    {
        self.log.get_trim_idx()
    }

    pub fn get_log_len(&self) -> (r: usize)
        requires
            self.wf(),
        ensures
            r == self.log_spec().len(),
    {
        self.log.len()
    }

    pub fn is_leader(&self) -> (r: bool)
        ensures
            r == (self.role_spec() == Role::Leader),
    {
        self.role == Role::Leader
    }

    /// Bookkeeping of the leader, read only.
    pub fn leader_state(&self) -> (r: &LeaderState<T>)
        requires
            self.wf(),
        ensures
            r.wf(),
            r.accepted_indexes@ == self.accepted_spec(),
            r.nodes@ == self.nodes_spec(),
    {
        &self.leader_state
    }

    /// The entries of positions `from .. to`, cut at the end of the log.
    pub fn read_entries(&self, from: usize, to: usize) -> (r: Vec<LogEntry<T>>)
        requires
            self.wf(),
        ensures
            r@ == self.log_spec().entries(from as nat, to as nat),
    {
        self.log.read_entries(from, to)
    }

    /// All entries from `from` to the end of the log, with one leading
    /// `Trimmed` marker where `from` falls in the trimmed prefix.
    pub fn read_decided_suffix(&self, from: usize) -> (r: Vec<LogEntry<T>>)
        requires
            self.wf(),
        ensures
            r@ == self.log_spec().decided_suffix(from as nat),
    {
        self.log.read_decided_suffix(from)
    }

    /// Hands out the messages to send and forgets them.
    pub fn take_outgoing(&mut self) -> (r: Vec<Message<T>>)
        ensures
            r@ == old(self).outgoing_spec(),
            final(self).outgoing_spec().len() == 0,
            final(self).log_spec() == old(self).log_spec(),
            final(self).wf() == old(self).wf(),
            old(self).same_protocol_state(&*final(self)),
    {
        let mut out: Vec<Message<T>> = Vec::new();
        std::mem::swap(&mut out, &mut self.outgoing);
        out
    }

    fn broadcast(&mut self, m: PaxosMsg<T>)
        requires
            is_small(m),
        ensures
            final(self).outgoing_spec() == old(self).outgoing_spec() + old(self).to_peers(m),
            final(self).log_spec() == old(self).log_spec(),
            final(self).wf() == old(self).wf(),
            old(self).same_protocol_state(&*final(self)),
            final(self).accepted_spec() == old(self).accepted_spec(),
            final(self).promises_spec() == old(self).promises_spec(),
            final(self).accepted_round_spec() == old(self).accepted_round_spec(),
    {
        let mut out: Vec<Message<T>> = Vec::new();
        let mut k: usize = 0;
        while k < self.peers.len()
            invariant
                0 <= k <= self.peers@.len(),
                is_small(m),
                out@ == self.to_peers(m).subrange(0, k as int),
            decreases self.peers@.len() - k,
        {
            out.push(Message { from: self.pid, to: self.peers[k], msg: copy_small(&m) });
            k = k + 1;
            assert(out@ =~= self.to_peers(m).subrange(0, k as int));
        }
        assert(out@ =~= self.to_peers(m));
        self.outgoing.append(&mut out);
    }

    /// Trims the log to `idx`, or to the decided index when `idx` is `None`,
    /// and asks every peer to do the same. Only the leader trims, and only a
    /// decided prefix.
    pub fn trim(&mut self, idx: Option<usize>) -> (r: Result<(), TrimError>)
        requires
            old(self).wf(),
        ensures
            final(self).wf(),
            ({
                let t = match idx {
                    Some(i) => i,
                    None => old(self).log_spec().decided_idx as usize,
                };
                &&& r == (if old(self).role_spec() != Role::Leader {
                    Err(TrimError::NotLeader)
                } else if t > old(self).log_spec().decided_idx {
                    Err(TrimError::UndecidedIndex(old(self).log_spec().decided_idx as usize))
                } else {
                    Ok(())
                })
                &&& final(self).log_spec() == (if r is Ok {
                    old(self).log_spec().trimmed(t as nat)
                } else {
                    old(self).log_spec()
                })
                &&& final(self).outgoing_spec() == (if r is Ok {
                    old(self).outgoing_spec() + old(self).to_peers(
                        PaxosMsg::Compaction { trim_idx: t },
                    )
                } else {
                    old(self).outgoing_spec()
                })
            }),
            old(self).same_protocol_state(&*final(self)),
    {
        if self.role != Role::Leader {
            return Err(TrimError::NotLeader);
        }
        let t = match idx {
            Some(i) => i,
            None => self.log.get_decided_idx(),
        };
        let r = self.log.trim(t);
        if r.is_ok() {
            self.broadcast(PaxosMsg::Compaction { trim_idx: t });
        }
        r
    }

    /// What `handle_compaction(idx)` does.
    pub open spec fn compaction_post(
        pre: Self,
        post: Self,
        idx: usize,
    ) -> bool {
        &&& (post.log_spec() == (if idx <= pre.log_spec().decided_idx {
            pre.log_spec().trimmed(idx as nat)
        } else {
            pre.log_spec()
        }))
        &&& (post.outgoing_spec() == pre.outgoing_spec())
        &&& (pre.same_protocol_state(&post))
    }

    /// A peer asks to trim to `idx`: done once `idx` is decided here.
    pub fn handle_compaction(&mut self, idx: usize)
        requires
            old(self).wf(),
        ensures
            final(self).wf(),
            Self::compaction_post(*old(self), *final(self), idx),
    {
        let _ = self.log.trim(idx);
    }

    /// What `handle_decide(n, decided_idx)` does.
    pub open spec fn decide_post(
        pre: Self,
        post: Self,
        n: Ballot,
        decided_idx: usize,
    ) -> bool {
        &&& (post.log_spec() == (if n == pre.promise_spec() && pre.role_spec()
            == Role::Follower && pre.phase_spec() == Phase::Accept {
            pre.log_spec().decided_to(decided_idx as nat)
        } else {
            pre.log_spec()
        }))
        &&& (post.outgoing_spec() == pre.outgoing_spec())
        &&& (pre.same_protocol_state(&post))
    }

    /// The leader of ballot `n` reports that everything below `decided_idx`
    /// is decided.
    pub fn handle_decide(&mut self, n: Ballot, decided_idx: usize)
        requires
            old(self).wf(),
        ensures
            final(self).wf(),
            Self::decide_post(*old(self), *final(self), n, decided_idx),
    {
        if n == self.log.get_promise() && self.role == Role::Follower && self.phase == Phase::Accept {
            self.log.decide_to(decided_idx);
        }
    }

    /// The log with `p` appended.
    pub open spec fn log_with(&self, p: Proposal<T>) -> LogModel<T> {
        LogModel { items: self.log_spec().items.push(p), ..self.log_spec() }
    }

    fn count_accepted(&self, c: usize) -> (r: usize)
        requires
            self.wf(),
        ensures
            r == count_at_least(self.accepted_spec(), c),
    {
        let acc = &self.leader_state.accepted_indexes;
        let mut cnt: usize = 0;
        let mut i: usize = 0;
        while i < acc.len()
            invariant
                0 <= i <= acc@.len(),
                acc@.len() <= usize::MAX,
                cnt <= i,
                cnt == count_at_least(acc@.subrange(0, i as int), c),
            decreases acc@.len() - i,
        {
            assert(acc@.subrange(0, i + 1).drop_last() =~= acc@.subrange(0, i as int));
            if acc[i] >= c {
                cnt = cnt + 1;
            }
            i = i + 1;
        }
        assert(acc@.subrange(0, i as int) =~= acc@);
        cnt
    }

    /// Decides up to `c` when a majority has accepted `c`, and tells the peers.
    fn try_decide(&mut self, c: usize)
        requires
            old(self).wf(),
        ensures
            final(self).wf(),
            ({
                let quorum = c > old(self).log_spec().decided_idx && count_at_least(
                    old(self).accepted_spec(),
                    c,
                ) >= majority(old(self).nodes_spec().len());
                &&& final(self).log_spec() == (if quorum {
                    old(self).log_spec().decided_to(c as nat)
                } else {
                    old(self).log_spec()
                })
                &&& final(self).outgoing_spec() == (if quorum {
                    old(self).outgoing_spec() + old(self).to_peers(
                        PaxosMsg::Decide {
                            n: old(self).promise_spec(),
                            decided_idx: old(self).log_spec().decided_to(c as nat).decided_idx as usize,
                        },
                    )
                } else {
                    old(self).outgoing_spec()
                })
            }),
            final(self).accepted_spec() == old(self).accepted_spec(),
            old(self).same_protocol_state(&*final(self)),
    {
        if c > self.log.get_decided_idx() {
            let cnt = self.count_accepted(c);
            if cnt >= self.leader_state.nodes.len() / 2 + 1 {
                self.log.decide_to(c);
                let d = self.log.get_decided_idx();
                let n = self.log.get_promise();
                self.broadcast(PaxosMsg::Decide { n, decided_idx: d });
            }
        }
    }

    /// What proposing `p` does at the active leader: `p` goes at the end of
    /// the log, the leader's own accepted index moves to the new end, an
    /// `AcceptDecide` goes to every peer, and where that alone makes a
    /// majority (a cluster of one) the new entry is decided at once.
    pub open spec fn propose_post(pre: Self, post: Self, p: Proposal<T>) -> bool {
        let appended = pre.log_with(p);
            let sent = pre.outgoing_spec() + pre.to_peers(
                PaxosMsg::AcceptDecide {
                    n: pre.promise_spec(),
                    idx: pre.log_spec().len() as usize,
                    entry: p,
                    decided_idx: pre.log_spec().decided_idx as usize,
                },
            );
            let quorum = count_at_least(post.accepted_spec(), appended.len() as usize)
                >= majority(pre.nodes_spec().len());
        &&& pre.same_roles(&post)
            &&& post.accepted_spec() == pre.accepted_spec().update(
                0,
                appended.len() as usize,
            )
            &&& post.log_spec() == (if quorum {
                appended.decided_to(appended.len())
            } else {
                appended
            })
            &&& post.outgoing_spec() == (if quorum {
                sent + pre.to_peers(
                    PaxosMsg::Decide {
                        n: pre.promise_spec(),
                        decided_idx: appended.len() as usize,
                    },
                )
            } else {
                sent
            })
    }

    fn propose(&mut self, p: Proposal<T>)
        requires
            old(self).wf(),
            old(self).log_spec().len() < usize::MAX,
        ensures
            final(self).wf(),
            Self::propose_post(*old(self), *final(self), p),
            old(self).same_roles(&*final(self)),
    {
        let idx = self.log.len();
        let d = self.log.get_decided_idx();
        let n = self.log.get_promise();
        self.log.append(p);
        self.leader_state.accepted_indexes.set(0, idx + 1);
        self.broadcast(PaxosMsg::AcceptDecide { n, idx, entry: p, decided_idx: d });
        self.try_decide(idx + 1);
    }

    /// Appends `v` at the end of the log and sends it to the followers. Only
    /// the active leader appends, and nothing after a stop-sign.
    pub fn append(&mut self, v: T) -> (r: Result<(), ProposeErr>)
        requires
            old(self).wf(),
            old(self).log_spec().len() < usize::MAX,
        ensures
            final(self).wf(),
            r == (if !old(self).is_active_leader() {
                Err(ProposeErr::NotLeader)
            } else if old(self).log_spec().ends_with_stopsign() {
                Err(ProposeErr::Reconfiguration)
            } else {
                Ok(())
            }),
            r is Ok ==> Self::propose_post(*old(self), *final(self), Proposal::Value(v)),
            r is Err ==> final(self).log_spec() == old(self).log_spec() && final(self).outgoing_spec()
                == old(self).outgoing_spec() && final(self).accepted_spec() == old(self).accepted_spec(),
            final(self).log_spec().trim_idx == old(self).log_spec().trim_idx,
            old(self).log_spec().extends_decided(final(self).log_spec()),
            old(self).same_roles(&*final(self)),
    {
        if !(self.role == Role::Leader && self.phase == Phase::Accept) {
            return Err(ProposeErr::NotLeader);
        }
        if self.log.ends_with_stopsign() {
            return Err(ProposeErr::Reconfiguration);
        }
        self.propose(Proposal::Value(v));
        Ok(())
    }

    /// Proposes the stop-sign that ends the configuration epoch.
    pub fn propose_stopsign(&mut self) -> (r: Result<(), ProposeErr>)
        requires
            old(self).wf(),
            old(self).log_spec().len() < usize::MAX,
        ensures
            final(self).wf(),
            r == (if !old(self).is_active_leader() {
                Err(ProposeErr::NotLeader)
            } else if old(self).log_spec().ends_with_stopsign() {
                Err(ProposeErr::Reconfiguration)
            } else {
                Ok(())
            }),
            r is Ok ==> Self::propose_post(*old(self), *final(self), Proposal::StopSign),
            r is Err ==> final(self).log_spec() == old(self).log_spec() && final(self).outgoing_spec()
                == old(self).outgoing_spec() && final(self).accepted_spec() == old(self).accepted_spec(),
            old(self).log_spec().extends_decided(final(self).log_spec()),
            old(self).same_roles(&*final(self)),
    {
        if !(self.role == Role::Leader && self.phase == Phase::Accept) {
            return Err(ProposeErr::NotLeader);
        }
        if self.log.ends_with_stopsign() {
            return Err(ProposeErr::Reconfiguration);
        }
        self.propose(Proposal::StopSign);
        Ok(())
    }

    /// The leader of ballot `n` reports how far replica `from` has accepted.
    /// Under a majority the entries become decided.
    pub fn handle_accepted(&mut self, from: NodeId, n: Ballot, accepted_idx: usize)
        requires
            old(self).wf(),
        ensures
            final(self).wf(),
            old(self).log_spec().extends_decided(final(self).log_spec()),
            Self::accepted_post(*old(self), *final(self), from, n, accepted_idx),
    {
        if self.role == Role::Leader && self.phase == Phase::Accept && n == self.log.get_promise() {
            match index_of(&self.leader_state.nodes, from) {
                Some(k) => {
                    if k > 0 {
                        assert(old(self).is_peer_slot(from, k as int));
                        let len = self.log.len();
                        let a = if accepted_idx <= len { accepted_idx } else { len };
                        if a > self.leader_state.accepted_indexes[k] {
                            self.leader_state.accepted_indexes.set(k, a);
                        }
                        self.try_decide(a);
                    }
                },
                None => {},
            }
        }
    }

    /// What `handle_accept_decide(n, idx, entry, decided_idx)` does.
    pub open spec fn accept_decide_post(
        pre: Self,
        post: Self,
        n: Ballot,
        idx: usize,
        entry: Proposal<T>,
        decided_idx: usize,
    ) -> bool {
        &&& (({
            let takes = n == pre.promise_spec() && pre.role_spec() == Role::Follower
                && pre.phase_spec() == Phase::Accept && idx == pre.log_spec().len()
                && idx < usize::MAX;
            &&& post.log_spec() == (if takes {
                pre.log_with(entry).decided_to(decided_idx as nat)
            } else {
                pre.log_spec()
            })
            &&& post.outgoing_spec() == (if takes {
                pre.outgoing_spec().push(
                    Message {
                        from: pre.pid_spec(),
                        to: n.pid,
                        msg: PaxosMsg::Accepted { n, accepted_idx: (idx + 1) as usize },
                    },
                )
            } else {
                pre.outgoing_spec()
            })
        }))
        &&& (pre.log_spec().extends_decided(post.log_spec()))
        &&& (pre.same_protocol_state(&post))
    }

    /// The leader of ballot `n` sends the slot of position `idx`; it is
    /// taken when it continues the log here, and its acceptance reported.
    pub fn handle_accept_decide(
        &mut self,
        n: Ballot,
        idx: usize,
        entry: Proposal<T>,
        decided_idx: usize,
    )
        requires
            old(self).wf(),
        ensures
            final(self).wf(),
            Self::accept_decide_post(*old(self), *final(self), n, idx, entry, decided_idx),
    {
        if n == self.log.get_promise() && self.role == Role::Follower && self.phase == Phase::Accept
            && idx == self.log.len() && idx < usize::MAX {
            self.log.append(entry);
            self.log.decide_to(decided_idx);
            self.outgoing.push(
                Message {
                    from: self.pid,
                    to: n.pid,
                    msg: PaxosMsg::Accepted { n, accepted_idx: idx + 1 },
                },
            );
        }
    }

    pub closed spec fn accepted_round_spec(&self) -> Ballot {
        self.log.accepted_round_spec()
    }

    pub closed spec fn promises_spec(&self) -> Seq<Option<Promise<T>>> {
        self.leader_state.promises@
    }

    /// Number of peers whose promise this leader holds.
    pub open spec fn promised(&self) -> nat {
        count_some(self.promises_spec().subrange(1, self.promises_spec().len() as int))
    }

    /// `m` is the promise for ballot `n` that this replica sends to `to`,
    /// whose leader has decided up to `ld`.
    pub open spec fn is_promise_msg(&self, m: Message<T>, to: NodeId, n: Ballot, ld: nat) -> bool {
        let log = self.log_spec();
        let start = sync_start(log, ld);
        &&& m.from == self.pid_spec()
        &&& m.to == to
        &&& match m.msg {
            PaxosMsg::Promise(p) => {
                &&& p.n == n
                &&& p.accepted_round == self.accepted_round_spec()
                &&& p.accepted_idx == log.len()
                &&& p.decided_idx == log.decided_idx
                &&& p.suffix_start == start
                &&& p.suffix@ == log.items.subrange(start - log.trim_idx, log.items.len() as int)
            },
            _ => false,
        }
    }

    /// `m` brings `to`, which has decided up to `fd`, to this leader's log.
    pub open spec fn is_sync_msg(&self, m: Message<T>, to: NodeId, fd: nat) -> bool {
        let log = self.log_spec();
        let start = sync_start(log, fd);
        &&& m.from == self.pid_spec()
        &&& m.to == to
        &&& match m.msg {
            PaxosMsg::AcceptSync { n, sync_idx, suffix, decided_idx } => {
                &&& n == self.promise_spec()
                &&& sync_idx == start
                &&& decided_idx == log.decided_idx
                &&& suffix@ == log.items.subrange(start - log.trim_idx, log.items.len() as int)
            },
            _ => false,
        }
    }

    fn sync_msg(&self, to: NodeId, fd: usize) -> (r: Message<T>)
        requires
            self.wf(),
        ensures
            self.is_sync_msg(r, to, fd as nat),
    {
        let len = self.log.len();
        let trim = self.log.get_trim_idx();
        let start = if fd < trim {
            trim
        } else if fd > len {
            len
        } else {
            fd
        };
        let suffix = self.log.suffix_from(start);
        Message {
            from: self.pid,
            to,
            msg: PaxosMsg::AcceptSync {
                n: self.log.get_promise(),
                sync_idx: start,
                suffix,
                decided_idx: self.log.get_decided_idx(),
            },
        }
    }

    /// What `handle_prepare(from, n, decided_idx)` does.
    pub open spec fn prepare_post(
        pre: Self,
        post: Self,
        from: NodeId,
        n: Ballot,
        decided_idx: usize,
    ) -> bool {
        &&& (post.log_spec() == pre.log_spec())
        &&& (post.accepted_round_spec() == pre.accepted_round_spec())
        &&& (pre.promise_spec().lt(n) ==> {
            &&& post.promise_spec() == n
            &&& post.role_spec() == Role::Follower
            &&& post.phase_spec() == Phase::Prepare
            &&& post.leader_spec() == Some(n)
            &&& post.outgoing_spec().len() == pre.outgoing_spec().len() + 1
            &&& post.outgoing_spec().drop_last() == pre.outgoing_spec()
            &&& pre.is_promise_msg(
                post.outgoing_spec().last(),
                from,
                n,
                decided_idx as nat,
            )
        })
        &&& (!pre.promise_spec().lt(n) ==> pre.same_protocol_state(&post)
            && post.outgoing_spec() == pre.outgoing_spec())
        &&& (post.pid_spec() == pre.pid_spec())
        &&& (post.peers_spec() == pre.peers_spec())
        &&& (post.nodes_spec() == pre.nodes_spec())
    }

    /// A replica that asks for `n` to be prepared: a higher ballot is
    /// promised, and answered with the local log from the leader's decided
    /// index on.
    pub fn handle_prepare(&mut self, from: NodeId, n: Ballot, decided_idx: usize)
        requires
            old(self).wf(),
        ensures
            final(self).wf(),
            Self::prepare_post(*old(self), *final(self), from, n, decided_idx),
    {
        if !self.log.get_promise().less_than(&n) {
            return;
        }
        self.log.set_promise(n);
        self.role = Role::Follower;
        self.phase = Phase::Prepare;
        self.leader = Some(n);
        let len = self.log.len();
        let trim = self.log.get_trim_idx();
        let start = if decided_idx < trim {
            trim
        } else if decided_idx > len {
            len
        } else {
            decided_idx
        };
        let suffix = self.log.suffix_from(start);
        let p = Promise {
            n,
            accepted_round: self.log.get_accepted_round(),
            accepted_idx: len,
            decided_idx: self.log.get_decided_idx(),
            suffix_start: start,
            suffix,
        };
        self.outgoing.push(Message { from: self.pid, to: from, msg: PaxosMsg::Promise(p) });
        assert(self.outgoing@.drop_last() =~= old(self).outgoing@);
    }

    fn count_promises(&self) -> (r: usize)
        requires
            self.wf(),
        ensures
            r < self.nodes_spec().len(),
            r == self.promised(),
    {
        let ps = &self.leader_state.promises;
        let mut cnt: usize = 0;
        let mut k: usize = 1;
        while k < ps.len()
            invariant
                1 <= k <= ps@.len(),
                ps@.len() == self.leader_state.nodes@.len(),
                cnt < k,
                cnt == count_some(ps@.subrange(1, k as int)),
            decreases ps@.len() - k,
        {
            assert(ps@.subrange(1, k + 1).drop_last() =~= ps@.subrange(1, k as int));
            if ps[k].is_some() {
                cnt = cnt + 1;
            }
            k = k + 1;
        }
        assert(ps@.subrange(1, k as int) =~= ps@.subrange(1, ps@.len() as int));
        cnt
    }

    /// Index of the promise with the greatest `(accepted_round, accepted_idx)`,
    /// or `None` where none beats the local log.
    fn best_promise(&self) -> (r: Option<usize>)
        requires
            self.wf(),
        ensures
            match r {
                None => forall|j: int|
                    1 <= j < self.promises_spec().len() && (#[trigger] self.promises_spec()[j]) is Some
                        ==> !key_lt(
                        self.accepted_round_spec(),
                        self.log_spec().len(),
                        self.promises_spec()[j].unwrap().accepted_round,
                        self.promises_spec()[j].unwrap().accepted_idx as nat,
                    ),
                Some(b) => {
                    &&& 1 <= b < self.promises_spec().len()
                    &&& self.promises_spec()[b as int] is Some
                    &&& key_lt(
                        self.accepted_round_spec(),
                        self.log_spec().len(),
                        self.promises_spec()[b as int].unwrap().accepted_round,
                        self.promises_spec()[b as int].unwrap().accepted_idx as nat,
                    )
                    &&& is_greatest(self.promises_spec(), b as int)
                },
            },
    {
        let ps = &self.leader_state.promises;
        let mut best: Option<usize> = None;
        let mut br = self.log.get_accepted_round();
        let mut bi = self.log.len();
        let mut k: usize = 1;
        while k < ps.len()
            invariant
                self.wf(),
                ps == &self.leader_state.promises,
                1 <= k <= ps@.len(),
                match best {
                    None => br == self.accepted_round_spec() && bi == self.log_spec().len(),
                    Some(b) => {
                        &&& 1 <= b < k
                        &&& ps@[b as int] is Some
                        &&& br == ps@[b as int].unwrap().accepted_round
                        &&& bi == ps@[b as int].unwrap().accepted_idx
                        &&& key_lt(self.accepted_round_spec(), self.log_spec().len(), br, bi as nat)
                    },
                },
                forall|j: int|
                    1 <= j < k && (#[trigger] ps@[j]) is Some ==> !key_lt(
                        br,
                        bi as nat,
                        ps@[j].unwrap().accepted_round,
                        ps@[j].unwrap().accepted_idx as nat,
                    ),
            decreases ps@.len() - k,
        {
            match &ps[k] {
                Some(p) => {
                    if br.less_than(&p.accepted_round) || (br == p.accepted_round && bi
                        < p.accepted_idx) {
                        let ghost (obr, obi) = (br, bi);
                        proof {
                            lemma_key_order(self.accepted_round_spec(), self.log_spec().len(), obr, obi as nat, p.accepted_round, p.accepted_idx as nat);
                        }
                        best = Some(k);
                        br = p.accepted_round;
                        bi = p.accepted_idx;
                        assert forall|j: int|
                            1 <= j < k + 1 && (#[trigger] ps@[j]) is Some implies !key_lt(
                            br,
                            bi as nat,
                            ps@[j].unwrap().accepted_round,
                            ps@[j].unwrap().accepted_idx as nat,
                        ) by {
                            lemma_key_order(
                                obr,
                                obi as nat,
                                br,
                                bi as nat,
                                ps@[j].unwrap().accepted_round,
                                ps@[j].unwrap().accepted_idx as nat,
                            );
                        }
                    } else {
                        proof {
                            crate::ballot::lemma_ballot_total_order(br, p.accepted_round, br);
                        }
                    }
                },
                None => {},
            }
            k = k + 1;
        }
        best
    }

    /// With promises from a majority, this leader adopts the most advanced
    /// log among them and starts to replicate under its ballot.
    /// What completing the prepare phase does, where `ps` are the promises
    /// held: below a majority nothing changes; with one, the most advanced
    /// promised log is adopted, the phase becomes `Accept`, and every peer
    /// that promised gets the log to sync to.
    pub open spec fn complete_post(pre: Self, ps: Seq<Option<Promise<T>>>, post: Self) -> bool {
        let promised = count_some(ps.subrange(1, ps.len() as int));
        if promised + 1 >= majority(pre.nodes_spec().len()) {
            &&& post.phase_spec() == Phase::Accept
            &&& post.accepted_round_spec() == pre.promise_spec()
            &&& post.accepted_spec() == pre.accepted_spec().update(0, post.log_spec().len() as usize)
            &&& adopts(pre.log_spec(), pre.accepted_round_spec(), ps, post.log_spec())
            &&& post.promises_spec().len() == ps.len()
            &&& forall|j: int|
                0 <= j < ps.len() ==> ((#[trigger] post.promises_spec()[j]) is Some <==> ps[j] is Some)
            &&& post.outgoing_spec().len() == pre.outgoing_spec().len() + promised
            &&& post.outgoing_spec().subrange(0, pre.outgoing_spec().len() as int)
                == pre.outgoing_spec()
        } else {
            &&& post.phase_spec() == pre.phase_spec()
            &&& post.log_spec() == pre.log_spec()
            &&& post.outgoing_spec() == pre.outgoing_spec()
            &&& post.accepted_spec() == pre.accepted_spec()
            &&& post.promises_spec() == ps
        }
    }

    fn complete_prepare_if_quorum(&mut self)
        requires
            old(self).wf(),
        ensures
            final(self).wf(),
            old(self).log_spec().extends_decided(final(self).log_spec()),
            final(self).phase_spec() == old(self).phase_spec() || final(self).phase_spec()
                == Phase::Accept,
            final(self).pid_spec() == old(self).pid_spec(),
            final(self).peers_spec() == old(self).peers_spec(),
            final(self).nodes_spec() == old(self).nodes_spec(),
            final(self).promise_spec() == old(self).promise_spec(),
            final(self).role_spec() == old(self).role_spec(),
            final(self).leader_spec() == old(self).leader_spec(),
            final(self).outgoing_spec().len() >= old(self).outgoing_spec().len(),
            final(self).outgoing_spec().subrange(0, old(self).outgoing_spec().len() as int)
                == old(self).outgoing_spec(),
            final(self).promised() == old(self).promised(),
            Self::complete_post(*old(self), old(self).promises_spec(), *final(self)),
    {
        let cnt = self.count_promises();
        if cnt + 1 < self.leader_state.nodes.len() / 2 + 1 {
                return;
        }
        match self.best_promise() {
            Some(k) => {
                let taken = self.leader_state.promises.remove(k);
                match taken {
                    Some(p) => {
                        let fd = p.decided_idx;
                        let pr = Promise {
                            n: p.n,
                            accepted_round: p.accepted_round,
                            accepted_idx: p.accepted_idx,
                            decided_idx: fd,
                            suffix_start: p.suffix_start,
                            suffix: Vec::new(),
                        };
                        self.leader_state.promises.insert(k, Some(pr));
                        proof {
                            let ops = old(self).leader_state.promises@;
                            assert(self.leader_state.promises@ =~= ops.update(k as int, Some(pr)));
                            assert(self.leader_state.promises@.subrange(1, ops.len() as int)
                                =~= ops.subrange(1, ops.len() as int).update(k - 1, Some(pr)));
                            lemma_count_some_update(ops.subrange(1, ops.len() as int), k - 1, pr);
                        }
                        let ghost ops = old(self).promises_spec();
                        if p.suffix_start <= usize::MAX - p.suffix.len() {
                            self.log.splice(p.suffix_start, p.suffix);
                        }
                        assert(ops[k as int] == Some(p));
                        assert({
                            &&& 1 <= k < ops.len()
                            &&& ops[k as int] is Some
                            &&& key_lt(
                                old(self).accepted_round_spec(),
                                old(self).log_spec().len(),
                                ops[k as int].unwrap().accepted_round,
                                ops[k as int].unwrap().accepted_idx as nat,
                            )
                            &&& is_greatest(ops, k as int)
                            &&& self.log_spec() == (if ops[k as int].unwrap().suffix_start
                                + ops[k as int].unwrap().suffix@.len() <= usize::MAX {
                                old(self).log_spec().spliced(
                                    ops[k as int].unwrap().suffix_start as nat,
                                    ops[k as int].unwrap().suffix@,
                                )
                            } else {
                                old(self).log_spec()
                            })
                        });
                        assert(adopts(
                            old(self).log_spec(),
                            old(self).accepted_round_spec(),
                            ops,
                            self.log_spec(),
                        ));
                    },
                    None => {
                        self.leader_state.promises.insert(k, None);
                        assert(self.leader_state.promises@ =~= old(self).leader_state.promises@);
                    },
                }
            },
            None => {},
        }
        let n = self.log.get_promise();
        self.log.set_accepted_round(n);
        self.phase = Phase::Accept;
        let len = self.log.len();
        self.leader_state.accepted_indexes.set(0, len);
        let mut msgs: Vec<Message<T>> = Vec::new();
        let mut k: usize = 1;
        while k < self.leader_state.nodes.len()
            invariant
                self.wf(),
                1 <= k <= self.leader_state.nodes@.len(),
                msgs@.len() == count_some(self.leader_state.promises@.subrange(1, k as int)),
                forall|i: int|
                    0 <= i < msgs@.len() ==> exists|kk: int|
                        1 <= kk < k && self.promises_spec()[kk] is Some && self.is_sync_msg(
                            #[trigger] msgs@[i],
                            self.nodes_spec()[kk],
                            self.promises_spec()[kk].unwrap().decided_idx as nat,
                        ),
            decreases self.leader_state.nodes@.len() - k,
        {
            assert(self.leader_state.promises@.subrange(1, k + 1).drop_last()
                =~= self.leader_state.promises@.subrange(1, k as int));
            let ghost prev = msgs@;
            match &self.leader_state.promises[k] {
                Some(p) => {
                    let m = self.sync_msg(self.leader_state.nodes[k], p.decided_idx);
                    msgs.push(m);
                },
                None => {},
            }
            assert forall|i: int| 0 <= i < msgs@.len() implies exists|kk: int|
                1 <= kk < k + 1 && self.promises_spec()[kk] is Some && self.is_sync_msg(
                    #[trigger] msgs@[i],
                    self.nodes_spec()[kk],
                    self.promises_spec()[kk].unwrap().decided_idx as nat,
                ) by {
                if i < prev.len() {
                    assert(msgs@[i] == prev[i]);
                    let kk = choose|kk: int|
                        1 <= kk < k && self.promises_spec()[kk] is Some && self.is_sync_msg(
                            prev[i],
                            self.nodes_spec()[kk],
                            self.promises_spec()[kk].unwrap().decided_idx as nat,
                        );
                    assert(1 <= kk < k + 1 && self.promises_spec()[kk] is Some && self.is_sync_msg(
                        msgs@[i],
                        self.nodes_spec()[kk],
                        self.promises_spec()[kk].unwrap().decided_idx as nat,
                    ));
                } else {
                    assert(self.promises_spec()[k as int] is Some && self.is_sync_msg(
                        msgs@[i],
                        self.nodes_spec()[k as int],
                        self.promises_spec()[k as int].unwrap().decided_idx as nat,
                    ));
                }
            }
            k = k + 1;
        }
        assert(self.leader_state.promises@.subrange(1, k as int) =~= self.leader_state.promises@.subrange(
            1,
            self.leader_state.promises@.len() as int,
        ));
        let ghost before = self.outgoing@;
        let ghost sent = msgs@;
        self.outgoing.append(&mut msgs);
        assert(self.outgoing@ == before + sent);
        assert forall|i: int|
            before.len() <= i < self.outgoing@.len() implies #[trigger] self.outgoing@[i] == sent[i
            - before.len()] by {}
        assert(self.phase_spec() == Phase::Accept);
        assert(self.promises_spec().len() == old(self).promises_spec().len());
        assert(forall|j: int|
            0 <= j < old(self).promises_spec().len() ==> ((#[trigger] self.promises_spec()[j]) is Some
                <==> old(self).promises_spec()[j] is Some));
        assert(old(self).promised() + 1 >= majority(old(self).nodes_spec().len()));
        assert(self.accepted_round_spec() == old(self).promise_spec());
        assert(self.accepted_spec() == old(self).accepted_spec().update(0, self.log_spec().len() as usize));
        assert(adopts(old(self).log_spec(), old(self).accepted_round_spec(), old(self).promises_spec(), self.log_spec()));
        assert(self.outgoing_spec().len() == old(self).outgoing_spec().len() + old(self).promised());
        assert(self.outgoing_spec().subrange(0, old(self).outgoing_spec().len() as int) == old(self).outgoing_spec());
        assert(Self::complete_post(*old(self), old(self).promises_spec(), *self));
        assert(self.outgoing@.subrange(0, old(self).outgoing@.len() as int) =~= old(self).outgoing@);
    }

    /// Leader election reports ballot `n` as the leader's. When it is this
    /// replica's and beats its promise, it promises `n` to itself and asks the
    /// peers to prepare; another replica's ballot makes this one a follower.
    pub fn handle_leader(&mut self, n: Ballot)
        requires
            old(self).wf(),
        ensures
            final(self).wf(),
            old(self).log_spec().extends_decided(final(self).log_spec()),
            final(self).pid_spec() == old(self).pid_spec(),
            final(self).peers_spec() == old(self).peers_spec(),
            n.pid == old(self).pid_spec() && old(self).promise_spec().lt(n) ==> {
                let sent = old(self).outgoing_spec() + old(self).to_peers(
                    PaxosMsg::Prepare { n, decided_idx: old(self).log_spec().decided_idx as usize },
                );
                &&& final(self).role_spec() == Role::Leader
                &&& final(self).promise_spec() == n
                &&& final(self).leader_spec() == Some(n)
                &&& (final(self).phase_spec() == Phase::Prepare || final(self).phase_spec()
                    == Phase::Accept)
                &&& final(self).phase_spec() == Phase::Accept ==> final(self).promised() + 1
                    >= majority(final(self).nodes_spec().len())
                &&& final(self).outgoing_spec().len() >= sent.len()
                &&& final(self).outgoing_spec().subrange(0, sent.len() as int) == sent
                &&& final(self).nodes_spec() == old(self).nodes_spec()
                &&& forall|j: int|
                    0 <= j < final(self).promises_spec().len() ==> (
                    #[trigger] final(self).promises_spec()[j]) is None
                &&& final(self).promises_spec().len() == old(self).nodes_spec().len()
                &&& if old(self).nodes_spec().len() == 1 {
                    &&& final(self).phase_spec() == Phase::Accept
                    &&& final(self).accepted_spec() == seq![final(self).log_spec().len() as usize]
                    &&& final(self).outgoing_spec() == sent
                } else {
                    &&& final(self).phase_spec() == Phase::Prepare
                    &&& final(self).accepted_spec() == Seq::new(
                        old(self).nodes_spec().len(),
                        |j: int| 0usize,
                    )
                    &&& final(self).outgoing_spec() == sent
                    &&& final(self).log_spec() == old(self).log_spec()
                }
            },
            n.pid != old(self).pid_spec() && old(self).promise_spec().le(n) ==> {
                &&& final(self).role_spec() == Role::Follower
                &&& final(self).leader_spec() == Some(n)
                &&& final(self).phase_spec() == (if old(self).role_spec() == Role::Leader {
                    Phase::Idle
                } else {
                    old(self).phase_spec()
                })
                &&& final(self).promise_spec() == old(self).promise_spec()
                &&& final(self).log_spec() == old(self).log_spec()
                &&& final(self).outgoing_spec() == old(self).outgoing_spec()
                &&& final(self).nodes_spec() == old(self).nodes_spec()
                &&& final(self).accepted_spec() == old(self).accepted_spec()
                &&& final(self).promises_spec() == old(self).promises_spec()
            },
            !(n.pid == old(self).pid_spec() && old(self).promise_spec().lt(n)) && !(n.pid
                != old(self).pid_spec() && old(self).promise_spec().le(n)) ==> {
                &&& old(self).same_protocol_state(&*final(self))
                &&& final(self).log_spec() == old(self).log_spec()
                &&& final(self).outgoing_spec() == old(self).outgoing_spec()
            },
    {
        if n.pid == self.pid {
            if self.log.get_promise().less_than(&n) {
                self.log.set_promise(n);
                self.role = Role::Leader;
                self.phase = Phase::Prepare;
                self.leader = Some(n);
                let mut ps: Vec<Option<Promise<T>>> = Vec::new();
                let mut acc: Vec<usize> = Vec::new();
                let mut k: usize = 0;
                while k < self.leader_state.nodes.len()
                    invariant
                        0 <= k <= self.leader_state.nodes@.len(),
                        ps@.len() == k,
                        acc@ == Seq::new(k as nat, |j: int| 0usize),
                        forall|j: int| 0 <= j < k ==> (#[trigger] ps@[j]) is None,
                    decreases self.leader_state.nodes@.len() - k,
                {
                    ps.push(None);
                    acc.push(0);
                    k = k + 1;
                    assert(acc@ =~= Seq::new(k as nat, |j: int| 0usize));
                }
                self.leader_state.n_leader = n;
                self.leader_state.promises = ps;
                self.leader_state.accepted_indexes = acc;
                proof {
                    lemma_count_none(ps@.subrange(1, ps@.len() as int));
                }
                let d = self.log.get_decided_idx();
                self.broadcast(PaxosMsg::Prepare { n, decided_idx: d });
                let ghost mid = *self;
                assert(mid.promised() == 0);
                self.complete_prepare_if_quorum();
                proof {
                    if mid.nodes_spec().len() == 1 {
                        assert(self.accepted_spec() =~= seq![self.log_spec().len() as usize]);
                        assert(self.outgoing_spec() =~= mid.outgoing_spec());
                    } else {
                        assert(self.accepted_spec() =~= Seq::new(
                            mid.nodes_spec().len(),
                            |j: int| 0usize,
                        ));
                    }
                    assert forall|j: int|
                        0 <= j < self.promises_spec().len() implies (
                        #[trigger] self.promises_spec()[j]) is None by {
                        assert(mid.promises_spec()[j] is None);
                    }
                }
            }
        } else if self.log.get_promise().at_most(&n) {
            if self.role == Role::Leader {
                self.phase = Phase::Idle;
            }
            self.role = Role::Follower;
            self.leader = Some(n);
        }
    }

    /// What `handle_promise(from, p)` does.
    pub open spec fn promise_post(
        pre: Self,
        post: Self,
        from: NodeId,
        p: Promise<T>,
    ) -> bool {
        &&& (post.nodes_spec() == pre.nodes_spec())
        &&& (pre.role_spec() == Role::Leader && pre.phase_spec() == Phase::Prepare && p.n
            == pre.promise_spec() ==> if exists|k: int| pre.is_peer_slot(from, k)
            && p.suffix_start + p.suffix@.len() <= usize::MAX {
            let k = choose|k: int| pre.is_peer_slot(from, k);
            Self::complete_post(pre, pre.promises_spec().update(k, Some(p)), post)
        } else {
            &&& post.log_spec() == pre.log_spec()
            &&& post.outgoing_spec() == pre.outgoing_spec()
            &&& post.phase_spec() == pre.phase_spec()
        })
        &&& (pre.log_spec().extends_decided(post.log_spec()))
        &&& (post.pid_spec() == pre.pid_spec())
        &&& (post.peers_spec() == pre.peers_spec())
        &&& (post.promise_spec() == pre.promise_spec())
        &&& (post.role_spec() == pre.role_spec())
        &&& (post.leader_spec() == pre.leader_spec())
        &&& (post.phase_spec() == pre.phase_spec() || post.phase_spec()
            == Phase::Accept)
        &&& (pre.phase_spec() != Phase::Accept && post.phase_spec() == Phase::Accept
            ==> post.promised() + 1 >= majority(post.nodes_spec().len()))
        &&& (pre.role_spec() == Role::Leader && pre.phase_spec() == Phase::Accept
            && p.n == pre.promise_spec() ==> {
            &&& post.log_spec() == pre.log_spec()
            &&& post.outgoing_spec().len() == pre.outgoing_spec().len() + 1
            &&& post.outgoing_spec().drop_last() == pre.outgoing_spec()
            &&& pre.is_sync_msg(
                post.outgoing_spec().last(),
                from,
                p.decided_idx as nat,
            )
        })
        &&& (!(pre.role_spec() == Role::Leader && p.n == pre.promise_spec()) ==> {
            &&& post.log_spec() == pre.log_spec()
            &&& post.outgoing_spec() == pre.outgoing_spec()
            &&& post.phase_spec() == pre.phase_spec()
        })
    }

    /// A follower's promise for the ballot this replica leads: collected while
    /// preparing; after that, answered with the log to sync to.
    pub fn handle_promise(&mut self, from: NodeId, p: Promise<T>)
        requires
            old(self).wf(),
        ensures
            final(self).wf(),
            Self::promise_post(*old(self), *final(self), from, p),
    {
        if self.role != Role::Leader || p.n != self.log.get_promise() {
            return;
        }
        if self.phase == Phase::Prepare {
            match index_of(&self.leader_state.nodes, from) {
                Some(k) => {
                    if k > 0 && p.suffix_start <= usize::MAX - p.suffix.len() {
                        assert(old(self).is_peer_slot(from, k as int));
                        let ghost ps = old(self).promises_spec().update(k as int, Some(p));
                        self.leader_state.promises.set(k, Some(p));
                        assert(self.promises_spec() == ps);
                        self.complete_prepare_if_quorum();
                    }
                },
                None => {},
            }
        } else if self.phase == Phase::Accept {
            let m = self.sync_msg(from, p.decided_idx);
            self.outgoing.push(m);
            assert(self.outgoing@.drop_last() =~= old(self).outgoing@);
        }
    }

    /// What `handle_accept_sync(n, sync_idx, suffix, decided_idx)` does.
    pub open spec fn accept_sync_post(
        pre: Self,
        post: Self,
        n: Ballot,
        sync_idx: usize,
        suffix: Seq<Proposal<T>>,
        decided_idx: usize,
    ) -> bool {
        &&& (post.nodes_spec() == pre.nodes_spec())
        &&& (pre.log_spec().extends_decided(post.log_spec()))
        &&& (post.pid_spec() == pre.pid_spec())
        &&& (post.peers_spec() == pre.peers_spec())
        &&& (post.promise_spec() == pre.promise_spec())
        &&& (post.role_spec() == pre.role_spec())
        &&& (post.leader_spec() == pre.leader_spec())
        &&& (({
            let takes = n == pre.promise_spec() && pre.role_spec() == Role::Follower
                && pre.phase_spec() == Phase::Prepare && sync_idx + suffix.len()
                <= usize::MAX;
            &&& post.log_spec() == (if takes {
                pre.log_spec().spliced(sync_idx as nat, suffix).decided_to(
                    decided_idx as nat,
                )
            } else {
                pre.log_spec()
            })
            &&& post.phase_spec() == (if takes {
                Phase::Accept
            } else {
                pre.phase_spec()
            })
            &&& takes ==> post.accepted_round_spec() == n
            &&& post.outgoing_spec() == (if takes {
                pre.outgoing_spec().push(
                    Message {
                        from: pre.pid_spec(),
                        to: n.pid,
                        msg: PaxosMsg::Accepted {
                            n,
                            accepted_idx: post.log_spec().len() as usize,
                        },
                    },
                )
            } else {
                pre.outgoing_spec()
            })
        }))
    }

    /// The leader of ballot `n` sends its log from `sync_idx` on: a follower
    /// that promised `n` adopts it and reports how far it has accepted.
    pub fn handle_accept_sync(
        &mut self,
        n: Ballot,
        sync_idx: usize,
        suffix: Vec<Proposal<T>>,
        decided_idx: usize,
    )
        requires
            old(self).wf(),
        ensures
            final(self).wf(),
            Self::accept_sync_post(*old(self), *final(self), n, sync_idx, suffix@, decided_idx),
    {
        if n == self.log.get_promise() && self.role == Role::Follower && self.phase == Phase::Prepare
            && sync_idx <= usize::MAX - suffix.len() {
            self.log.splice(sync_idx, suffix);
            self.log.decide_to(decided_idx);
            self.log.set_accepted_round(n);
            self.phase = Phase::Accept;
            let len = self.log.len();
            self.outgoing.push(
                Message { from: self.pid, to: n.pid, msg: PaxosMsg::Accepted { n, accepted_idx: len } },
            );
        }
    }

    /// Handles one protocol message addressed to this replica; others are
    /// dropped.
    pub fn handle_message(&mut self, m: Message<T>)
        requires
            old(self).wf(),
        ensures
            final(self).wf(),
            old(self).log_spec().extends_decided(final(self).log_spec()),
            final(self).pid_spec() == old(self).pid_spec(),
            final(self).peers_spec() == old(self).peers_spec(),
            m.to != old(self).pid_spec() ==> final(self).log_spec() == old(self).log_spec()
                && final(self).outgoing_spec() == old(self).outgoing_spec(),
            m.to == old(self).pid_spec() ==> match m.msg {
                PaxosMsg::Prepare { n, decided_idx } => Self::prepare_post(
                    *old(self),
                    *final(self),
                    m.from,
                    n,
                    decided_idx,
                ),
                PaxosMsg::Promise(p) => Self::promise_post(*old(self), *final(self), m.from, p),
                PaxosMsg::AcceptSync { n, sync_idx, suffix, decided_idx } => Self::accept_sync_post(
                    *old(self),
                    *final(self),
                    n,
                    sync_idx,
                    suffix@,
                    decided_idx,
                ),
                PaxosMsg::AcceptDecide { n, idx, entry, decided_idx } => Self::accept_decide_post(
                    *old(self),
                    *final(self),
                    n,
                    idx,
                    entry,
                    decided_idx,
                ),
                PaxosMsg::Accepted { n, accepted_idx } => Self::accepted_post(
                    *old(self),
                    *final(self),
                    m.from,
                    n,
                    accepted_idx,
                ),
                PaxosMsg::Decide { n, decided_idx } => Self::decide_post(
                    *old(self),
                    *final(self),
                    n,
                    decided_idx,
                ),
                PaxosMsg::Compaction { trim_idx } => Self::compaction_post(
                    *old(self),
                    *final(self),
                    trim_idx,
                ),
            },
    {
        if m.to != self.pid {
            return;
        }
        match m.msg {
            PaxosMsg::Prepare { n, decided_idx } => self.handle_prepare(m.from, n, decided_idx),
            PaxosMsg::Promise(p) => self.handle_promise(m.from, p),
            PaxosMsg::AcceptSync { n, sync_idx, suffix, decided_idx } => self.handle_accept_sync(
                n,
                sync_idx,
                suffix,
                decided_idx,
            ),
            PaxosMsg::AcceptDecide { n, idx, entry, decided_idx } => self.handle_accept_decide(
                n,
                idx,
                entry,
                decided_idx,
            ),
            PaxosMsg::Accepted { n, accepted_idx } => self.handle_accepted(m.from, n, accepted_idx),
            PaxosMsg::Decide { n, decided_idx } => self.handle_decide(n, decided_idx),
            PaxosMsg::Compaction { trim_idx } => self.handle_compaction(trim_idx),
        }
    }
}

/// Among replicas with distinct identifiers, at most one acts as leader of a
/// given ballot.
pub proof fn lemma_one_leader_per_ballot<T: Copy>(
    replicas: Seq<SequencePaxos<T>>,
    b: Ballot,
    i: int,
    j: int,
)
    requires
        forall|x: int, y: int|
            0 <= x < replicas.len() && 0 <= y < replicas.len() && x != y ==> (
            #[trigger] replicas[x]).pid_spec() != (#[trigger] replicas[y]).pid_spec(),
        0 <= i < replicas.len(),
        0 <= j < replicas.len(),
        replicas[i].wf(),
        replicas[j].wf(),
        replicas[i].role_spec() == Role::Leader && replicas[i].promise_spec() == b,
        replicas[j].role_spec() == Role::Leader && replicas[j].promise_spec() == b,
    ensures
        i == j,
{
    replicas[i].lemma_leader_owns_ballot();
    replicas[j].lemma_leader_owns_ballot();
}

/// Along a run of states of one replica, where each step keeps the decided
/// slots of the one before (as `handle_message`, `append`, `trim` and every
/// other step of the engine ensure), the trim index never moves back and every
/// position below the latest trim index reads as its marker.
pub proof fn lemma_replica_trim_monotonic<T: Copy>(run: Seq<SequencePaxos<T>>, i: int, j: int)
    requires
        forall|k: int|
            0 <= k < run.len() - 1 ==> #[trigger] run[k].log_spec().extends_decided(
                run[k + 1].log_spec(),
            ),
        0 <= i <= j < run.len(),
    ensures
        run[i].log_spec().trim_idx <= run[j].log_spec().trim_idx,
        forall|p: int|
            0 <= p < run[j].log_spec().trim_idx ==> #[trigger] run[j].log_spec().entry(p)
                == LogEntry::<T>::Trimmed(run[j].log_spec().trim_idx as usize),
{
    let logs = Seq::new(run.len(), |k: int| run[k].log_spec());
    assert forall|k: int| 0 <= k < logs.len() - 1 implies #[trigger] logs[k].extends_decided(
        logs[k + 1],
    ) by {
        assert(run[k].log_spec().extends_decided(run[k + 1].log_spec()));
    }
    crate::storage::lemma_trim_monotonic_run(logs, i, j);
}

/// Number of positions where `s1` is at least `c1` and `s2` at least `c2`.
pub open spec fn count_both(s1: Seq<usize>, c1: usize, s2: Seq<usize>, c2: usize) -> nat
    decreases s1.len(),
{
    if s1.len() == 0 || s2.len() != s1.len() {
        0
    } else {
        count_both(s1.drop_last(), c1, s2.drop_last(), c2) + if s1.last() >= c1 && s2.last()
            >= c2 {
            1nat
        } else {
            0nat
        }
    }
}

proof fn lemma_count_sum(s1: Seq<usize>, c1: usize, s2: Seq<usize>, c2: usize)
    requires
        s1.len() == s2.len(),
    ensures
        count_at_least(s1, c1) + count_at_least(s2, c2) <= s1.len() + count_both(s1, c1, s2, c2),
        count_both(s1, c1, s2, c2) > 0 ==> exists|k: int|
            0 <= k < s1.len() && s1[k] >= c1 && s2[k] >= c2,
    decreases s1.len(),
{
    if s1.len() > 0 {
        lemma_count_sum(s1.drop_last(), c1, s2.drop_last(), c2);
        if count_both(s1.drop_last(), c1, s2.drop_last(), c2) > 0 {
            let k = choose|k: int|
                0 <= k < s1.drop_last().len() && s1.drop_last()[k] >= c1 && s2.drop_last()[k]
                    >= c2;
            assert(s1[k] >= c1 && s2[k] >= c2);
        }
        if s1.last() >= c1 && s2.last() >= c2 {
            assert(s1[s1.len() - 1] >= c1 && s2[s2.len() - 1] >= c2);
        }
    }
}

/// Two majorities of the same replicas meet: where a majority has accepted up
/// to `c1` in one record of accepted indexes and a majority up to `c2` in
/// another over the same replicas, some replica has done both.
pub proof fn lemma_quorums_intersect(a1: Seq<usize>, c1: usize, a2: Seq<usize>, c2: usize)
    requires
        a1.len() == a2.len(),
        count_at_least(a1, c1) >= majority(a1.len()),
        count_at_least(a2, c2) >= majority(a2.len()),
    ensures
        exists|k: int| 0 <= k < a1.len() && a1[k] >= c1 && a2[k] >= c2,
{
    lemma_count_sum(a1, c1, a2, c2);
}

/// Number of promises held in `s`.
pub open spec fn count_some<T>(s: Seq<Option<Promise<T>>>) -> nat
    decreases s.len(),
{
    if s.len() == 0 {
        0
    } else {
        count_some(s.drop_last()) + if s.last() is Some {
            1nat
        } else {
            0nat
        }
    }
}

proof fn lemma_count_none<T>(s: Seq<Option<Promise<T>>>)
    requires
        forall|j: int| 0 <= j < s.len() ==> (#[trigger] s[j]) is None,
    ensures
        count_some(s) == 0,
    decreases s.len(),
{
    if s.len() > 0 {
        lemma_count_none(s.drop_last());
    }
}

proof fn lemma_count_some_update<T>(s: Seq<Option<Promise<T>>>, k: int, x: Promise<T>)
    requires
        0 <= k < s.len(),
        s[k] is Some,
    ensures
        count_some(s.update(k, Some(x))) == count_some(s),
    decreases s.len(),
{
    let u = s.update(k, Some(x));
    if k < s.len() - 1 {
        assert(u.drop_last() =~= s.drop_last().update(k, Some(x)));
        lemma_count_some_update(s.drop_last(), k, x);
    } else {
        assert(u.drop_last() =~= s.drop_last());
    }
}

/// The promise at slot `b` of `ps` has the greatest `(accepted_round,
/// accepted_idx)` of all promises held from slot 1 on.
pub open spec fn is_greatest<T>(ps: Seq<Option<Promise<T>>>, b: int) -> bool {
    forall|j: int|
        1 <= j < ps.len() && (#[trigger] ps[j]) is Some ==> !key_lt(
            ps[b].unwrap().accepted_round,
            ps[b].unwrap().accepted_idx as nat,
            ps[j].unwrap().accepted_round,
            ps[j].unwrap().accepted_idx as nat,
        )
}

/// `newlog` is what a leader with `log`, accepted under `round`, adopts from
/// the promises `ps`: its own log where no promise is more advanced, else the
/// most advanced promise's suffix spliced in.
pub open spec fn adopts<T>(
    log: LogModel<T>,
    round: Ballot,
    ps: Seq<Option<Promise<T>>>,
    newlog: LogModel<T>,
) -> bool {
    ||| newlog == log && forall|j: int|
        1 <= j < ps.len() && (#[trigger] ps[j]) is Some ==> !key_lt(
            round,
            log.len(),
            ps[j].unwrap().accepted_round,
            ps[j].unwrap().accepted_idx as nat,
        )
    ||| exists|k: int|
        {
            &&& 1 <= k < ps.len()
            &&& (#[trigger] ps[k]) is Some
            &&& key_lt(round, log.len(), ps[k].unwrap().accepted_round, ps[k].unwrap().accepted_idx as nat)
            &&& is_greatest(ps, k)
            &&& newlog == (if ps[k].unwrap().suffix_start + ps[k].unwrap().suffix@.len() <= usize::MAX {
                log.spliced(ps[k].unwrap().suffix_start as nat, ps[k].unwrap().suffix@)
            } else {
                log
            })
        }
}

/// Strict lexicographic order on `(accepted_round, accepted_idx)`.
pub open spec fn key_lt(r1: Ballot, i1: nat, r2: Ballot, i2: nat) -> bool {
    r1.lt(r2) || (r1 == r2 && i1 < i2)
}

proof fn lemma_key_order(r1: Ballot, i1: nat, r2: Ballot, i2: nat, r3: Ballot, i3: nat)
    ensures
        key_lt(r1, i1, r2, i2) && key_lt(r2, i2, r3, i3) ==> key_lt(r1, i1, r3, i3),
        key_lt(r1, i1, r2, i2) ==> !key_lt(r2, i2, r1, i1),
{
    crate::ballot::lemma_ballot_total_order(r1, r2, r3);
    crate::ballot::lemma_ballot_total_order(r3, r1, r2);
    crate::ballot::lemma_ballot_total_order(r2, r3, r1);
}

/// Where a suffix sent to a replica that has decided up to `d` starts.
pub open spec fn sync_start<T>(log: LogModel<T>, d: nat) -> nat {
    if d < log.trim_idx {
        log.trim_idx
    } else if d > log.len() {
        log.len()
    } else {
        d
    }
}

/// Position of the first `id` in `nodes`.
fn index_of(nodes: &Vec<NodeId>, id: NodeId) -> (r: Option<usize>)
    ensures
        match r {
            Some(k) => k < nodes@.len() && nodes@[k as int] == id && forall|j: int|
                0 <= j < k ==> nodes@[j] != id,
            None => forall|j: int| 0 <= j < nodes@.len() ==> nodes@[j] != id,
        },
{
    let mut j: usize = 0;
    while j < nodes.len()
        invariant
            0 <= j <= nodes@.len(),
            forall|i: int| 0 <= i < j ==> nodes@[i] != id,
        decreases nodes@.len() - j,
    {
        if nodes[j] == id {
            return Some(j);
        }
        j = j + 1;
    }
    None
}

} // verus!
