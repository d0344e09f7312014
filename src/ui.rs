use vstd::prelude::*;
use std::collections::HashMap;
use crate::ballot::{Ballot, NodeId};
use crate::ble::{BallotLeaderElection, HeartbeatReply};
use crate::sequence_paxos::{LeaderState, SequencePaxos};

verus! {

broadcast use vstd::std_specs::hash::group_hash_axioms;

/// The map from each of `nodes` to the index of `acc` at the same position;
/// a later position wins over an earlier one.
pub open spec fn accepted_map(nodes: Seq<NodeId>, acc: Seq<usize>) -> Map<NodeId, usize>
    decreases nodes.len(),
{
    if nodes.len() == 0 || acc.len() < nodes.len() {
        Map::empty()
    } else {
        accepted_map(nodes.drop_last(), acc.subrange(0, nodes.len() - 1)).insert(
            nodes.last(),
            acc[nodes.len() - 1],
        )
    }
}

/// The states of all the nodes in the cluster.
#[derive(Debug, Clone, Default)]
pub struct ClusterState {
    /// The accepted index of each node of the cluster.
    pub accepted_indexes: HashMap<NodeId, usize>,
    /// All the received heartbeats from the previous heartbeat round, including the current node.
    /// Represents nodes that are currently alive from the view of the current node.
    pub heartbeats: Vec<HeartbeatReply>,
}

impl ClusterState {
    /// The accepted indexes of the leader's bookkeeping, with no heartbeats.
    pub fn from<T>(leader_state: &LeaderState<T>) -> (r: ClusterState)
        requires
            leader_state.wf(),
        ensures
            r.accepted_indexes@ == accepted_map(
                leader_state.nodes@,
                leader_state.accepted_indexes@,
            ),
            r.heartbeats@.len() == 0,
    {
        let nodes = &leader_state.nodes;
        let acc = &leader_state.accepted_indexes;
        let mut m: HashMap<NodeId, usize> = HashMap::new();
        let mut k: usize = 0;
        while k < nodes.len()
            invariant
                0 <= k <= nodes@.len(),
                acc@.len() == nodes@.len(),
                m@ == accepted_map(nodes@.subrange(0, k as int), acc@.subrange(0, k as int)),
            decreases nodes@.len() - k,
        {
            assert(nodes@.subrange(0, k + 1).drop_last() =~= nodes@.subrange(0, k as int));
            assert(acc@.subrange(0, k + 1).subrange(0, k as int) =~= acc@.subrange(0, k as int));
            m.insert(nodes[k], acc[k]);
            k = k + 1;
        }
        assert(nodes@.subrange(0, k as int) =~= nodes@);
        assert(acc@.subrange(0, k as int) =~= acc@);
        ClusterState { accepted_indexes: m, heartbeats: Vec::new() }
    }
}

/// The states that are for UI to show.
pub struct OmniPaxosStates {
    /// The current ballot
    pub current_ballot: Ballot,
    /// The current leader
    pub current_leader: Option<NodeId>,
    /// The current decided index
    pub decided_idx: usize,
    /// All the received heartbeats from the previous heartbeat round, including the current node.
    /// Represents nodes that are currently alive from the view of the current node.
    pub heartbeats: Vec<HeartbeatReply>,
    /// The states of all the nodes in the cluster.
    pub cluster_state: ClusterState,
}

impl OmniPaxosStates {
    /// Read-only projection of a replica's election and replication state.
    pub fn new<T: Copy>(ble: &BallotLeaderElection, paxos: &SequencePaxos<T>) -> (r: OmniPaxosStates)
        requires
            paxos.wf(),
        ensures
            r.current_ballot == ble.ballot_spec(),
            r.current_leader == (match ble.leader_spec() {
                Some(b) => Some(b.pid),
                None => None,
            }),
            r.decided_idx == paxos.log_spec().decided_idx,
            r.heartbeats@ == ble.replies_spec().push(
                HeartbeatReply {
                    round: ble.round_spec(),
                    from: ble.pid_spec(),
                    ballot: ble.ballot_spec(),
                },
            ),
            r.cluster_state.heartbeats@ == r.heartbeats@,
            r.cluster_state.accepted_indexes@ == accepted_map(
                paxos.nodes_spec(),
                paxos.accepted_spec(),
            ),
    {
        let mut heartbeats = ble.get_replies();
        heartbeats.push(
            HeartbeatReply {
                round: ble.get_round(),
                from: ble.get_pid(),
                ballot: ble.get_current_ballot(),
            },
        );
        let mut cluster_state = ClusterState::from(paxos.leader_state());
        let mut copy: Vec<HeartbeatReply> = Vec::new();
        let mut k: usize = 0;
        while k < heartbeats.len()
            invariant
                0 <= k <= heartbeats@.len(),
                copy@ == heartbeats@.subrange(0, k as int),
            decreases heartbeats@.len() - k,
        {
            copy.push(heartbeats[k]);
            k = k + 1;
            assert(copy@ =~= heartbeats@.subrange(0, k as int));
        }
        assert(copy@ =~= heartbeats@);
        cluster_state.heartbeats = copy;
        let current_leader = match ble.get_leader() {
            Some(b) => Some(b.pid),
            None => None,
        };
        OmniPaxosStates {
            current_ballot: ble.get_current_ballot(),
            current_leader,
            decided_idx: paxos.get_decided_idx(),
            heartbeats,
            cluster_state,
        }
    }
}

} // verus!
