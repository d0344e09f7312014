use omnipaxos::ble::{BallotLeaderElection, BleMsg};
use omnipaxos::sequence_paxos::{ProposeErr, SequencePaxos};
use omnipaxos::storage::LogEntry;
use omnipaxos::ui::ClusterState;
use omnipaxos::watch::WatchRegistry;

const NUM_PROPOSALS: u64 = 100;
const TRIM_IDX: usize = 50;
const TRIM_INDEX_INCREMENT: usize = 10;

struct Node {
    ble: BallotLeaderElection,
    paxos: SequencePaxos<u64>,
    alive: bool,
}

/// Replicas with pids 1..=n connected by lossless FIFO links.
struct Cluster {
    nodes: Vec<Node>,
}

impl Cluster {
    fn new(n: u64) -> Cluster {
        let mut nodes = vec![];
        for pid in 1..=n {
            let peers: Vec<u64> = (1..=n).filter(|p| *p != pid).collect();
            nodes.push(Node {
                ble: BallotLeaderElection::new(pid, peers.clone(), 0),
                paxos: SequencePaxos::new(pid, peers),
                alive: true,
            });
        }
        Cluster { nodes }
    }

    fn node(&mut self, pid: u64) -> &mut Node {
        &mut self.nodes[(pid - 1) as usize]
    }

    fn pump_ble(&mut self) {
        loop {
            let mut msgs = vec![];
            for n in self.nodes.iter_mut().filter(|n| n.alive) {
                msgs.extend(n.ble.take_outgoing());
            }
            if msgs.is_empty() {
                break;
            }
            for m in msgs {
                let target = self.node(m.to);
                if !target.alive {
                    continue;
                }
                match m.msg {
                    BleMsg::Request(req) => target.ble.handle_request(m.from, req),
                    BleMsg::Reply(rep) => target.ble.handle_reply(rep),
                }
            }
        }
    }

    fn pump_paxos(&mut self) {
        loop {
            let mut msgs = vec![];
            for n in self.nodes.iter_mut().filter(|n| n.alive) {
                msgs.extend(n.paxos.take_outgoing());
            }
            if msgs.is_empty() {
                break;
            }
            for m in msgs {
                let target = self.node(m.to);
                if target.alive {
                    target.paxos.handle_message(m);
                }
            }
        }
    }

    fn hb_round(&mut self) {
        for n in self.nodes.iter_mut().filter(|n| n.alive) {
            if let Some(b) = n.ble.hb_timeout() {
                n.paxos.handle_leader(b);
            }
        }
        self.pump_ble();
        self.pump_paxos();
    }

    fn elected_leader(&mut self) -> u64 {
        for _ in 0..10 {
            self.hb_round();
            if let Some(n) = self.nodes.iter().find(|n| n.alive && n.paxos.is_leader()) {
                return n.paxos.get_pid();
            }
        }
        panic!("no leader elected");
    }
}

fn create_proposals(from: u64, to: u64) -> Vec<u64> {
    (from..=to).collect()
}

fn decided_cluster(n: u64) -> (Cluster, u64, Vec<u64>) {
    let mut sys = Cluster::new(n);
    let leader = sys.elected_leader();
    let proposals = create_proposals(1, NUM_PROPOSALS);
    let mut watches: Vec<WatchRegistry> = sys.nodes.iter().map(|_| WatchRegistry::new()).collect();
    for w in watches.iter_mut() {
        w.register(proposals.len());
    }
    for v in &proposals {
        sys.node(leader).paxos.append(*v).expect("Failed to append");
        sys.pump_paxos();
    }
    for (w, n) in watches.iter_mut().zip(sys.nodes.iter()) {
        assert_eq!(w.fulfil(n.paxos.get_decided_idx()), vec![0]);
    }
    (sys, leader, proposals)
}

fn check_trim(vec_proposals: &[u64], trim_idx: usize, paxos: &SequencePaxos<u64>) {
    let num_proposals = vec_proposals.len();
    for trimmed_idx in 0..trim_idx {
        match paxos.read_entries(trimmed_idx, trimmed_idx + 1).first().unwrap() {
            LogEntry::Trimmed(idx) if *idx == trim_idx => {}
            e => panic!("Entry {} must be Trimmed({}), but was {:?}", trimmed_idx, trim_idx, e),
        }
    }
    let entries = paxos.read_entries(trim_idx, num_proposals);
    assert_eq!(entries.len(), num_proposals - trim_idx);
    for (offset, (actual_entry, expected_value)) in entries
        .iter()
        .zip(vec_proposals[trim_idx..num_proposals].iter())
        .enumerate()
    {
        assert!(
            matches!(actual_entry, LogEntry::Decided(v) if v == expected_value),
            "Entry {} must be decided with {:?}, but was {:?}",
            trim_idx + offset,
            expected_value,
            actual_entry
        );
    }
    let decided_sfx = paxos.read_decided_suffix(0);
    assert_eq!(decided_sfx.len(), num_proposals - trim_idx + 1);
}

#[test]
fn trim_test() {
    assert_ne!(TRIM_IDX, 0, "trim_idx must be greater than 0");
    let (mut sys, leader, proposals) = decided_cluster(3);
    sys.node(leader).paxos.trim(Some(TRIM_IDX)).expect("Failed to trim");
    sys.pump_paxos();
    for n in &sys.nodes {
        check_trim(&proposals, TRIM_IDX, &n.paxos);
    }
}

#[test]
fn double_trim_test() {
    assert_ne!(TRIM_IDX, 0, "trim_idx must be greater than 0");
    assert!(
        NUM_PROPOSALS as usize >= TRIM_IDX + TRIM_INDEX_INCREMENT,
        "Not enough proposals to test double trim"
    );
    let (mut sys, leader, proposals) = decided_cluster(3);
    let second_trim_idx = TRIM_IDX + TRIM_INDEX_INCREMENT;
    sys.node(leader)
        .paxos
        .trim(Some(TRIM_IDX))
        .unwrap_or_else(|_| panic!("Failed to trim {}", TRIM_IDX));
    sys.node(leader)
        .paxos
        .trim(Some(second_trim_idx))
        .unwrap_or_else(|_| panic!("Failed to trim {}", second_trim_idx));
    sys.pump_paxos();
    for n in &sys.nodes {
        check_trim(&proposals, second_trim_idx, &n.paxos);
    }
}

#[test]
fn appended_values_decided_in_order() {
    let (sys, _leader, proposals) = decided_cluster(3);
    for n in &sys.nodes {
        let sfx = n.paxos.read_decided_suffix(0);
        let expected: Vec<LogEntry<u64>> =
            proposals.iter().map(|v| LogEntry::Decided(*v)).collect();
        assert_eq!(sfx, expected);
    }
}

#[test]
fn trim_fifty_then_sixty() {
    let (mut sys, leader, proposals) = decided_cluster(3);
    sys.node(leader).paxos.trim(Some(50)).unwrap();
    sys.pump_paxos();
    for n in &sys.nodes {
        check_trim(&proposals, 50, &n.paxos);
        assert_eq!(n.paxos.read_decided_suffix(0).len(), 51);
    }
    sys.node(leader).paxos.trim(Some(60)).unwrap();
    sys.pump_paxos();
    for n in &sys.nodes {
        check_trim(&proposals, 60, &n.paxos);
        assert_eq!(n.paxos.read_decided_suffix(0).len(), 41);
        assert_eq!(n.paxos.read_decided_suffix(0)[0], LogEntry::Trimmed(60));
    }
}

#[test]
fn lower_second_trim_is_noop() {
    let (mut sys, leader, proposals) = decided_cluster(3);
    sys.node(leader).paxos.trim(Some(60)).unwrap();
    sys.node(leader).paxos.trim(Some(50)).unwrap();
    sys.pump_paxos();
    for n in &sys.nodes {
        assert_eq!(n.paxos.get_trim_idx(), 60);
        check_trim(&proposals, 60, &n.paxos);
    }
}

#[test]
fn decided_values_agree_across_replicas() {
    let (sys, _leader, _proposals) = decided_cluster(3);
    let first = sys.nodes[0].paxos.read_entries(0, 1000);
    for n in &sys.nodes {
        assert_eq!(n.paxos.get_decided_idx(), 100);
        assert_eq!(n.paxos.read_entries(0, 1000), first);
    }
}

#[test]
fn single_leader_in_cluster() {
    let mut sys = Cluster::new(3);
    let leader = sys.elected_leader();
    assert_eq!(leader, 3);
    let leaders = sys.nodes.iter().filter(|n| n.paxos.is_leader()).count();
    assert_eq!(leaders, 1);
    for n in &sys.nodes {
        assert_eq!(n.paxos.get_current_leader(), Some(3));
    }
}

#[test]
fn progress_with_one_follower_down() {
    let mut sys = Cluster::new(3);
    let leader = sys.elected_leader();
    let follower = if leader == 1 { 2 } else { 1 };
    sys.node(follower).alive = false;
    for v in 1..=10u64 {
        sys.node(leader).paxos.append(v).unwrap();
        sys.pump_paxos();
    }
    assert_eq!(sys.node(leader).paxos.get_decided_idx(), 10);
    let other = 6 - leader - follower;
    assert_eq!(sys.node(other).paxos.get_decided_idx(), 10);
    assert_eq!(sys.node(follower).paxos.get_decided_idx(), 0);
}

#[test]
fn new_leader_after_leader_fails() {
    let (mut sys, leader, _proposals) = decided_cluster(3);
    sys.node(leader).alive = false;
    let mut new_leader = None;
    for _ in 0..10 {
        sys.hb_round();
        if let Some(n) = sys.nodes.iter().find(|n| n.alive && n.paxos.is_leader()) {
            new_leader = Some(n.paxos.get_pid());
            break;
        }
    }
    let new_leader = new_leader.expect("no new leader");
    assert_ne!(new_leader, leader);
    sys.node(new_leader).paxos.append(101).unwrap();
    sys.pump_paxos();
    assert_eq!(sys.node(new_leader).paxos.get_decided_idx(), 101);
    assert_eq!(
        sys.node(new_leader).paxos.read_entries(0, 1),
        vec![LogEntry::Decided(1)]
    );
}

#[test]
fn append_at_follower_is_refused() {
    let mut sys = Cluster::new(3);
    let leader = sys.elected_leader();
    let follower = if leader == 1 { 2 } else { 1 };
    assert_eq!(sys.node(follower).paxos.append(7), Err(ProposeErr::NotLeader));
}

#[test]
fn append_after_stopsign_is_refused() {
    let mut sys = Cluster::new(3);
    let leader = sys.elected_leader();
    sys.node(leader).paxos.append(1).unwrap();
    sys.node(leader).paxos.propose_stopsign().unwrap();
    sys.pump_paxos();
    assert_eq!(sys.node(leader).paxos.append(2), Err(ProposeErr::Reconfiguration));
    assert_eq!(sys.node(leader).paxos.propose_stopsign(), Err(ProposeErr::Reconfiguration));
    for n in &sys.nodes {
        assert_eq!(n.paxos.read_entries(1, 2), vec![LogEntry::StopSign]);
        assert_eq!(n.paxos.get_decided_idx(), 2);
    }
}

#[test]
fn projection_shows_acceptance_and_survives_trim() {
    let (mut sys, leader, _proposals) = decided_cluster(3);
    let before = ClusterState::from(sys.node(leader).paxos.leader_state());
    for pid in 1..=3u64 {
        assert_eq!(before.accepted_indexes.get(&pid), Some(&100));
    }
    sys.node(leader).paxos.trim(Some(50)).unwrap();
    sys.pump_paxos();
    let after = ClusterState::from(sys.node(leader).paxos.leader_state());
    assert_eq!(after.accepted_indexes, before.accepted_indexes);
}
