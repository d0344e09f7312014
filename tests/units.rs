use omnipaxos::ballot::Ballot;
use omnipaxos::ble::{BallotLeaderElection, BleMsg, HeartbeatReply, HeartbeatRequest};
use omnipaxos::sequence_paxos::SequencePaxos;
use omnipaxos::storage::{LogEntry, LogStore, Proposal, TrimError};
use omnipaxos::ui::{ClusterState, OmniPaxosStates};
use omnipaxos::watch::WatchRegistry;

fn decided_store(n: u64) -> LogStore<u64> {
    let mut s = LogStore::new();
    for v in 1..=n {
        s.append(Proposal::Value(v));
    }
    s.decide_to(n as usize);
    s
}

#[test]
fn ballot_order_is_lexicographic() {
    let a = Ballot::with(1, 0, 9);
    let b = Ballot::with(2, 0, 1);
    let c = Ballot::with(2, 1, 1);
    let d = Ballot::with(2, 1, 2);
    assert!(a.less_than(&b));
    assert!(b.less_than(&c));
    assert!(c.less_than(&d));
    assert!(!d.less_than(&a));
    assert!(!a.less_than(&a));
    assert!(a.at_most(&a));
    assert!(Ballot::zero().at_most(&a));
}

#[test]
fn store_reads_undecided_and_decided() {
    let mut s: LogStore<u64> = LogStore::new();
    s.append(Proposal::Value(10));
    s.append(Proposal::Value(20));
    s.decide_to(1);
    assert_eq!(s.read_entry(0), Some(LogEntry::Decided(10)));
    assert_eq!(s.read_entry(1), Some(LogEntry::Undecided(20)));
    assert_eq!(s.read_entry(2), None);
    assert_eq!(s.read_entries(0, 5), vec![LogEntry::Decided(10), LogEntry::Undecided(20)]);
    assert_eq!(s.read_entries(3, 5), vec![]);
    s.decide_to(9);
    assert_eq!(s.get_decided_idx(), 2);
}

#[test]
fn store_trim_beyond_decided_fails() {
    let mut s: LogStore<u64> = LogStore::new();
    for v in 0..5u64 {
        s.append(Proposal::Value(v));
    }
    s.decide_to(3);
    assert_eq!(s.trim(4), Err(TrimError::UndecidedIndex(3)));
    assert_eq!(s.get_trim_idx(), 0);
    assert_eq!(s.trim(3), Ok(()));
    assert_eq!(s.read_entry(2), Some(LogEntry::Trimmed(3)));
    assert_eq!(s.read_entry(3), Some(LogEntry::Undecided(3)));
}

#[test]
fn store_decided_suffix_length_law() {
    let mut s = decided_store(100);
    s.trim(50).unwrap();
    assert_eq!(s.read_decided_suffix(0).len(), 100 - 50 + 1);
    assert_eq!(s.read_decided_suffix(70).len(), 30);
    assert_eq!(s.read_decided_suffix(100).len(), 0);
}

#[test]
fn store_double_trim_equals_single_trim() {
    let mut twice = decided_store(20);
    twice.trim(5).unwrap();
    twice.trim(12).unwrap();
    let mut once = decided_store(20);
    once.trim(12).unwrap();
    assert_eq!(twice.read_entries(0, 20), once.read_entries(0, 20));
    assert_eq!(twice.get_trim_idx(), 12);
    twice.trim(3).unwrap();
    assert_eq!(twice.get_trim_idx(), 12);
    assert_eq!(twice.read_entries(0, 20), once.read_entries(0, 20));
}

#[test]
fn store_trim_marks_prefix() {
    let mut s = decided_store(10);
    s.trim(4).unwrap();
    for i in 0..4 {
        assert_eq!(s.read_entries(i, i + 1), vec![LogEntry::Trimmed(4)]);
    }
    assert_eq!(s.read_entries(4, 5), vec![LogEntry::Decided(5)]);
}

#[test]
fn store_splice_keeps_decided_prefix() {
    let mut s: LogStore<u64> = LogStore::new();
    for v in 1..=4u64 {
        s.append(Proposal::Value(v));
    }
    s.decide_to(2);
    s.splice(1, vec![Proposal::Value(20), Proposal::Value(30), Proposal::Value(40)]);
    assert_eq!(
        s.read_entries(0, 10),
        vec![
            LogEntry::Decided(1),
            LogEntry::Decided(2),
            LogEntry::Undecided(30),
            LogEntry::Undecided(40)
        ]
    );
    s.splice(9, vec![Proposal::Value(90)]);
    assert_eq!(s.get_trim_idx(), 9);
    assert_eq!(s.get_decided_idx(), 9);
    assert_eq!(s.read_entry(9), Some(LogEntry::Undecided(90)));
    assert_eq!(s.read_decided_suffix(0), vec![LogEntry::Trimmed(9), LogEntry::Undecided(90)]);
}

#[test]
fn follower_trim_is_refused() {
    let mut p: SequencePaxos<u64> = SequencePaxos::new(1, vec![2, 3]);
    assert_eq!(p.trim(None), Err(TrimError::NotLeader));
}

#[test]
fn single_replica_decides_alone() {
    let mut p: SequencePaxos<u64> = SequencePaxos::new(1, vec![]);
    p.handle_leader(Ballot::with(1, 0, 1));
    assert!(p.is_leader());
    p.append(5).unwrap();
    p.append(6).unwrap();
    assert_eq!(p.get_decided_idx(), 2);
    assert_eq!(p.trim(Some(3)), Err(TrimError::UndecidedIndex(2)));
    assert_eq!(p.trim(None), Ok(()));
    assert_eq!(p.read_decided_suffix(0), vec![LogEntry::Trimmed(2)]);
    assert_eq!(p.get_current_leader(), Some(1));
}

#[test]
fn stale_prepare_is_ignored() {
    let mut p: SequencePaxos<u64> = SequencePaxos::new(1, vec![2, 3]);
    p.handle_prepare(3, Ballot::with(2, 0, 3), 0);
    assert_eq!(p.get_promise(), Ballot::with(2, 0, 3));
    assert_eq!(p.take_outgoing().len(), 1);
    p.handle_prepare(2, Ballot::with(1, 0, 2), 0);
    assert_eq!(p.get_promise(), Ballot::with(2, 0, 3));
    assert_eq!(p.take_outgoing().len(), 0);
    assert_eq!(p.get_current_leader(), Some(3));
}

#[test]
fn ble_needs_majority() {
    let mut b = BallotLeaderElection::new(1, vec![2, 3, 4, 5], 0);
    assert_eq!(b.hb_timeout(), None);
    let out = b.take_outgoing();
    assert_eq!(out.len(), 4);
    assert_eq!(out[0].msg, BleMsg::Request(HeartbeatRequest { round: 1 }));
    b.handle_reply(HeartbeatReply { round: 1, from: 2, ballot: Ballot::with(0, 0, 2) });
    b.handle_reply(HeartbeatReply { round: 1, from: 2, ballot: Ballot::with(0, 0, 2) });
    assert_eq!(b.get_replies().len(), 1);
    assert_eq!(b.hb_timeout(), None);
    b.handle_reply(HeartbeatReply { round: 2, from: 2, ballot: Ballot::with(0, 0, 2) });
    b.handle_reply(HeartbeatReply { round: 2, from: 3, ballot: Ballot::with(0, 5, 3) });
    b.handle_reply(HeartbeatReply { round: 1, from: 4, ballot: Ballot::with(9, 0, 4) });
    assert_eq!(b.hb_timeout(), Some(Ballot::with(0, 5, 3)));
    assert_eq!(b.get_leader(), Some(Ballot::with(0, 5, 3)));
}

#[test]
fn ble_moves_past_missing_leader() {
    let mut b = BallotLeaderElection::new(1, vec![2, 3], 0);
    b.hb_timeout();
    b.handle_reply(HeartbeatReply { round: 1, from: 3, ballot: Ballot::with(4, 0, 3) });
    assert_eq!(b.hb_timeout(), Some(Ballot::with(4, 0, 3)));
    b.handle_reply(HeartbeatReply { round: 2, from: 2, ballot: Ballot::with(0, 0, 2) });
    assert_eq!(b.hb_timeout(), None);
    assert_eq!(b.get_current_ballot(), Ballot::with(5, 0, 1));
    b.handle_reply(HeartbeatReply { round: 3, from: 2, ballot: Ballot::with(0, 0, 2) });
    assert_eq!(b.hb_timeout(), Some(Ballot::with(5, 0, 1)));
}

#[test]
fn ble_answers_requests_with_own_ballot() {
    let mut b = BallotLeaderElection::new(2, vec![1], 3);
    b.handle_request(1, HeartbeatRequest { round: 7 });
    let out = b.take_outgoing();
    assert_eq!(out.len(), 1);
    assert_eq!(out[0].to, 1);
    assert_eq!(
        out[0].msg,
        BleMsg::Reply(HeartbeatReply { round: 7, from: 2, ballot: Ballot::with(0, 3, 2) })
    );
}

#[test]
fn cluster_state_from_leader_state() {
    let mut p: SequencePaxos<u64> = SequencePaxos::new(1, vec![]);
    p.handle_leader(Ballot::with(1, 0, 1));
    p.append(5).unwrap();
    let cs = ClusterState::from(p.leader_state());
    assert_eq!(cs.accepted_indexes.len(), 1);
    assert_eq!(cs.accepted_indexes.get(&1), Some(&1));
    assert!(cs.heartbeats.is_empty());
    let d = ClusterState::default();
    assert!(d.accepted_indexes.is_empty());
}

#[test]
fn ui_states_project_replica() {
    let mut b = BallotLeaderElection::new(1, vec![], 0);
    let leader = b.hb_timeout().unwrap();
    let mut p: SequencePaxos<u64> = SequencePaxos::new(1, vec![]);
    p.handle_leader(leader);
    p.append(3).unwrap();
    let s = OmniPaxosStates::new(&b, &p);
    assert_eq!(s.current_ballot, Ballot::with(0, 0, 1));
    assert_eq!(s.current_leader, Some(1));
    assert_eq!(s.decided_idx, 1);
    assert_eq!(s.heartbeats.len(), 1);
    assert_eq!(s.cluster_state.heartbeats.len(), 1);
    assert_eq!(s.cluster_state.accepted_indexes.get(&1), Some(&1));
}

#[test]
fn watches_fulfilled_once_in_order() {
    let mut w = WatchRegistry::new();
    let a = w.register(3);
    let b = w.register(1);
    let c = w.register(5);
    assert_eq!((a, b, c), (0, 1, 2));
    assert_eq!(w.fulfil(0), Vec::<u64>::new());
    assert_eq!(w.fulfil(3), vec![0, 1]);
    assert_eq!(w.len(), 1);
    assert_eq!(w.fulfil(4), Vec::<u64>::new());
    assert_eq!(w.fulfil(10), vec![2]);
    assert_eq!(w.fulfil(10), Vec::<u64>::new());
    assert_eq!(w.len(), 0);
}
