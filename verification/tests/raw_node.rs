use raft::config::Config;
use raft::eraftpb::{
    ConfChange, ConfChangeType, ConfState, Entry, EntryType, HardState, Message, MessageType,
    Snapshot,
};
use raft::errors::Error;
use raft::progress_set::Configuration;
use raft::raw_node::{
    is_empty_snap, is_local_msg, is_response_msg, Peer, RawNode, Ready, SnapshotStatus,
};
use raft::storage::{MemStorage, Storage};
use raft::{ReadOnlyOption, SoftState, StateRole};

fn config(id: u64, peers: Vec<u64>) -> Config {
    Config {
        id,
        peers,
        election_tick: 10,
        heartbeat_tick: 1,
        max_size_per_msg: u64::MAX,
        ..Default::default()
    }
}

fn node(id: u64, peers: Vec<u64>) -> RawNode<MemStorage> {
    RawNode::new(&config(id, peers), MemStorage::new(), vec![]).unwrap()
}

fn peer(id: u64) -> Peer {
    Peer { id, context: None }
}

fn msg(t: MessageType, from: u64, to: u64, term: u64) -> Message {
    let mut m = Message::new();
    m.msg_type = t;
    m.from = from;
    m.to = to;
    m.term = term;
    m
}

// Saves what is to be saved, and marks it as done. Returns the entries to apply.
fn settle(node: &mut RawNode<MemStorage>) -> (Vec<Message>, Vec<Entry>) {
    let mut rd = node.ready();
    let messages = std::mem::take(&mut rd.messages);
    let committed = rd.committed_entries.take().unwrap();
    if !is_empty_snap(rd.snapshot()) {
        let snap = rd.snapshot().clone();
        node.mut_store().apply_snapshot(snap).unwrap();
    }
    let entries: Vec<Entry> = rd.entries().to_vec();
    node.mut_store().append(&entries);
    if let Some(hs) = rd.hs() {
        if *hs != HardState::new() {
            node.mut_store().set_hardstate(*hs);
        }
    }
    node.advance(rd);
    (messages, committed)
}

fn leader(id: u64, peers: Vec<u64>) -> RawNode<MemStorage> {
    let mut n = node(id, peers);
    n.raft.become_candidate();
    n.raft.become_leader();
    n
}

#[test]
fn test_is_local_msg() {
    let tests = vec![
        (MessageType::MsgHup, true),
        (MessageType::MsgBeat, true),
        (MessageType::MsgUnreachable, true),
        (MessageType::MsgSnapStatus, true),
        (MessageType::MsgCheckQuorum, true),
        (MessageType::MsgPropose, false),
        (MessageType::MsgAppend, false),
        (MessageType::MsgAppendResponse, false),
        (MessageType::MsgRequestVote, false),
        (MessageType::MsgRequestVoteResponse, false),
        (MessageType::MsgSnapshot, false),
        (MessageType::MsgHeartbeat, false),
        (MessageType::MsgHeartbeatResponse, false),
        (MessageType::MsgTransferLeader, false),
        (MessageType::MsgTimeoutNow, false),
        (MessageType::MsgReadIndex, false),
        (MessageType::MsgReadIndexResp, false),
        (MessageType::MsgRequestPreVote, false),
        (MessageType::MsgRequestPreVoteResponse, false),
    ];
    for (msg_type, result) in tests {
        assert_eq!(is_local_msg(msg_type), result);
    }
}

#[test]
fn responses_are_told_apart() {
    for t in vec![
        MessageType::MsgAppendResponse,
        MessageType::MsgRequestVoteResponse,
        MessageType::MsgHeartbeatResponse,
        MessageType::MsgUnreachable,
        MessageType::MsgRequestPreVoteResponse,
    ] {
        assert!(is_response_msg(t));
    }
    for t in vec![
        MessageType::MsgHup,
        MessageType::MsgAppend,
        MessageType::MsgReadIndexResp,
        MessageType::MsgSnapStatus,
    ] {
        assert!(!is_response_msg(t));
    }
}

#[test]
fn empty_snapshots_are_told_apart() {
    let mut s = Snapshot::new();
    assert!(is_empty_snap(&s));
    s.metadata.index = 1;
    assert!(!is_empty_snap(&s));
}

#[test]
fn a_new_cluster_starts_with_its_peers() {
    let peers = vec![
        Peer { id: 1, context: Some(b"one".to_vec()) },
        peer(2),
        Peer::default(),
    ];
    let mut n = RawNode::new(&config(1, vec![]), MemStorage::new(), peers).unwrap();
    assert_eq!(n.raft.term, 1);
    assert_eq!(n.raft.raft_log.committed, 3);
    assert_eq!(n.raft.raft_log.applied, 0);
    assert_eq!(n.raft.prs().voter_ids(), vec![1, 2, 0]);
    assert_eq!(n.prev_hs, HardState::new());
    assert!(n.has_ready());
    let rd = n.ready();
    assert_eq!(rd.entries().len(), 3);
    assert_eq!(rd.entries()[0].data, vec![24, 1, 34, 3, 111, 110, 101]);
    assert_eq!(rd.entries()[1].data, vec![24, 2]);
    assert_eq!(rd.entries()[2].data, Vec::<u8>::new());
    for (i, e) in rd.entries().iter().enumerate() {
        assert_eq!(e.entry_type, EntryType::EntryConfChange);
        assert_eq!(e.term, 1);
        assert_eq!(e.index, i as u64 + 1);
    }
    assert_eq!(rd.committed_entries.as_ref().unwrap().len(), 3);
    assert_eq!(rd.hs(), Some(&HardState { term: 1, vote: 0, commit: 3 }));
    assert!(rd.ss().is_none());
    assert!(rd.must_sync());
}

#[test]
fn a_new_cluster_refuses_a_peer_twice() {
    let r = RawNode::new(&config(1, vec![]), MemStorage::new(), vec![peer(1), peer(2), peer(1)]);
    assert_eq!(r.err(), Some(Error::Exists(1, "voters")));
}

#[test]
fn a_node_restarts_from_its_store() {
    let mut store = MemStorage::new();
    let mut e = Entry::new();
    e.term = 3;
    e.index = 1;
    store.append(&vec![e]);
    store.set_hardstate(HardState { term: 3, vote: 2, commit: 1 });
    store.set_conf_state(ConfState { nodes: vec![1, 2], learners: vec![3] }, None);
    let mut n = RawNode::new(&config(1, vec![]), store, vec![peer(7)]).unwrap();
    assert_eq!(n.raft.term, 3);
    assert_eq!(n.raft.vote, 2);
    assert_eq!(n.raft.prs().voter_ids(), vec![1, 2]);
    assert_eq!(n.raft.prs().learner_ids(), vec![3]);
    assert_eq!(n.prev_hs, HardState { term: 3, vote: 2, commit: 1 });
    // Only what was not applied is handed out.
    let (messages, committed) = settle(&mut n);
    assert!(messages.is_empty());
    assert_eq!(committed.len(), 1);
    assert!(!n.has_ready());
}

#[test]
fn step_refuses_local_messages_and_strangers() {
    let mut n = node(1, vec![1, 2]);
    assert_eq!(n.step(msg(MessageType::MsgHup, 2, 1, 0)), Err(Error::StepLocalMsg));
    assert_eq!(
        n.step(msg(MessageType::MsgHeartbeatResponse, 9, 1, 0)),
        Err(Error::StepPeerNotFound)
    );
    assert_eq!(n.step(msg(MessageType::MsgHeartbeatResponse, 2, 1, 0)), Ok(()));
    assert_eq!(n.step(msg(MessageType::MsgHeartbeat, 9, 1, 4)), Ok(()));
    assert_eq!(n.raft.term, 4);
    assert_eq!(n.raft.leader_id, 9);
}

#[test]
fn a_single_node_commits_what_it_proposes() {
    let mut n = node(1, vec![1]);
    n.campaign().unwrap();
    assert_eq!(n.raft.state, StateRole::Leader);
    n.propose(b"ctx".to_vec(), b"data".to_vec()).unwrap();
    let rd = n.ready();
    assert_eq!(rd.ss(), Some(&SoftState { leader_id: 1, raft_state: StateRole::Leader }));
    // The cluster was set up in term 1 and the election was for term 2.
    assert_eq!(rd.hs(), Some(&HardState { term: 2, vote: 1, commit: 2 }));
    assert!(rd.must_sync());
    assert_eq!(rd.entries().len(), 2);
    assert_eq!(rd.entries()[0].data, Vec::<u8>::new());
    assert_eq!(rd.entries()[1].data, b"data".to_vec());
    assert_eq!(rd.entries()[1].context, b"ctx".to_vec());
    assert_eq!(rd.entries()[1].index, 2);
    assert_eq!(rd.entries()[1].term, 2);
    let saved = rd.entries().to_vec();
    n.mut_store().append(&saved);
    n.advance(rd);
    assert_eq!(n.raft.raft_log.applied, 2);
    assert!(!n.has_ready());
    assert_eq!(n.get_store().last_index(), Ok(2));
}

#[test]
fn nothing_ready_is_empty() {
    let mut n = node(1, vec![1, 2]);
    settle(&mut n);
    assert!(!n.has_ready());
    let rd = n.ready();
    assert!(rd.messages.is_empty() && rd.entries().is_empty() && rd.read_states().is_empty());
    assert!(is_empty_snap(rd.snapshot()));
    assert_eq!(rd.committed_entries, Some(vec![]));
    assert!(rd.ss().is_none() && !rd.must_sync());
    assert_eq!(rd.hs(), Some(&HardState::new()));
    // Marking that as done leaves the hard state that was saved before.
    let saved = n.prev_hs;
    n.advance(rd);
    assert_eq!(n.prev_hs, saved);
    assert_ne!(saved, HardState::new());
    assert!(!n.has_ready());
}

#[test]
fn a_default_ready_holds_nothing() {
    let rd = Ready::default();
    assert!(rd.ss().is_none() && rd.hs().is_none() && rd.committed_entries.is_none());
    assert!(rd.messages.is_empty() && rd.entries().is_empty() && rd.read_states().is_empty());
    assert!(is_empty_snap(rd.snapshot()) && !rd.must_sync());
}

#[test]
fn advance_leaves_nothing_to_do() {
    let mut n = node(1, vec![1]);
    settle(&mut n);
    n.campaign().unwrap();
    assert!(n.has_ready());
    let (_, committed) = settle(&mut n);
    assert_eq!(committed.len(), 1);
    assert!(!n.has_ready());
    n.propose(vec![], b"a".to_vec()).unwrap();
    n.propose(vec![], b"b".to_vec()).unwrap();
    let (_, committed) = settle(&mut n);
    assert_eq!(committed.iter().map(|e| e.index).collect::<Vec<_>>(), vec![2, 3]);
    assert!(!n.has_ready());
}

#[test]
fn the_saved_log_is_the_same() {
    let mut n = leader(1, vec![1, 2]);
    n.propose(vec![], b"x".to_vec()).unwrap();
    let last = n.raft.raft_log.last_index();
    let terms: Vec<u64> = (0..last + 2).map(|i| n.raft.raft_log.term(i).unwrap()).collect();
    let all = n.raft.raft_log.entries(1, u64::MAX).unwrap();
    settle(&mut n);
    assert_eq!(n.raft.raft_log.unstable.entries.len(), 0);
    assert_eq!(n.raft.raft_log.last_index(), last);
    let later: Vec<u64> = (0..last + 2).map(|i| n.raft.raft_log.term(i).unwrap()).collect();
    assert_eq!(terms, later);
    assert_eq!(all, n.raft.raft_log.entries(1, u64::MAX).unwrap());
}

#[test]
fn ready_since_starts_behind_an_index() {
    let mut n = node(1, vec![1]);
    n.campaign().unwrap();
    n.propose(vec![], b"a".to_vec()).unwrap();
    n.propose(vec![], b"b".to_vec()).unwrap();
    assert!(n.has_ready_since(Some(2)));
    let rd = n.ready_since(2);
    let committed = rd.committed_entries.unwrap();
    assert_eq!(committed.len(), 1);
    assert_eq!(committed[0].data, b"b".to_vec());
    let rd = n.ready_since(3);
    assert_eq!(rd.committed_entries, Some(vec![]));
    // The messages were taken out with the first.
    assert!(rd.messages.is_empty());
}

#[test]
fn advance_append_and_advance_apply_are_the_halves() {
    let mut n = node(1, vec![1]);
    settle(&mut n);
    n.campaign().unwrap();
    let rd = n.ready();
    let saved = rd.entries().to_vec();
    n.mut_store().append(&saved);
    n.advance_append(rd);
    assert_eq!(n.raft.raft_log.applied, 0);
    assert!(n.has_ready());
    n.advance_apply(1);
    assert_eq!(n.raft.raft_log.applied, 1);
    assert!(!n.has_ready());
}

#[test]
fn a_snapshot_is_handed_out_and_saved() {
    let mut n = node(2, vec![1, 2]);
    let mut m = msg(MessageType::MsgSnapshot, 1, 2, 1);
    m.snapshot.metadata.index = 7;
    m.snapshot.metadata.term = 1;
    m.snapshot.metadata.conf_state = ConfState { nodes: vec![1, 2, 3], learners: vec![] };
    n.step(m).unwrap();
    assert!(n.get_snap().is_some());
    assert!(n.has_ready());
    let (messages, _) = settle(&mut n);
    assert_eq!(messages.len(), 1);
    assert_eq!(messages[0].msg_type, MessageType::MsgAppendResponse);
    assert_eq!(messages[0].index, 7);
    assert!(n.get_snap().is_none());
    assert_eq!(n.get_store().first_index(), Ok(8));
    assert_eq!(n.raft.raft_log.committed, 7);
    assert_eq!(n.raft.raft_log.applied, 7);
    assert_eq!(n.raft.prs().voter_ids(), vec![1, 2, 3]);
}

#[test]
fn conf_changes_are_proposed_and_applied() {
    let mut n = node(1, vec![1]);
    n.campaign().unwrap();
    let mut cc = ConfChange::new();
    cc.change_type = ConfChangeType::AddLearnerNode;
    cc.node_id = 2;
    settle(&mut n);
    n.propose_conf_change(b"why".to_vec(), cc.clone()).unwrap();
    let (_, committed) = settle(&mut n);
    assert_eq!(committed.len(), 1);
    assert_eq!(committed[0].entry_type, EntryType::EntryConfChange);
    assert_eq!(committed[0].data, vec![16, 2, 24, 2]);
    assert_eq!(committed[0].context, b"why".to_vec());
    let cs = n.apply_conf_change(&cc).unwrap();
    assert_eq!(cs, ConfState { nodes: vec![1], learners: vec![2] });
    assert_eq!(n.apply_conf_change(&cc), Err(Error::Exists(2, "learners")));
    // A learner is not added as a voter.
    cc.change_type = ConfChangeType::AddNode;
    assert_eq!(n.apply_conf_change(&cc), Err(Error::Exists(2, "learners")));
    cc.node_id = 3;
    let cs = n.apply_conf_change(&cc).unwrap();
    assert_eq!(cs, ConfState { nodes: vec![1, 3], learners: vec![2] });
    cc.change_type = ConfChangeType::RemoveNode;
    let cs = n.apply_conf_change(&cc).unwrap();
    assert_eq!(cs, ConfState { nodes: vec![1], learners: vec![2] });
    cc.node_id = 2;
    let cs = n.apply_conf_change(&cc).unwrap();
    assert_eq!(cs, ConfState { nodes: vec![1], learners: vec![] });
    assert_eq!(n.apply_conf_change(&cc), Err(Error::NotExists(2, "voters or learners")));
    // A change that names no node changes nothing.
    cc.node_id = 0;
    let cs = n.apply_conf_change(&cc).unwrap();
    assert_eq!(cs, ConfState { nodes: vec![1], learners: vec![] });
}

#[test]
fn membership_changes_are_applied() {
    let mut n = node(1, vec![1, 2]);
    let begin = ConfChange::begin(3, ConfState { nodes: vec![1, 3], learners: vec![] });
    // The configuration in force is still the old one.
    let cs = n.apply_conf_change(&begin).unwrap();
    assert_eq!(cs, ConfState { nodes: vec![1, 2], learners: vec![] });
    assert!(n.raft.is_in_membership_change());
    let mut end = ConfChange::new();
    end.change_type = ConfChangeType::FinalizeMembershipChange;
    let cs = n.apply_conf_change(&end).unwrap();
    assert_eq!(cs, ConfState { nodes: vec![1, 3], learners: vec![] });
    assert!(!n.raft.is_in_membership_change());
    assert!(n.raft.pending_membership_change().is_none());
    // Where it is not known whether the end is refused, the node itself says so.
    assert_eq!(
        n.raft.finalize_membership_change(&end),
        Err(Error::NoPendingMembershipChange)
    );
}

#[test]
fn a_leader_ends_its_own_membership_change() {
    let mut n = leader(1, vec![1]);
    settle(&mut n);
    let conf = ConfState { nodes: vec![1], learners: vec![2] };
    n.raft.propose_membership_change(Configuration::from_conf_state(&conf)).unwrap();
    let at = n.raft.raft_log.last_index();
    let rd = n.ready();
    let saved = rd.entries().to_vec();
    assert_eq!(rd.committed_entries.as_ref().unwrap().len(), 1);
    n.mut_store().append(&saved);
    let cs = n.apply_conf_change(&ConfChange::begin(at, conf.clone())).unwrap();
    assert_eq!(cs, ConfState { nodes: vec![1], learners: vec![] });
    // Once the beginning is applied, the leader puts in the end.
    n.advance(rd);
    let rd = n.ready();
    let ended = rd.committed_entries.as_ref().unwrap();
    assert_eq!(ended.len(), 1);
    assert_eq!((ended[0].entry_type, &ended[0].data), (EntryType::EntryConfChange, &vec![16, 4]));
    let saved = rd.entries().to_vec();
    n.mut_store().append(&saved);
    let mut end = ConfChange::new();
    end.change_type = ConfChangeType::FinalizeMembershipChange;
    let cs = n.apply_conf_change(&end).unwrap();
    assert_eq!(cs, conf);
    n.advance(rd);
    assert!(!n.raft.is_in_membership_change());
    assert!(!n.has_ready());
    assert_eq!(n.raft.raft_log.applied, n.raft.raft_log.committed);
}

#[test]
fn the_status_is_that_of_the_node() {
    let n = node(1, vec![1, 2]);
    let s = n.status();
    assert_eq!(s.id, 1);
    assert!(s.progress.is_none());
    let n = leader(1, vec![1, 2]);
    let s = n.status();
    assert_eq!(s.ss, SoftState { leader_id: 1, raft_state: StateRole::Leader });
    assert_eq!(s.hs, HardState { term: 2, vote: 1, commit: 0 });
    assert_eq!(s.applied, 0);
    assert_eq!(s.progress.unwrap().ids, vec![1, 2]);
}

#[test]
fn reports_change_the_progress() {
    let mut n = leader(1, vec![1, 2]);
    n.raft.mut_prs().get_mut(2).unwrap().become_snapshot(11);
    n.report_snapshot(2, SnapshotStatus::Finish);
    {
        let p = n.raft.prs().get(2).unwrap();
        assert_eq!(p.next_idx, 12);
        assert!(p.paused);
    }
    n.raft.mut_prs().get_mut(2).unwrap().become_snapshot(11);
    n.report_snapshot(2, SnapshotStatus::Failure);
    {
        let p = n.raft.prs().get(2).unwrap();
        assert_eq!(p.next_idx, 1);
        assert!(p.paused);
    }
    n.raft.mut_prs().get_mut(2).unwrap().become_replicate();
    n.raft.mut_prs().get_mut(2).unwrap().optimistic_update(5);
    n.report_unreachable(2);
    assert_eq!(n.raft.prs().get(2).unwrap().next_idx, 1);
}

#[test]
fn leadership_is_transferred() {
    let mut n = leader(1, vec![1, 2]);
    n.raft.msgs.clear();
    n.transfer_leader(2);
    assert_eq!(n.raft.lead_transferee, Some(2));
    assert_eq!(n.raft.msgs.len(), 1);
    assert_eq!(n.raft.msgs[0].msg_type, MessageType::MsgAppend);
    assert_eq!(n.propose(vec![], vec![]), Err(Error::ProposalDropped));
}

#[test]
fn a_single_node_answers_reads_at_once() {
    let mut n = node(1, vec![1]);
    n.read_index(b"early".to_vec());
    assert_eq!(n.raft.ready_read_count(), 0);
    n.campaign().unwrap();
    n.read_index(b"key".to_vec());
    assert_eq!(n.raft.ready_read_count(), 1);
    let rd = n.ready();
    assert_eq!(rd.read_states()[0].index, 1);
    assert_eq!(rd.read_states()[0].request_ctx, b"key".to_vec());
    n.advance_append(rd);
    assert_eq!(n.raft.ready_read_count(), 0);
}

#[test]
fn skipping_broadcasts_is_set() {
    let mut n = node(1, vec![1]);
    assert!(n.raft.should_bcast_commit());
    n.campaign().unwrap();
    settle(&mut n);
    assert_eq!((n.raft.raft_log.applied, n.raft.pending_conf_index), (1, 0));
    n.skip_bcast_commit(true);
    assert!(!n.raft.should_bcast_commit());
    n.raft.pending_conf_index = 1;
    assert!(n.raft.should_bcast_commit());
}

#[test]
fn ticks_lead_to_an_election() {
    let mut n = node(1, vec![1, 2]);
    n.raft.set_randomized_election_timeout(12);
    for _ in 0..11 {
        assert!(!n.tick());
    }
    assert!(n.tick());
    assert_eq!(n.raft.state, StateRole::Candidate);
    assert_eq!(n.raft.term, 2);
}

#[test]
fn lease_based_reads_need_a_quorum_check() {
    let mut c = config(1, vec![1]);
    c.read_only_option = ReadOnlyOption::LeaseBased;
    let r = RawNode::new(&c, MemStorage::new(), vec![]);
    assert_eq!(
        r.err(),
        Some(Error::ConfigInvalid(
            "read_only_option == LeaseBased requires check_quorum == true".to_string()
        ))
    );
}
