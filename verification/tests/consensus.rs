use raft::config::Config;
use raft::eraftpb::{
    ConfChange, ConfChangeType, ConfState, Entry, EntryType, HardState, Message, MessageType,
    Snapshot,
};
use raft::errors::{Error, StorageError};
use raft::progress::{Progress, ProgressState};
use raft::progress_set::Configuration;
use raft::raft::{vote_resp_msg_type, Raft, StateRole, INVALID_ID, INVALID_INDEX};
use raft::storage::{MemStorage, RaftState, Storage};
use raft::{ReadOnlyOption, SoftState};

fn config(id: u64, peers: Vec<u64>) -> Config {
    Config {
        id,
        peers,
        election_tick: 10,
        heartbeat_tick: 1,
        max_size_per_msg: u64::MAX,
        ..Default::default()
    }
}

fn node(id: u64, peers: Vec<u64>) -> Raft<MemStorage> {
    Raft::new(&config(id, peers), MemStorage::new()).unwrap()
}

fn cluster(n: u64) -> Vec<Raft<MemStorage>> {
    let ids: Vec<u64> = (1..n + 1).collect();
    (1..n + 1).map(|i| node(i, ids.clone())).collect()
}

fn msg(t: MessageType, from: u64, to: u64, term: u64) -> Message {
    let mut m = Message::new();
    m.msg_type = t;
    m.from = from;
    m.to = to;
    m.term = term;
    m
}

fn entry(index: u64, term: u64, data: &[u8]) -> Entry {
    let mut e = Entry::new();
    e.index = index;
    e.term = term;
    e.data = data.to_vec();
    e
}

fn proposal(data: &[u8]) -> Message {
    let mut m = msg(MessageType::MsgPropose, 0, 0, 0);
    m.entries = vec![entry(0, 0, data)];
    m
}

fn read(ctx: &[u8]) -> Message {
    let mut m = msg(MessageType::MsgReadIndex, 0, 0, 0);
    m.entries = vec![entry(0, 0, ctx)];
    m
}

fn taken(r: &mut Raft<MemStorage>) -> Vec<Message> {
    std::mem::take(&mut r.msgs)
}

// Delivers messages until there are none; those to nodes that are cut off are lost.
fn deliver(nodes: &mut Vec<Raft<MemStorage>>, cut_off: &[u64]) {
    loop {
        let mut all = vec![];
        for n in nodes.iter_mut() {
            let from = n.id;
            for m in taken(n) {
                if !cut_off.contains(&from) && !cut_off.contains(&m.to) {
                    all.push(m);
                }
            }
        }
        if all.is_empty() {
            return;
        }
        for m in all {
            let to = m.to as usize - 1;
            let _ = nodes[to].step(m);
        }
    }
}

fn elected(n: u64) -> Vec<Raft<MemStorage>> {
    let mut nodes = cluster(n);
    nodes[0].step(msg(MessageType::MsgHup, 1, 1, 0)).unwrap();
    deliver(&mut nodes, &[]);
    assert_eq!(nodes[0].state, StateRole::Leader);
    nodes
}

#[test]
fn constants_and_defaults() {
    assert_eq!(INVALID_ID, 0);
    assert_eq!(INVALID_INDEX, 0);
    assert_eq!(StateRole::default(), StateRole::Follower);
    assert_eq!(
        SoftState::default(),
        SoftState { leader_id: 0, raft_state: StateRole::Follower }
    );
    let r: Raft<MemStorage> = Raft::default();
    assert_eq!((r.id, r.term, r.vote, r.leader_id), (0, 0, 0, 0));
    assert_eq!((r.raft_log.committed, r.raft_log.applied), (0, 0));
    assert!(r.prs.is_none() && r.msgs.is_empty() && !r.is_learner);
    assert_eq!(r.get_store().last_index(), Ok(0));
    assert_eq!(
        vote_resp_msg_type(MessageType::MsgRequestVote),
        MessageType::MsgRequestVoteResponse
    );
    assert_eq!(
        vote_resp_msg_type(MessageType::MsgRequestPreVote),
        MessageType::MsgRequestPreVoteResponse
    );
}

#[test]
fn a_node_starts_as_a_follower() {
    let r = node(1, vec![1, 2, 3]);
    assert_eq!(r.soft_state(), SoftState::default());
    assert_eq!(r.hard_state(), HardState::new());
    assert_eq!(r.get_election_timeout(), 10);
    assert_eq!(r.get_heartbeat_timeout(), 1);
    assert_eq!(r.get_heartbeat_elapsed(), 0);
    assert!(r.promotable());
    assert!(!r.in_lease());
    assert!(r.get_snap().is_none());
    assert_eq!(r.get_store().first_index(), Ok(1));
    assert_eq!(r.prs().get(1).unwrap().next_idx, 1);
}

#[test]
fn timeouts_are_drawn_from_their_range() {
    let mut r = node(1, vec![1]);
    let mut seen = vec![false; 20];
    for _ in 0..2000 {
        r.reset_randomized_election_timeout();
        let t = r.get_randomized_election_timeout();
        assert!(10 <= t && t < 20);
        seen[t] = true;
    }
    assert!(seen[10..].iter().all(|s| *s));
}

#[test]
fn the_timeout_is_kept_without_a_change_of_role() {
    let mut r = node(1, vec![1, 2]);
    r.set_randomized_election_timeout(17);
    r.step(msg(MessageType::MsgReadIndexResp, 2, 1, 0)).unwrap();
    assert_eq!(r.get_randomized_election_timeout(), 17);
    r.become_pre_candidate();
    assert_eq!(r.get_randomized_election_timeout(), 17);
}

#[test]
fn a_store_error_keeps_a_node_from_starting() {
    #[derive(Debug)]
    struct Broken;
    impl Storage for Broken {
        fn initial_state(&self) -> Result<RaftState, Error> {
            Err(Error::Store(StorageError::Other("broken".to_string())))
        }
        fn entries(&self, _: u64, _: u64, _: u64) -> Result<Vec<Entry>, Error> {
            Ok(vec![])
        }
        fn term(&self, _: u64) -> Result<u64, Error> {
            Ok(0)
        }
        fn first_index(&self) -> Result<u64, Error> {
            Ok(1)
        }
        fn last_index(&self) -> Result<u64, Error> {
            Ok(0)
        }
        fn snapshot(&self) -> Result<Snapshot, Error> {
            Err(Error::Store(StorageError::SnapshotTemporarilyUnavailable))
        }
    }
    let r = Raft::new(&config(1, vec![1]), Broken);
    assert_eq!(
        r.err(),
        Some(Error::Store(StorageError::Other("broken".to_string())))
    );
}

#[test]
fn a_membership_change_is_taken_up_again() {
    let mut store = MemStorage::new();
    store.set_conf_state(
        ConfState { nodes: vec![1, 2], learners: vec![] },
        Some((ConfState { nodes: vec![2, 3], learners: vec![] }, 5)),
    );
    let r = Raft::new(&config(1, vec![]), store).unwrap();
    assert!(r.is_in_membership_change());
    assert_eq!(r.began_membership_change_at(), Some(5));
    assert_eq!(r.pending_conf_index, 5);
    assert_eq!(r.prs().voter_ids(), vec![1, 2, 3]);
    let mut store = MemStorage::new();
    store.set_conf_state(
        ConfState { nodes: vec![1, 2], learners: vec![] },
        Some((ConfState { nodes: vec![], learners: vec![] }, 5)),
    );
    let r = Raft::new(&config(1, vec![]), store);
    assert_eq!(
        r.err(),
        Some(Error::ConfigInvalid("There must be at least one voter.".to_string()))
    );
}

#[test]
fn a_majority_elects_a_leader() {
    let nodes = elected(3);
    for n in &nodes {
        assert_eq!(n.term, 1);
        assert_eq!(n.leader_id, 1);
        assert_eq!(n.vote, 1);
        assert_eq!(n.raft_log.committed, 1);
        assert_eq!(n.raft_log.term(1), Ok(1));
    }
    assert_eq!(nodes[1].state, StateRole::Follower);
}

#[test]
fn votes_are_counted() {
    let mut r = node(1, vec![1, 2, 3, 4, 5]);
    r.step(msg(MessageType::MsgHup, 1, 1, 0)).unwrap();
    let requests = taken(&mut r);
    assert_eq!(requests.len(), 4);
    for (m, to) in requests.iter().zip(2..6) {
        assert_eq!(m.msg_type, MessageType::MsgRequestVote);
        assert_eq!((m.from, m.to, m.term), (1, to, 1));
        assert!(m.context.is_empty());
    }
    r.step(msg(MessageType::MsgRequestVoteResponse, 2, 1, 1)).unwrap();
    assert_eq!(r.state, StateRole::Candidate);
    // The last vote of a node is the one that counts.
    let mut no = msg(MessageType::MsgRequestVoteResponse, 2, 1, 1);
    no.reject = true;
    r.step(no).unwrap();
    r.step(msg(MessageType::MsgRequestVoteResponse, 3, 1, 1)).unwrap();
    assert_eq!(r.state, StateRole::Candidate);
    // Nobody outside the cluster counts.
    r.step(msg(MessageType::MsgRequestVoteResponse, 9, 1, 1)).unwrap();
    assert_eq!(r.state, StateRole::Candidate);
    r.step(msg(MessageType::MsgRequestVoteResponse, 2, 1, 1)).unwrap();
    assert_eq!(r.state, StateRole::Leader);
    assert_eq!(taken(&mut r).len(), 4);
}

#[test]
fn a_majority_against_ends_a_candidacy() {
    let mut r = node(1, vec![1, 2, 3]);
    r.step(msg(MessageType::MsgHup, 1, 1, 0)).unwrap();
    for from in 2..4 {
        let mut no = msg(MessageType::MsgRequestVoteResponse, from, 1, 1);
        no.reject = true;
        r.step(no).unwrap();
    }
    assert_eq!(r.state, StateRole::Follower);
    assert_eq!(r.term, 1);
    assert_eq!(r.vote, 1);
}

#[test]
fn a_vote_is_given_once_per_term() {
    let mut r = node(1, vec![1, 2, 3]);
    r.step(msg(MessageType::MsgRequestVote, 2, 1, 4)).unwrap();
    assert_eq!((r.term, r.vote), (4, 2));
    r.step(msg(MessageType::MsgRequestVote, 3, 1, 4)).unwrap();
    assert_eq!((r.term, r.vote), (4, 2));
    r.step(msg(MessageType::MsgRequestVote, 2, 1, 4)).unwrap();
    let answers = taken(&mut r);
    assert_eq!(answers.iter().map(|m| m.reject).collect::<Vec<_>>(), vec![false, true, false]);
    assert!(answers.iter().all(|m| m.term == 4 && m.from == 1));
    // A new term brings a new vote.
    r.step(msg(MessageType::MsgRequestVote, 3, 1, 5)).unwrap();
    assert_eq!((r.term, r.vote), (5, 3));
}

#[test]
fn a_vote_needs_a_recent_log() {
    let mut r = node(1, vec![1, 2, 3]);
    r.term = 3;
    let mut es = vec![Entry::new(), Entry::new()];
    r.append_entry(&mut es);
    assert_eq!((es[1].index, es[1].term), (2, 3));
    for (index, log_term, granted) in vec![(1, 3, false), (5, 2, false), (2, 3, true), (1, 4, true)]
    {
        let mut r2 = node(1, vec![1, 2, 3]);
        r2.term = 3;
        r2.append_entry(&mut vec![Entry::new(), Entry::new()]);
        let mut m = msg(MessageType::MsgRequestVote, 2, 1, 7);
        m.index = index;
        m.log_term = log_term;
        r2.step(m).unwrap();
        let answer = taken(&mut r2).pop().unwrap();
        assert_eq!(answer.reject, !granted);
        assert_eq!(r2.vote, if granted { 2 } else { 0 });
        assert_eq!(r2.term, 7);
    }
}

#[test]
fn pre_votes_change_no_term() {
    let mut r = node(1, vec![1, 2, 3]);
    r.become_follower(3, 2);
    r.step(msg(MessageType::MsgRequestPreVote, 3, 1, 8)).unwrap();
    assert_eq!((r.term, r.vote, r.state), (3, 0, StateRole::Follower));
    let answer = taken(&mut r).pop().unwrap();
    assert_eq!(answer.msg_type, MessageType::MsgRequestPreVoteResponse);
    assert_eq!((answer.term, answer.reject), (8, false));
    // One of an earlier term is refused with the own term.
    r.step(msg(MessageType::MsgRequestPreVote, 3, 1, 2)).unwrap();
    let answer = taken(&mut r).pop().unwrap();
    assert_eq!((answer.term, answer.reject), (3, true));
}

#[test]
fn pre_candidates_keep_term_and_vote() {
    let mut c = config(1, vec![1, 2, 3]);
    c.pre_vote = true;
    let mut r = Raft::new(&c, MemStorage::new()).unwrap();
    r.become_follower(4, 2);
    r.vote = 2;
    r.step(msg(MessageType::MsgHup, 1, 1, 0)).unwrap();
    assert_eq!((r.term, r.vote, r.state), (4, 2, StateRole::PreCandidate));
    assert_eq!(r.leader_id, 0);
    let requests = taken(&mut r);
    assert_eq!(requests.len(), 2);
    assert_eq!(requests[0].msg_type, MessageType::MsgRequestPreVote);
    assert_eq!(requests[0].term, 5);
    // An answer to a real vote does not count.
    r.step(msg(MessageType::MsgRequestVoteResponse, 2, 1, 4)).unwrap();
    assert_eq!(r.state, StateRole::PreCandidate);
    r.step(msg(MessageType::MsgRequestPreVoteResponse, 2, 1, 5)).unwrap();
    assert_eq!((r.term, r.vote, r.state), (5, 1, StateRole::Candidate));
}

#[test]
fn a_single_node_wins_at_once() {
    let mut c = config(1, vec![1]);
    c.pre_vote = true;
    let mut r = Raft::new(&c, MemStorage::new()).unwrap();
    r.campaign(b"CampaignPreElection");
    assert_eq!((r.term, r.state), (1, StateRole::Leader));
    assert_eq!(r.raft_log.committed, 1);
}

#[test]
fn the_lease_keeps_votes_out() {
    let mut c = config(1, vec![1, 2, 3]);
    c.check_quorum = true;
    let mut r = Raft::new(&c, MemStorage::new()).unwrap();
    r.become_follower(1, 2);
    r.step(msg(MessageType::MsgRequestVote, 3, 1, 9)).unwrap();
    assert_eq!((r.term, r.msgs.len()), (1, 0));
    // A transfer gets through.
    let mut m = msg(MessageType::MsgRequestVote, 3, 1, 9);
    m.context = b"CampaignTransfer".to_vec();
    r.step(m).unwrap();
    assert_eq!((r.term, r.vote), (9, 3));
    // So does anybody once the leader was silent for long enough.
    let mut r = Raft::new(&c, MemStorage::new()).unwrap();
    r.become_follower(1, 2);
    r.election_elapsed = 10;
    r.step(msg(MessageType::MsgRequestVote, 3, 1, 9)).unwrap();
    assert_eq!((r.term, r.vote), (9, 3));
}

#[test]
fn old_terms_are_ignored_or_answered() {
    let mut r = node(1, vec![1, 2]);
    r.become_follower(5, 2);
    r.step(msg(MessageType::MsgAppend, 2, 1, 4)).unwrap();
    assert!(r.msgs.is_empty());
    r.check_quorum = true;
    r.step(msg(MessageType::MsgHeartbeat, 2, 1, 4)).unwrap();
    let m = taken(&mut r).pop().unwrap();
    assert_eq!((m.msg_type, m.term, m.to), (MessageType::MsgAppendResponse, 5, 2));
    r.step(msg(MessageType::MsgRequestVote, 2, 1, 4)).unwrap();
    assert!(r.msgs.is_empty());
    assert_eq!((r.term, r.leader_id), (5, 2));
}

#[test]
fn later_terms_are_adopted() {
    let mut nodes = elected(3);
    nodes[0].step(msg(MessageType::MsgAppendResponse, 2, 1, 6)).unwrap();
    assert_eq!((nodes[0].term, nodes[0].state), (6, StateRole::Follower));
    assert_eq!((nodes[0].vote, nodes[0].leader_id), (0, 0));
    nodes[1].step(msg(MessageType::MsgHeartbeat, 3, 2, 7)).unwrap();
    assert_eq!((nodes[1].term, nodes[1].leader_id), (7, 3));
}

#[test]
fn entries_are_replicated_and_committed() {
    let mut nodes = elected(3);
    nodes[0].step(proposal(b"a")).unwrap();
    let first = nodes[0].msgs[0].clone();
    assert_eq!(first.msg_type, MessageType::MsgAppend);
    assert_eq!((first.index, first.log_term, first.commit), (1, 1, 1));
    assert_eq!(first.entries[0].data, b"a".to_vec());
    deliver(&mut nodes, &[]);
    for n in &nodes {
        assert_eq!(n.raft_log.committed, 2);
        assert_eq!(n.raft_log.term(2), Ok(1));
    }
}

#[test]
fn a_minority_commits_nothing() {
    let mut nodes = elected(3);
    nodes[0].step(proposal(b"a")).unwrap();
    deliver(&mut nodes, &[2, 3]);
    assert_eq!(nodes[0].raft_log.committed, 1);
    assert_eq!(nodes[0].raft_log.last_index(), 2);
}

#[test]
fn entries_of_an_earlier_term_wait_for_one_of_this_term() {
    let mut nodes = cluster(3);
    nodes[0].term = 1;
    nodes[0].append_entry(&mut vec![Entry::new()]);
    nodes[0].become_candidate();
    nodes[0].become_leader();
    assert_eq!(nodes[0].raft_log.last_index(), 2);
    // A quorum has the entry of term 1 only.
    nodes[0].mut_prs().get_mut(2).unwrap().matched = 1;
    assert!(!nodes[0].maybe_commit());
    assert_eq!(nodes[0].raft_log.committed, 0);
    nodes[0].mut_prs().get_mut(2).unwrap().matched = 2;
    assert!(nodes[0].maybe_commit());
    assert_eq!(nodes[0].raft_log.committed, 2);
}

#[test]
fn a_follower_refuses_what_does_not_fit() {
    let mut r = node(2, vec![1, 2]);
    r.become_follower(2, 1);
    let mut m = msg(MessageType::MsgAppend, 1, 2, 2);
    m.index = 3;
    m.log_term = 2;
    m.entries = vec![entry(4, 2, b"x")];
    r.step(m).unwrap();
    let answer = taken(&mut r).pop().unwrap();
    assert!(answer.reject);
    assert_eq!((answer.index, answer.reject_hint), (3, 0));
}

#[test]
fn a_follower_takes_over_the_log_of_the_leader() {
    let mut r = node(2, vec![1, 2, 3]);
    r.become_follower(1, 1);
    let mut m = msg(MessageType::MsgAppend, 1, 2, 1);
    m.entries = vec![entry(1, 1, b"a"), entry(2, 1, b"b"), entry(3, 1, b"c")];
    m.commit = 1;
    r.step(m).unwrap();
    assert_eq!((r.raft_log.last_index(), r.raft_log.committed), (3, 1));
    // A later leader overwrites what is not committed, and nothing else.
    let mut m = msg(MessageType::MsgAppend, 3, 2, 2);
    m.index = 1;
    m.log_term = 1;
    m.entries = vec![entry(2, 1, b"b"), entry(3, 2, b"d")];
    m.commit = 9;
    r.step(m).unwrap();
    let all = r.raft_log.entries(1, u64::MAX).unwrap();
    assert_eq!(
        all,
        vec![entry(1, 1, b"a"), entry(2, 1, b"b"), entry(3, 2, b"d")]
    );
    assert_eq!(r.raft_log.committed, 3);
    let answer = taken(&mut r).pop().unwrap();
    assert_eq!((answer.index, answer.reject), (3, false));
    // What is committed is only confirmed.
    let mut m = msg(MessageType::MsgAppend, 3, 2, 2);
    m.entries = vec![entry(1, 7, b"z")];
    r.step(m).unwrap();
    assert_eq!(r.raft_log.term(1), Ok(1));
    assert_eq!(taken(&mut r).pop().unwrap().index, 3);
}

#[test]
fn a_refusal_moves_the_leader_back() {
    let mut nodes = elected(3);
    for _ in 0..3 {
        nodes[0].step(proposal(b"a")).unwrap();
    }
    deliver(&mut nodes, &[2]);
    assert_eq!(nodes[0].prs().get(2).unwrap().next_idx, 5);
    let mut no = msg(MessageType::MsgAppendResponse, 2, 1, 1);
    no.index = 4;
    no.reject = true;
    no.reject_hint = 1;
    nodes[0].step(no).unwrap();
    let p = nodes[0].prs().get(2).unwrap();
    assert_eq!((p.next_idx, p.matched, p.state), (2, 1, ProgressState::Probe));
    assert!(p.paused);
    let sent = taken(&mut nodes[0]);
    assert_eq!(sent.len(), 1);
    assert_eq!(sent[0].entries.len(), 3);
    let to = sent.into_iter().next().unwrap();
    nodes[1].step(to).unwrap();
    deliver(&mut nodes, &[]);
    assert_eq!(nodes[1].raft_log.committed, 4);
    assert_eq!(nodes[0].prs().get(2).unwrap().state, ProgressState::Replicate);
}

#[test]
fn heartbeats_go_no_further_than_what_a_peer_has() {
    let mut nodes = elected(3);
    nodes[0].step(proposal(b"a")).unwrap();
    deliver(&mut nodes, &[3]);
    assert_eq!(nodes[0].raft_log.committed, 2);
    nodes[0].bcast_heartbeat();
    let sent = taken(&mut nodes[0]);
    assert_eq!(sent.iter().map(|m| (m.to, m.commit)).collect::<Vec<_>>(), vec![(2, 2), (3, 1)]);
    assert!(sent.iter().all(|m| m.term == 1 && m.from == 1));
}

#[test]
fn a_heartbeat_commits_and_is_answered() {
    let mut nodes = elected(3);
    nodes[1].raft_log.committed = 0;
    let mut m = msg(MessageType::MsgHeartbeat, 1, 2, 1);
    m.commit = 1;
    m.context = b"ctx".to_vec();
    nodes[1].step(m).unwrap();
    assert_eq!(nodes[1].raft_log.committed, 1);
    let answer = taken(&mut nodes[1]).pop().unwrap();
    assert_eq!(answer.msg_type, MessageType::MsgHeartbeatResponse);
    assert_eq!(answer.context, b"ctx".to_vec());
}

#[test]
fn a_heartbeat_response_starts_sending_again() {
    let mut nodes = elected(2);
    nodes[0].mut_prs().get_mut(2).unwrap().become_probe();
    nodes[0].mut_prs().get_mut(2).unwrap().pause();
    nodes[0].step(proposal(b"a")).unwrap();
    assert!(nodes[0].msgs.is_empty());
    nodes[0].step(msg(MessageType::MsgHeartbeatResponse, 2, 1, 1)).unwrap();
    let sent = taken(&mut nodes[0]);
    assert_eq!(sent.len(), 1);
    assert_eq!(sent[0].entries.len(), 1);
}

#[test]
fn the_window_of_a_peer_is_bounded() {
    let mut c = config(1, vec![1, 2]);
    c.max_inflight_msgs = 2;
    let mut r = Raft::new(&c, MemStorage::new()).unwrap();
    r.become_candidate();
    r.become_leader();
    r.mut_prs().get_mut(2).unwrap().become_replicate();
    for _ in 0..5 {
        r.step(proposal(b"a")).unwrap();
    }
    assert_eq!(r.msgs.len(), 2);
    assert_eq!(r.prs().get(2).unwrap().ins.buffer, vec![2, 3]);
}

#[test]
fn messages_are_cut_to_their_size() {
    let mut c = config(1, vec![1, 2]);
    c.max_size_per_msg = 0;
    let mut r = Raft::new(&c, MemStorage::new()).unwrap();
    r.become_candidate();
    r.become_leader();
    r.append_entry(&mut vec![entry(0, 0, b"abc"), entry(0, 0, b"def")]);
    let mut pr = Progress::new(1, 10);
    r.send_append(2, &mut pr);
    assert_eq!(taken(&mut r)[0].entries.len(), 1);
    assert!(pr.paused);
    // Two entries of three bytes of data are nine bytes each.
    r.max_msg_size = 18;
    let mut pr = Progress::new(2, 10);
    r.send_append(2, &mut pr);
    assert_eq!(taken(&mut r)[0].entries.len(), 2);
    r.max_msg_size = 17;
    let mut pr = Progress::new(2, 10);
    r.send_append(2, &mut pr);
    assert_eq!(taken(&mut r)[0].entries.len(), 1);
}

#[test]
fn a_peer_that_lags_gets_a_snapshot() {
    let mut store = MemStorage::new();
    let mut s = Snapshot::new();
    s.metadata.index = 5;
    s.metadata.term = 1;
    s.metadata.conf_state = ConfState { nodes: vec![1, 2], learners: vec![] };
    store.apply_snapshot(s).unwrap();
    let mut r = Raft::new(&config(1, vec![]), store).unwrap();
    r.become_candidate();
    r.become_leader();
    let mut pr = Progress::new(3, 10);
    r.send_append(2, &mut pr);
    assert!(r.msgs.is_empty());
    pr.recent_active = true;
    r.send_append(2, &mut pr);
    let m = taken(&mut r).pop().unwrap();
    assert_eq!(m.msg_type, MessageType::MsgSnapshot);
    assert_eq!(m.snapshot.metadata.index, 5);
    assert_eq!((pr.state, pr.pending_snapshot), (ProgressState::Snapshot, 5));
    r.send_append(2, &mut pr);
    assert!(r.msgs.is_empty());
}

#[test]
fn a_snapshot_takes_the_place_of_the_log() {
    let mut r = node(2, vec![1, 2]);
    let mut s = Snapshot::new();
    s.metadata.index = 11;
    s.metadata.term = 3;
    s.metadata.conf_state = ConfState { nodes: vec![1, 2, 3], learners: vec![4] };
    assert!(r.restore(s.clone()));
    assert_eq!((r.raft_log.committed, r.raft_log.last_index()), (11, 11));
    assert_eq!(r.raft_log.first_index(), 12);
    assert_eq!(r.raft_log.last_term(), 3);
    assert_eq!(r.prs().voter_ids(), vec![1, 2, 3]);
    assert_eq!(r.prs().learner_ids(), vec![4]);
    // Again it is what the log has.
    assert!(!r.restore(s.clone()));
    s.metadata.index = 10;
    assert!(!r.restore(s));
    assert_eq!(r.raft_log.committed, 11);
}

#[test]
fn a_snapshot_commits_what_the_log_has() {
    let mut r = node(2, vec![1, 2]);
    let mut m = msg(MessageType::MsgAppend, 1, 2, 1);
    m.entries = vec![entry(1, 1, b"a"), entry(2, 1, b"b")];
    r.step(m).unwrap();
    assert_eq!(r.raft_log.committed, 0);
    let mut s = Snapshot::new();
    s.metadata.index = 1;
    s.metadata.term = 1;
    s.metadata.conf_state = ConfState { nodes: vec![1, 2], learners: vec![] };
    assert!(!r.restore(s));
    assert_eq!((r.raft_log.committed, r.raft_log.last_index()), (1, 2));
    assert!(r.get_snap().is_none());
}

#[test]
fn a_snapshot_makes_no_voter_a_learner() {
    let mut r = node(2, vec![1, 2]);
    let mut s = Snapshot::new();
    s.metadata.index = 4;
    s.metadata.term = 1;
    s.metadata.conf_state = ConfState { nodes: vec![1], learners: vec![2] };
    assert!(!r.restore(s));
    assert_eq!(r.raft_log.last_index(), 0);
    assert_eq!(r.prs().voter_ids(), vec![1, 2]);
}

#[test]
fn a_snapshot_can_hold_a_membership_change() {
    let mut c = config(2, vec![1]);
    c.learners = vec![2];
    let mut r = Raft::new(&c, MemStorage::new()).unwrap();
    assert!(r.is_learner);
    let mut s = Snapshot::new();
    s.metadata.index = 4;
    s.metadata.term = 1;
    s.metadata.conf_state = ConfState { nodes: vec![1, 2], learners: vec![] };
    s.metadata.pending_membership_change = ConfState { nodes: vec![2, 3], learners: vec![] };
    s.metadata.pending_membership_change_index = 3;
    assert!(r.restore(s));
    assert!(!r.is_learner);
    assert!(r.is_in_membership_change());
    assert_eq!(r.began_membership_change_at(), Some(3));
    assert_eq!(r.pending_conf_index, 3);
    assert_eq!(r.prs().voter_ids(), vec![1, 2, 3]);
    // A later index stays.
    let mut r = node(2, vec![1, 2]);
    r.pending_conf_index = 9;
    let mut s = Snapshot::new();
    s.metadata.index = 4;
    s.metadata.term = 1;
    s.metadata.conf_state = ConfState { nodes: vec![1, 2], learners: vec![] };
    s.metadata.pending_membership_change = ConfState { nodes: vec![2], learners: vec![] };
    s.metadata.pending_membership_change_index = 3;
    assert!(r.restore(s));
    assert_eq!((r.began_membership_change_at(), r.pending_conf_index), (Some(3), 9));
}

#[test]
fn a_candidate_yields_to_a_leader() {
    let mut r = node(1, vec![1, 2, 3]);
    r.become_candidate();
    r.step(msg(MessageType::MsgHeartbeat, 2, 1, 1)).unwrap();
    assert_eq!((r.state, r.leader_id, r.term, r.vote), (StateRole::Follower, 2, 1, 1));
}

#[test]
fn proposals_are_passed_on_or_dropped() {
    let mut r = node(2, vec![1, 2]);
    assert_eq!(r.step(proposal(b"a")), Err(Error::ProposalDropped));
    assert_eq!(r.step(read(b"a")), Ok(()));
    assert_eq!(r.step(msg(MessageType::MsgTransferLeader, 2, 0, 0)), Ok(()));
    assert!(r.msgs.is_empty());
    r.become_follower(1, 1);
    r.step(proposal(b"a")).unwrap();
    r.step(read(b"b")).unwrap();
    r.step(msg(MessageType::MsgTransferLeader, 2, 0, 0)).unwrap();
    let sent = taken(&mut r);
    assert!(sent.iter().all(|m| m.to == 1 && m.from == 2));
    assert_eq!(sent.iter().map(|m| m.term).collect::<Vec<_>>(), vec![0, 0, 1]);
    r.become_candidate();
    assert_eq!(r.step(proposal(b"a")), Err(Error::ProposalDropped));
    // A leader that is no longer a voter drops them too.
    let mut nodes = elected(2);
    nodes[0].remove_node(1).unwrap();
    assert_eq!(nodes[0].step(proposal(b"a")), Err(Error::ProposalDropped));
}

#[test]
fn only_one_conf_change_is_let_through() {
    let mut nodes = elected(1);
    nodes[0].commit_apply(1);
    let mut m = proposal(b"a");
    for d in 1..4u8 {
        let mut e = entry(0, 0, &[d]);
        e.entry_type = EntryType::EntryConfChange;
        m.entries.push(e);
    }
    nodes[0].step(m).unwrap();
    let all = nodes[0].raft_log.entries(2, u64::MAX).unwrap();
    assert_eq!(
        all.iter().map(|e| e.entry_type).collect::<Vec<_>>(),
        vec![
            EntryType::EntryNormal,
            EntryType::EntryConfChange,
            EntryType::EntryNormal,
            EntryType::EntryNormal
        ]
    );
    assert_eq!(all[0].data, b"a".to_vec());
    assert_eq!(all[1].data, vec![1]);
    assert!(all[2].data.is_empty());
    assert_eq!(nodes[0].pending_conf_index, 3);
    assert!(nodes[0].has_pending_conf());
    let mut m = msg(MessageType::MsgPropose, 0, 0, 0);
    let mut e = entry(0, 0, b"z");
    e.entry_type = EntryType::EntryConfChange;
    m.entries = vec![e];
    nodes[0].step(m).unwrap();
    let last = nodes[0].raft_log.last_index();
    assert_eq!(
        nodes[0].raft_log.entries(last, u64::MAX).unwrap()[0].entry_type,
        EntryType::EntryNormal
    );
}

#[test]
fn a_change_waits_until_more_is_applied() {
    let mut nodes = elected(1);
    let mut m = msg(MessageType::MsgPropose, 0, 0, 0);
    let mut e = entry(0, 0, b"c");
    e.entry_type = EntryType::EntryConfChange;
    m.entries = vec![e];
    // The applied index is that of the pending change, and so not greater.
    assert_eq!((nodes[0].raft_log.applied, nodes[0].pending_conf_index), (0, 0));
    assert!(nodes[0].has_pending_conf());
    nodes[0].step(m.clone()).unwrap();
    assert_eq!(nodes[0].raft_log.entries(2, u64::MAX).unwrap(), vec![entry(2, 1, b"")]);
    assert_eq!(nodes[0].pending_conf_index, 0);
    nodes[0].commit_apply(1);
    assert!(!nodes[0].has_pending_conf());
    nodes[0].step(m.clone()).unwrap();
    let e = nodes[0].raft_log.entries(3, u64::MAX).unwrap().pop().unwrap();
    assert_eq!((e.entry_type, e.data), (EntryType::EntryConfChange, b"c".to_vec()));
    assert_eq!(nodes[0].pending_conf_index, 3);
    // The change is applied, and nothing behind it.
    nodes[0].commit_apply(3);
    assert!(nodes[0].has_pending_conf());
    nodes[0].step(m.clone()).unwrap();
    assert_eq!(nodes[0].raft_log.entries(4, u64::MAX).unwrap(), vec![entry(4, 1, b"")]);
    nodes[0].commit_apply(4);
    nodes[0].step(m).unwrap();
    assert_eq!(nodes[0].pending_conf_index, 5);
}

#[test]
fn an_unapplied_change_blocks_a_campaign() {
    let mut r = node(1, vec![1, 2]);
    let mut m = msg(MessageType::MsgAppend, 2, 1, 1);
    let mut e = entry(1, 1, b"x");
    e.entry_type = EntryType::EntryConfChange;
    m.entries = vec![e];
    m.commit = 1;
    r.step(m).unwrap();
    r.step(msg(MessageType::MsgHup, 1, 1, 0)).unwrap();
    assert_eq!((r.state, r.term), (StateRole::Follower, 1));
    r.commit_apply(1);
    r.step(msg(MessageType::MsgHup, 1, 1, 0)).unwrap();
    assert_eq!((r.state, r.term), (StateRole::Candidate, 2));
}

#[test]
fn reads_are_answered_by_a_quorum_in_order() {
    let mut nodes = elected(3);
    for ctx in vec![b"one".to_vec(), b"two".to_vec(), b"one".to_vec(), b"three".to_vec()] {
        nodes[0].step(read(&ctx)).unwrap();
    }
    assert_eq!(nodes[0].pending_read_count(), 3);
    let sent = taken(&mut nodes[0]);
    assert_eq!(sent.len(), 8);
    assert_eq!(sent[0].context, b"one".to_vec());
    // The answer to the second also answers the first.
    let mut ack = msg(MessageType::MsgHeartbeatResponse, 2, 1, 1);
    ack.context = b"two".to_vec();
    nodes[0].step(ack).unwrap();
    let answered: Vec<_> =
        nodes[0].read_states.iter().map(|r| (r.index, r.request_ctx.clone())).collect();
    assert_eq!(answered, vec![(1, b"one".to_vec()), (1, b"two".to_vec())]);
    assert_eq!(nodes[0].pending_read_count(), 1);
}

#[test]
fn reads_of_followers_are_answered_through_the_leader() {
    let mut nodes = elected(3);
    nodes[1].step(read(b"key")).unwrap();
    deliver(&mut nodes, &[]);
    assert_eq!(nodes[1].read_states.len(), 1);
    assert_eq!(nodes[1].read_states[0].index, 1);
    assert_eq!(nodes[1].read_states[0].request_ctx, b"key".to_vec());
    assert_eq!(nodes[0].ready_read_count(), 0);
}

#[test]
fn each_remote_read_is_answered() {
    let mut nodes = elected(3);
    for (from, ctx) in vec![(2, b"a"), (1, b"x"), (3, b"b")] {
        let mut m = read(ctx);
        m.from = from;
        nodes[0].step(m).unwrap();
    }
    taken(&mut nodes[0]);
    let mut ack = msg(MessageType::MsgHeartbeatResponse, 2, 1, 1);
    ack.context = b"b".to_vec();
    nodes[0].step(ack).unwrap();
    let sent = taken(&mut nodes[0]);
    assert_eq!(sent.len(), 2);
    for (m, to, ctx) in vec![(&sent[0], 2, b"a"), (&sent[1], 3, b"b")] {
        assert_eq!((m.msg_type, m.from, m.to), (MessageType::MsgReadIndexResp, 1, to));
        assert_eq!((m.term, m.index), (1, 1));
        assert_eq!(m.entries[0].data, ctx.to_vec());
    }
    assert_eq!(nodes[0].ready_read_count(), 1);
    assert_eq!(nodes[0].read_states[0].request_ctx, b"x".to_vec());
}

#[test]
fn reads_wait_for_a_commit_of_the_term() {
    let mut r = node(1, vec![1, 2]);
    r.become_candidate();
    r.become_leader();
    r.step(read(b"key")).unwrap();
    assert_eq!(r.pending_read_count(), 0);
    assert!(r.msgs.is_empty());
}

#[test]
fn leased_reads_ask_nobody() {
    let mut c = config(1, vec![1, 2]);
    c.check_quorum = true;
    c.read_only_option = ReadOnlyOption::LeaseBased;
    let mut r = Raft::new(&c, MemStorage::new()).unwrap();
    r.become_candidate();
    r.become_leader();
    assert!(r.in_lease());
    let mut ack = msg(MessageType::MsgAppendResponse, 2, 1, 1);
    ack.index = 1;
    r.step(ack).unwrap();
    taken(&mut r);
    r.step(read(b"own")).unwrap();
    assert_eq!(r.read_states[0].request_ctx, b"own".to_vec());
    let mut m = read(b"far");
    m.from = 2;
    r.step(m).unwrap();
    let sent = taken(&mut r);
    assert_eq!(sent.len(), 1);
    assert_eq!((sent[0].msg_type, sent[0].to, sent[0].index), (
        MessageType::MsgReadIndexResp,
        2,
        1
    ));
}

#[test]
fn a_read_answer_of_the_wrong_form_is_ignored() {
    let mut r = node(2, vec![1, 2]);
    let mut m = msg(MessageType::MsgReadIndexResp, 1, 2, 0);
    r.step(m.clone()).unwrap();
    assert_eq!(r.ready_read_count(), 0);
    m.entries = vec![entry(0, 0, b"k")];
    m.index = 8;
    r.step(m).unwrap();
    assert_eq!(r.read_states[0].index, 8);
}

#[test]
fn leadership_goes_to_a_peer_that_is_up_to_date() {
    let mut nodes = elected(3);
    nodes[0].step(msg(MessageType::MsgTransferLeader, 2, 1, 0)).unwrap();
    assert_eq!(nodes[0].msgs[0].msg_type, MessageType::MsgTimeoutNow);
    assert_eq!(nodes[0].step(proposal(b"a")), Err(Error::ProposalDropped));
    deliver(&mut nodes, &[]);
    assert_eq!((nodes[1].state, nodes[1].term), (StateRole::Leader, 2));
    assert_eq!(nodes[0].state, StateRole::Follower);
    assert_eq!(nodes[0].lead_transferee, None);
}

#[test]
fn leadership_waits_for_a_peer_that_lags() {
    let mut nodes = elected(3);
    nodes[0].step(proposal(b"a")).unwrap();
    deliver(&mut nodes, &[3]);
    nodes[0].step(msg(MessageType::MsgTransferLeader, 3, 1, 0)).unwrap();
    let sent = taken(&mut nodes[0]);
    assert!(sent.iter().all(|m| m.msg_type == MessageType::MsgAppend));
    let mut ack = msg(MessageType::MsgAppendResponse, 3, 1, 1);
    ack.index = 2;
    nodes[0].step(ack).unwrap();
    assert!(taken(&mut nodes[0]).iter().any(|m| m.msg_type == MessageType::MsgTimeoutNow && m.to == 3));
}

#[test]
fn transfers_are_refused_or_replaced() {
    let mut nodes = elected(3);
    nodes[0].add_learner(4).unwrap();
    nodes[0].step(msg(MessageType::MsgTransferLeader, 4, 1, 0)).unwrap();
    assert_eq!(nodes[0].lead_transferee, None);
    nodes[0].step(msg(MessageType::MsgTransferLeader, 1, 1, 0)).unwrap();
    assert_eq!(nodes[0].lead_transferee, None);
    nodes[0].step(msg(MessageType::MsgTransferLeader, 2, 1, 0)).unwrap();
    taken(&mut nodes[0]);
    nodes[0].step(msg(MessageType::MsgTransferLeader, 2, 1, 0)).unwrap();
    assert!(nodes[0].msgs.is_empty());
    nodes[0].step(msg(MessageType::MsgTransferLeader, 3, 1, 0)).unwrap();
    assert_eq!(nodes[0].lead_transferee, Some(3));
    nodes[0].step(msg(MessageType::MsgTransferLeader, 1, 1, 0)).unwrap();
    assert_eq!(nodes[0].lead_transferee, None);
    // Removing the node gives the transfer up.
    nodes[0].step(msg(MessageType::MsgTransferLeader, 3, 1, 0)).unwrap();
    nodes[0].remove_node(3).unwrap();
    assert_eq!(nodes[0].lead_transferee, None);
}

#[test]
fn a_transfer_needs_no_pre_votes() {
    let mut c = config(2, vec![1, 2, 3]);
    c.pre_vote = true;
    let mut r = Raft::new(&c, MemStorage::new()).unwrap();
    r.become_follower(3, 1);
    r.step(msg(MessageType::MsgTimeoutNow, 1, 2, 3)).unwrap();
    assert_eq!((r.state, r.term, r.vote), (StateRole::Candidate, 4, 2));
    let sent = taken(&mut r);
    assert!(sent.iter().all(|m| m.msg_type == MessageType::MsgRequestVote));
    assert_eq!(sent[0].context, b"CampaignTransfer".to_vec());
    // A learner does not take over.
    let mut c = config(2, vec![1, 3]);
    c.learners = vec![2];
    let mut r = Raft::new(&c, MemStorage::new()).unwrap();
    r.step(msg(MessageType::MsgTimeoutNow, 1, 2, 0)).unwrap();
    assert_eq!(r.state, StateRole::Follower);
}

#[test]
fn learners_neither_campaign_nor_count() {
    let mut c = config(3, vec![1, 2]);
    c.learners = vec![3];
    let mut r = Raft::new(&c, MemStorage::new()).unwrap();
    assert!(r.is_learner && !r.promotable());
    for _ in 0..50 {
        assert!(!r.tick());
    }
    assert_eq!((r.state, r.term), (StateRole::Follower, 0));
    c.id = 1;
    let mut r = Raft::new(&c, MemStorage::new()).unwrap();
    r.step(msg(MessageType::MsgHup, 1, 1, 0)).unwrap();
    assert_eq!(taken(&mut r).len(), 1);
    r.step(msg(MessageType::MsgRequestVoteResponse, 3, 1, 1)).unwrap();
    assert_eq!(r.state, StateRole::Candidate);
    r.step(msg(MessageType::MsgRequestVoteResponse, 2, 1, 1)).unwrap();
    assert_eq!(r.state, StateRole::Leader);
    let mut ack = msg(MessageType::MsgAppendResponse, 3, 1, 1);
    ack.index = 1;
    r.step(ack).unwrap();
    assert_eq!(r.raft_log.committed, 0);
}

#[test]
fn learners_do_not_vote() {
    let mut c = config(3, vec![1, 2]);
    c.learners = vec![3];
    let mut r = Raft::new(&c, MemStorage::new()).unwrap();
    r.step(msg(MessageType::MsgRequestVote, 1, 3, 2)).unwrap();
    r.step(msg(MessageType::MsgRequestPreVote, 1, 3, 5)).unwrap();
    assert_eq!((r.term, r.vote), (2, 0));
    let sent = taken(&mut r);
    assert_eq!(sent.len(), 2);
    for (m, t) in vec![
        (&sent[0], MessageType::MsgRequestVoteResponse),
        (&sent[1], MessageType::MsgRequestPreVoteResponse),
    ] {
        assert_eq!((m.msg_type, m.to, m.term, m.reject), (t, 1, 2, true));
    }
    // Once a membership change makes it a voter, it votes.
    let begin = ConfChange::begin(1, ConfState { nodes: vec![1, 3], learners: vec![] });
    r.begin_membership_change(&begin).unwrap();
    assert!(r.is_learner);
    r.step(msg(MessageType::MsgRequestVote, 1, 3, 2)).unwrap();
    let sent = taken(&mut r);
    assert!(!sent[0].reject);
    assert_eq!(r.vote, 1);
    let mut end = ConfChange::new();
    end.change_type = ConfChangeType::FinalizeMembershipChange;
    r.finalize_membership_change(&end).unwrap();
    assert!(!r.is_learner && r.promotable());
}

#[test]
fn a_leader_sends_heartbeats() {
    let mut nodes = elected(3);
    nodes[0].heartbeat_timeout = 2;
    assert!(!nodes[0].tick());
    assert_eq!(nodes[0].get_heartbeat_elapsed(), 1);
    assert!(nodes[0].tick());
    assert_eq!(nodes[0].get_heartbeat_elapsed(), 0);
    let sent = taken(&mut nodes[0]);
    assert_eq!(sent.len(), 2);
    assert!(sent.iter().all(|m| m.msg_type == MessageType::MsgHeartbeat));
}

#[test]
fn a_leader_without_a_quorum_steps_down() {
    let mut nodes = elected(3);
    nodes[0].check_quorum = true;
    for _ in 0..10 {
        nodes[0].tick();
    }
    // Both were active when the leader was elected.
    assert_eq!(nodes[0].state, StateRole::Leader);
    nodes[0].lead_transferee = Some(2);
    for _ in 0..10 {
        nodes[0].tick();
    }
    assert_eq!((nodes[0].state, nodes[0].term), (StateRole::Follower, 1));
}

#[test]
fn a_slow_transfer_is_given_up() {
    let mut nodes = elected(3);
    nodes[0].lead_transferee = Some(2);
    for _ in 0..9 {
        nodes[0].tick();
    }
    assert_eq!(nodes[0].lead_transferee, Some(2));
    nodes[0].tick();
    assert_eq!(nodes[0].lead_transferee, None);
    assert_eq!(nodes[0].state, StateRole::Leader);
}

#[test]
fn nodes_are_added_and_removed() {
    let mut r = node(1, vec![1]);
    r.add_node(2).unwrap();
    assert!(r.prs().get(2).unwrap().recent_active);
    assert_eq!(r.add_node(2), Err(Error::Exists(2, "voters")));
    assert_eq!(r.add_learner(2), Err(Error::Exists(2, "voters")));
    r.add_learner(3).unwrap();
    assert_eq!(r.add_learner(3), Err(Error::Exists(3, "learners")));
    assert_eq!(r.add_node(3), Err(Error::Exists(3, "learners")));
    assert_eq!(r.prs().voter_ids(), vec![1, 2]);
    assert_eq!(r.prs().learner_ids(), vec![3]);
    r.remove_node(2).unwrap();
    assert!(!r.prs().has(2));
    assert_eq!(r.remove_node(2), Err(Error::NotExists(2, "voters or learners")));
    r.remove_node(3).unwrap();
    r.remove_node(1).unwrap();
    assert!(r.prs().voter_ids().is_empty());
    r.set_progress(5, 3, 4, false);
    let p = r.prs().get(5).unwrap();
    assert_eq!((p.matched, p.next_idx), (3, 4));
    r.set_progress(6, 0, 1, true);
    assert_eq!(r.prs().learner_ids(), vec![6]);
}

#[test]
fn removing_a_node_can_commit_more() {
    let mut nodes = elected(2);
    nodes[0].step(proposal(b"a")).unwrap();
    taken(&mut nodes[0]);
    assert_eq!(nodes[0].raft_log.committed, 1);
    nodes[0].remove_node(2).unwrap();
    assert_eq!(nodes[0].raft_log.committed, 2);
}

#[test]
fn membership_changes_need_both_quorums() {
    let mut nodes = elected(3);
    let begin = ConfChange::begin(2, ConfState { nodes: vec![1, 4, 5], learners: vec![] });
    nodes[0].begin_membership_change(&begin).unwrap();
    assert_eq!(nodes[0].pending_membership_change().as_ref(), Some(&begin));
    assert_eq!(nodes[0].pending_conf_index, 2);
    nodes[0].step(proposal(b"a")).unwrap();
    for (from, committed) in vec![(2, 1), (3, 1), (4, 2)] {
        let mut ack = msg(MessageType::MsgAppendResponse, from, 1, 1);
        ack.index = 2;
        nodes[0].step(ack).unwrap();
        assert_eq!(nodes[0].raft_log.committed, committed);
    }
    assert_eq!(nodes[0].add_node(9), Err(Error::ViolatesContract(
        "There is a pending membership change.".to_string()
    )));
    let mut end = ConfChange::new();
    end.change_type = ConfChangeType::FinalizeMembershipChange;
    nodes[0].finalize_membership_change(&end).unwrap();
    assert_eq!(nodes[0].prs().voter_ids(), vec![1, 4, 5]);
    assert_eq!(nodes[0].prs().ids, vec![1, 4, 5]);
    assert_eq!(nodes[0].state, StateRole::Leader);
    assert!(nodes[0].pending_membership_change().is_none());
    assert_eq!(nodes[0].began_membership_change_at(), None);
}

#[test]
fn a_leader_that_is_left_out_steps_down() {
    let mut nodes = elected(3);
    let begin = ConfChange::begin(2, ConfState { nodes: vec![2, 3], learners: vec![] });
    nodes[0].begin_membership_change(&begin).unwrap();
    nodes[1].begin_membership_change(&begin).unwrap();
    let mut end = ConfChange::new();
    end.change_type = ConfChangeType::FinalizeMembershipChange;
    nodes[0].finalize_membership_change(&end).unwrap();
    assert_eq!((nodes[0].state, nodes[0].leader_id), (StateRole::Follower, 0));
    nodes[1].finalize_membership_change(&end).unwrap();
    assert_eq!((nodes[1].state, nodes[1].leader_id), (StateRole::Follower, 0));
}

#[test]
fn changes_of_the_wrong_form_are_refused() {
    let mut r = node(1, vec![1, 2]);
    let wrong = |s: &str| Err(Error::ViolatesContract(s.to_string()));
    let mut c = ConfChange::new();
    for (t, name) in vec![
        (ConfChangeType::AddNode, "AddNode"),
        (ConfChangeType::RemoveNode, "RemoveNode"),
        (ConfChangeType::AddLearnerNode, "AddLearnerNode"),
    ] {
        c.change_type = t;
        let text = format!("{} != BeginMembershipChange", name);
        assert_eq!(r.begin_membership_change(&c), wrong(&text));
        assert_eq!(r.finalize_membership_change(&c), wrong(&text));
    }
    c.change_type = ConfChangeType::FinalizeMembershipChange;
    assert_eq!(
        r.begin_membership_change(&c),
        wrong("FinalizeMembershipChange != BeginMembershipChange")
    );
    assert_eq!(r.finalize_membership_change(&c), Err(Error::NoPendingMembershipChange));
    c.start_index = 1;
    assert_eq!(r.finalize_membership_change(&c), wrong("ConfChange::has_start_index()"));
    c.configuration = Some(ConfState::new());
    assert_eq!(r.finalize_membership_change(&c), wrong("ConfChange::has_configuration()"));
    c.change_type = ConfChangeType::BeginMembershipChange;
    assert_eq!(
        r.finalize_membership_change(&c),
        wrong("BeginMembershipChange != BeginMembershipChange")
    );
    c.configuration = None;
    assert_eq!(r.begin_membership_change(&c), wrong("!ConfChange::has_configuration()"));
    c.configuration = Some(ConfState { nodes: vec![1], learners: vec![2] });
    c.start_index = 0;
    assert_eq!(r.begin_membership_change(&c), wrong("!ConfChange::has_start_index()"));
    c.start_index = 4;
    assert_eq!(r.begin_membership_change(&c), Err(Error::Exists(2, "learners")));
}

#[test]
fn membership_changes_are_proposed_by_a_leader() {
    let conf = Configuration::from_conf_state(&ConfState {
        nodes: vec![1, 2, 3],
        learners: vec![4],
    });
    let mut r = node(1, vec![1]);
    assert_eq!(
        r.propose_membership_change(conf.clone()),
        Err(Error::InvalidState(StateRole::Follower))
    );
    r.become_candidate();
    r.become_leader();
    let empty = Configuration::new();
    assert_eq!(
        r.propose_membership_change(empty),
        Err(Error::ConfigInvalid("There must be at least one voter.".to_string()))
    );
    let both = Configuration::from_conf_state(&ConfState { nodes: vec![1], learners: vec![1] });
    assert_eq!(r.propose_membership_change(both), Err(Error::Exists(1, "learners")));
    // Nothing is applied yet: that is no error, but an empty entry stands for the change.
    r.propose_membership_change(conf.clone()).unwrap();
    assert_eq!(r.raft_log.entries(2, u64::MAX).unwrap(), vec![entry(2, 1, b"")]);
    r.commit_apply(1);
    r.propose_membership_change(conf).unwrap();
    let e = r.raft_log.entries(3, u64::MAX).unwrap().pop().unwrap();
    assert_eq!(e.entry_type, EntryType::EntryConfChange);
    assert_eq!(e.data, vec![16, 3, 42, 8, 8, 1, 8, 2, 8, 3, 16, 4, 48, 3]);
}

#[test]
fn a_leader_ends_the_change_that_was_applied() {
    let mut nodes = elected(1);
    let conf =
        Configuration::from_conf_state(&ConfState { nodes: vec![1], learners: vec![] });
    nodes[0].commit_apply(1);
    nodes[0].propose_membership_change(conf).unwrap();
    let begin = ConfChange::begin(2, ConfState { nodes: vec![1], learners: vec![] });
    nodes[0].begin_membership_change(&begin).unwrap();
    nodes[0].commit_apply(2);
    let e = nodes[0].raft_log.entries(3, u64::MAX).unwrap().pop().unwrap();
    assert_eq!((e.entry_type, e.data), (EntryType::EntryConfChange, vec![16, 4]));
    // A new leader puts it in again.
    nodes[0].become_follower(3, 0);
    nodes[0].become_candidate();
    nodes[0].become_leader();
    let all = nodes[0].raft_log.entries(4, u64::MAX).unwrap();
    assert_eq!(all.len(), 2);
    assert_eq!(all[0], entry(4, 4, b""));
    assert_eq!(all[1].data, vec![16, 4]);
}

#[test]
fn a_leader_has_an_entry_of_its_own() {
    let mut r = node(1, vec![1, 2]);
    r.term = 4;
    r.append_entry(&mut vec![entry(0, 0, b"old")]);
    r.become_candidate();
    r.become_leader();
    assert_eq!(r.raft_log.term(1), Ok(4));
    assert_eq!(r.raft_log.term(2), Ok(5));
    assert_eq!(r.pending_conf_index, 1);
    let p = r.prs().get(1).unwrap();
    assert_eq!((p.matched, p.state), (2, ProgressState::Replicate));
}

#[test]
fn a_leader_only_adds_to_its_log() {
    let mut nodes = elected(3);
    nodes[0].step(proposal(b"a")).unwrap();
    let before = nodes[0].raft_log.entries(1, u64::MAX).unwrap();
    let mut m = msg(MessageType::MsgAppend, 2, 1, 1);
    m.index = 1;
    m.log_term = 1;
    m.entries = vec![entry(2, 9, b"other")];
    nodes[0].step(m).unwrap();
    nodes[0].step(proposal(b"b")).unwrap();
    let after = nodes[0].raft_log.entries(1, u64::MAX).unwrap();
    assert_eq!(after[..before.len()], before[..]);
    assert_eq!(after.len(), 3);
}

#[test]
fn a_saved_hard_state_is_taken_over() {
    let mut r = node(1, vec![1]);
    r.append_entry(&mut vec![Entry::new(), Entry::new()]);
    let hs = HardState { term: 6, vote: 3, commit: 2 };
    r.load_state(&hs);
    assert_eq!(r.hard_state(), hs);
}

#[test]
fn resets_keep_the_vote_within_a_term() {
    let mut r = node(1, vec![1, 2]);
    r.become_candidate();
    assert_eq!((r.term, r.vote), (1, 1));
    r.reset(1);
    assert_eq!((r.term, r.vote), (1, 1));
    r.reset(2);
    assert_eq!((r.term, r.vote), (2, 0));
    assert!(!r.pass_election_timeout());
}

#[test]
fn progress_is_taken_and_put_back() {
    let mut r = node(1, vec![1, 2]);
    let prs = r.take_prs();
    assert!(r.prs.is_none());
    r.set_prs(prs);
    assert_eq!(r.prs().ids, vec![1, 2]);
    r.abort_leader_transfer();
    assert_eq!(r.lead_transferee, None);
    r.send_timeout_now(2);
    assert_eq!(taken(&mut r)[0].msg_type, MessageType::MsgTimeoutNow);
    // Nothing is applied yet, so a change may be pending.
    r.skip_bcast_commit(true);
    assert!(r.should_bcast_commit());
}

#[test]
fn two_winners_share_a_voter() {
    let mut nodes = cluster(5);
    nodes[0].step(msg(MessageType::MsgHup, 1, 1, 0)).unwrap();
    nodes[4].step(msg(MessageType::MsgHup, 5, 5, 0)).unwrap();
    deliver(&mut nodes, &[]);
    let leaders = nodes.iter().filter(|n| n.state == StateRole::Leader && n.term == 1).count();
    assert!(leaders <= 1);
}

#[test]
fn a_cluster_survives_its_leader() {
    let mut nodes = elected(3);
    nodes[0].step(proposal(b"a")).unwrap();
    deliver(&mut nodes, &[]);
    nodes[1].step(msg(MessageType::MsgHup, 2, 2, 0)).unwrap();
    deliver(&mut nodes, &[1]);
    assert_eq!((nodes[1].state, nodes[1].term), (StateRole::Leader, 2));
    nodes[1].step(proposal(b"b")).unwrap();
    deliver(&mut nodes, &[1]);
    assert_eq!(nodes[1].raft_log.committed, 4);
    // The old leader joins again, with what was committed.
    nodes[1].bcast_heartbeat();
    deliver(&mut nodes, &[]);
    assert_eq!((nodes[0].state, nodes[0].term), (StateRole::Follower, 2));
    let all = nodes[1].raft_log.entries(1, u64::MAX).unwrap();
    assert_eq!(nodes[0].raft_log.entries(1, u64::MAX).unwrap(), all);
}

#[test]
fn a_tie_decides_nothing() {
    let mut r = node(1, vec![1, 2, 3, 4]);
    r.step(msg(MessageType::MsgHup, 1, 1, 0)).unwrap();
    r.step(msg(MessageType::MsgRequestVoteResponse, 2, 1, 1)).unwrap();
    for from in 3..5 {
        let mut no = msg(MessageType::MsgRequestVoteResponse, from, 1, 1);
        no.reject = true;
        r.step(no).unwrap();
    }
    assert_eq!(r.state, StateRole::Candidate);
}

#[test]
fn messages_leave_the_settings_and_what_is_applied() {
    let mut nodes = elected(3);
    nodes[0].commit_apply(1);
    for _ in 0..3 {
        nodes[0].step(proposal(b"a")).unwrap();
    }
    deliver(&mut nodes, &[]);
    assert_eq!(nodes[0].raft_log.committed, 4);
    assert_eq!(nodes[0].raft_log.applied, 1);
    assert_eq!(nodes[0].get_store().last_index(), Ok(0));
    assert_eq!((nodes[0].id, nodes[0].max_inflight), (1, 256));
    assert_eq!(nodes[0].get_election_timeout(), 10);
}

#[test]
fn a_commit_is_broadcast_unless_that_is_skipped() {
    let mut nodes = elected(3);
    nodes[0].commit_apply(1);
    for skip in vec![false, true] {
        nodes[0].skip_bcast_commit(skip);
        nodes[0].step(proposal(b"a")).unwrap();
        taken(&mut nodes[0]);
        let mut ack = msg(MessageType::MsgAppendResponse, 2, 1, 1);
        ack.index = nodes[0].raft_log.last_index();
        nodes[0].step(ack).unwrap();
        assert_eq!(nodes[0].raft_log.committed, nodes[0].raft_log.last_index());
        assert_eq!(taken(&mut nodes[0]).is_empty(), skip);
    }
}
