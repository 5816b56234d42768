use raft::codec::{encode_conf_change, size_of_entry};
use raft::collections::AckSet;
use raft::config::Config;
use raft::eraftpb::{
    bytes_equal, ConfChange, ConfChangeType, ConfState, Entry, EntryType, HardState, Message,
    MessageType, Snapshot,
};
use raft::errors::{Error, StorageError};
use raft::log_unstable::Unstable;
use raft::progress::{Inflights, Progress, ProgressState};
use raft::progress_set::{dedup, Configuration, ProgressSet};
use raft::raft_log::RaftLog;
use raft::read_only::{ReadIndexStatus, ReadOnly};
use raft::storage::{MemStorage, Storage};
use raft::util::{limit_size, NO_LIMIT};
use raft::{ReadOnlyOption, ReadState};

fn entry(index: u64, term: u64, data: &[u8]) -> Entry {
    let mut e = Entry::new();
    e.index = index;
    e.term = term;
    e.data = data.to_vec();
    e
}

fn invalid(text: &str) -> Result<(), Error> {
    Err(Error::ConfigInvalid(text.to_string()))
}

fn read_request(ctx: &[u8], from: u64) -> Message {
    let mut m = Message::new();
    m.msg_type = MessageType::MsgReadIndex;
    m.from = from;
    m.entries = vec![entry(0, 0, ctx)];
    m
}

fn ack(ctx: &[u8], from: u64, to: u64) -> Message {
    let mut m = Message::new();
    m.msg_type = MessageType::MsgHeartbeatResponse;
    m.from = from;
    m.to = to;
    m.context = ctx.to_vec();
    m
}

#[test]
fn a_config_has_defaults() {
    let c = Config::new(12);
    assert_eq!((c.id, c.tag.as_str()), (12, "12"));
    for id in vec![0, 9, 10, 1023456789, u64::MAX] {
        assert_eq!(Config::new(id).tag, format!("{}", id));
    }
    assert_eq!((c.election_tick, c.heartbeat_tick), (20, 2));
    assert_eq!((c.min_election_tick(), c.max_election_tick()), (20, 40));
    assert_eq!(c.max_inflight_msgs, 256);
    assert_eq!(c.read_only_option, ReadOnlyOption::Safe);
    assert_eq!(c.validate(), Ok(()));
    let d = Config::default();
    assert_eq!((d.id, d.tag.as_str()), (0, ""));
    assert_eq!(ReadOnlyOption::default(), ReadOnlyOption::Safe);
}

#[test]
fn a_config_says_what_is_wrong() {
    let mut c = Config::new(0);
    assert_eq!(c.validate(), invalid("invalid node id"));
    c.id = 1;
    c.heartbeat_tick = 0;
    assert_eq!(c.validate(), invalid("heartbeat tick must greater than 0"));
    c.heartbeat_tick = 20;
    assert_eq!(
        c.validate(),
        invalid("election tick must be greater than heartbeat tick")
    );
    c.heartbeat_tick = 2;
    c.min_election_tick = 19;
    assert_eq!(
        c.validate(),
        invalid("min election tick 19 must not be less than election_tick 20")
    );
    c.min_election_tick = 107;
    c.max_election_tick = 100;
    assert_eq!(
        c.validate(),
        invalid("min election tick 107 should be less than max election tick 100")
    );
    c.max_election_tick = 108;
    c.max_inflight_msgs = 0;
    assert_eq!(c.validate(), invalid("max inflight messages must be greater than 0"));
    c.max_inflight_msgs = 1;
    c.read_only_option = ReadOnlyOption::LeaseBased;
    assert_eq!(
        c.validate(),
        invalid("read_only_option == LeaseBased requires check_quorum == true")
    );
    c.check_quorum = true;
    assert_eq!(c.validate(), Ok(()));
}

#[test]
fn conf_changes_are_encoded() {
    let mut c = ConfChange::new();
    assert_eq!(encode_conf_change(&c), Vec::<u8>::new());
    c.id = 300;
    c.change_type = ConfChangeType::RemoveNode;
    c.node_id = 2;
    c.context = vec![7; 3];
    assert_eq!(
        encode_conf_change(&c),
        vec![8, 172, 2, 16, 1, 24, 2, 34, 3, 7, 7, 7]
    );
    let c = ConfChange::begin(5, ConfState { nodes: vec![1, 2], learners: vec![200] });
    assert_eq!(
        encode_conf_change(&c),
        vec![16, 3, 42, 7, 8, 1, 8, 2, 16, 200, 1, 48, 5]
    );
    let c = ConfChange::begin(1, ConfState::new());
    assert_eq!(encode_conf_change(&c), vec![16, 3, 42, 0, 48, 1]);
}

#[test]
fn entries_have_the_size_of_their_encoding() {
    assert_eq!(size_of_entry(&Entry::new()), 0);
    assert_eq!(size_of_entry(&entry(1, 1, b"abc")), 9);
    let mut e = entry(128, 16384, b"");
    e.entry_type = EntryType::EntryConfChange;
    e.context = vec![0; 200];
    // Two for the type, four for the term, three for the index, and the context.
    assert_eq!(size_of_entry(&e), 2 + 4 + 3 + 1 + 2 + 200);
}

#[test]
fn batches_are_cut() {
    let all = vec![entry(1, 1, b"abc"), entry(2, 1, b"abc"), entry(3, 1, b"abc")];
    for (max, n) in vec![(NO_LIMIT, 3), (27, 3), (26, 2), (18, 2), (17, 1), (0, 1)] {
        let mut es = all.clone();
        limit_size(&mut es, max);
        assert_eq!(es.len(), n);
        assert_eq!(es[..], all[..n]);
    }
    let mut none: Vec<Entry> = vec![];
    limit_size(&mut none, 0);
    assert!(none.is_empty());
}

#[test]
fn the_window_is_freed() {
    let mut ins = Inflights::new(3);
    for i in vec![2, 4, 6] {
        assert!(!ins.full());
        ins.add(i);
    }
    assert!(ins.full());
    ins.free_to(1);
    assert_eq!(ins.buffer, vec![2, 4, 6]);
    ins.free_to(4);
    assert_eq!(ins.buffer, vec![6]);
    ins.add(9);
    ins.free_first_one();
    assert_eq!(ins.buffer, vec![9]);
    ins.reset();
    assert!(ins.buffer.is_empty());
    ins.free_first_one();
    assert!(!ins.full());
}

#[test]
fn progress_follows_the_answers() {
    let mut p = Progress::new(5, 2);
    p.matched = 3;
    assert!(!p.maybe_update(3));
    p.pause();
    assert!(p.is_paused());
    assert!(p.maybe_update(6));
    assert!(!p.is_paused());
    assert_eq!((p.matched, p.next_idx), (6, 7));
    p.become_replicate();
    p.optimistic_update(9);
    assert_eq!(p.next_idx, 10);
    assert!(!p.maybe_decr_to(6, 6));
    assert!(p.maybe_decr_to(9, 1));
    assert_eq!(p.next_idx, 7);
    p.become_probe();
    assert!(!p.maybe_decr_to(9, 1));
    assert!(p.maybe_decr_to(6, 2));
    assert_eq!(p.next_idx, 3);
    p.become_snapshot(10);
    assert!(p.is_paused());
    assert!(!p.maybe_snapshot_abort());
    p.become_probe();
    assert_eq!((p.next_idx, p.pending_snapshot), (11, 0));
    p.become_snapshot(20);
    p.snapshot_failure();
    p.become_probe();
    assert_eq!(p.next_idx, 7);
    p.pause();
    p.resume();
    assert!(!p.paused);
    p.reset(4);
    assert_eq!((p.matched, p.next_idx, p.state), (0, 4, ProgressState::Probe));
}

#[test]
fn configurations_are_checked() {
    let c = Configuration::from_conf_state(&ConfState {
        nodes: vec![3, 1, 3],
        learners: vec![2, 2],
    });
    assert_eq!(c.voters, vec![3, 1]);
    assert_eq!(c.learners, vec![2]);
    assert_eq!(c.valid(), Ok(()));
    assert!(c.contains(2) && c.contains(3) && !c.contains(4));
    assert_eq!(c.to_conf_state(), ConfState { nodes: vec![3, 1], learners: vec![2] });
    assert!(!c.has_quorum(&AckSet::singleton(3)));
    assert_eq!(dedup(&vec![5, 4, 5, 5, 1, 4]), vec![5, 4, 1]);
    let mut bad = c.clone();
    bad.learners.push(1);
    assert_eq!(bad.valid(), Err(Error::Exists(1, "learners")));
}

#[test]
fn the_index_of_a_quorum_is_found() {
    for (matched, index) in vec![
        (vec![3], 3),
        (vec![3, 9], 3),
        (vec![5, 1, 7], 5),
        (vec![9, 1, 7, 7], 7),
        (vec![0, 0, 4], 0),
        (vec![1, 2, 3, 4, 5], 3),
    ] {
        let mut prs = ProgressSet::new();
        for (i, m) in matched.iter().enumerate() {
            let mut p = Progress::new(1, 1);
            p.matched = *m;
            prs.insert_voter(i as u64 + 1, p).unwrap();
        }
        // A learner does not count.
        let mut p = Progress::new(1, 1);
        p.matched = 100;
        prs.insert_learner(99, p).unwrap();
        assert_eq!(prs.maximal_committed_index(), index);
    }
}

#[test]
fn two_configurations_need_two_quorums() {
    let mut prs = ProgressSet::new();
    for (id, m) in vec![(1, 5), (2, 5), (3, 0)] {
        let mut p = Progress::new(1, 1);
        p.matched = m;
        prs.insert_voter(id, p).unwrap();
    }
    assert_eq!(prs.maximal_committed_index(), 5);
    let next =
        Configuration::from_conf_state(&ConfState { nodes: vec![3, 4, 5], learners: vec![] });
    prs.begin_membership_change(next, Progress::new(1, 1)).unwrap();
    assert_eq!(prs.maximal_committed_index(), 0);
    prs.get_mut(4).unwrap().matched = 2;
    prs.get_mut(5).unwrap().matched = 3;
    assert_eq!(prs.maximal_committed_index(), 2);
    assert!(prs.is_voter(4) && prs.is_voter(1));
    assert_eq!(
        prs.promote_learner(4),
        Err(Error::ViolatesContract("There is a pending membership change.".to_string()))
    );
    prs.finalize_membership_change().unwrap();
    assert_eq!(prs.ids, vec![3, 4, 5]);
    assert_eq!(prs.maximal_committed_index(), 2);
    assert_eq!(prs.promote_learner(9), Err(Error::NotExists(9, "learners")));
    assert!(prs.get(1).is_none());
}

#[test]
fn activity_is_checked_once() {
    let mut prs = ProgressSet::new();
    for id in 1..4 {
        prs.insert_voter(id, Progress::new(1, 1)).unwrap();
    }
    prs.get_mut(2).unwrap().recent_active = true;
    assert!(prs.quorum_recently_active(1));
    assert!(!prs.get(2).unwrap().recent_active);
    assert!(!prs.quorum_recently_active(1));
}

#[test]
fn reads_are_queued_and_answered() {
    let mut ro = ReadOnly::new(ReadOnlyOption::Safe);
    assert_eq!(ro.last_pending_request_ctx(), None);
    assert_eq!(ReadOnly::default().option, ReadOnlyOption::Safe);
    ro.add_request(4, read_request(b"a", 1));
    ro.add_request(5, read_request(b"b", 2));
    ro.add_request(6, read_request(b"a", 3));
    ro.add_request(7, read_request(b"c", 1));
    assert_eq!(ro.pending_read_count(), 3);
    assert_eq!(ro.last_pending_request_ctx(), Some(b"c".to_vec()));
    let acks = ro.recv_ack(&ack(b"b", 2, 1));
    assert!(acks.contains(1) && acks.contains(2) && !acks.contains(3));
    let acks = ro.recv_ack(&ack(b"b", 3, 1));
    assert!(acks.contains(1) && acks.contains(2) && acks.contains(3));
    assert!(!ro.recv_ack(&ack(b"z", 3, 1)).contains(3));
    assert!(ro.advance(&ack(b"z", 2, 1)).is_empty());
    let answered = ro.advance(&ack(b"b", 2, 1));
    assert_eq!(
        answered.iter().map(|r| (r.index, r.req.from)).collect::<Vec<_>>(),
        vec![(4, 1), (5, 2)]
    );
    let copy = answered[1].clone();
    assert_eq!((copy.index, copy.req.from), (5, 2));
    assert!(copy.acks.contains(2) && copy.acks.contains(3) && !copy.acks.contains(1));
    let nothing = ReadIndexStatus::default();
    assert_eq!((nothing.index, nothing.req == Message::new()), (0, true));
    assert!(!nothing.acks.contains(0));
    assert_eq!(ro.pending_read_count(), 1);
    // A context that was answered can be used again.
    ro.add_request(9, read_request(b"a", 1));
    assert_eq!(ro.pending_read_count(), 2);
    assert_eq!(ReadState::default(), ReadState { index: 0, request_ctx: vec![] });
}

#[test]
fn the_store_gives_back_what_was_saved() {
    let mut s = MemStorage::default();
    assert_eq!(s.first_index(), Ok(1));
    assert_eq!(s.last_index(), Ok(0));
    assert_eq!(s.term(0), Ok(0));
    s.append(&vec![entry(1, 1, b"a"), entry(2, 1, b"b"), entry(3, 1, b"c")]);
    s.append(&vec![entry(3, 2, b"d"), entry(4, 2, b"e")]);
    s.append(&vec![]);
    assert_eq!(s.entries(3, 5, NO_LIMIT), Ok(vec![entry(3, 2, b"d"), entry(4, 2, b"e")]));
    assert_eq!(s.entries(1, 3, NO_LIMIT), Ok(vec![entry(1, 1, b"a"), entry(2, 1, b"b")]));
    assert_eq!(s.entries(1, 5, 0), Ok(vec![entry(1, 1, b"a")]));
    assert_eq!(s.entries(1, 6, 0), Err(Error::Store(StorageError::Unavailable)));
    assert_eq!(s.entries(0, 1, 0), Err(Error::Store(StorageError::Compacted)));
    assert_eq!(s.term(4), Ok(2));
    assert_eq!(s.term(5), Err(Error::Store(StorageError::Unavailable)));
    let mut snap = Snapshot::new();
    snap.metadata.index = 6;
    snap.metadata.term = 3;
    snap.metadata.conf_state.nodes = vec![1];
    s.apply_snapshot(snap.clone()).unwrap();
    assert_eq!(s.snapshot(), Ok(snap.clone()));
    assert_eq!((s.first_index(), s.last_index(), s.term(6)), (Ok(7), Ok(6), Ok(3)));
    assert_eq!(s.term(5), Err(Error::Store(StorageError::Compacted)));
    snap.metadata.index = 5;
    assert_eq!(
        s.apply_snapshot(snap),
        Err(Error::Store(StorageError::SnapshotOutOfDate))
    );
    s.set_hardstate(HardState { term: 9, vote: 1, commit: 6 });
    let st = s.initial_state().unwrap();
    assert_eq!(st.hard_state.term, 9);
    assert_eq!(st.conf_state.nodes, vec![1]);
    assert!(st.pending_conf_state.is_none());
}

#[test]
fn what_is_unsaved_is_cut_and_joined() {
    let mut u = Unstable::new(5);
    u.truncate_and_append(vec![entry(5, 1, b""), entry(6, 1, b""), entry(7, 1, b"")]);
    assert_eq!(u.maybe_term(6), Some(1));
    assert_eq!(u.maybe_term(4), None);
    u.truncate_and_append(vec![entry(6, 2, b"")]);
    assert_eq!((u.offset, u.entries.len(), u.maybe_term(6)), (5, 2, Some(2)));
    u.truncate_and_append(vec![entry(4, 3, b"")]);
    assert_eq!((u.offset, u.entries.len()), (4, 1));
    u.stable_to(4, 2);
    assert_eq!(u.offset, 4);
    u.stable_to(4, 3);
    assert_eq!((u.offset, u.entries.len()), (5, 0));
    let mut snap = Snapshot::new();
    snap.metadata.index = 8;
    snap.metadata.term = 4;
    u.restore(snap);
    assert_eq!((u.offset, u.maybe_term(8)), (9, Some(4)));
    u.stable_snap_to(7);
    assert!(u.snapshot.is_some());
    u.stable_snap_to(8);
    assert!(u.snapshot.is_none());
}

#[test]
fn the_log_joins_the_store_and_what_is_unsaved() {
    let mut store = MemStorage::new();
    store.append(&vec![entry(1, 1, b"a"), entry(2, 1, b"b")]);
    let mut log = RaftLog::new(store);
    assert_eq!((log.committed, log.applied, log.last_index()), (0, 0, 2));
    assert_eq!(log.append(vec![entry(2, 2, b"c"), entry(3, 2, b"d")]), 3);
    let all = log.entries(1, NO_LIMIT).unwrap();
    assert_eq!(all, vec![entry(1, 1, b"a"), entry(2, 2, b"c"), entry(3, 2, b"d")]);
    assert_eq!(log.slice(0, 1, NO_LIMIT), Err(Error::Store(StorageError::Compacted)));
    assert_eq!(log.slice(2, 2, NO_LIMIT), Ok(vec![]));
    assert_eq!(log.entries(4, NO_LIMIT), Ok(vec![]));
    assert_eq!(log.find_conflict(&all), 0);
    assert_eq!(log.find_conflict(&vec![entry(2, 2, b""), entry(3, 1, b"")]), 3);
    assert!(log.match_term(3, 2) && !log.match_term(3, 1));
    assert_eq!(log.term(9), Ok(0));
    assert!(log.is_up_to_date(3, 2) && log.is_up_to_date(1, 3));
    assert!(!log.is_up_to_date(2, 2) && !log.is_up_to_date(9, 1));
    assert!(!log.maybe_commit(3, 1));
    assert!(log.maybe_commit(3, 2));
    log.commit_to(1);
    assert_eq!(log.committed, 3);
    assert!(log.has_next_entries_since(1));
    assert_eq!(
        log.next_entries_since(1),
        Some(vec![entry(2, 2, b"c"), entry(3, 2, b"d")])
    );
    assert_eq!(log.next_entries_since(3), None);
    log.applied_to(2);
    log.applied_to(0);
    assert_eq!(log.applied, 2);
    assert_eq!(log.maybe_append(3, 1, 9, &vec![]), None);
    assert_eq!(log.maybe_append(3, 2, 9, &vec![entry(4, 2, b"e")]), Some(4));
    assert_eq!(log.committed, 4);
    assert_eq!(log.snapshot(), Ok(Snapshot::new()));
}

#[test]
fn bytes_are_compared() {
    assert!(bytes_equal(&vec![1, 2], &vec![1, 2]));
    assert!(!bytes_equal(&vec![1, 2], &vec![1, 3]));
    assert!(!bytes_equal(&vec![1], &vec![1, 3]));
    assert!(Snapshot::new().is_default());
    let mut s = Snapshot::new();
    s.data = vec![1];
    assert!(!s.is_default());
}
