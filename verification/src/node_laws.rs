//! How a node is started, and what the application gets from it and hands to it.
use crate::codec::conf_change_bytes;
use crate::config::Config;
use crate::eraftpb::{
    opt_bytes_view, ConfChangeType, ConfChangeView, EntryType, EntryView, HardState, MessageType,
    MessageView, SnapshotView,
};
use crate::errors::ErrorView;
use crate::membership_laws::law_begun_change_adds_nodes;
use crate::progress::{InflightsView, ProgressState, ProgressView};
use crate::progress_set::ConfigurationView;
use crate::raft::{StateRole, INVALID_ID};
use crate::raft_log::RaftLogView;
use crate::raft_model::{change_entry, conf_changes, RaftView};
use crate::raw_node::{
    campaign_message, first_entries, proposal, read_message, snapshot_report, transfer_message,
    unreachable_message, Peer, RawNodeView, ReadyView, SnapshotStatus,
};
use crate::read_laws::is_majority;
use crate::read_only::{ReadOnlyOption, ReadStateView};
use crate::replication_laws::{
    law_handed_out_entries_are_of_the_log, law_proposal_is_put_in, law_put_in_entries_are_there,
    law_snapshot_report_leads_to_probing,
};
use crate::storage::Storage;
use crate::text::decimal;
use vstd::prelude::*;

verus! {

// The start.
/// A configuration is valid if and only if it names a node, its heartbeats come more often than
/// elections, its election timeouts are at least that long and leave a choice, messages may be on
/// their way, and a lease goes along with checks of the quorum.
pub proof fn law_when_a_config_is_valid(c: Config)
    ensures
        ({
            let least = if c.min_election_tick == 0 {
                c.election_tick as int
            } else {
                c.min_election_tick as int
            };
            let bound = if c.max_election_tick == 0 {
                2 * c.election_tick
            } else {
                c.max_election_tick as int
            };
            &&& c.validity() is Ok <==> {
                &&& c.id != 0
                &&& 0 < c.heartbeat_tick < c.election_tick <= least < bound
                &&& c.max_inflight_msgs > 0
                &&& c.read_only_option == ReadOnlyOption::LeaseBased ==> c.check_quorum
            }
            &&& c.validity() matches Err(e) ==> e is ConfigInvalid
        }),
{
}

/// The complaint about a configuration is the first of these that holds: it names no node, has no
/// heartbeats, or too few of them, its least election timeout is too short, or leaves no choice, no
/// message may be on its way, or a lease is relied on without checks of the quorum.
pub proof fn law_first_complaint_counts(c: Config)
    ensures
        ({
            let least = if c.min_election_tick == 0 {
                c.election_tick
            } else {
                c.min_election_tick
            };
            let named = c.id != 0;
            let beats = named && c.heartbeat_tick > 0;
            let often = beats && c.election_tick > c.heartbeat_tick;
            let long = often && least >= c.election_tick;
            let room = long && least < c.max_timeout();
            &&& !named ==> c.validity() == Err::<(), ErrorView>(
                ErrorView::ConfigInvalid("invalid node id"@),
            )
            &&& named && !beats ==> c.validity() == Err::<(), ErrorView>(
                ErrorView::ConfigInvalid("heartbeat tick must greater than 0"@),
            )
            &&& beats && !often ==> c.validity() == Err::<(), ErrorView>(
                ErrorView::ConfigInvalid("election tick must be greater than heartbeat tick"@),
            )
            &&& often && !long ==> c.validity() == Err::<(), ErrorView>(
                ErrorView::ConfigInvalid(
                    "min election tick "@ + decimal(least as nat)
                        + " must not be less than election_tick "@ + decimal(
                        c.election_tick as nat,
                    ),
                ),
            )
            &&& long && !room ==> c.validity() == Err::<(), ErrorView>(
                ErrorView::ConfigInvalid(
                    "min election tick "@ + decimal(least as nat)
                        + " should be less than max election tick "@ + decimal(
                        c.max_timeout() as nat,
                    ),
                ),
            )
            &&& room && c.max_inflight_msgs == 0 ==> c.validity() == Err::<(), ErrorView>(
                ErrorView::ConfigInvalid("max inflight messages must be greater than 0"@),
            )
        }),
{
}

/// A node starts as a follower in the term and with the vote that were saved, without a leader and
/// with nothing to send. Its log is that of the store, with nothing to be saved, committed as far
/// as was saved, and applied as far as the configuration says. It works with the settings of the
/// configuration.
pub proof fn law_node_starts_from_what_was_saved<T: Storage>(c: Config, store: T)
    requires
        RaftView::new_ok(c, store),
        RaftView::new(c, store) is Ok,
    ensures
        ({
            let s = RaftView::new(c, store)->Ok_0;
            let st = store.spec_initial_state()->Ok_0;
            let hs = st.hard_state;
            let dropped = (store.spec_first_index()->Ok_0 - 1) as u64;
            &&& c.validity() is Ok
            &&& store.spec_initial_state() is Ok
            &&& s.term == hs.term && s.vote == hs.vote
            &&& s.state == StateRole::Follower && s.leader_id == INVALID_ID
            &&& s.raft_log.store == store
            &&& s.raft_log.unstable.entries.len() == 0 && s.raft_log.unstable.snapshot is None
            &&& s.raft_log.last() == store.spec_last_index()->Ok_0
            &&& s.raft_log.committed == (if hs == (HardState { term: 0, vote: 0, commit: 0 }) {
                dropped
            } else {
                hs.commit
            })
            &&& s.raft_log.applied == (if c.applied == 0 {
                dropped
            } else {
                c.applied
            })
            &&& s.id == c.id
            &&& s.max_inflight == c.max_inflight_msgs
            &&& s.max_msg_size == c.max_size_per_msg
            &&& s.check_quorum == c.check_quorum
            &&& s.pre_vote == c.pre_vote
            &&& s.skip_bcast_commit == c.skip_bcast_commit
            &&& s.heartbeat_timeout == c.heartbeat_tick
            &&& s.election_timeout == c.election_tick
            &&& s.min_election_timeout == (if c.min_election_tick == 0 {
                c.election_tick
            } else {
                c.min_election_tick
            })
            &&& s.max_election_timeout == (if c.max_election_tick == 0 {
                (2 * c.election_tick) as usize
            } else {
                c.max_election_tick
            })
            &&& s.read_only.option == c.read_only_option
            &&& s.read_only.queue.len() == 0 && s.read_only.pending.dom() == Set::<
                Seq<u8>,
            >::empty()
            &&& s.msgs.len() == 0 && s.read_states.len() == 0
            &&& s.votes == Map::<u64, bool>::empty()
            &&& s.election_elapsed == 0 && s.heartbeat_elapsed == 0
            &&& s.lead_transferee is None
        }),
{
}

/// A node starts with the cluster that was saved; where none was, with that of the configuration.
/// Of its nodes nothing is known, but that it has itself what its log has. A membership change that
/// was under way goes on: its configuration is in force as well.
pub proof fn law_node_starts_with_its_cluster<T: Storage>(c: Config, store: T, id: u64)
    requires
        RaftView::new_ok(c, store),
        RaftView::new(c, store) is Ok,
    ensures
        ({
            let s = RaftView::new(c, store)->Ok_0;
            let st = store.spec_initial_state()->Ok_0;
            let saved = st.conf_state;
            let fresh = saved.nodes.len() == 0 && saved.learners.len() == 0;
            let voters = if fresh {
                c.peers@
            } else {
                saved.nodes
            };
            let learners = if fresh {
                c.learners@
            } else {
                saved.learners
            };
            let last = store.spec_last_index()->Ok_0;
            &&& s.prs().configuration == (ConfigurationView { voters, learners })
            &&& s.is_learner == learners.contains(c.id)
            &&& voters.contains(id) || learners.contains(id) ==> s.prs().has(id) && s.prs().at(id)
                == (ProgressView {
                matched: if id == c.id {
                    last
                } else {
                    0
                },
                next_idx: (last + 1) as u64,
                state: ProgressState::Probe,
                paused: false,
                pending_snapshot: 0,
                recent_active: false,
                ins: InflightsView { buffer: Seq::empty(), cap: c.max_inflight_msgs },
            })
            &&& st.pending_conf_state is None ==> {
                &&& s.prs().next_configuration is None
                &&& s.pending_membership_change is None
                &&& s.pending_conf_index == 0
                &&& s.prs().has(id) <==> voters.contains(id) || learners.contains(id)
            }
            &&& st.pending_conf_state is Some ==> {
                &&& s.prs().next_configuration == Some(
                    ConfigurationView::from_conf_state(st.pending_conf_state->0),
                )
                &&& s.pending_membership_change is Some
                &&& s.pending_membership_change->0.start_index
                    == st.pending_conf_state_start_index->0
                &&& s.pending_conf_index == st.pending_conf_state_start_index->0
            }
        }),
{
    let st = store.spec_initial_state()->Ok_0;
    let voters = crate::raft_model::first_voters(c, st.conf_state);
    let learners = crate::raft_model::first_learners(c, st.conf_state);
    let f = RaftView::first_state(c, store, st);
    let ids = voters + learners;
    let s = RaftView::new(c, store)->Ok_0;
    assert(f.prs().ids == ids);
    if voters.contains(id) {
        assert(ids[voters.index_of(id)] == id);
    }
    if learners.contains(id) {
        assert(ids[voters.len() + learners.index_of(id)] == id);
    }
    if ids.contains(id) {
        let k = ids.index_of(id);
        assert(k < voters.len() ==> voters[k] == id);
        assert(k >= voters.len() ==> learners[k - voters.len()] == id);
    }
    if st.pending_conf_state is Some {
        let change = ConfChangeView::begin(
            st.pending_conf_state_start_index->0,
            st.pending_conf_state->0,
        );
        lemma_first_state_wf(c, store, st);
        law_begun_change_adds_nodes(f, change, id);
    }
}

proof fn lemma_first_state_wf<T: Storage>(
    c: Config,
    store: T,
    st: crate::storage::RaftStateView,
)
    requires
        c.validity() is Ok,
        c.ticks_fit(),
        RaftView::first_state_ok(c, store, st),
    ensures
        RaftView::first_state(c, store, st).wf(),
{
    let voters = crate::raft_model::first_voters(c, st.conf_state);
    let learners = crate::raft_model::first_learners(c, st.conf_state);
    let f = RaftView::first_state(c, store, st);
    let ids = voters + learners;
    assert(f.prs().ids == ids);
    assert(ids.no_duplicates()) by {
        assert forall|i: int, j: int| 0 <= i < ids.len() && 0 <= j < ids.len() && i
            != j implies ids[i] != ids[j] by {
            if i < voters.len() && j >= voters.len() {
                assert(voters.contains(voters[i]));
                assert(learners.contains(learners[j - voters.len()]));
            }
            if j < voters.len() && i >= voters.len() {
                assert(voters.contains(voters[j]));
                assert(learners.contains(learners[i - voters.len()]));
            }
        }
    }
    assert forall|id: u64| #[trigger] f.prs().configuration.contains(id) implies ids.contains(
        id,
    ) by {
        if voters.contains(id) {
            assert(ids[voters.index_of(id)] == id);
        } else {
            assert(ids[voters.len() + learners.index_of(id)] == id);
        }
    }
}

proof fn lemma_peers_are_added<T: Storage>(s: RaftView<T>, peers: Seq<Peer>, n: int, i: int)
    requires
        s.add_peers(peers, n).1 is Ok,
        0 <= n <= peers.len(),
    ensures
        ({
            let r = s.add_peers(peers, n).0;
            &&& r == (RaftView { progress: r.progress, is_learner: r.is_learner, ..s })
            &&& 0 <= i < n ==> r.prs().configuration.voters.contains(peers[i].id)
        }),
    decreases n,
{
    if n > 0 {
        lemma_peers_are_added(s, peers, n - 1, i);
        let before = s.add_peers(peers, n - 1).0;
        let r = s.add_peers(peers, n).0;
        let voters = before.prs().configuration.voters;
        assert(r.prs().configuration.voters == voters.push(peers[n - 1].id));
        if 0 <= i < n - 1 {
            let k = voters.index_of(peers[i].id);
            assert(voters.push(peers[n - 1].id)[k] == peers[i].id);
        }
        assert(voters.push(peers[n - 1].id).last() == peers[n - 1].id);
    }
}

/// A node over an empty store sets up a cluster of the nodes that it was given: it is a follower in
/// the first term, its log has for each of them, in their order, one entry that adds it, with its
/// context, all of them are committed, and each is a voter. It takes no hard state as handed out.
pub proof fn law_new_cluster_has_its_peers<T: Storage>(
    c: Config,
    store: T,
    peers: Seq<Peer>,
    i: int,
)
    requires
        RaftView::new_ok(c, store),
        RawNodeView::new(c, store, peers) is Ok,
        store.spec_last_index() == Ok::<u64, ErrorView>(0),
        peers.len() < u64::MAX,
        0 <= i < peers.len(),
    ensures
        ({
            let node = RawNodeView::new(c, store, peers)->Ok_0;
            let s = node.raft;
            &&& s.term == 1
            &&& s.state == StateRole::Follower
            &&& s.raft_log.last() == peers.len()
            &&& s.raft_log.committed == peers.len()
            &&& s.raft_log.entry((i + 1) as u64) == (EntryView {
                entry_type: EntryType::EntryConfChange,
                term: 1,
                index: (i + 1) as u64,
                data: conf_change_bytes(
                    ConfChangeView {
                        change_type: ConfChangeType::AddNode,
                        node_id: peers[i].id,
                        context: match opt_bytes_view(peers[i].context) {
                            Some(ctx) => ctx,
                            None => Seq::empty(),
                        },
                        ..ConfChangeView::empty()
                    },
                ),
                context: Seq::empty(),
            })
            &&& s.prs().configuration.voters.contains(peers[i].id)
            &&& node.prev_hs == (HardState { term: 0, vote: 0, commit: 0 })
            &&& node.prev_ss.leader_id == 0 && node.prev_ss.raft_state == StateRole::Follower
        }),
{
    let raft = RaftView::new(c, store)->Ok_0;
    let f = raft.become_follower(1, INVALID_ID);
    let es = first_entries(peers);
    RaftView::lemma_new_store(c, store);
    lemma_first_state_wf(c, store, store.spec_initial_state()->Ok_0);
    assert(f.raft_log == raft.raft_log);
    assert(raft.raft_log.last() == 0);
    assert forall|k: int| 0 <= k < es.len() implies (#[trigger] es[k]).index < u64::MAX by {}
    law_put_in_entries_are_there(f.raft_log, es, i);
    lemma_peers_are_added(f.with_first_entries(peers), peers, peers.len() as int, i);
}

/// A node over a store that is not empty starts as it was saved, with no peers added, and takes the
/// state that was saved as handed out. Where it cannot start, the error is the first of that of the
/// configuration and that of the store.
pub proof fn law_node_goes_on_where_it_was<T: Storage>(c: Config, store: T, peers: Seq<Peer>)
    ensures
        RaftView::new(c, store) is Err ==> RawNodeView::new(c, store, peers) is Err
            && RawNodeView::new(c, store, peers)->Err_0 == RaftView::new(c, store)->Err_0,
        c.validity() is Err ==> RaftView::new(c, store) is Err && RaftView::new(c, store)->Err_0
            == c.validity()->Err_0,
        c.validity() is Ok && store.spec_initial_state() is Err ==> RaftView::new(
            c,
            store,
        ) is Err && RaftView::new(c, store)->Err_0 == store.spec_initial_state()->Err_0,
        RaftView::new(c, store) is Ok && store.spec_last_index() != Ok::<u64, ErrorView>(0) ==> {
            let node = RawNodeView::new(c, store, peers)->Ok_0;
            let s = RaftView::new(c, store)->Ok_0;
            &&& RawNodeView::new(c, store, peers) is Ok
            &&& node.raft == s
            &&& node.prev_ss.leader_id == s.leader_id && node.prev_ss.raft_state == s.state
            &&& node.prev_hs.term == s.term && node.prev_hs.vote == s.vote && node.prev_hs.commit
                == s.raft_log.committed
        },
{
}

// What is handed out.
/// What is handed out is everything that is new: all messages, all reads that are answered, the
/// entries behind what is saved, each as it stands in the log, the snapshot that is to be saved,
/// and the committed entries that are to be applied. The soft and the hard state are there if and
/// only if they changed. The hard state and the entries must be on disk first if the term or the
/// vote changed. The node then has nothing more to send, and is otherwise as it was.
pub proof fn law_ready_hands_out_what_is_new<T: Storage>(
    node: RawNodeView<T>,
    since: Option<u64>,
    i: int,
)
    requires
        node.raft.raft_log.wf(),
        node.raft.raft_log.store_agrees(),
    ensures
        ({
            let rd = node.ready(since);
            let s = node.raft;
            let log = s.raft_log;
            let behind = if since is Some {
                since->0
            } else {
                log.applied
            };
            let from = if behind + 1 > log.first() {
                behind + 1
            } else {
                log.first()
            };
            let same_ss = s.leader_id == node.prev_ss.leader_id && s.state
                == node.prev_ss.raft_state;
            let same_hs = s.term == node.prev_hs.term && s.vote == node.prev_hs.vote
                && log.committed == node.prev_hs.commit;
            let done = rd.committed_entries->0;
            &&& rd.messages == s.msgs
            &&& rd.read_states == s.read_states
            &&& rd.entries.len() == log.last() + 1 - log.unstable.offset
            &&& 0 <= i < rd.entries.len() ==> rd.entries[i] == log.entry(
                (log.unstable.offset + i) as u64,
            )
            &&& log.unstable.snapshot is Some ==> rd.snapshot == log.unstable.snapshot->0
            &&& log.unstable.snapshot is None ==> rd.snapshot == SnapshotView::empty()
            &&& rd.committed_entries is Some
            &&& done.len() == (if log.committed >= from {
                log.committed + 1 - from
            } else {
                0
            })
            &&& 0 <= i < done.len() ==> done[i] == log.entry((from + i) as u64)
            &&& rd.ss is Some <==> !same_ss
            &&& rd.ss matches Some(ss) ==> ss.leader_id == s.leader_id && ss.raft_state == s.state
            &&& rd.hs is Some
            &&& rd.hs->0 == (if same_hs {
                HardState { term: 0, vote: 0, commit: 0 }
            } else {
                HardState { term: s.term, vote: s.vote, commit: log.committed }
            })
            &&& rd.must_sync <==> s.term != node.prev_hs.term || s.vote != node.prev_hs.vote
            &&& node.taken() == (RawNodeView {
                raft: RaftView { msgs: Seq::empty(), ..s },
                ..node
            })
        }),
{
    let s = node.raft;
    let log = s.raft_log;
    let behind = if since is Some {
        since->0
    } else {
        log.applied
    };
    law_handed_out_entries_are_of_the_log(log, behind);
    let rd = node.ready(since);
    if 0 <= i < rd.entries.len() {
        assert(log.unstable.entries[i] == log.entry((log.unstable.offset + i) as u64));
    }
}

/// Something is to be done if and only if one of the things that are handed out is there: a
/// message, an entry, a read, a snapshot, an entry to apply, or a soft or hard state that is new.
pub proof fn law_when_something_is_ready<T: Storage>(node: RawNodeView<T>, since: Option<u64>)
    requires
        node.raft.raft_log.wf(),
        node.raft.raft_log.store_agrees(),
    ensures
        ({
            let rd = node.ready(since);
            node.has_ready(since) <==> {
                ||| rd.messages.len() > 0
                ||| rd.entries.len() > 0
                ||| rd.read_states.len() > 0
                ||| rd.snapshot.metadata.index != 0
                ||| rd.committed_entries->0.len() > 0
                ||| rd.ss is Some
                ||| rd.hs->0 != (HardState { term: 0, vote: 0, commit: 0 })
            }
        }),
{
    law_ready_hands_out_what_is_new(node, since, 0);
}

/// What was saved is taken as handed out: a soft state that was handed out, a hard state that was
/// not empty. The entries that were saved are no longer to be saved, up to the last of them if the
/// log still has it; nor is the snapshot. The reads are gone once any was handed out. Nothing else
/// changes.
pub proof fn law_saved_state_is_taken_as_handed_out<T: Storage>(
    node: RawNodeView<T>,
    rd: ReadyView,
)
    requires
        node.commit_ready_ok(rd),
    ensures
        ({
            let r = node.commit_ready(rd);
            let u = node.raft.raft_log.unstable;
            let now = r.raft.raft_log.unstable;
            let last = rd.entries.last();
            let at = last.index - u.offset;
            let known = rd.entries.len() > 0 && 0 <= at < u.entries.len() && u.entries[at].term
                == last.term;
            let empty = HardState { term: 0, vote: 0, commit: 0 };
            &&& r.prev_ss == (if rd.ss is Some {
                rd.ss->0
            } else {
                node.prev_ss
            })
            &&& r.prev_hs == (if rd.hs is Some && rd.hs->0 != empty {
                rd.hs->0
            } else {
                node.prev_hs
            })
            &&& r.raft == (RaftView {
                raft_log: RaftLogView { unstable: now, ..node.raft.raft_log },
                read_states: if rd.read_states.len() > 0 {
                    Seq::empty()
                } else {
                    node.raft.read_states
                },
                ..node.raft
            })
            &&& !known ==> now.entries == u.entries && now.offset == u.offset
            &&& known ==> now.offset == last.index + 1 && now.entries == u.entries.skip(at + 1)
            &&& now.snapshot == (if rd.snapshot != SnapshotView::empty() && u.snapshot is Some
                && u.snapshot->0.metadata.index == rd.snapshot.metadata.index {
                None
            } else {
                u.snapshot
            })
        }),
{
}

/// To mark what was handed out as done is to mark it as saved, and then everything as applied that
/// is committed in the hard state that was handed out last, if there is any.
pub proof fn law_advance_saves_and_applies<T: Storage>(node: RawNodeView<T>, rd: ReadyView)
    ensures
        ({
            let saved = node.commit_ready(rd);
            let upto = saved.prev_hs.commit;
            &&& upto == 0 ==> node.advance(rd) == saved
            &&& upto != 0 ==> node.advance(rd) == (RawNodeView {
                raft: saved.raft.commit_apply(upto),
                ..saved
            })
        }),
{
}

// What is handed in.
/// A message that never comes over the network is refused, and so is an answer of a node that is
/// not in the cluster; nothing changes then. Every other message is handled.
pub proof fn law_foreign_messages_are_refused<T: Storage>(node: RawNodeView<T>, m: MessageView)
    ensures
        ({
            let t = m.msg_type;
            let local = t == MessageType::MsgHup || t == MessageType::MsgBeat || t
                == MessageType::MsgUnreachable || t == MessageType::MsgSnapStatus || t
                == MessageType::MsgCheckQuorum;
            let answer = t == MessageType::MsgAppendResponse || t
                == MessageType::MsgRequestVoteResponse || t == MessageType::MsgHeartbeatResponse
                || t == MessageType::MsgRequestPreVoteResponse;
            let known = node.raft.prs().has(m.from);
            &&& local ==> node.step(m) == (node, Err::<(), ErrorView>(ErrorView::StepLocalMsg))
            &&& !local && answer && !known ==> node.step(m) == (
                node,
                Err::<(), ErrorView>(ErrorView::StepPeerNotFound),
            )
            &&& !local && (!answer || known) ==> node.step(m) == (
                RawNodeView { raft: node.raft.step(m).0, ..node },
                node.raft.step(m).1,
            )
        }),
{
}

/// What is proposed at a leader that takes proposals stands at the end of its log then, with its
/// data and its context.
pub proof fn law_proposed_data_is_in_the_log<T: Storage>(
    s: RaftView<T>,
    data: Seq<u8>,
    context: Seq<u8>,
)
    requires
        s.wf(),
        s.step_ok(proposal(s.id, EntryView { data, context, ..EntryView::empty() })),
        s.state == StateRole::Leader,
        s.prs().voter_ids().contains(s.id),
        s.lead_transferee is None,
    ensures
        ({
            let m = proposal(s.id, EntryView { data, context, ..EntryView::empty() });
            let r = s.step(m).0;
            let at = (s.raft_log.last() + 1) as u64;
            &&& s.step(m).1 is Ok
            &&& r.raft_log.last() == at
            &&& r.raft_log.entry(at) == (EntryView {
                entry_type: EntryType::EntryNormal,
                term: s.term,
                index: at,
                data,
                context,
            })
        }),
{
    let m = proposal(s.id, EntryView { data, context, ..EntryView::empty() });
    law_proposal_is_put_in(s, m, 0);
}

/// A configuration change that is proposed at a leader that takes proposals stands at the end of
/// its log then, encoded and with its context, if no other is pending; otherwise an empty entry
/// stands there.
pub proof fn law_proposed_change_is_in_the_log<T: Storage>(
    s: RaftView<T>,
    c: ConfChangeView,
    context: Seq<u8>,
)
    requires
        s.wf(),
        s.step_ok(proposal(INVALID_ID, EntryView { context, ..change_entry(c) })),
        s.state == StateRole::Leader,
        s.prs().voter_ids().contains(s.id),
        s.lead_transferee is None,
    ensures
        ({
            let m = proposal(INVALID_ID, EntryView { context, ..change_entry(c) });
            let r = s.step(m).0;
            let at = (s.raft_log.last() + 1) as u64;
            let free = s.raft_log.applied > s.pending_conf_index
                && s.pending_membership_change is None;
            &&& s.step(m).1 is Ok
            &&& r.raft_log.last() == at
            &&& r.raft_log.entry(at) == (EntryView {
                entry_type: if free {
                    EntryType::EntryConfChange
                } else {
                    EntryType::EntryNormal
                },
                term: s.term,
                index: at,
                data: if free {
                    conf_change_bytes(c)
                } else {
                    Seq::empty()
                },
                context: if free {
                    context
                } else {
                    Seq::empty()
                },
            })
        }),
{
    let m = proposal(INVALID_ID, EntryView { context, ..change_entry(c) });
    assert(m.entries.take(0) =~= Seq::<EntryView>::empty());
    assert(conf_changes(m.entries.take(0)) == 0);
    law_proposal_is_put_in(s, m, 0);
}

/// A report on a snapshot speaks of the node that it names: that node is probed behind the snapshot
/// if it arrived, and behind what it has if it did not.
pub proof fn law_snapshot_report_tells_the_outcome<T: Storage>(
    s: RaftView<T>,
    id: u64,
    status: SnapshotStatus,
)
    requires
        s.wf(),
        s.state == StateRole::Leader,
        s.prs().has(id),
        s.prs().at(id).state == ProgressState::Snapshot,
        s.prs().at(id).pending_snapshot > s.prs().at(id).matched,
    ensures
        ({
            let p = s.prs().at(id);
            let q = s.step(snapshot_report(id, status)).0.prs().at(id);
            &&& q.state == ProgressState::Probe
            &&& q.paused
            &&& q.matched == p.matched
            &&& status == SnapshotStatus::Finish ==> q.next_idx == p.pending_snapshot + 1
            &&& status == SnapshotStatus::Failure ==> q.next_idx == p.matched + 1
        }),
{
    let m = snapshot_report(id, status);
    law_snapshot_report_leads_to_probing(s, m);
    let k = s.prs().ids.index_of(id);
    assert(s.prs().ids[k] == id);
    assert(s.prs().at(id).wf());
}

/// A read that is asked for at a leader that is a majority by itself, and has committed an entry of
/// its term, is answered at once, with its context and the commit index.
pub proof fn law_read_of_a_lone_leader<T: Storage>(s: RaftView<T>, ctx: Seq<u8>)
    requires
        s.wf(),
        s.state == StateRole::Leader,
        is_majority(s.prs(), set![s.id]),
        s.raft_log.term(s.raft_log.committed) == s.term,
    ensures
        s.step(read_message(ctx)).0 == (RaftView {
            read_states: s.read_states.push(
                ReadStateView { index: s.raft_log.committed, request_ctx: ctx },
            ),
            ..s
        }),
{
    let m = read_message(ctx);
    crate::read_laws::law_read_request_is_handled(s, m);
}

/// The requests of the application are messages of this node to itself, of the kinds that its roles
/// handle, and name the node that they are about as their sender.
pub proof fn law_requests_name_their_node(id: u64)
    ensures
        campaign_message().msg_type == MessageType::MsgHup,
        campaign_message().term == 0,
        unreachable_message(id).msg_type == MessageType::MsgUnreachable,
        unreachable_message(id).from == id,
        unreachable_message(id).term == 0,
        transfer_message(id).msg_type == MessageType::MsgTransferLeader,
        transfer_message(id).from == id,
        transfer_message(id).term == 0,
{
}

} // verus!
