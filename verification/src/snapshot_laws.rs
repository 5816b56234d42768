//! How a snapshot takes the place of a log.
use crate::eraftpb::{
    ConfChangeType, ConfChangeView, MessageType, MessageView, SnapshotMetadataView, SnapshotView,
};
use crate::errors::ErrorView;
use crate::membership_laws::lemma_missing_at;
use crate::progress::{InflightsView, ProgressState, ProgressView};
use crate::progress_set::{lemma_distinct, ConfigurationView, ProgressSetView};
use crate::raft::StateRole;
use crate::raft_log::RaftLogView;
use crate::raft_model::RaftView;
use crate::storage::Storage;
use vstd::prelude::*;

verus! {

/// Whether a snapshot lists the node `id`, in the configuration in force or in the next one.
pub open spec fn lists(meta: SnapshotMetadataView, id: u64) -> bool {
    ||| meta.conf_state.nodes.contains(id)
    ||| meta.conf_state.learners.contains(id)
    ||| meta.pending_membership_change_index > 0 && (
    meta.pending_membership_change.nodes.contains(id)
        || meta.pending_membership_change.learners.contains(id))
}

/// Whether a snapshot takes the place of the log of a node: it reaches as far as what is
/// committed, its last entry is not in the log, and it does not make a voter a learner.
pub open spec fn takes_the_place<T: Storage>(s: RaftView<T>, snap: SnapshotView) -> bool {
    &&& snap.metadata.index >= s.raft_log.committed
    &&& s.raft_log.term(snap.metadata.index) != snap.metadata.term
    &&& s.prs().ids.len() == 0 || s.is_learner || !snap.metadata.conf_state.learners.contains(s.id)
}

proof fn lemma_from_snapshot(
    meta: SnapshotMetadataView,
    next_idx: u64,
    max_inflight: usize,
    id: u64,
)
    ensures
        ({
            let prs = ProgressSetView::from_snapshot(meta, next_idx, max_inflight);
            &&& prs.aligned()
            &&& prs.has(id) <==> lists(meta, id)
            &&& prs.has(id) ==> prs.at(id) == ProgressView::new(next_idx, max_inflight)
        }),
{
    let p = ProgressView::new(next_idx, max_inflight);
    let current = ConfigurationView::from_conf_state(meta.conf_state);
    let base = ProgressSetView { configuration: current, ..ProgressSetView::empty() };
    let next = meta.pending_membership_change;
    let a = base.with_missing(meta.conf_state.nodes, p);
    let b = a.with_missing(meta.conf_state.learners, p);
    let c = b.with_missing(next.nodes, p);
    let d = c.with_missing(next.learners, p);
    base.lemma_with_missing(meta.conf_state.nodes, p);
    a.lemma_with_missing(meta.conf_state.learners, p);
    b.lemma_with_missing(next.nodes, p);
    c.lemma_with_missing(next.learners, p);
    assert(!base.ids.contains(id));
    assert(a.ids.contains(id) <==> base.ids.contains(id) || meta.conf_state.nodes.contains(id));
    assert(b.ids.contains(id) <==> a.ids.contains(id) || meta.conf_state.learners.contains(id));
    assert(c.ids.contains(id) <==> b.ids.contains(id) || next.nodes.contains(id));
    assert(d.ids.contains(id) <==> c.ids.contains(id) || next.learners.contains(id));
    if a.has(id) {
        lemma_missing_at(base, meta.conf_state.nodes, p, id);
    }
    if b.has(id) {
        lemma_missing_at(a, meta.conf_state.learners, p, id);
    }
    if c.has(id) {
        lemma_missing_at(b, next.nodes, p, id);
    }
    if d.has(id) {
        lemma_missing_at(c, next.learners, p, id);
    }
    let prs = ProgressSetView::from_snapshot(meta, next_idx, max_inflight);
    if meta.pending_membership_change_index == 0 {
        assert(prs == b);
    } else {
        assert(prs.ids == d.ids && prs.progress == d.progress);
    }
}

/// With a snapshot the cluster is that which it lists, with the membership change that is under way
/// in it. Of no other node anything is known then; this node itself has what its log had.
pub proof fn law_snapshot_brings_its_cluster<T: Storage>(
    s: RaftView<T>,
    snap: SnapshotView,
    id: u64,
)
    requires
        s.wf(),
        s.restore_ok(snap),
        takes_the_place(s, snap),
    ensures
        ({
            let meta = snap.metadata;
            let r = s.restore(snap);
            let p = ProgressView {
                matched: 0,
                next_idx: (s.raft_log.last() + 1) as u64,
                state: ProgressState::Probe,
                paused: false,
                pending_snapshot: 0,
                recent_active: false,
                ins: InflightsView { buffer: Seq::empty(), cap: s.max_inflight },
            };
            &&& r.prs().has(id) <==> lists(meta, id)
            &&& lists(meta, id) && id != s.id ==> r.prs().at(id) == p
            &&& r.prs().has(s.id)
            &&& r.prs().at(s.id) == (ProgressView { matched: s.raft_log.last() as u64, ..p })
            &&& r.prs().configuration == ConfigurationView::from_conf_state(meta.conf_state)
            &&& meta.pending_membership_change_index == 0 ==> r.prs().next_configuration is None
                && r.pending_membership_change == s.pending_membership_change
                && r.pending_conf_index == s.pending_conf_index
            &&& meta.pending_membership_change_index > 0 ==> {
                &&& r.prs().next_configuration == Some(
                    ConfigurationView::from_conf_state(meta.pending_membership_change),
                )
                &&& r.pending_membership_change == Some(
                    ConfChangeView {
                        change_type: ConfChangeType::BeginMembershipChange,
                        start_index: meta.pending_membership_change_index,
                        configuration: Some(meta.pending_membership_change),
                        ..ConfChangeView::empty()
                    },
                )
                &&& r.pending_conf_index == (if meta.pending_membership_change_index
                    > s.pending_conf_index {
                    meta.pending_membership_change_index
                } else {
                    s.pending_conf_index
                })
            }
            &&& r.is_learner == (s.is_learner && !meta.conf_state.nodes.contains(s.id))
            &&& r == (RaftView {
                raft_log: r.raft_log,
                progress: r.progress,
                is_learner: r.is_learner,
                pending_membership_change: r.pending_membership_change,
                pending_conf_index: r.pending_conf_index,
                ..s
            })
        }),
{
    let meta = snap.metadata;
    let next = (s.raft_log.last() + 1) as u64;
    lemma_from_snapshot(meta, next, s.max_inflight, id);
    lemma_from_snapshot(meta, next, s.max_inflight, s.id);
    let prs = s.snapshot_prs(meta);
    let r = s.restore(snap);
    lemma_distinct(meta.conf_state.nodes);
    assert(r.prs().ids == prs.ids);
    let k = prs.ids.index_of(s.id);
    assert(prs.ids[k] == s.id);
    if prs.has(id) {
        let j = prs.ids.index_of(id);
        assert(prs.ids[j] == id);
    }
    let p = ProgressView::new(next, s.max_inflight);
    let current = ConfigurationView::from_conf_state(meta.conf_state);
    let base = ProgressSetView { configuration: current, ..ProgressSetView::empty() };
    let a = base.with_missing(meta.conf_state.nodes, p);
    base.lemma_with_missing(meta.conf_state.nodes, p);
    a.lemma_with_missing(meta.conf_state.learners, p);
    let b = a.with_missing(meta.conf_state.learners, p);
    b.lemma_with_missing(meta.pending_membership_change.nodes, p);
    let c = b.with_missing(meta.pending_membership_change.nodes, p);
    c.lemma_with_missing(meta.pending_membership_change.learners, p);
}

/// A follower that gets a snapshot follows its sender. If the snapshot takes the place of the log,
/// the log is that snapshot then, to be saved, with nothing behind it, and committed to its end. If
/// the log has all that it holds, that is committed. Otherwise the log stays. The answer names the
/// end of the new log, or what is committed.
pub proof fn law_follower_answers_snapshot<T: Storage>(s: RaftView<T>, m: MessageView)
    requires
        s.wf(),
        s.step_ok(m),
        s.state == StateRole::Follower,
        m.msg_type == MessageType::MsgSnapshot,
        m.term == s.term,
    ensures
        ({
            let r = s.step(m).0;
            let meta = m.snapshot.metadata;
            let taken = takes_the_place(s, m.snapshot);
            let known = meta.index >= s.raft_log.committed && s.raft_log.term(meta.index)
                == meta.term;
            &&& s.step(m).1 == Ok::<(), ErrorView>(())
            &&& r.leader_id == m.from
            &&& r.election_elapsed == 0
            &&& r.term == s.term && r.vote == s.vote && r.state == s.state
            &&& r.msgs == s.msgs.push(
                MessageView {
                    msg_type: MessageType::MsgAppendResponse,
                    from: s.id,
                    to: m.from,
                    term: s.term,
                    index: if taken || known {
                        meta.index
                    } else {
                        s.raft_log.committed
                    },
                    ..MessageView::empty()
                },
            )
            &&& taken ==> {
                &&& r.raft_log.unstable.snapshot == Some(m.snapshot)
                &&& r.raft_log.unstable.entries.len() == 0
                &&& r.raft_log.first() == meta.index + 1
                &&& r.raft_log.last() == meta.index
                &&& r.raft_log.committed == meta.index
                &&& r.raft_log.applied == s.raft_log.applied
                &&& r.raft_log.store == s.raft_log.store
                &&& r.raft_log.term(meta.index) == meta.term
                &&& r == (RaftView {
                    leader_id: m.from,
                    election_elapsed: 0,
                    msgs: r.msgs,
                    ..s.restore(m.snapshot)
                })
            }
            &&& !taken ==> r.raft_log == (RaftLogView {
                committed: if known {
                    meta.index
                } else {
                    s.raft_log.committed
                },
                ..s.raft_log
            }) && r == (RaftView {
                leader_id: m.from,
                election_elapsed: 0,
                msgs: r.msgs,
                raft_log: r.raft_log,
                ..s
            })
        }),
{
    let h = s.heard_of(m.from);
    assert(h.prs() == s.prs());
    assert(h.restores(m.snapshot) == takes_the_place(s, m.snapshot));
    assert(h.snapshot_prs(m.snapshot.metadata) == s.snapshot_prs(m.snapshot.metadata));
}

} // verus!
