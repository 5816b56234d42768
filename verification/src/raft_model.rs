//! The state of a node as a mathematical value, and what each operation makes of it.
//!
//! For each operation there is a function from state to state, and a predicate with the
//! suffix `_ok` that holds of the inputs on which the operation is defined.
use crate::codec::conf_change_bytes;
use crate::config::Config;
use crate::eraftpb::{
    ConfChangeType, ConfChangeView, ConfStateView, EntryType, EntryView, HardState, MessageType,
    MessageView, SnapshotMetadataView, SnapshotView,
};
use crate::errors::{ErrorView, StorageErrorView};
use crate::log_unstable::UnstableView;
use crate::progress::{ProgressState, ProgressView};
use crate::progress_set::{CandidacyStatus, ConfigurationView, ProgressSetView};
use crate::raft::{StateRole, INVALID_ID};
use crate::raft_log::RaftLogView;
use crate::read_only::{ReadIndexStatusView, ReadOnlyOption, ReadOnlyView, ReadStateView};
use crate::storage::{RaftStateView, Storage};
use crate::util::NO_LIMIT;
use vstd::prelude::*;

verus! {

/// The state of a node, without the randomized election timeout.
#[verifier::ext_equal]
pub struct RaftView<T: Storage> {
    /// The current term.
    pub term: u64,
    /// The node that got the vote in this term; 0 if none did.
    pub vote: u64,
    /// The id of this node.
    pub id: u64,
    /// The read requests that can be answered.
    pub read_states: Seq<ReadStateView>,
    /// The log.
    pub raft_log: RaftLogView<T>,
    /// How many messages may be on their way to a peer.
    pub max_inflight: usize,
    /// How many bytes of entries a message may hold.
    pub max_msg_size: u64,
    /// The progress of each node of the cluster, unless it is taken.
    pub progress: Option<ProgressSetView>,
    /// The role.
    pub state: StateRole,
    /// Whether this node is a learner.
    pub is_learner: bool,
    /// The votes of the current election.
    pub votes: Map<u64, bool>,
    /// The messages that are to be sent.
    pub msgs: Seq<MessageView>,
    /// The leader; 0 if it is not known.
    pub leader_id: u64,
    /// The node that the leadership is being transferred to.
    pub lead_transferee: Option<u64>,
    /// No configuration change behind this index is in the log without being applied.
    pub pending_conf_index: u64,
    /// The membership change under way.
    pub pending_membership_change: Option<ConfChangeView>,
    /// The read requests that wait for a quorum.
    pub read_only: ReadOnlyView,
    /// Ticks since the last election timeout, or since the leader was heard of.
    pub election_elapsed: usize,
    /// Ticks since the last heartbeat was sent.
    pub heartbeat_elapsed: usize,
    /// Whether a leader steps down without an active quorum.
    pub check_quorum: bool,
    /// Whether a round of pre-votes comes before an election.
    pub pre_vote: bool,
    /// Whether a new commit index is not broadcast at once.
    pub skip_bcast_commit: bool,
    /// Ticks between heartbeats.
    pub heartbeat_timeout: usize,
    /// Ticks of an election timeout.
    pub election_timeout: usize,
    /// The least randomized election timeout.
    pub min_election_timeout: usize,
    /// The bound that the randomized election timeout stays below.
    pub max_election_timeout: usize,
}

/// What a message of a peer makes the leader do.
#[verifier::ext_equal]
pub struct ReactionView {
    /// Entries are to be sent to the peer.
    pub send_append: bool,
    /// Sending to the peer was paused.
    pub old_paused: bool,
    /// More entries may be committed.
    pub maybe_commit: bool,
    /// The messages that are to be sent at the end.
    pub more_to_send: Seq<MessageView>,
}

impl ReactionView {
    /// Nothing is to be done.
    pub open spec fn none() -> ReactionView {
        ReactionView {
            send_append: false,
            old_paused: false,
            maybe_commit: false,
            more_to_send: Seq::empty(),
        }
    }
}

/// The name of the first phase of an election.
pub open spec fn pre_election() -> Seq<u8> {
    "CampaignPreElection"@.map_values(|c: char| c as u8)
}

/// The name of an election.
pub open spec fn election() -> Seq<u8> {
    "CampaignElection"@.map_values(|c: char| c as u8)
}

/// The name of an election that the leader asked for.
pub open spec fn transfer() -> Seq<u8> {
    "CampaignTransfer"@.map_values(|c: char| c as u8)
}

/// The names of the campaigns differ.
pub proof fn lemma_campaign_names()
    ensures
        election() != pre_election(),
        transfer() != pre_election(),
        transfer() != election(),
{
    reveal_strlit("CampaignPreElection");
    reveal_strlit("CampaignElection");
    reveal_strlit("CampaignTransfer");
    assert(election().len() == 16 && transfer().len() == 16 && pre_election().len() == 19);
    assert(election()[8] != transfer()[8]);
}

/// Whether messages of this type belong to an election: they carry a term of their own.
pub open spec fn is_election_msg(t: MessageType) -> bool {
    t == MessageType::MsgRequestVote || t == MessageType::MsgRequestPreVote || t
        == MessageType::MsgRequestVoteResponse || t == MessageType::MsgRequestPreVoteResponse
}

/// Whether a message asks for a vote or a pre-vote.
pub open spec fn is_vote_request(t: MessageType) -> bool {
    t == MessageType::MsgRequestVote || t == MessageType::MsgRequestPreVote
}

/// Whether only a leader sends messages of this type.
pub open spec fn is_leader_msg(t: MessageType) -> bool {
    t == MessageType::MsgAppend || t == MessageType::MsgHeartbeat || t == MessageType::MsgSnapshot
}

/// The type of the answer to a request for a vote or a pre-vote.
pub open spec fn vote_answer(t: MessageType) -> MessageType {
    if t == MessageType::MsgRequestVote {
        MessageType::MsgRequestVoteResponse
    } else {
        MessageType::MsgRequestPreVoteResponse
    }
}

/// The error for a proposal that is dropped.
pub open spec fn dropped() -> Result<(), ErrorView> {
    Err(ErrorView::ProposalDropped)
}

/// How many of `es` are configuration changes.
pub open spec fn conf_changes(es: Seq<EntryView>) -> nat
    decreases es.len(),
{
    if es.len() == 0 {
        0
    } else {
        conf_changes(es.drop_last()) + (if es.last().entry_type == EntryType::EntryConfChange {
            1nat
        } else {
            0
        })
    }
}

/// The entry that holds a configuration change.
pub open spec fn change_entry(c: ConfChangeView) -> EntryView {
    EntryView {
        entry_type: EntryType::EntryConfChange,
        data: conf_change_bytes(c),
        ..EntryView::empty()
    }
}

/// A message of type `t` that this node hands to itself.
pub open spec fn local_message(t: MessageType, from: u64) -> MessageView {
    MessageView { from, ..MessageView::to_node(INVALID_ID, t) }
}

/// Whether a snapshot can be sent to a peer, or cannot be had for the moment only.
pub open spec fn sendable(r: Result<SnapshotView, ErrorView>) -> bool {
    match r {
        Ok(s) => 0 < s.metadata.index < u64::MAX,
        Err(e) => e == ErrorView::Store(StorageErrorView::SnapshotTemporarilyUnavailable),
    }
}

/// Whether a read request from `from` was made at the node `id`.
pub open spec fn is_own_read(id: u64, from: u64) -> bool {
    from == INVALID_ID || from == id
}

/// The answers to the reads of `rss` that were made at the node `id`.
pub open spec fn own_reads(id: u64, rss: Seq<ReadIndexStatusView>) -> Seq<ReadStateView>
    decreases rss.len(),
{
    if rss.len() == 0 {
        Seq::empty()
    } else {
        let rest = own_reads(id, rss.drop_last());
        let r = rss.last();
        if is_own_read(id, r.req.from) {
            rest.push(ReadStateView { index: r.index, request_ctx: r.req.entries[0].data })
        } else {
            rest
        }
    }
}

/// The answer to a read that was made at another node.
pub open spec fn read_response(req: MessageView, index: u64) -> MessageView {
    MessageView {
        index,
        entries: req.entries,
        ..MessageView::to_node(req.from, MessageType::MsgReadIndexResp)
    }
}

/// The answers to the reads of `rss` that were made at other nodes than `id`.
pub open spec fn remote_reads(id: u64, rss: Seq<ReadIndexStatusView>) -> Seq<MessageView>
    decreases rss.len(),
{
    if rss.len() == 0 {
        Seq::empty()
    } else {
        let rest = remote_reads(id, rss.drop_last());
        let r = rss.last();
        if is_own_read(id, r.req.from) {
            rest
        } else {
            rest.push(read_response(r.req, r.index))
        }
    }
}

// Sending.
impl<T: Storage> RaftView<T> {
    /// The progress of the cluster.
    pub open spec fn prs(self) -> ProgressSetView {
        self.progress->0
    }

    /// With another progress of the cluster.
    pub open spec fn with_prs(self, prs: ProgressSetView) -> RaftView<T> {
        RaftView { progress: Some(prs), ..self }
    }

    /// With another progress of the node `id`.
    pub open spec fn with_progress(self, id: u64, p: ProgressView) -> RaftView<T> {
        self.with_prs(self.prs().set(id, p))
    }

    /// The invariant of a node: the progress, the log and the waiting reads are valid, and
    /// there is a choice of election timeouts.
    pub open spec fn wf(self) -> bool {
        &&& self.progress is Some
        &&& self.prs().wf()
        &&& self.prs().all_ok()
        &&& self.raft_log.wf()
        &&& self.read_only.wf()
        &&& self.min_election_timeout < self.max_election_timeout
    }

    /// Whether `m` can be sent: a message of an election has a term of its own, any other
    /// has not.
    pub open spec fn send_ok(self, m: MessageView) -> bool {
        is_election_msg(m.msg_type) <==> m.term != 0
    }

    /// `m` as it is sent: from this node, and in its term, unless the message belongs to
    /// an election, or is a request that is passed on to the leader.
    pub open spec fn stamped(self, m: MessageView) -> MessageView {
        MessageView {
            from: self.id,
            term: if is_election_msg(m.msg_type) || m.msg_type == MessageType::MsgPropose
                || m.msg_type == MessageType::MsgReadIndex {
                m.term
            } else {
                self.term
            },
            ..m
        }
    }

    /// After `m` was sent.
    pub open spec fn send(self, m: MessageView) -> RaftView<T> {
        RaftView { msgs: self.msgs.push(self.stamped(m)), ..self }
    }

    /// After `m` was sent, if it is there.
    pub open spec fn send_some(self, m: Option<MessageView>) -> RaftView<T> {
        match m {
            Some(m) => self.send(m),
            None => self,
        }
    }

    /// After all of `ms` were sent, in their order.
    pub open spec fn send_all(self, ms: Seq<MessageView>) -> RaftView<T> {
        RaftView { msgs: self.msgs + ms.map_values(|m: MessageView| self.stamped(m)), ..self }
    }

    /// Whether a peer with progress `p` needs entries that the log no longer has.
    pub open spec fn needs_snapshot(self, p: ProgressView) -> bool {
        self.raft_log.entries(p.next_idx, self.max_msg_size) is Err
    }

    /// Whether entries, or a snapshot in their place, can be sent to a peer.
    pub open spec fn append_to_ok(self, p: ProgressView) -> bool {
        !p.is_paused() && self.needs_snapshot(p) && p.recent_active ==> sendable(
            self.raft_log.snapshot(),
        )
    }

    /// The progress of a peer after a message with `es` was sent to it.
    pub open spec fn progress_after(self, p: ProgressView, es: Seq<EntryView>) -> ProgressView {
        if es.len() == 0 {
            p
        } else if p.state == ProgressState::Replicate {
            ProgressView {
                ins: p.ins.push(es.last().index),
                ..p.optimistic_update(es.last().index)
            }
        } else {
            ProgressView { paused: true, ..p }
        }
    }

    /// The message with `es` for the peer `to`, which has progress `p`.
    pub open spec fn entries_message(
        self,
        to: u64,
        p: ProgressView,
        es: Seq<EntryView>,
    ) -> MessageView {
        MessageView {
            index: (p.next_idx - 1) as u64,
            log_term: self.raft_log.term((p.next_idx - 1) as u64),
            entries: es,
            commit: self.raft_log.committed,
            ..MessageView::to_node(to, MessageType::MsgAppend)
        }
    }

    /// The message with a snapshot for the peer `to`.
    pub open spec fn snapshot_message(self, to: u64, s: SnapshotView) -> MessageView {
        MessageView { snapshot: s, ..MessageView::to_node(to, MessageType::MsgSnapshot) }
    }

    /// What sending entries to the peer `to`, which has progress `p`, comes to: its
    /// progress, and the message.
    pub open spec fn append_to(self, to: u64, p: ProgressView) -> (
        ProgressView,
        Option<MessageView>,
    ) {
        if p.is_paused() {
            (p, None)
        } else {
            match self.raft_log.entries(p.next_idx, self.max_msg_size) {
                Ok(es) => (self.progress_after(p, es), Some(self.entries_message(to, p, es))),
                Err(_) => match self.raft_log.snapshot() {
                    Ok(s) => if p.recent_active {
                        (p.become_snapshot(s.metadata.index), Some(self.snapshot_message(to, s)))
                    } else {
                        (p, None)
                    },
                    Err(_) => (p, None),
                },
            }
        }
    }

    /// After entries were sent to the node `to` of the cluster.
    pub open spec fn send_append_to(self, to: u64) -> RaftView<T> {
        let r = self.append_to(to, self.prs().at(to));
        self.with_progress(to, r.0).send_some(r.1)
    }

    /// The messages with entries for the first `n` nodes of the cluster.
    pub open spec fn append_msgs(self, n: int) -> Seq<MessageView>
        decreases n,
    {
        if n <= 0 {
            Seq::empty()
        } else {
            let rest = self.append_msgs(n - 1);
            let to = self.prs().ids[n - 1];
            match self.append_to(to, self.prs().progress[n - 1]).1 {
                Some(m) => if to == self.id {
                    rest
                } else {
                    rest.push(self.stamped(m))
                },
                None => rest,
            }
        }
    }

    /// The progress of the nodes after entries were sent to all but this one.
    pub open spec fn append_progress(self) -> Seq<ProgressView> {
        Seq::new(
            self.prs().progress.len(),
            |i: int|
                if self.prs().ids[i] == self.id {
                    self.prs().progress[i]
                } else {
                    self.append_to(self.prs().ids[i], self.prs().progress[i]).0
                },
        )
    }

    /// Whether entries can be sent to all other nodes.
    pub open spec fn bcast_append_ok(self) -> bool {
        forall|i: int|
            0 <= i < self.prs().progress.len() && self.prs().ids[i] != self.id
                ==> self.append_to_ok(#[trigger] self.prs().progress[i])
    }

    /// After entries were sent to all other nodes.
    pub open spec fn bcast_append(self) -> RaftView<T> {
        RaftView {
            progress: Some(ProgressSetView { progress: self.append_progress(), ..self.prs() }),
            msgs: self.msgs + self.append_msgs(self.prs().ids.len() as int),
            ..self
        }
    }

    /// The heartbeat for the peer `to`, which has progress `p`: its commit index goes no
    /// further than what the peer is known to have.
    pub open spec fn heartbeat_message(
        self,
        to: u64,
        p: ProgressView,
        ctx: Option<Seq<u8>>,
    ) -> MessageView {
        MessageView {
            commit: if p.matched < self.raft_log.committed {
                p.matched
            } else {
                self.raft_log.committed
            },
            context: match ctx {
                Some(c) => c,
                None => Seq::empty(),
            },
            ..MessageView::to_node(to, MessageType::MsgHeartbeat)
        }
    }

    /// The heartbeats for the first `n` nodes of the cluster.
    pub open spec fn heartbeat_msgs(self, ctx: Option<Seq<u8>>, n: int) -> Seq<MessageView>
        decreases n,
    {
        if n <= 0 {
            Seq::empty()
        } else {
            let rest = self.heartbeat_msgs(ctx, n - 1);
            let to = self.prs().ids[n - 1];
            if to == self.id {
                rest
            } else {
                rest.push(
                    self.stamped(self.heartbeat_message(to, self.prs().progress[n - 1], ctx)),
                )
            }
        }
    }

    /// After a heartbeat with context `ctx` was sent to all other nodes.
    pub open spec fn bcast_heartbeat_with_ctx(self, ctx: Option<Seq<u8>>) -> RaftView<T> {
        RaftView {
            msgs: self.msgs + self.heartbeat_msgs(ctx, self.prs().ids.len() as int),
            ..self
        }
    }

    /// After a heartbeat was sent to all other nodes, with the context of the last read
    /// that waits.
    pub open spec fn bcast_heartbeat(self) -> RaftView<T> {
        self.bcast_heartbeat_with_ctx(
            if self.read_only.queue.len() == 0 {
                None
            } else {
                Some(self.read_only.queue.last())
            },
        )
    }

    /// The request to start an election at once, for the node `to`.
    pub open spec fn timeout_now(self, to: u64) -> RaftView<T> {
        self.send(MessageView::to_node(to, MessageType::MsgTimeoutNow))
    }
}

// The log.
impl<T: Storage> RaftView<T> {
    /// Whether a quorum has more of this term than is committed.
    pub open spec fn can_commit(self) -> bool {
        self.raft_log.can_commit(self.prs().maximal_committed_index(), self.term)
    }

    /// Whether there are voters, and the index that a quorum has is in the log.
    pub open spec fn maybe_commit_ok(self) -> bool {
        self.prs().has_voters() && (self.can_commit() ==> self.prs().maximal_committed_index()
            <= self.raft_log.last())
    }

    /// After what a quorum has of this term was committed.
    pub open spec fn maybe_commit(self) -> RaftView<T> {
        RaftView {
            raft_log: self.raft_log.maybe_commit(
                self.prs().maximal_committed_index(),
                self.term,
            ),
            ..self
        }
    }

    /// `es` as they are put in at the end of the log: with this term, and the next indexes.
    pub open spec fn numbered(self, es: Seq<EntryView>) -> Seq<EntryView> {
        Seq::new(
            es.len(),
            |i: int|
                EntryView {
                    term: self.term,
                    index: (self.raft_log.last() + 1 + i) as u64,
                    ..es[i]
                },
        )
    }

    /// With `es` at the end of the log, and the progress of this node at their end.
    pub open spec fn with_entries(self, es: Seq<EntryView>) -> RaftView<T> {
        let log = self.raft_log.append(self.numbered(es));
        RaftView {
            raft_log: log,
            ..self.with_progress(self.id, self.prs().at(self.id).update_to(log.last_index()))
        }
    }

    /// Whether `es` can be put in: this node is in the cluster, and the indexes fit.
    pub open spec fn append_entry_ok(self, es: Seq<EntryView>) -> bool {
        &&& self.raft_log.last() + es.len() < u64::MAX
        &&& self.prs().has(self.id)
        &&& self.with_entries(es).maybe_commit_ok()
    }

    /// After `es` were put in at the end of the log.
    pub open spec fn append_entry(self, es: Seq<EntryView>) -> RaftView<T> {
        self.with_entries(es).maybe_commit()
    }

    /// Whether the end of the membership change can be put in and sent.
    pub open spec fn append_finalize_ok(self) -> bool {
        let es = seq![change_entry(ConfChangeView::finalize())];
        self.append_entry_ok(es) && self.append_entry(es).bcast_append_ok()
    }

    /// After the end of the membership change was put in and sent.
    pub open spec fn append_finalize(self) -> RaftView<T> {
        self.append_entry(seq![change_entry(ConfChangeView::finalize())]).bcast_append()
    }

    /// Whether the leader is to put in the end of the membership change now that the
    /// entries up to `index` are through.
    pub open spec fn is_change_due(self, index: u64) -> bool {
        match self.pending_membership_change {
            Some(c) => index >= c.start_index,
            None => false,
        }
    }

    /// With the entries up to `applied` marked as applied.
    pub open spec fn with_applied(self, applied: u64) -> RaftView<T> {
        RaftView { raft_log: self.raft_log.applied_to(applied), ..self }
    }

    /// Whether the entries up to `applied` can be marked as applied.
    pub open spec fn commit_apply_ok(self, applied: u64) -> bool {
        &&& self.raft_log.applied_ok(applied)
        &&& self.is_change_due(applied) && self.state == StateRole::Leader
            ==> self.with_applied(applied).append_finalize_ok()
    }

    /// After the entries up to `applied` were applied: a leader ends the membership change
    /// that began there.
    pub open spec fn commit_apply(self, applied: u64) -> RaftView<T> {
        if self.is_change_due(applied) && self.state == StateRole::Leader {
            self.with_applied(applied).append_finalize()
        } else {
            self.with_applied(applied)
        }
    }

    /// Whether a configuration change may be in the log without being applied: the applied
    /// index is not beyond that of the last change, or a membership change is under way.
    pub open spec fn has_pending_conf(self) -> bool {
        self.pending_conf_index >= self.raft_log.applied || self.pending_membership_change is Some
    }

    /// Whether a new commit index is broadcast at once.
    pub open spec fn should_bcast_commit(self) -> bool {
        !self.skip_bcast_commit || self.has_pending_conf()
    }
}

// Roles.
impl<T: Storage> RaftView<T> {
    /// At the start of `term`: the vote is kept within a term only.
    pub open spec fn reset(self, term: u64) -> RaftView<T> {
        RaftView {
            term,
            vote: if self.term != term {
                INVALID_ID
            } else {
                self.vote
            },
            leader_id: INVALID_ID,
            election_elapsed: 0,
            heartbeat_elapsed: 0,
            lead_transferee: None,
            votes: Map::empty(),
            pending_conf_index: 0,
            read_only: ReadOnlyView::new(self.read_only.option),
            progress: Some(self.prs().reset(self.id, self.raft_log.last_index())),
            ..self
        }
    }

    /// As a follower of `leader_id` in `term`.
    pub open spec fn become_follower(self, term: u64, leader_id: u64) -> RaftView<T> {
        RaftView { leader_id, state: StateRole::Follower, ..self.reset(term) }
    }

    /// Whether the node can become a candidate.
    pub open spec fn become_candidate_ok(self) -> bool {
        self.state != StateRole::Leader && self.term < u64::MAX
    }

    /// As a candidate in the next term, with its own vote.
    pub open spec fn become_candidate(self) -> RaftView<T> {
        RaftView {
            vote: self.id,
            state: StateRole::Candidate,
            ..self.reset((self.term + 1) as u64)
        }
    }

    /// As a pre-candidate: the term and the vote stay.
    pub open spec fn become_pre_candidate(self) -> RaftView<T> {
        RaftView {
            state: StateRole::PreCandidate,
            votes: Map::empty(),
            leader_id: INVALID_ID,
            ..self
        }
    }

    /// As the leader, before its first entry.
    pub open spec fn leading(self) -> RaftView<T> {
        let s = self.reset(self.term);
        RaftView {
            leader_id: self.id,
            state: StateRole::Leader,
            pending_conf_index: self.raft_log.last_index(),
            ..s.with_progress(s.id, s.prs().at(s.id).become_replicate())
        }
    }

    /// Whether the node can become the leader.
    pub open spec fn become_leader_ok(self) -> bool {
        let first = seq![EntryView::empty()];
        let s = self.leading().append_entry(first);
        &&& self.state != StateRole::Follower
        &&& self.prs().has(self.id)
        &&& self.leading().append_entry_ok(first)
        &&& s.is_change_due(s.raft_log.committed) ==> s.append_finalize_ok()
    }

    /// As the leader: an entry of its own is put in, and the end of a membership change
    /// whose beginning is committed.
    pub open spec fn become_leader(self) -> RaftView<T> {
        let s = self.leading().append_entry(seq![EntryView::empty()]);
        if s.is_change_due(s.raft_log.committed) {
            s.append_finalize()
        } else {
            s
        }
    }

    /// With `vote` as the vote of `id`.
    pub open spec fn register_vote(self, id: u64, vote: bool) -> RaftView<T> {
        RaftView { votes: self.votes.insert(id, vote), ..self }
    }

    /// Whether the votes decide the election, and how.
    pub open spec fn candidacy(self) -> CandidacyStatus {
        self.prs().candidacy_status(self.votes)
    }

    /// The request for a vote in `term`.
    pub open spec fn vote_request(
        self,
        to: u64,
        kind: MessageType,
        term: u64,
        campaign: Seq<u8>,
    ) -> MessageView {
        MessageView {
            term,
            index: self.raft_log.last_index(),
            log_term: self.raft_log.last_term(),
            context: if campaign == transfer() {
                campaign
            } else {
                Seq::empty()
            },
            ..MessageView::to_node(to, kind)
        }
    }

    /// The requests for votes to `ids`, without this node.
    pub open spec fn vote_requests(
        self,
        ids: Seq<u64>,
        kind: MessageType,
        term: u64,
        campaign: Seq<u8>,
    ) -> Seq<MessageView>
        decreases ids.len(),
    {
        if ids.len() == 0 {
            Seq::empty()
        } else {
            let rest = self.vote_requests(ids.drop_last(), kind, term, campaign);
            if ids.last() == self.id {
                rest
            } else {
                rest.push(self.stamped(self.vote_request(ids.last(), kind, term, campaign)))
            }
        }
    }

    /// After all other voters were asked for a vote.
    pub open spec fn request_votes(
        self,
        kind: MessageType,
        term: u64,
        campaign: Seq<u8>,
    ) -> RaftView<T> {
        RaftView {
            msgs: self.msgs + self.vote_requests(self.prs().voter_ids(), kind, term, campaign),
            ..self
        }
    }

    /// As a candidate that has voted for itself.
    pub open spec fn standing(self) -> RaftView<T> {
        self.become_candidate().register_vote(self.id, true)
    }

    /// As a pre-candidate that has voted for itself.
    pub open spec fn pre_standing(self) -> RaftView<T> {
        self.become_pre_candidate().register_vote(self.id, true)
    }

    /// Whether the node can stand for election.
    pub open spec fn elect_ok(self) -> bool {
        &&& self.become_candidate_ok()
        &&& self.standing().candidacy() == CandidacyStatus::Elected
            ==> self.standing().become_leader_ok()
    }

    /// After the node stood for election: its own vote may be enough.
    pub open spec fn elect(self, campaign: Seq<u8>) -> RaftView<T> {
        let s = self.standing();
        if s.candidacy() == CandidacyStatus::Elected {
            s.become_leader()
        } else {
            s.request_votes(MessageType::MsgRequestVote, s.term, campaign)
        }
    }

    /// Whether the node can campaign.
    pub open spec fn campaign_ok(self, campaign: Seq<u8>) -> bool {
        if campaign == pre_election() {
            &&& self.become_candidate_ok()
            &&& self.pre_standing().candidacy() == CandidacyStatus::Elected
                ==> self.pre_standing().elect_ok()
        } else {
            self.elect_ok()
        }
    }

    /// After the node campaigned: with pre-votes first, or at once.
    pub open spec fn campaign(self, campaign: Seq<u8>) -> RaftView<T> {
        if campaign == pre_election() {
            let s = self.pre_standing();
            if s.candidacy() == CandidacyStatus::Elected {
                s.elect(election())
            } else {
                s.request_votes(MessageType::MsgRequestPreVote, (s.term + 1) as u64, campaign)
            }
        } else {
            self.elect(campaign)
        }
    }

    /// Whether this node is a voter.
    pub open spec fn promotable(self) -> bool {
        self.prs().voter_ids().contains(self.id)
    }

    /// Whether a configuration change that is committed is still to be applied.
    pub open spec fn change_unapplied(self) -> bool {
        &&& self.raft_log.committed > self.raft_log.applied
        &&& conf_changes(
            self.raft_log.slice(
                (self.raft_log.applied + 1) as u64,
                (self.raft_log.committed + 1) as u64,
                NO_LIMIT,
            )->Ok_0,
        ) != 0
    }

    /// The campaign that a timeout leads to.
    pub open spec fn campaign_kind(self) -> Seq<u8> {
        if self.pre_vote {
            pre_election()
        } else {
            election()
        }
    }

    /// Whether a timeout can be handled: the entries that are to be applied are in the log.
    pub open spec fn hup_ok(self) -> bool {
        self.state != StateRole::Leader ==> {
            &&& self.raft_log.applied + 1 >= self.raft_log.first()
            &&& !self.change_unapplied() ==> self.campaign_ok(self.campaign_kind())
        }
    }

    /// After a timeout: a node that is not the leader campaigns, unless it still has to
    /// apply a configuration change.
    pub open spec fn hup(self) -> RaftView<T> {
        if self.state == StateRole::Leader || self.change_unapplied() {
            self
        } else {
            self.campaign(self.campaign_kind())
        }
    }
}

// Messages from a leader.
impl<T: Storage> RaftView<T> {
    /// Whether the entries of `m` can be taken in.
    pub open spec fn handle_append_entries_ok(self, m: MessageView) -> bool {
        m.index >= self.raft_log.committed ==> self.raft_log.maybe_append_ok(
            m.index,
            m.log_term,
            m.commit,
            m.entries,
        )
    }

    /// After the entries of `m` were taken in, or refused, and answered.
    pub open spec fn handle_append_entries(self, m: MessageView) -> RaftView<T> {
        let answer = MessageView::to_node(m.from, MessageType::MsgAppendResponse);
        let log = self.raft_log;
        if m.index < log.committed {
            self.send(MessageView { index: log.committed, ..answer })
        } else if log.match_term(m.index, m.log_term) {
            let s = RaftView {
                raft_log: log.maybe_append(m.index, m.log_term, m.commit, m.entries),
                ..self
            };
            s.send(MessageView { index: (m.index + m.entries.len()) as u64, ..answer })
        } else {
            self.send(
                MessageView {
                    index: m.index,
                    reject: true,
                    reject_hint: log.last_index(),
                    ..answer
                },
            )
        }
    }

    /// After the heartbeat `m` was answered.
    pub open spec fn handle_heartbeat(self, m: MessageView) -> RaftView<T> {
        let s = RaftView { raft_log: self.raft_log.commit_to(m.commit), ..self };
        s.send(
            MessageView {
                context: m.context,
                ..MessageView::to_node(m.from, MessageType::MsgHeartbeatResponse)
            },
        )
    }

    /// Whether the log already has what a snapshot holds.
    pub open spec fn has_snapshot(self, meta: SnapshotMetadataView) -> bool {
        self.raft_log.match_term(meta.index, meta.term)
    }

    /// Whether a snapshot would make a voter a learner.
    pub open spec fn demoted_by(self, meta: SnapshotMetadataView) -> bool {
        self.prs().ids.len() != 0 && !self.is_learner && meta.conf_state.learners.contains(self.id)
    }

    /// The progress of the cluster of a snapshot.
    pub open spec fn snapshot_prs(self, meta: SnapshotMetadataView) -> ProgressSetView {
        ProgressSetView::from_snapshot(
            meta,
            (self.raft_log.last() + 1) as u64,
            self.max_inflight,
        )
    }

    /// Whether a snapshot takes the place of the log.
    pub open spec fn restores(self, snap: SnapshotView) -> bool {
        &&& snap.metadata.index >= self.raft_log.committed
        &&& !self.has_snapshot(snap.metadata)
        &&& !self.demoted_by(snap.metadata)
    }

    /// Whether a snapshot can be handled: this node is in its cluster.
    pub open spec fn restore_ok(self, snap: SnapshotView) -> bool {
        snap.metadata.index >= self.raft_log.committed ==> if self.has_snapshot(snap.metadata) {
            self.raft_log.commit_ok(snap.metadata.index)
        } else {
            !self.demoted_by(snap.metadata) ==> {
                &&& snap.metadata.index < u64::MAX
                &&& self.snapshot_prs(snap.metadata).has(self.id)
            }
        }
    }

    /// With the cluster of a snapshot, and the membership change that is under way in it. A
    /// voter of its configuration is no learner any more.
    pub open spec fn restore_raft(self, meta: SnapshotMetadataView) -> RaftView<T> {
        let prs = self.snapshot_prs(meta);
        let s = RaftView {
            progress: Some(
                prs.set(
                    self.id,
                    ProgressView { matched: self.raft_log.last_index(), ..prs.at(self.id) },
                ),
            ),
            is_learner: self.is_learner && !prs.configuration.voters.contains(self.id),
            ..self
        };
        if meta.pending_membership_change_index > 0 {
            s.note_change(
                ConfChangeView::begin(
                    meta.pending_membership_change_index,
                    meta.pending_membership_change,
                ),
            )
        } else {
            s
        }
    }

    /// After a snapshot was handled: it takes the place of the log, or only shows that more
    /// of the log is committed, or is ignored.
    pub open spec fn restore(self, snap: SnapshotView) -> RaftView<T> {
        if self.restores(snap) {
            RaftView {
                raft_log: self.raft_log.restore(snap),
                ..self.restore_raft(snap.metadata)
            }
        } else if snap.metadata.index >= self.raft_log.committed && self.has_snapshot(
            snap.metadata,
        ) {
            RaftView { raft_log: self.raft_log.commit_to(snap.metadata.index), ..self }
        } else {
            self
        }
    }

    /// After the snapshot of `m` was handled and answered.
    pub open spec fn handle_snapshot(self, m: MessageView) -> RaftView<T> {
        let s = self.restore(m.snapshot);
        s.send(
            MessageView {
                index: if self.restores(m.snapshot) {
                    s.raft_log.last_index()
                } else {
                    s.raft_log.committed
                },
                ..MessageView::to_node(m.from, MessageType::MsgAppendResponse)
            },
        )
    }

    /// Whether the message `m` of a leader can be handled.
    pub open spec fn from_leader_ok(self, m: MessageView) -> bool {
        if m.msg_type == MessageType::MsgAppend {
            self.handle_append_entries_ok(m)
        } else if m.msg_type == MessageType::MsgHeartbeat {
            self.raft_log.commit_ok(m.commit)
        } else {
            self.restore_ok(m.snapshot)
        }
    }

    /// After the message `m` of a leader was handled.
    pub open spec fn from_leader(self, m: MessageView) -> RaftView<T> {
        if m.msg_type == MessageType::MsgAppend {
            self.handle_append_entries(m)
        } else if m.msg_type == MessageType::MsgHeartbeat {
            self.handle_heartbeat(m)
        } else {
            self.handle_snapshot(m)
        }
    }
}

// Messages to a leader.
impl<T: Storage> RaftView<T> {
    /// Whether the answer `m` to entries can be handled: its indexes fit.
    pub open spec fn append_response_ok(self, m: MessageView) -> bool {
        if m.reject {
            m.reject_hint < u64::MAX
        } else {
            m.index < u64::MAX
        }
    }

    /// After the answer `m` to entries, and what follows from it.
    pub open spec fn handle_append_response(self, m: MessageView) -> (RaftView<T>, ReactionView) {
        let p = ProgressView { recent_active: true, ..self.prs().at(m.from) };
        if m.reject {
            let q = p.decrease_to(m.index, m.reject_hint);
            if !p.refusal_counts(m.index) {
                (self.with_progress(m.from, q), ReactionView::none())
            } else {
                (
                    self.with_progress(
                        m.from,
                        if q.state == ProgressState::Replicate {
                            q.become_probe()
                        } else {
                            q
                        },
                    ),
                    ReactionView { send_append: true, ..ReactionView::none() },
                )
            }
        } else {
            let q = p.update_to(m.index);
            let paused = ReactionView { old_paused: p.is_paused(), ..ReactionView::none() };
            let commits = ReactionView { maybe_commit: true, ..paused };
            let s = if self.lead_transferee == Some(m.from) && q.matched
                == self.raft_log.last_index() {
                self.timeout_now(m.from)
            } else {
                self
            };
            if p.matched >= m.index {
                (self.with_progress(m.from, q), paused)
            } else if q.state == ProgressState::Probe {
                (s.with_progress(m.from, q.become_replicate()), commits)
            } else if q.state == ProgressState::Replicate {
                (
                    s.with_progress(
                        m.from,
                        ProgressView { ins: q.ins.free_to(m.index), ..q },
                    ),
                    commits,
                )
            } else if q.snapshot_caught_up() {
                (s.with_progress(m.from, q.become_probe()), commits)
            } else {
                (s.with_progress(m.from, q), paused)
            }
        }
    }

    /// After the answer `m` to a heartbeat, and what follows from it.
    pub open spec fn handle_heartbeat_response(self, m: MessageView) -> (
        RaftView<T>,
        ReactionView,
    ) {
        let p = ProgressView { recent_active: true, paused: false, ..self.prs().at(m.from) };
        let q = if p.state == ProgressState::Replicate && p.ins.full() {
            ProgressView { ins: p.ins.free_first_one(), ..p }
        } else {
            p
        };
        let s = self.with_progress(m.from, q);
        let r = ReactionView {
            send_append: q.matched < self.raft_log.last(),
            ..ReactionView::none()
        };
        let acked = RaftView { read_only: s.read_only.recv_ack(m), ..s };
        let rss = acked.read_only.answered(m.context);
        if self.read_only.option != ReadOnlyOption::Safe || m.context.len() == 0 {
            (s, r)
        } else if !s.prs().has_quorum(s.read_only.acknowledged(m)) {
            (acked, r)
        } else {
            (
                RaftView {
                    read_only: acked.read_only.advance(m.context),
                    read_states: s.read_states + own_reads(self.id, rss),
                    ..s
                },
                ReactionView { more_to_send: remote_reads(self.id, rss), ..r },
            )
        }
    }

    /// With the node `to` as the one that the leadership is being transferred to.
    pub open spec fn transferring(self, to: u64) -> RaftView<T> {
        RaftView { election_elapsed: 0, lead_transferee: Some(to), ..self }
    }

    /// Whether a transfer of the leadership to `to` starts now.
    pub open spec fn starts_transfer(self, to: u64) -> bool {
        &&& !self.prs().learner_ids().contains(to)
        &&& self.lead_transferee != Some(to)
        &&& to != self.id
    }

    /// Whether the transfer that `m` asks for can start.
    pub open spec fn transfer_leader_ok(self, m: MessageView) -> bool {
        self.starts_transfer(m.from) && self.prs().at(m.from).matched != self.raft_log.last()
            ==> self.append_to_ok(self.prs().at(m.from))
    }

    /// After the transfer that `m` asks for was started, or refused.
    pub open spec fn handle_transfer_leader(self, m: MessageView) -> RaftView<T> {
        if self.starts_transfer(m.from) {
            let s = self.transferring(m.from);
            if self.prs().at(m.from).matched == self.raft_log.last() {
                s.timeout_now(m.from)
            } else {
                s.send_append_to(m.from)
            }
        } else if self.prs().learner_ids().contains(m.from) || self.lead_transferee == Some(
            m.from,
        ) {
            self
        } else {
            RaftView { lead_transferee: None, ..self }
        }
    }

    /// The progress of a peer after the report `m` on a snapshot.
    pub open spec fn snapshot_reported(self, p: ProgressView, m: MessageView) -> ProgressView {
        let q = if m.reject {
            p.snapshot_failure()
        } else {
            p
        };
        ProgressView { paused: true, ..q.become_probe() }
    }

    /// Whether the message `m` of a peer can be handled.
    pub open spec fn check_message_ok(self, m: MessageView) -> bool {
        self.prs().has(m.from) ==> {
            &&& m.msg_type == MessageType::MsgAppendResponse ==> self.append_response_ok(m)
            &&& m.msg_type == MessageType::MsgTransferLeader ==> self.transfer_leader_ok(m)
        }
    }

    /// After the message `m` of a peer, and what follows from it; nothing if the peer is
    /// not known.
    pub open spec fn check_message(self, m: MessageView) -> (RaftView<T>, ReactionView) {
        let p = self.prs().at(m.from);
        if !self.prs().has(m.from) {
            (self, ReactionView::none())
        } else if m.msg_type == MessageType::MsgAppendResponse {
            self.handle_append_response(m)
        } else if m.msg_type == MessageType::MsgHeartbeatResponse {
            self.handle_heartbeat_response(m)
        } else if m.msg_type == MessageType::MsgSnapStatus && p.state == ProgressState::Snapshot {
            (self.with_progress(m.from, self.snapshot_reported(p, m)), ReactionView::none())
        } else if m.msg_type == MessageType::MsgUnreachable && p.state
            == ProgressState::Replicate {
            (self.with_progress(m.from, p.become_probe()), ReactionView::none())
        } else if m.msg_type == MessageType::MsgTransferLeader {
            (self.handle_transfer_leader(m), ReactionView::none())
        } else {
            (self, ReactionView::none())
        }
    }

    /// After a quorum committed more, if it did, and that was broadcast, if it is to be.
    pub open spec fn commit_and_bcast(self) -> RaftView<T> {
        let s = self.maybe_commit();
        if self.can_commit() && s.should_bcast_commit() {
            s.bcast_append()
        } else {
            s
        }
    }

    /// After what the reaction asks for was committed.
    pub open spec fn react_commit(self, r: ReactionView) -> RaftView<T> {
        if r.maybe_commit {
            self.commit_and_bcast()
        } else {
            self
        }
    }

    /// Whether entries are sent to the peer.
    pub open spec fn react_sends(self, r: ReactionView) -> bool {
        r.send_append || (r.maybe_commit && !self.can_commit() && r.old_paused)
    }

    /// Whether the reaction can be carried out.
    pub open spec fn react_ok(self, from: u64, r: ReactionView) -> bool {
        &&& r.maybe_commit ==> {
            &&& self.maybe_commit_ok()
            &&& self.can_commit() && self.maybe_commit().should_bcast_commit()
                ==> self.maybe_commit().bcast_append_ok()
        }
        &&& self.react_sends(r) ==> self.react_commit(r).append_to_ok(
            self.react_commit(r).prs().at(from),
        )
    }

    /// After the reaction to a message from `from` was carried out.
    pub open spec fn react(self, from: u64, r: ReactionView) -> RaftView<T> {
        let s = self.react_commit(r);
        let sent = if self.react_sends(r) {
            s.send_append_to(from)
        } else {
            s
        };
        sent.send_all(r.more_to_send)
    }

    /// What is left of the proposal `es`, of which only one configuration change is let
    /// through, and only if none is pending; and the index of that change.
    pub open spec fn admitted(self, es: Seq<EntryView>) -> (Seq<EntryView>, u64)
        decreases es.len(),
    {
        if es.len() == 0 {
            (Seq::empty(), self.pending_conf_index)
        } else {
            let (rest, pending) = self.admitted(es.drop_last());
            if es.last().entry_type != EntryType::EntryConfChange {
                (rest.push(es.last()), pending)
            } else if pending >= self.raft_log.applied || self.pending_membership_change is Some {
                (rest.push(EntryView::empty()), pending)
            } else {
                (rest.push(es.last()), (self.raft_log.last() + es.len()) as u64)
            }
        }
    }

    /// With the index of the configuration change that a proposal brings.
    pub open spec fn admitting(self, es: Seq<EntryView>) -> RaftView<T> {
        RaftView { pending_conf_index: self.admitted(es).1, ..self }
    }

    /// Whether the leader takes proposals: it is a voter, and transfers nothing.
    pub open spec fn takes_proposals(self) -> bool {
        self.promotable() && self.lead_transferee is None
    }

    /// Whether the proposal `es` can be handled: it is not empty, and can be put in.
    pub open spec fn propose_ok(self, es: Seq<EntryView>) -> bool {
        &&& es.len() > 0
        &&& self.takes_proposals() ==> {
            &&& self.admitting(es).append_entry_ok(self.admitted(es).0)
            &&& self.admitting(es).append_entry(self.admitted(es).0).bcast_append_ok()
        }
    }

    /// After the leader put in and sent the proposal `es`, or dropped it.
    pub open spec fn propose(self, es: Seq<EntryView>) -> (RaftView<T>, Result<(), ErrorView>) {
        if self.takes_proposals() {
            (self.admitting(es).append_entry(self.admitted(es).0).bcast_append(), Ok(()))
        } else {
            (self, dropped())
        }
    }

    /// With one more answer to a read.
    pub open spec fn answer_read(self, index: u64, m: MessageView) -> RaftView<T> {
        RaftView {
            read_states: self.read_states.push(
                ReadStateView { index, request_ctx: m.entries[0].data },
            ),
            ..self
        }
    }

    /// Whether the leader has committed an entry of its term.
    pub open spec fn committed_in_term(self) -> bool {
        self.raft_log.term(self.raft_log.committed) == self.term
    }

    /// Whether this node is a quorum by itself.
    pub open spec fn is_alone(self) -> bool {
        self.prs().has_quorum(Set::<u64>::empty().insert(self.id))
    }

    /// Whether a read is passed back to the node that made it, with no look at its context.
    pub open spec fn leases_remotely(self, m: MessageView) -> bool {
        !self.is_alone() && self.read_only.option == ReadOnlyOption::LeaseBased
            && !is_own_read(self.id, m.from)
    }

    /// Whether the read request `m` can be handled: it has a context.
    pub open spec fn read_index_ok(self, m: MessageView) -> bool {
        self.committed_in_term() && !self.leases_remotely(m) ==> m.entries.len() > 0
    }

    /// With the read request `m` in the queue.
    pub open spec fn with_read(self, m: MessageView) -> RaftView<T> {
        RaftView { read_only: self.read_only.add_request(self.raft_log.committed, m), ..self }
    }

    /// After the leader answered the read request `m`, or asked the other nodes first.
    pub open spec fn read_index(self, m: MessageView) -> RaftView<T> {
        if !self.committed_in_term() {
            self
        } else if self.is_alone() {
            self.answer_read(self.raft_log.committed, m)
        } else if self.read_only.option == ReadOnlyOption::Safe {
            self.with_read(m).bcast_heartbeat_with_ctx(Some(m.entries[0].data))
        } else if is_own_read(self.id, m.from) {
            self.answer_read(self.raft_log.committed, m)
        } else {
            self.send(read_response(m, self.raft_log.committed))
        }
    }

    /// After the leader checked that a quorum is active: it steps down without one.
    pub open spec fn check_active(self) -> RaftView<T> {
        let s = self.with_prs(self.prs().checked(self.id));
        if self.prs().has_quorum(self.prs().active(self.id)) {
            s
        } else {
            s.become_follower(self.term, INVALID_ID)
        }
    }

    /// Whether the leader can handle `m`.
    pub open spec fn step_leader_ok(self, m: MessageView) -> bool {
        if m.msg_type == MessageType::MsgBeat || m.msg_type == MessageType::MsgCheckQuorum {
            true
        } else if m.msg_type == MessageType::MsgPropose {
            self.propose_ok(m.entries)
        } else if m.msg_type == MessageType::MsgReadIndex {
            self.read_index_ok(m)
        } else {
            let c = self.check_message(m);
            self.check_message_ok(m) && c.0.react_ok(m.from, c.1)
        }
    }

    /// After the leader handled `m`.
    pub open spec fn step_leader(self, m: MessageView) -> (RaftView<T>, Result<(), ErrorView>) {
        if m.msg_type == MessageType::MsgBeat {
            (self.bcast_heartbeat(), Ok(()))
        } else if m.msg_type == MessageType::MsgCheckQuorum {
            (self.check_active(), Ok(()))
        } else if m.msg_type == MessageType::MsgPropose {
            self.propose(m.entries)
        } else if m.msg_type == MessageType::MsgReadIndex {
            (self.read_index(m), Ok(()))
        } else {
            let c = self.check_message(m);
            (c.0.react(m.from, c.1), Ok(()))
        }
    }
}

// Messages to candidates and followers.
impl<T: Storage> RaftView<T> {
    /// Whether `m` answers a request that this candidate made.
    pub open spec fn is_vote_for_me(self, m: MessageView) -> bool {
        if self.state == StateRole::PreCandidate {
            m.msg_type == MessageType::MsgRequestPreVoteResponse
        } else {
            m.msg_type == MessageType::MsgRequestVoteResponse
        }
    }

    /// With the vote that `m` brings.
    pub open spec fn with_vote(self, m: MessageView) -> RaftView<T> {
        self.register_vote(m.from, !m.reject)
    }

    /// Whether the votes can be counted with that of `m`.
    pub open spec fn count_vote_ok(self, m: MessageView) -> bool {
        let s = self.with_vote(m);
        s.candidacy() == CandidacyStatus::Elected ==> if self.state == StateRole::PreCandidate {
            s.campaign_ok(election())
        } else {
            s.become_leader_ok() && s.become_leader().bcast_append_ok()
        }
    }

    /// After the votes were counted with that of `m`.
    pub open spec fn count_vote(self, m: MessageView) -> RaftView<T> {
        let s = self.with_vote(m);
        match s.candidacy() {
            CandidacyStatus::Elected => if self.state == StateRole::PreCandidate {
                s.campaign(election())
            } else {
                s.become_leader().bcast_append()
            },
            CandidacyStatus::Ineligible => s.become_follower(s.term, INVALID_ID),
            CandidacyStatus::Eligible => s,
        }
    }

    /// Whether a candidate can handle `m`: a message of a leader is of its term.
    pub open spec fn step_candidate_ok(self, m: MessageView) -> bool {
        if is_leader_msg(m.msg_type) {
            self.term == m.term && self.become_follower(m.term, m.from).from_leader_ok(m)
        } else {
            self.is_vote_for_me(m) ==> self.count_vote_ok(m)
        }
    }

    /// After a candidate handled `m`.
    pub open spec fn step_candidate(self, m: MessageView) -> (RaftView<T>, Result<(), ErrorView>) {
        if m.msg_type == MessageType::MsgPropose {
            (self, dropped())
        } else if is_leader_msg(m.msg_type) {
            (self.become_follower(m.term, m.from).from_leader(m), Ok(()))
        } else if self.is_vote_for_me(m) {
            (self.count_vote(m), Ok(()))
        } else {
            (self, Ok(()))
        }
    }

    /// As a follower that has heard of the leader `from`.
    pub open spec fn heard_of(self, from: u64) -> RaftView<T> {
        RaftView { election_elapsed: 0, leader_id: from, ..self }
    }

    /// Whether a message is passed on to the leader.
    pub open spec fn is_passed_on(t: MessageType) -> bool {
        t == MessageType::MsgPropose || t == MessageType::MsgTransferLeader || t
            == MessageType::MsgReadIndex
    }

    /// Whether a follower can handle `m`: what it passes on is a local message.
    pub open spec fn step_follower_ok(self, m: MessageView) -> bool {
        if Self::is_passed_on(m.msg_type) {
            self.leader_id != INVALID_ID ==> m.term == 0
        } else if is_leader_msg(m.msg_type) {
            self.heard_of(m.from).from_leader_ok(m)
        } else if m.msg_type == MessageType::MsgTimeoutNow {
            self.promotable() ==> self.campaign_ok(transfer())
        } else {
            true
        }
    }

    /// After a follower handled `m`.
    pub open spec fn step_follower(self, m: MessageView) -> (RaftView<T>, Result<(), ErrorView>) {
        if Self::is_passed_on(m.msg_type) {
            if self.leader_id != INVALID_ID {
                (self.send(MessageView { to: self.leader_id, ..m }), Ok(()))
            } else if m.msg_type == MessageType::MsgPropose {
                (self, dropped())
            } else {
                (self, Ok(()))
            }
        } else if is_leader_msg(m.msg_type) {
            (self.heard_of(m.from).from_leader(m), Ok(()))
        } else if m.msg_type == MessageType::MsgTimeoutNow && self.promotable() {
            (self.campaign(transfer()), Ok(()))
        } else if m.msg_type == MessageType::MsgReadIndexResp && m.entries.len() == 1 {
            (self.answer_read(m.index, m), Ok(()))
        } else {
            (self, Ok(()))
        }
    }
}

// All messages.
impl<T: Storage> RaftView<T> {
    /// Whether the node may vote for the sender of `m`: it has done so already, or has not
    /// voted and knows no leader, or is asked for a pre-vote for a later term.
    pub open spec fn can_vote(self, m: MessageView) -> bool {
        ||| self.vote == m.from
        ||| self.vote == INVALID_ID && self.leader_id == INVALID_ID
        ||| m.msg_type == MessageType::MsgRequestPreVote && m.term > self.term
    }

    /// Whether this node is a learner, and no voter of a configuration in force.
    pub open spec fn only_learns(self) -> bool {
        self.is_learner && !self.prs().is_voter(self.id)
    }

    /// Whether the node votes for the sender of `m`: it is no mere learner, it may, and the log
    /// of the sender is at least as recent as its own.
    pub open spec fn grants(self, m: MessageView) -> bool {
        !self.only_learns() && self.can_vote(m) && self.raft_log.is_up_to_date(
            m.index,
            m.log_term,
        )
    }

    /// Whether the request `m` for a vote can be answered: the answer has a term.
    pub open spec fn vote_on_ok(self, m: MessageView) -> bool {
        if self.grants(m) {
            m.term != 0
        } else {
            self.term != 0
        }
    }

    /// After the request `m` for a vote was answered: only a vote is remembered, a
    /// pre-vote is not.
    pub open spec fn vote_on(self, m: MessageView) -> RaftView<T> {
        let answer = MessageView::to_node(m.from, vote_answer(m.msg_type));
        if self.grants(m) {
            let s = self.send(MessageView { term: m.term, ..answer });
            if m.msg_type == MessageType::MsgRequestVote {
                RaftView { election_elapsed: 0, vote: m.from, ..s }
            } else {
                s
            }
        } else {
            self.send(MessageView { term: self.term, reject: true, ..answer })
        }
    }

    /// Whether the leader was heard of within an election timeout.
    pub open spec fn hears_leader(self) -> bool {
        self.check_quorum && self.leader_id != INVALID_ID && self.election_elapsed
            < self.election_timeout
    }

    /// Whether a request for a vote in a later term is ignored, as the leader is there; a
    /// transfer of the leadership is not.
    pub open spec fn ignores_vote(self, m: MessageView) -> bool {
        is_vote_request(m.msg_type) && m.context != transfer() && self.hears_leader()
    }

    /// Whether a message of a later term leaves this node in its own.
    pub open spec fn keeps_term(self, m: MessageView) -> bool {
        m.msg_type == MessageType::MsgRequestPreVote || (m.msg_type
            == MessageType::MsgRequestPreVoteResponse && !m.reject)
    }

    /// Whether `m` is handled after its term was looked at.
    pub open spec fn goes_on(self, m: MessageView) -> bool {
        m.term == 0 || m.term == self.term || (m.term > self.term && !self.ignores_vote(m))
    }

    /// After the term of `m` was looked at: a later one is adopted, an earlier one may be
    /// answered with this node's own.
    pub open spec fn check_term(self, m: MessageView) -> RaftView<T> {
        if m.term == 0 || m.term == self.term {
            self
        } else if m.term > self.term {
            if self.ignores_vote(m) || self.keeps_term(m) {
                self
            } else {
                self.become_follower(
                    m.term,
                    if is_leader_msg(m.msg_type) {
                        m.from
                    } else {
                        INVALID_ID
                    },
                )
            }
        } else if (self.check_quorum || self.pre_vote) && (m.msg_type
            == MessageType::MsgHeartbeat || m.msg_type == MessageType::MsgAppend) {
            self.send(MessageView::to_node(m.from, MessageType::MsgAppendResponse))
        } else if m.msg_type == MessageType::MsgRequestPreVote {
            self.send(
                MessageView {
                    term: self.term,
                    reject: true,
                    ..MessageView::to_node(m.from, MessageType::MsgRequestPreVoteResponse)
                },
            )
        } else {
            self
        }
    }

    /// Whether `m` can be handled once its term was looked at.
    pub open spec fn dispatch_ok(self, m: MessageView) -> bool {
        if m.msg_type == MessageType::MsgHup {
            self.hup_ok()
        } else if is_vote_request(m.msg_type) {
            self.vote_on_ok(m)
        } else {
            match self.state {
                StateRole::Follower => self.step_follower_ok(m),
                StateRole::Leader => self.step_leader_ok(m),
                _ => self.step_candidate_ok(m),
            }
        }
    }

    /// After `m` was handled, its term having been looked at.
    pub open spec fn dispatch(self, m: MessageView) -> (RaftView<T>, Result<(), ErrorView>) {
        if m.msg_type == MessageType::MsgHup {
            (self.hup(), Ok(()))
        } else if is_vote_request(m.msg_type) {
            (self.vote_on(m), Ok(()))
        } else {
            match self.state {
                StateRole::Follower => self.step_follower(m),
                StateRole::Leader => self.step_leader(m),
                _ => self.step_candidate(m),
            }
        }
    }

    /// Whether `m` can be handled.
    pub open spec fn step_ok(self, m: MessageView) -> bool {
        self.goes_on(m) ==> self.check_term(m).dispatch_ok(m)
    }

    /// After `m` was handled, and the outcome.
    pub open spec fn step(self, m: MessageView) -> (RaftView<T>, Result<(), ErrorView>) {
        if self.goes_on(m) {
            self.check_term(m).dispatch(m)
        } else {
            (self.check_term(m), Ok(()))
        }
    }
}

// Time.
impl<T: Storage> RaftView<T> {
    /// After one more tick without a leader.
    pub open spec fn waited(self) -> RaftView<T> {
        RaftView { election_elapsed: (self.election_elapsed + 1) as usize, ..self }
    }

    /// Whether the node starts an election, with `timeout` as its election timeout.
    pub open spec fn times_out(self, timeout: usize) -> bool {
        self.election_elapsed >= timeout && self.promotable()
    }

    /// With the count of ticks at its start.
    pub open spec fn restarted(self) -> RaftView<T> {
        RaftView { election_elapsed: 0, ..self }
    }

    /// Whether a node that is not the leader can tick.
    pub open spec fn tick_election_ok(self, timeout: usize) -> bool {
        &&& self.election_elapsed < usize::MAX
        &&& self.waited().times_out(timeout) ==> self.waited().restarted().step_ok(
            local_message(MessageType::MsgHup, self.id),
        )
    }

    /// After a tick of a node that is not the leader, and whether there may be something
    /// to do.
    pub open spec fn tick_election(self, timeout: usize) -> (RaftView<T>, bool) {
        let s = self.waited();
        if s.times_out(timeout) {
            (s.restarted().step(local_message(MessageType::MsgHup, self.id)).0, true)
        } else {
            (s, false)
        }
    }

    /// After one more tick of a leader.
    pub open spec fn led(self) -> RaftView<T> {
        RaftView {
            heartbeat_elapsed: (self.heartbeat_elapsed + 1) as usize,
            ..self.waited()
        }
    }

    /// Whether a period of the quorum check ends.
    pub open spec fn period_ends(self) -> bool {
        self.election_elapsed >= self.election_timeout
    }

    /// After a period of the quorum check: without an active quorum the leader steps down,
    /// and a transfer of the leadership that took that long is given up.
    pub open spec fn end_period(self) -> RaftView<T> {
        let s = self.restarted();
        let checked = if self.check_quorum {
            s.check_active()
        } else {
            s
        };
        if checked.state == StateRole::Leader {
            RaftView { lead_transferee: None, ..checked }
        } else {
            checked
        }
    }

    /// Whether a leader can tick.
    pub open spec fn tick_heartbeat_ok(self) -> bool {
        &&& self.state == StateRole::Leader
        &&& self.election_elapsed < usize::MAX
        &&& self.heartbeat_elapsed < usize::MAX
    }

    /// After a tick of a leader, and whether there may be something to do.
    pub open spec fn tick_heartbeat(self) -> (RaftView<T>, bool) {
        let ends = self.led().period_ends();
        let s = if ends {
            self.led().end_period()
        } else {
            self.led()
        };
        if s.state == StateRole::Leader && s.heartbeat_elapsed >= s.heartbeat_timeout {
            (RaftView { heartbeat_elapsed: 0, ..s }.bcast_heartbeat(), true)
        } else {
            (s, ends && self.check_quorum)
        }
    }

    /// Whether the node can tick, with `timeout` as its election timeout.
    pub open spec fn tick_ok(self, timeout: usize) -> bool {
        if self.state == StateRole::Leader {
            self.tick_heartbeat_ok()
        } else {
            self.tick_election_ok(timeout)
        }
    }

    /// After a tick, and whether there may be something to do.
    pub open spec fn tick(self, timeout: usize) -> (RaftView<T>, bool) {
        if self.state == StateRole::Leader {
            self.tick_heartbeat()
        } else {
            self.tick_election(timeout)
        }
    }

    /// The leader can always handle its own ticks: it sends heartbeats, or checks that a
    /// quorum is active.
    pub proof fn lemma_leader_local(self, t: MessageType)
        requires
            self.state == StateRole::Leader,
            t == MessageType::MsgBeat || t == MessageType::MsgCheckQuorum,
        ensures
            self.step_ok(local_message(t, self.id)),
            t == MessageType::MsgBeat ==> self.step(local_message(t, self.id)).0
                == self.bcast_heartbeat(),
            t == MessageType::MsgCheckQuorum ==> self.step(local_message(t, self.id)).0
                == self.check_active(),
    {
    }
}

/// The name of a kind of configuration change.
pub open spec fn change_name(t: ConfChangeType) -> Seq<char> {
    match t {
        ConfChangeType::AddNode => "AddNode"@,
        ConfChangeType::RemoveNode => "RemoveNode"@,
        ConfChangeType::AddLearnerNode => "AddLearnerNode"@,
        ConfChangeType::BeginMembershipChange => "BeginMembershipChange"@,
        ConfChangeType::FinalizeMembershipChange => "FinalizeMembershipChange"@,
    }
}

/// What is wrong with a change of another kind than the one that was asked for.
pub open spec fn wrong_kind(t: ConfChangeType) -> Seq<char> {
    change_name(t) + " != BeginMembershipChange"@
}

/// What is wrong with `c` as the beginning of a membership change.
pub open spec fn begin_complaint(c: ConfChangeView) -> Option<Seq<char>> {
    if c.change_type != ConfChangeType::BeginMembershipChange {
        Some(wrong_kind(c.change_type))
    } else if c.configuration is None {
        Some("!ConfChange::has_configuration()"@)
    } else if c.start_index == 0 {
        Some("!ConfChange::has_start_index()"@)
    } else {
        None
    }
}

/// What is wrong with `c` as the end of a membership change.
pub open spec fn finalize_complaint(c: ConfChangeView) -> Option<Seq<char>> {
    if c.change_type != ConfChangeType::FinalizeMembershipChange {
        Some(wrong_kind(c.change_type))
    } else if c.configuration is Some {
        Some("ConfChange::has_configuration()"@)
    } else if c.start_index != 0 {
        Some("ConfChange::has_start_index()"@)
    } else {
        None
    }
}

// Membership.
impl<T: Storage> RaftView<T> {
    /// Whether the membership change `c` can be noted: none is under way, or it is the one
    /// at the index of the pending change.
    pub open spec fn note_change_ok(self, c: ConfChangeView) -> bool {
        self.pending_membership_change is None || c.start_index == self.pending_conf_index
    }

    /// With the membership change `c` under way.
    pub open spec fn note_change(self, c: ConfChangeView) -> RaftView<T> {
        RaftView {
            pending_membership_change: Some(c),
            pending_conf_index: if c.start_index > self.pending_conf_index {
                c.start_index
            } else {
                self.pending_conf_index
            },
            ..self
        }
    }

    /// Whether the membership change `c` can begin.
    pub open spec fn begin_membership_change_ok(self, c: ConfChangeView) -> bool {
        begin_complaint(c) is None ==> self.note_change_ok(c)
    }

    /// After the membership change `c` began, with two configurations in force, or was
    /// refused.
    pub open spec fn begin_membership_change(self, c: ConfChangeView) -> (
        RaftView<T>,
        Result<(), ErrorView>,
    ) {
        match begin_complaint(c) {
            Some(text) => (self, Err(ErrorView::ViolatesContract(text))),
            None => {
                let s = self.note_change(c);
                let next = ConfigurationView::from_conf_state(c.configuration->0);
                match s.prs().begin_error(next) {
                    Some(e) => (s, Err(e)),
                    None => (
                        s.with_prs(
                            s.prs().begin_change(next, ProgressView::new(1, self.max_inflight)),
                        ),
                        Ok(()),
                    ),
                }
            },
        }
    }

    /// Without a leader that the next configuration leaves out: it steps down, or is
    /// forgotten.
    pub open spec fn without_old_leader(self, next: ConfigurationView) -> RaftView<T> {
        if next.contains(self.leader_id) {
            self
        } else if self.state == StateRole::Leader {
            self.become_follower(self.raft_log.last_term(), INVALID_ID)
        } else {
            RaftView { leader_id: INVALID_ID, ..self }
        }
    }

    /// After the membership change ended, with only the next configuration in force, or
    /// `c` was refused. A voter of that configuration is no learner any more.
    pub open spec fn finalize_membership_change(self, c: ConfChangeView) -> (
        RaftView<T>,
        Result<(), ErrorView>,
    ) {
        match finalize_complaint(c) {
            Some(text) => (self, Err(ErrorView::ViolatesContract(text))),
            None => match self.prs().next_configuration {
                None => (self, Err(ErrorView::NoPendingMembershipChange)),
                Some(next) => {
                    let s = self.without_old_leader(next);
                    (
                        RaftView {
                            pending_membership_change: None,
                            is_learner: self.is_learner && !next.voters.contains(self.id),
                            ..s.with_prs(s.prs().finalize_change())
                        },
                        Ok(()),
                    )
                },
            },
        }
    }

    /// The proposal of a membership change to `conf`.
    pub open spec fn change_proposal(self, conf: ConfStateView) -> MessageView {
        let index = (self.raft_log.last() + 1) as u64;
        MessageView {
            msg_type: MessageType::MsgPropose,
            from: self.id,
            index,
            entries: seq![change_entry(ConfChangeView::begin(index, conf))],
            ..MessageView::empty()
        }
    }

    /// Whether a membership change to `c` can be proposed.
    pub open spec fn propose_membership_change_ok(self, c: ConfigurationView) -> bool {
        self.state == StateRole::Leader && c.validity() is Ok ==> self.step_ok(
            self.change_proposal(c.to_conf_state()),
        )
    }

    /// After the leader proposed a membership change to `c`, or refused to.
    pub open spec fn propose_membership_change(self, c: ConfigurationView) -> (
        RaftView<T>,
        Result<(), ErrorView>,
    ) {
        if self.state != StateRole::Leader {
            (self, Err(ErrorView::InvalidState(self.state)))
        } else {
            match c.validity() {
                Err(e) => (self, Err(e)),
                Ok(_) => self.step(self.change_proposal(c.to_conf_state())),
            }
        }
    }

    /// The progress of a node that joins.
    pub open spec fn joining(self) -> ProgressView {
        ProgressView::new((self.raft_log.last() + 1) as u64, self.max_inflight)
    }

    /// Why the node `id` cannot be added: it is in the cluster already, or a membership
    /// change is under way.
    pub open spec fn add_error(self, id: u64) -> Option<ErrorView> {
        self.prs().insert_error(id)
    }

    /// The cluster with the new node `id`.
    pub open spec fn added_prs(self, id: u64, learner: bool) -> ProgressSetView {
        if learner {
            self.prs().insert_learner(id, self.joining())
        } else {
            self.prs().insert_voter(id, self.joining())
        }
    }

    /// After the node `id` was added, or refused. It counts as active at first.
    pub open spec fn add_voter_or_learner(self, id: u64, learner: bool) -> (
        RaftView<T>,
        Result<(), ErrorView>,
    ) {
        let prs = self.added_prs(id, learner);
        match self.add_error(id) {
            Some(e) => (self, Err(e)),
            None => (
                RaftView {
                    is_learner: if self.id == id {
                        learner
                    } else {
                        self.is_learner
                    },
                    ..self.with_prs(
                        prs.set(id, ProgressView { recent_active: true, ..prs.at(id) }),
                    )
                },
                Ok(()),
            ),
        }
    }

    /// Without the node `id`.
    pub open spec fn removed(self, id: u64) -> RaftView<T> {
        self.with_prs(self.prs().remove(id))
    }

    /// Whether no node is left.
    pub open spec fn is_empty(self) -> bool {
        self.prs().voter_ids().len() == 0 && self.prs().learner_ids().len() == 0
    }

    /// Whether the node `id` can be removed: a voter is left, or no node at all.
    pub open spec fn remove_node_ok(self, id: u64) -> bool {
        let s = self.removed(id);
        self.prs().remove_error(id) is None && !s.is_empty() ==> {
            &&& s.maybe_commit_ok()
            &&& s.can_commit() ==> s.maybe_commit().bcast_append_ok()
        }
    }

    /// After the node `id` was removed, or was not there: the quorum is smaller then, and
    /// more may be committed.
    pub open spec fn remove_node(self, id: u64) -> (RaftView<T>, Result<(), ErrorView>) {
        match self.prs().remove_error(id) {
            Some(e) => (self, Err(e)),
            None => {
                let s = self.removed(id);
                let c = if s.can_commit() {
                    s.maybe_commit().bcast_append()
                } else {
                    s
                };
                if s.is_empty() {
                    (s, Ok(()))
                } else if self.state == StateRole::Leader && self.lead_transferee == Some(id) {
                    (RaftView { lead_transferee: None, ..c }, Ok(()))
                } else {
                    (c, Ok(()))
                }
            },
        }
    }

    /// After a node with that progress was put in.
    pub open spec fn set_progress(
        self,
        id: u64,
        matched: u64,
        next_idx: u64,
        is_learner: bool,
    ) -> RaftView<T> {
        let p = ProgressView { matched, ..ProgressView::new(next_idx, self.max_inflight) };
        self.with_prs(
            if is_learner {
                self.prs().insert_learner(id, p)
            } else {
                self.prs().insert_voter(id, p)
            },
        )
    }
}

/// The voters that a node starts with: those of the store, or of the configuration.
pub open spec fn first_voters(c: Config, conf: ConfStateView) -> Seq<u64> {
    if conf.nodes.len() == 0 && conf.learners.len() == 0 {
        c.peers@
    } else {
        conf.nodes
    }
}

/// The learners that a node starts with: those of the store, or of the configuration.
pub open spec fn first_learners(c: Config, conf: ConfStateView) -> Seq<u64> {
    if conf.nodes.len() == 0 && conf.learners.len() == 0 {
        c.learners@
    } else {
        conf.learners
    }
}

/// The progress of a cluster at the start.
pub open spec fn first_prs(
    voters: Seq<u64>,
    learners: Seq<u64>,
    max_inflight: usize,
) -> ProgressSetView {
    ProgressSetView {
        ids: voters + learners,
        progress: Seq::new(
            voters.len() + learners.len(),
            |i: int| ProgressView::new(1, max_inflight),
        ),
        configuration: ConfigurationView { voters, learners },
        next_configuration: None,
    }
}

// The start.
impl<T: Storage> RaftView<T> {
    /// A node without a cluster, with nothing set, over `store`.
    pub open spec fn zero(store: T) -> RaftView<T> {
        RaftView {
            term: 0,
            vote: INVALID_ID,
            id: INVALID_ID,
            read_states: Seq::empty(),
            raft_log: RaftLogView {
                store,
                unstable: UnstableView { snapshot: None, entries: Seq::empty(), offset: 0 },
                committed: 0,
                applied: 0,
            },
            max_inflight: 0,
            max_msg_size: 0,
            progress: None,
            state: StateRole::Follower,
            is_learner: false,
            votes: Map::empty(),
            msgs: Seq::empty(),
            leader_id: INVALID_ID,
            lead_transferee: None,
            pending_conf_index: 0,
            pending_membership_change: None,
            read_only: ReadOnlyView::new(ReadOnlyOption::Safe),
            election_elapsed: 0,
            heartbeat_elapsed: 0,
            check_quorum: false,
            pre_vote: false,
            skip_bcast_commit: false,
            heartbeat_timeout: 0,
            election_timeout: 0,
            min_election_timeout: 0,
            max_election_timeout: 0,
        }
    }

    /// The log at the start: that of the store, committed and applied as far as was saved.
    pub open spec fn first_log(store: T, hs: HardState, applied: u64) -> RaftLogView<T> {
        let log = RaftLogView::of_store(store);
        RaftLogView {
            committed: if hs == HardState::empty() {
                log.committed
            } else {
                hs.commit
            },
            ..log
        }.applied_to(applied)
    }

    /// A node that knows nothing but its configuration, its log and its cluster.
    pub open spec fn blank(
        c: Config,
        log: RaftLogView<T>,
        voters: Seq<u64>,
        learners: Seq<u64>,
    ) -> RaftView<T> {
        RaftView {
            term: 0,
            vote: INVALID_ID,
            id: c.id,
            read_states: Seq::empty(),
            raft_log: log,
            max_inflight: c.max_inflight_msgs,
            max_msg_size: c.max_size_per_msg,
            progress: Some(first_prs(voters, learners, c.max_inflight_msgs)),
            state: StateRole::Follower,
            is_learner: learners.contains(c.id),
            votes: Map::empty(),
            msgs: Seq::empty(),
            leader_id: INVALID_ID,
            lead_transferee: None,
            pending_conf_index: 0,
            pending_membership_change: None,
            read_only: ReadOnlyView::new(c.read_only_option),
            election_elapsed: 0,
            heartbeat_elapsed: 0,
            check_quorum: c.check_quorum,
            pre_vote: c.pre_vote,
            skip_bcast_commit: c.skip_bcast_commit,
            heartbeat_timeout: c.heartbeat_tick,
            election_timeout: c.election_tick,
            min_election_timeout: c.min_timeout() as usize,
            max_election_timeout: c.max_timeout() as usize,
        }
    }

    /// The node at the start, before a membership change is taken up again.
    pub open spec fn first_state(c: Config, store: T, st: RaftStateView) -> RaftView<T> {
        let s = Self::blank(
            c,
            Self::first_log(store, st.hard_state, c.applied),
            first_voters(c, st.conf_state),
            first_learners(c, st.conf_state),
        );
        RaftView { term: st.hard_state.term, vote: st.hard_state.vote, ..s }.become_follower(
            st.hard_state.term,
            INVALID_ID,
        )
    }

    /// Whether a node can start from what the store has saved: the store answers, the
    /// cluster is given once and names each node once, and what was saved fits the log.
    pub open spec fn first_state_ok(c: Config, store: T, st: RaftStateView) -> bool {
        let voters = first_voters(c, st.conf_state);
        let learners = first_learners(c, st.conf_state);
        let log = RaftLogView::of_store(store);
        let committed = if st.hard_state == HardState::empty() {
            log.committed
        } else {
            st.hard_state.commit
        };
        &&& store.spec_first_index() matches Ok(f) && f >= 1
        &&& store.spec_last_index() matches Ok(l) && l < u64::MAX
        &&& log.wf()
        &&& c.peers@.len() == 0 && c.learners@.len() == 0 || st.conf_state
            == ConfStateView::empty()
        &&& voters.no_duplicates()
        &&& learners.no_duplicates()
        &&& forall|id: u64| !(#[trigger] voters.contains(id) && learners.contains(id))
        &&& log.committed <= committed <= log.last()
        &&& c.applied > 0 ==> log.applied <= c.applied <= committed
    }

    /// Whether a node can start: what the store has saved fits, and a membership change
    /// was saved with its index, if at all.
    pub open spec fn new_ok(c: Config, store: T) -> bool {
        &&& c.ticks_fit()
        &&& c.validity() is Ok ==> match store.spec_initial_state() {
            Err(_) => true,
            Ok(st) => {
                &&& Self::first_state_ok(c, store, st)
                &&& st.pending_conf_state is Some <==> st.pending_conf_state_start_index is Some
            },
        }
    }

    /// The node at the start, or why there is none.
    pub open spec fn new(c: Config, store: T) -> Result<RaftView<T>, ErrorView> {
        match c.validity() {
            Err(e) => Err(e),
            Ok(_) => match store.spec_initial_state() {
                Err(e) => Err(e),
                Ok(st) => {
                    let s = Self::first_state(c, store, st);
                    match (st.pending_conf_state, st.pending_conf_state_start_index) {
                        (Some(conf), Some(index)) => {
                            let r = s.begin_membership_change(ConfChangeView::begin(index, conf));
                            match r.1 {
                                Ok(_) => Ok(r.0),
                                Err(e) => Err(e),
                            }
                        },
                        _ => Ok(s),
                    }
                },
            },
        }
    }
}

// Facts that the operations need.
impl<T: Storage> RaftView<T> {
    /// A node starts with the store that it was given, and nothing to be saved.
    pub proof fn lemma_new_store(c: Config, store: T)
        requires
            Self::new_ok(c, store),
        ensures
            Self::new(c, store) matches Ok(s) ==> {
                &&& s.raft_log.store == store
                &&& store.spec_last_index() is Ok
                &&& s.raft_log.last() == store.spec_last_index()->Ok_0
            },
    {
    }

    /// A proposal keeps its length.
    pub proof fn lemma_admitted_len(self, es: Seq<EntryView>)
        ensures
            self.admitted(es).0.len() == es.len(),
        decreases es.len(),
    {
        if es.len() > 0 {
            self.lemma_admitted_len(es.drop_last());
        }
    }

    /// Entries are sent only to a peer that is known, and the messages at the end are such
    /// as can be sent.
    pub proof fn lemma_reaction(self, m: MessageView)
        requires
            self.wf(),
        ensures
            ({
                let (s, r) = self.check_message(m);
                &&& r.send_append || r.old_paused ==> s.prs().has(m.from)
                &&& forall|i: int|
                    0 <= i < r.more_to_send.len() ==> s.send_ok(#[trigger] r.more_to_send[i])
            }),
    {
        let rss = RaftView {
            read_only: self.read_only.recv_ack(m),
            ..self
        }.read_only.answered(m.context);
        lemma_remote_reads(self.id, rss);
    }
}

/// The answers to reads that were made elsewhere are such answers.
pub proof fn lemma_remote_reads(id: u64, rss: Seq<ReadIndexStatusView>)
    ensures
        forall|i: int|
            0 <= i < remote_reads(id, rss).len() ==> (#[trigger] remote_reads(id, rss)[i]).term
                == 0 && remote_reads(id, rss)[i].msg_type == MessageType::MsgReadIndexResp,
    decreases rss.len(),
{
    if rss.len() > 0 {
        let rest = remote_reads(id, rss.drop_last());
        lemma_remote_reads(id, rss.drop_last());
        assert forall|i: int| 0 <= i < remote_reads(id, rss).len() implies (
        #[trigger] remote_reads(id, rss)[i]).term == 0 && remote_reads(id, rss)[i].msg_type
            == MessageType::MsgReadIndexResp by {
            if i < rest.len() {
                assert(remote_reads(id, rss)[i] == rest[i]);
            }
        }
    }
}

} // verus!
