//! The consensus of a node.
use crate::codec::encode_conf_change;
use crate::collections::{votes_clear, votes_insert, votes_new, AckSet, VoteMap};
use crate::config::Config;
use crate::eraftpb::{
    bytes_equal, clone_bytes, clone_entries, entries_view, messages_view, opt_bytes_view,
    opt_change_view, ConfChange, ConfChangeType, ConfChangeView, Entry,
    EntryType, EntryView, HardState, Message, MessageType, MessageView, Snapshot,
};
use crate::errors::{unit_result, Error, ErrorView};
use crate::log_unstable::Unstable;
use crate::progress::{Progress, ProgressState, ProgressView};
use crate::progress_set::{contains, CandidacyStatus, Configuration, ProgressSet, ProgressSetView};
use crate::raft_log::{indexes_ok, RaftLog, RaftLogView};
use crate::raft_model::{
    change_entry, change_name, conf_changes, election, first_prs, is_leader_msg, is_vote_request,
    lemma_campaign_names, own_reads, pre_election, remote_reads, sendable, transfer, vote_answer,
    wrong_kind, RaftView, ReactionView,
};
use crate::read_only::{
    read_states_view, statuses_view, ReadIndexStatus, ReadIndexStatusView, ReadOnly,
    ReadOnlyOption, ReadState, ReadStateView,
};
use crate::storage::{RaftState, Storage};
use crate::text::join;
use crate::util::NO_LIMIT;
use rand::Rng;
use vstd::prelude::*;

verus! {

/// The role of a node.
#[derive(Debug, PartialEq, Eq, Structural, Clone, Copy)]
pub enum StateRole {
    /// The node follows a leader.
    Follower,
    /// The node could become the leader.
    Candidate,
    /// The node is the leader.
    Leader,
    /// The node could become a candidate, where pre-votes are in use.
    PreCandidate,
}

impl Default for StateRole {
    fn default() -> (r: StateRole)
        ensures
            r == StateRole::Follower,
    {
        StateRole::Follower
    }
}

/// The id that no node has.
pub const INVALID_ID: u64 = 0;

/// The index that no entry has.
pub const INVALID_INDEX: u64 = 0;

/// State that need not be saved.
#[derive(Debug, PartialEq, Eq, Structural, Clone, Copy)]
pub struct SoftState {
    /// The leader; 0 if it is not known.
    pub leader_id: u64,
    /// The role of the node.
    pub raft_state: StateRole,
}

impl Default for SoftState {
    fn default() -> (r: SoftState)
        ensures
            r == (SoftState { leader_id: 0, raft_state: StateRole::Follower }),
    {
        SoftState { leader_id: 0, raft_state: StateRole::Follower }
    }
}

/// A node of the cluster.
pub struct Raft<T: Storage> {
    /// The current term.
    pub term: u64,
    /// The node that got the vote in this term; 0 if none did.
    pub vote: u64,
    /// The id of this node.
    pub id: u64,
    /// The read requests that can be answered.
    pub read_states: Vec<ReadState>,
    /// The log.
    pub raft_log: RaftLog<T>,
    /// How many messages may be on their way to a peer.
    pub max_inflight: usize,
    /// How many bytes of entries a message may hold.
    pub max_msg_size: u64,
    /// The progress of each node of the cluster, unless it is taken.
    pub prs: Option<ProgressSet>,
    /// The role.
    pub state: StateRole,
    /// Whether this node is a learner.
    ///
    /// Learners have no say in elections, and do not count for quorums. They do get the entries.
    /// The mark stays until the end of a membership change that makes the node a voter.
    pub is_learner: bool,
    /// The votes of the current election.
    pub votes: VoteMap,
    /// The messages that are to be sent.
    pub msgs: Vec<Message>,
    /// The leader; 0 if it is not known.
    pub leader_id: u64,
    /// The node that the leadership is being transferred to.
    pub lead_transferee: Option<u64>,
    /// No configuration change behind this index is in the log without being applied.
    ///
    /// Only one change may be pending at a time: changes are let through only when the
    /// applied index is greater than this one. It is set to the end of the log when there may
    /// be a change in it, and need not be the index of a change.
    pub pending_conf_index: u64,
    /// The membership change under way.
    pub pending_membership_change: Option<ConfChange>,
    /// The read requests that wait for a quorum.
    pub read_only: ReadOnly,
    /// Ticks since the last election timeout, or since the leader was heard of.
    pub election_elapsed: usize,
    /// Ticks since the last heartbeat was sent.
    pub heartbeat_elapsed: usize,
    /// Whether a leader steps down without an active quorum.
    pub check_quorum: bool,
    /// Whether a round of pre-votes comes before an election.
    pub pre_vote: bool,
    /// Whether a new commit index is not broadcast at once.
    pub skip_bcast_commit: bool,
    /// Ticks between heartbeats.
    pub heartbeat_timeout: usize,
    /// Ticks of an election timeout.
    pub election_timeout: usize,
    /// The ticks after which this node starts an election; drawn anew with each change of
    /// role.
    pub randomized_election_timeout: usize,
    /// The least randomized election timeout.
    pub min_election_timeout: usize,
    /// The bound that the randomized election timeout stays below.
    pub max_election_timeout: usize,
}

impl<T: Storage> View for Raft<T> {
    type V = RaftView<T>;

    open spec fn view(&self) -> RaftView<T> {
        RaftView {
            term: self.term,
            vote: self.vote,
            id: self.id,
            read_states: read_states_view(self.read_states@),
            raft_log: self.raft_log@,
            max_inflight: self.max_inflight,
            max_msg_size: self.max_msg_size,
            progress: match self.prs {
                Some(p) => Some(p@),
                None => None,
            },
            state: self.state,
            is_learner: self.is_learner,
            votes: self.votes@,
            msgs: messages_view(self.msgs@),
            leader_id: self.leader_id,
            lead_transferee: self.lead_transferee,
            pending_conf_index: self.pending_conf_index,
            pending_membership_change: opt_change_view(self.pending_membership_change),
            read_only: self.read_only@,
            election_elapsed: self.election_elapsed,
            heartbeat_elapsed: self.heartbeat_elapsed,
            check_quorum: self.check_quorum,
            pre_vote: self.pre_vote,
            skip_bcast_commit: self.skip_bcast_commit,
            heartbeat_timeout: self.heartbeat_timeout,
            election_timeout: self.election_timeout,
            min_election_timeout: self.min_election_timeout,
            max_election_timeout: self.max_election_timeout,
        }
    }
}

impl<T: Storage + Default> Default for Raft<T> {
    fn default() -> (r: Raft<T>)
        ensures
            call_ensures(T::default, (), r@.raft_log.store),
            r@ == RaftView::zero(r@.raft_log.store),
            r.randomized_election_timeout == 0,
    {
        let r = Raft {
            term: 0,
            vote: INVALID_ID,
            id: INVALID_ID,
            read_states: Vec::new(),
            raft_log: RaftLog {
                store: T::default(),
                unstable: Unstable::new(0),
                committed: 0,
                applied: 0,
            },
            max_inflight: 0,
            max_msg_size: 0,
            prs: None,
            state: StateRole::Follower,
            is_learner: false,
            votes: votes_new(),
            msgs: Vec::new(),
            leader_id: INVALID_ID,
            lead_transferee: None,
            pending_conf_index: 0,
            pending_membership_change: None,
            read_only: ReadOnly::new(ReadOnlyOption::Safe),
            election_elapsed: 0,
            heartbeat_elapsed: 0,
            check_quorum: false,
            pre_vote: false,
            skip_bcast_commit: false,
            heartbeat_timeout: 0,
            election_timeout: 0,
            randomized_election_timeout: 0,
            min_election_timeout: 0,
            max_election_timeout: 0,
        };
        assert(r@ =~= RaftView::zero(r@.raft_log.store));
        r
    }
}

/// What a message of a peer makes the leader do.
pub struct Reaction {
    /// Entries are to be sent to the peer.
    pub send_append: bool,
    /// Sending to the peer was paused.
    pub old_paused: bool,
    /// More entries may be committed.
    pub maybe_commit: bool,
    /// The messages that are to be sent at the end.
    pub more_to_send: Vec<Message>,
}

impl View for Reaction {
    type V = ReactionView;

    open spec fn view(&self) -> ReactionView {
        ReactionView {
            send_append: self.send_append,
            old_paused: self.old_paused,
            maybe_commit: self.maybe_commit,
            more_to_send: messages_view(self.more_to_send@),
        }
    }
}

impl Reaction {
    /// Nothing is to be done.
    fn none() -> (r: Reaction)
        ensures
            r@ == ReactionView::none(),
    {
        let r = Reaction {
            send_append: false,
            old_paused: false,
            maybe_commit: false,
            more_to_send: Vec::new(),
        };
        assert(r@ =~= ReactionView::none());
        r
    }
}

/// Returns a message of type `field_type` for the node `to`.
fn new_message(to: u64, field_type: MessageType, from: Option<u64>) -> (m: Message)
    ensures
        m@ == (MessageView {
            from: match from {
                Some(id) => id,
                None => 0,
            },
            ..MessageView::to_node(to, field_type)
        }),
{
    let mut m = Message::new();
    m.to = to;
    if let Some(id) = from {
        m.from = id;
    }
    m.msg_type = field_type;
    m
}

/// Returns the type of the answer to a request for a vote or a pre-vote.
pub fn vote_resp_msg_type(t: MessageType) -> (r: MessageType)
    requires
        is_vote_request(t),
    ensures
        r == vote_answer(t),
{
    match t {
        MessageType::MsgRequestVote => MessageType::MsgRequestVoteResponse,
        _ => MessageType::MsgRequestPreVoteResponse,
    }
}

/// Draws a number with `Rng::gen_range` of the generator that `rand::thread_rng` returns.
/// Its documentation promises a number from `low` on, below `high`, and that it panics
/// where `low` is not below `high`. Nothing is said of which number it is.
#[verifier::external_body]
fn random_between(low: usize, high: usize) -> (r: usize)
    requires
        low < high,
    ensures
        low <= r < high,
{
    rand::thread_rng().gen_range(low, high)
}

// Sending.
impl<T: Storage> Raft<T> {
    /// The invariant of a node: that of its state, and of the randomized election timeout.
    pub open spec fn wf(&self) -> bool {
        &&& self@.wf()
        &&& self.min_election_timeout <= self.randomized_election_timeout
            < self.max_election_timeout
    }

    /// Whether the randomized election timeout is the one that `other` had.
    pub open spec fn same_timeout(&self, other: &Raft<T>) -> bool {
        self.randomized_election_timeout == other.randomized_election_timeout
    }

    /// Whether the randomized election timeout is the one that `before` had, unless the term
    /// or the role has changed.
    pub open spec fn timeout_rule(&self, before: &Raft<T>) -> bool {
        self@.term == before@.term && self@.state == before@.state ==> self.same_timeout(before)
    }

    /// Takes the progress of the cluster out of the node.
    pub fn take_prs(&mut self) -> (r: ProgressSet)
        requires
            old(self)@.progress is Some,
        ensures
            r@ == old(self)@.prs(),
            final(self)@ == (RaftView { progress: None, ..old(self)@ }),
            final(self).same_timeout(old(self)),
    {
        self.prs.take().unwrap()
    }

    /// Puts a progress of the cluster into the node.
    pub fn set_prs(&mut self, prs: ProgressSet)
        ensures
            final(self)@ == old(self)@.with_prs(prs@),
            final(self).same_timeout(old(self)),
    {
        self.prs = Some(prs);
    }

    /// Returns the progress of the cluster.
    pub fn prs(&self) -> (r: &ProgressSet)
        requires
            self@.progress is Some,
        ensures
            r@ == self@.prs(),
    {
        self.prs.as_ref().unwrap()
    }

    /// Returns the progress of the cluster for changes.
    pub fn mut_prs(&mut self) -> (r: &mut ProgressSet)
        requires
            old(self)@.progress is Some,
        ensures
            r@ == old(self)@.prs(),
            final(self)@ == old(self)@.with_prs(final(r)@),
            final(self).same_timeout(old(self)),
    {
        self.prs.as_mut().unwrap()
    }

    /// Sends a message: stamps it, and puts it to those that are to be sent.
    fn send(&mut self, m: Message)
        requires
            old(self)@.send_ok(m@),
        ensures
            final(self)@ == old(self)@.send(m@),
            final(self).same_timeout(old(self)),
    {
        let ghost before = self.msgs@;
        let mut m = m;
        m.from = self.id;
        if m.msg_type != MessageType::MsgRequestVote && m.msg_type
            != MessageType::MsgRequestPreVote && m.msg_type != MessageType::MsgRequestVoteResponse
            && m.msg_type != MessageType::MsgRequestPreVoteResponse && m.msg_type
            != MessageType::MsgPropose && m.msg_type != MessageType::MsgReadIndex {
            m.term = self.term;
        }
        let ghost sent = m@;
        self.msgs.push(m);
        assert(messages_view(self.msgs@) =~= messages_view(before).push(sent));
    }

    /// Makes `m` a message with a snapshot, and returns whether there is one to send.
    fn prepare_send_snapshot(&mut self, m: &mut Message, pr: &mut Progress, to: u64) -> (r: bool)
        requires
            old(pr)@.wf(),
            old(m)@ == MessageView::to_node(to, MessageType::MsgHup),
            old(pr)@.recent_active ==> sendable(old(self)@.raft_log.snapshot()),
        ensures
            *final(self) == *old(self),
            r == (old(pr)@.recent_active && old(self)@.raft_log.snapshot() is Ok),
            r ==> {
                let s = old(self)@.raft_log.snapshot()->Ok_0;
                final(pr)@ == old(pr)@.become_snapshot(s.metadata.index) && final(m)@
                    == old(self)@.snapshot_message(to, s)
            },
            !r ==> final(pr)@ == old(pr)@,
            final(pr)@.wf(),
    {
        if !pr.recent_active {
            return false;
        }
        m.msg_type = MessageType::MsgSnapshot;
        match self.raft_log.snapshot() {
            Err(_) => false,
            Ok(snapshot) => {
                pr.become_snapshot(snapshot.metadata.index);
                m.snapshot = snapshot;
                true
            },
        }
    }

    /// Makes `m` a message with entries.
    fn prepare_send_entries(&mut self, m: &mut Message, pr: &mut Progress, term: u64, ents: Vec<
        Entry,
    >)
        requires
            old(pr)@.wf(),
            !old(pr)@.is_paused(),
            indexes_ok(entries_view(ents@)),
            old(m)@ == MessageView::to_node(old(m)@.to, MessageType::MsgHup),
            term == old(self)@.raft_log.term((old(pr)@.next_idx - 1) as u64),
        ensures
            *final(self) == *old(self),
            final(pr)@ == old(self)@.progress_after(old(pr)@, entries_view(ents@)),
            final(m)@ == old(self)@.entries_message(
                old(m)@.to,
                old(pr)@,
                entries_view(ents@),
            ),
            final(pr)@.wf(),
    {
        let ghost es = entries_view(ents@);
        assert(ents@.len() == es.len());
        m.msg_type = MessageType::MsgAppend;
        m.index = pr.next_idx - 1;
        m.log_term = term;
        m.commit = self.raft_log.committed;
        if ents.len() > 0 {
            let last: u64 = ents[ents.len() - 1].index;
            assert(es.last() == ents@.last()@);
            match pr.state {
                ProgressState::Replicate => {
                    pr.optimistic_update(last);
                    pr.ins.add(last);
                },
                _ => {
                    pr.pause();
                },
            }
        }
        m.entries = ents;
    }

    /// Sends entries to the peer `to`, which has progress `pr`, or a snapshot in their place.
    pub fn send_append(&mut self, to: u64, pr: &mut Progress)
        requires
            old(self)@.raft_log.wf(),
            old(pr)@.wf(),
            old(self)@.append_to_ok(old(pr)@),
        ensures
            final(pr)@ == old(self)@.append_to(to, old(pr)@).0,
            final(pr)@.wf(),
            final(self)@ == old(self)@.send_some(old(self)@.append_to(to, old(pr)@).1),
            final(self).same_timeout(old(self)),
    {
        if pr.is_paused() {
            return;
        }
        let term = self.raft_log.term(pr.next_idx - 1);
        let ents = self.raft_log.entries(pr.next_idx, self.max_msg_size);
        let mut m = new_message(to, MessageType::MsgHup, None);
        match (term, ents) {
            (Ok(term), Ok(ents)) => {
                self.prepare_send_entries(&mut m, pr, term, ents);
            },
            _ => {
                if !self.prepare_send_snapshot(&mut m, pr, to) {
                    return;
                }
            },
        }
        self.send(m);
    }

    /// Sends a heartbeat to the peer `to`, which has progress `pr`. Its commit index goes
    /// no further than what the peer is known to have.
    fn send_heartbeat(&mut self, to: u64, pr: &Progress, ctx: &Option<Vec<u8>>)
        ensures
            final(self)@ == old(self)@.send(
                old(self)@.heartbeat_message(to, pr@, opt_bytes_view(*ctx)),
            ),
            final(self).same_timeout(old(self)),
    {
        let mut m = new_message(to, MessageType::MsgHeartbeat, None);
        m.commit = if pr.matched < self.raft_log.committed {
            pr.matched
        } else {
            self.raft_log.committed
        };
        if let Some(context) = ctx {
            m.context = clone_bytes(context);
        }
        self.send(m);
    }

    /// Sends entries to all other nodes.
    pub fn bcast_append(&mut self)
        requires
            old(self).wf(),
            old(self)@.bcast_append_ok(),
        ensures
            final(self)@ == old(self)@.bcast_append(),
            final(self).wf(),
            final(self).same_timeout(old(self)),
    {
        let ghost s = self@;
        let ghost timeout = self.randomized_election_timeout;
        let self_id: u64 = self.id;
        let mut prs = self.take_prs();
        let mut i: usize = 0;
        let n: usize = prs.ids.len();
        assert(s.msgs + s.append_msgs(0) =~= s.msgs);
        while i < n
            invariant
                s.wf(),
                forall|k: int|
                    0 <= k < s.prs().progress.len() && s.prs().ids[k] != s.id ==> s.append_to_ok(
                        #[trigger] s.prs().progress[k],
                    ),
                i <= n,
                n == s.prs().ids.len(),
                prs.ids@ == s.prs().ids,
                prs.progress@.len() == n,
                prs@.configuration == s.prs().configuration,
                prs@.next_configuration == s.prs().next_configuration,
                self_id == s.id,
                forall|k: int| 0 <= k < n ==> (#[trigger] prs@.progress[k]).wf(),
                forall|k: int|
                    0 <= k < n ==> #[trigger] prs@.progress[k] == (if k < i {
                        s.append_progress()[k]
                    } else {
                        s.prs().progress[k]
                    }),
                self@ == (RaftView {
                    progress: None,
                    msgs: s.msgs + s.append_msgs(i as int),
                    ..s
                }),
                self.randomized_election_timeout == timeout,
            decreases n - i,
        {
            let id: u64 = prs.ids[i];
            let ghost before = prs@.progress;
            assert(before[i as int] == s.prs().progress[i as int]);
            if id != self_id {
                assert(self@.append_to(id, before[i as int]) == s.append_to(id, before[i as int]));
                self.send_append(id, &mut prs.progress[i]);
                assert(prs@.progress =~= before.update(
                    i as int,
                    s.append_to(id, before[i as int]).0,
                ));
                assert(self@.msgs =~= s.msgs + s.append_msgs(i + 1));
            } else {
                assert(s.append_msgs(i + 1) == s.append_msgs(i as int));
            }
            i += 1;
        }
        assert(prs@ =~= ProgressSetView { progress: s.append_progress(), ..s.prs() });
        self.set_prs(prs);
    }
}

/// Returns the name of the first phase of an election.
fn campaign_pre_election() -> (r: Vec<u8>)
    ensures
        r@ == pre_election(),
{
    let r: Vec<u8> = vec![
        67, 97, 109, 112, 97, 105, 103, 110, 80, 114, 101, 69, 108, 101, 99, 116, 105, 111, 110,
    ];
    proof {
        reveal_strlit("CampaignPreElection");
    }
    assert(r@ =~= pre_election());
    r
}

/// Returns the name of an election.
fn campaign_election() -> (r: Vec<u8>)
    ensures
        r@ == election(),
{
    let r: Vec<u8> = vec![
        67, 97, 109, 112, 97, 105, 103, 110, 69, 108, 101, 99, 116, 105, 111, 110,
    ];
    proof {
        reveal_strlit("CampaignElection");
    }
    assert(r@ =~= election());
    r
}

/// Returns the name of an election that the leader asked for.
fn campaign_transfer() -> (r: Vec<u8>)
    ensures
        r@ == transfer(),
{
    let r: Vec<u8> = vec![
        67, 97, 109, 112, 97, 105, 103, 110, 84, 114, 97, 110, 115, 102, 101, 114,
    ];
    proof {
        reveal_strlit("CampaignTransfer");
    }
    assert(r@ =~= transfer());
    r
}

// Heartbeats, and the log.
impl<T: Storage> Raft<T> {
    /// Sends a heartbeat to all other nodes, with the context of the last read that waits.
    pub fn bcast_heartbeat(&mut self)
        requires
            old(self).wf(),
        ensures
            final(self)@ == old(self)@.bcast_heartbeat(),
            final(self).wf(),
            final(self).same_timeout(old(self)),
    {
        let ctx = self.read_only.last_pending_request_ctx();
        self.bcast_heartbeat_with_ctx(ctx);
    }

    /// Sends a heartbeat with context `ctx` to all other nodes.
    fn bcast_heartbeat_with_ctx(&mut self, ctx: Option<Vec<u8>>)
        requires
            old(self).wf(),
        ensures
            final(self)@ == old(self)@.bcast_heartbeat_with_ctx(opt_bytes_view(ctx)),
            final(self).wf(),
            final(self).same_timeout(old(self)),
    {
        let ghost s = self@;
        let ghost timeout = self.randomized_election_timeout;
        let ghost c = opt_bytes_view(ctx);
        let self_id: u64 = self.id;
        let prs = self.take_prs();
        let mut i: usize = 0;
        assert(s.msgs + s.heartbeat_msgs(c, 0) =~= s.msgs);
        while i < prs.ids.len()
            invariant
                s.wf(),
                prs@ == s.prs(),
                self_id == s.id,
                c == opt_bytes_view(ctx),
                i <= prs.ids.len(),
                self@ == (RaftView {
                    progress: None,
                    msgs: s.msgs + s.heartbeat_msgs(c, i as int),
                    ..s
                }),
                self.randomized_election_timeout == timeout,
            decreases prs.ids.len() - i,
        {
            let id: u64 = prs.ids[i];
            if id != self_id {
                assert(prs@.progress.len() == prs.progress@.len());
                assert(prs@.progress[i as int] == prs.progress@[i as int]@);
                self.send_heartbeat(id, &prs.progress[i], &ctx);
                assert(self@.msgs =~= s.msgs + s.heartbeat_msgs(c, i + 1));
            } else {
                assert(s.heartbeat_msgs(c, i + 1) == s.heartbeat_msgs(c, i as int));
            }
            i += 1;
        }
        self.set_prs(prs);
    }

    /// Commits what a quorum has of this term; returns whether that is more than before, in
    /// which case the caller should broadcast.
    pub fn maybe_commit(&mut self) -> (r: bool)
        requires
            old(self).wf(),
            old(self)@.maybe_commit_ok(),
        ensures
            r == old(self)@.can_commit(),
            final(self)@ == old(self)@.maybe_commit(),
            final(self).wf(),
            final(self).same_timeout(old(self)),
    {
        let mci: u64 = self.prs().maximal_committed_index();
        let term: u64 = self.term;
        self.raft_log.maybe_commit(mci, term)
    }

    /// Puts entries in at the end of the log. Their terms and indexes are set.
    pub fn append_entry(&mut self, es: &mut Vec<Entry>)
        requires
            old(self).wf(),
            old(self)@.append_entry_ok(entries_view(old(es)@)),
        ensures
            entries_view(final(es)@) == old(self)@.numbered(entries_view(old(es)@)),
            final(self)@ == old(self)@.append_entry(entries_view(old(es)@)),
            final(self).wf(),
            final(self).same_timeout(old(self)),
    {
        let ghost s = self@;
        let ghost given = entries_view(es@);
        let li: u64 = self.raft_log.last_index();
        let term: u64 = self.term;
        let mut i: usize = 0;
        assert(given.len() == es.len());
        while i < es.len()
            invariant
                i <= es.len(),
                es.len() == given.len(),
                li == s.raft_log.last(),
                term == s.term,
                li + given.len() < u64::MAX,
                forall|k: int|
                    0 <= k < given.len() ==> #[trigger] entries_view(es@)[k] == (if k < i {
                        s.numbered(given)[k]
                    } else {
                        given[k]
                    }),
            decreases es.len() - i,
        {
            let ghost before = entries_view(es@);
            assert(before[i as int] == es@[i as int]@);
            es[i].term = term;
            es[i].index = li + 1 + i as u64;
            assert(es@[i as int]@ =~= s.numbered(given)[i as int]);
            assert(entries_view(es@) =~= before.update(i as int, s.numbered(given)[i as int]));
            i += 1;
        }
        assert(entries_view(es@) =~= s.numbered(given));
        let copy = clone_entries(es, 0, es.len());
        assert(entries_view(copy@) =~= s.numbered(given));
        assert forall|k: int| 0 <= k < given.len() implies (#[trigger] s.numbered(
            given,
        )[k]).index < u64::MAX by {}
        let last: u64 = self.raft_log.append(copy);
        let self_id: u64 = self.id;
        proof {
            s.prs().lemma_set(s.id, s.prs().at(s.id).update_to(last));
        }
        assert(s.prs().at(s.id).wf()) by {
            assert(s.prs().ids.contains(s.id));
        }
        let pr = self.mut_prs().get_mut(self_id).unwrap();
        pr.maybe_update(last);
        assert(self@ =~= s.with_entries(given));
        self.maybe_commit();
    }

    /// Puts in the end of the membership change, and sends it.
    fn append_finalize_conf_change_entry(&mut self)
        requires
            old(self).wf(),
            old(self)@.append_finalize_ok(),
        ensures
            final(self)@ == old(self)@.append_finalize(),
            final(self).wf(),
            final(self).same_timeout(old(self)),
    {
        let mut conf_change = ConfChange::new();
        conf_change.change_type = ConfChangeType::FinalizeMembershipChange;
        let data = encode_conf_change(&conf_change);
        let mut entry = Entry::new();
        entry.entry_type = EntryType::EntryConfChange;
        entry.data = data;
        let mut es = vec![entry];
        assert(entries_view(es@) =~= seq![
            change_entry(ConfChangeView::finalize()),
        ]);
        self.append_entry(&mut es);
        self.bcast_append();
    }

    /// Whether the entries up to `index` reach to where the membership change under way
    /// began.
    fn is_change_due(&self, index: u64) -> (r: bool)
        ensures
            r == self@.is_change_due(index),
    {
        match &self.pending_membership_change {
            Some(c) => index >= c.start_index,
            None => false,
        }
    }

    /// Notes that the entries up to `applied` were applied. A leader then ends the
    /// membership change that began there.
    pub fn commit_apply(&mut self, applied: u64)
        requires
            old(self).wf(),
            old(self)@.commit_apply_ok(applied),
        ensures
            final(self)@ == old(self)@.commit_apply(applied),
            final(self).wf(),
            final(self).same_timeout(old(self)),
    {
        self.raft_log.applied_to(applied);
        if self.is_change_due(applied) && self.state == StateRole::Leader {
            self.append_finalize_conf_change_entry();
        }
    }

    /// Whether a configuration change may be in the log without being applied. It may be
    /// that there is none: only an applied index that is greater than that of the last change
    /// tells for sure.
    pub fn has_pending_conf(&self) -> (r: bool)
        ensures
            r == self@.has_pending_conf(),
    {
        self.pending_conf_index >= self.raft_log.applied || self.pending_membership_change.is_some()
    }

    /// Whether a new commit index is broadcast at once.
    pub fn should_bcast_commit(&self) -> (r: bool)
        ensures
            r == self@.should_bcast_commit(),
    {
        !self.skip_bcast_commit || self.has_pending_conf()
    }
}

// Roles.
impl<T: Storage> Raft<T> {
    /// Draws the election timeout anew.
    pub fn reset_randomized_election_timeout(&mut self)
        requires
            old(self).min_election_timeout < old(self).max_election_timeout,
        ensures
            final(self)@ == old(self)@,
            old(self).min_election_timeout <= final(self).randomized_election_timeout
                < old(self).max_election_timeout,
    {
        let timeout: usize = random_between(self.min_election_timeout, self.max_election_timeout);
        self.set_randomized_election_timeout(timeout);
    }

    /// Sets the election timeout.
    pub fn set_randomized_election_timeout(&mut self, t: usize)
        requires
            old(self).min_election_timeout <= t < old(self).max_election_timeout,
        ensures
            *final(self) == (Raft { randomized_election_timeout: t, ..*old(self) }),
    {
        self.randomized_election_timeout = t;
    }

    /// Ends the transfer of the leadership.
    pub fn abort_leader_transfer(&mut self)
        ensures
            *final(self) == (Raft { lead_transferee: None, ..*old(self) }),
    {
        self.lead_transferee = None;
    }

    /// Puts the node at the start of `term`.
    pub fn reset(&mut self, term: u64)
        requires
            old(self).wf(),
        ensures
            final(self)@ == old(self)@.reset(term),
            final(self).wf(),
    {
        if self.term != term {
            self.term = term;
            self.vote = INVALID_ID;
        }
        self.leader_id = INVALID_ID;
        self.reset_randomized_election_timeout();
        self.election_elapsed = 0;
        self.heartbeat_elapsed = 0;
        self.abort_leader_transfer();
        votes_clear(&mut self.votes);
        self.pending_conf_index = 0;
        self.read_only = ReadOnly::new(self.read_only.option);
        let last_index: u64 = self.raft_log.last_index();
        let self_id: u64 = self.id;
        self.mut_prs().reset(self_id, last_index);
    }

    /// Makes the node a follower of `leader_id` in `term`.
    pub fn become_follower(&mut self, term: u64, leader_id: u64)
        requires
            old(self).wf(),
        ensures
            final(self)@ == old(self)@.become_follower(term, leader_id),
            final(self).wf(),
    {
        self.reset(term);
        self.leader_id = leader_id;
        self.state = StateRole::Follower;
    }

    /// Makes the node a candidate in the next term.
    pub fn become_candidate(&mut self)
        requires
            old(self).wf(),
            old(self)@.become_candidate_ok(),
        ensures
            final(self)@ == old(self)@.become_candidate(),
            final(self).wf(),
    {
        let term: u64 = self.term + 1;
        self.reset(term);
        self.vote = self.id;
        self.state = StateRole::Candidate;
    }

    /// Makes the node a pre-candidate. The term and the vote stay.
    pub fn become_pre_candidate(&mut self)
        requires
            old(self)@.state != StateRole::Leader,
        ensures
            final(self)@ == old(self)@.become_pre_candidate(),
            final(self).same_timeout(old(self)),
    {
        self.state = StateRole::PreCandidate;
        self.votes = votes_new();
        self.leader_id = INVALID_ID;
    }

    /// Makes the node the leader. It puts in an entry of its own, and the end of a
    /// membership change whose beginning is committed.
    pub fn become_leader(&mut self)
        requires
            old(self).wf(),
            old(self)@.become_leader_ok(),
        ensures
            final(self)@ == old(self)@.become_leader(),
            final(self).wf(),
    {
        let ghost s = self@;
        let term: u64 = self.term;
        self.reset(term);
        let ghost r = self@;
        self.leader_id = self.id;
        self.state = StateRole::Leader;
        let id: u64 = self.id;
        proof {
            r.prs().lemma_set(r.id, r.prs().at(r.id).become_replicate());
        }
        assert(r.prs().at(r.id).wf()) by {
            assert(r.prs().ids.contains(r.id));
        }
        self.mut_prs().get_mut(id).unwrap().become_replicate();
        self.pending_conf_index = self.raft_log.last_index();
        assert(self@ =~= s.leading());
        let mut es = vec![Entry::new()];
        assert(entries_view(es@) =~= seq![EntryView::empty()]);
        self.append_entry(&mut es);
        let committed: u64 = self.raft_log.committed;
        if self.is_change_due(committed) {
            self.append_finalize_conf_change_entry();
        }
    }

    /// Returns how many of `ents` are configuration changes.
    fn num_pending_conf(&self, ents: &Vec<Entry>) -> (r: usize)
        ensures
            r == conf_changes(entries_view(ents@)),
    {
        let ghost es = entries_view(ents@);
        let mut n: usize = 0;
        let mut i: usize = 0;
        assert(es.take(0) =~= Seq::<EntryView>::empty());
        while i < ents.len()
            invariant
                i <= ents.len(),
                es == entries_view(ents@),
                n == conf_changes(es.take(i as int)),
                n <= i,
            decreases ents.len() - i,
        {
            assert(es.take(i + 1).drop_last() =~= es.take(i as int));
            assert(es.take(i + 1).last() == ents@[i as int]@);
            if ents[i].entry_type == EntryType::EntryConfChange {
                n += 1;
            }
            i += 1;
        }
        assert(es.take(ents.len() as int) =~= es);
        n
    }

    /// Sets the vote of `id` to `vote`.
    fn register_vote(&mut self, id: u64, vote: bool)
        ensures
            final(self)@ == old(self)@.register_vote(id, vote),
            final(self).same_timeout(old(self)),
    {
        votes_insert(&mut self.votes, id, vote);
    }

    /// Asks all other voters for a vote.
    fn request_votes(&mut self, vote_msg: MessageType, term: u64, campaign_type: &[u8])
        requires
            old(self).wf(),
            is_vote_request(vote_msg),
            term != 0,
        ensures
            final(self)@ == old(self)@.request_votes(vote_msg, term, campaign_type@),
            final(self).wf(),
            final(self).same_timeout(old(self)),
    {
        let ghost s = self@;
        let ghost timeout = self.randomized_election_timeout;
        let name = campaign_transfer();
        let is_transfer = bytes_equal(campaign_type, name.as_slice());
        let self_id: u64 = self.id;
        let ids = self.prs().voter_ids();
        let mut i: usize = 0;
        assert(ids@.take(0) =~= Seq::<u64>::empty());
        assert(s.msgs + s.vote_requests(ids@.take(0), vote_msg, term, campaign_type@) =~= s.msgs);
        while i < ids.len()
            invariant
                s.wf(),
                self_id == s.id,
                i <= ids.len(),
                is_vote_request(vote_msg),
                term != 0,
                is_transfer == (campaign_type@ == transfer()),
                name@ == transfer(),
                self@ == (RaftView {
                    msgs: s.msgs + s.vote_requests(
                        ids@.take(i as int),
                        vote_msg,
                        term,
                        campaign_type@,
                    ),
                    ..s
                }),
                self.randomized_election_timeout == timeout,
            decreases ids.len() - i,
        {
            let id: u64 = ids[i];
            assert(ids@.take(i + 1).drop_last() =~= ids@.take(i as int));
            if id != self_id {
                let mut m = new_message(id, vote_msg, None);
                m.term = term;
                m.index = self.raft_log.last_index();
                m.log_term = self.raft_log.last_term();
                if is_transfer {
                    m.context = clone_bytes(&name);
                }
                self.send(m);
                assert(self@.msgs =~= s.msgs + s.vote_requests(
                    ids@.take(i + 1),
                    vote_msg,
                    term,
                    campaign_type@,
                ));
            }
            i += 1;
        }
        assert(ids@.take(ids.len() as int) =~= ids@);
    }

    /// Stands for election: the own vote may be enough.
    fn elect(&mut self, campaign_type: &[u8])
        requires
            old(self).wf(),
            old(self)@.elect_ok(),
        ensures
            final(self)@ == old(self)@.elect(campaign_type@),
            final(self).wf(),
            final(self).timeout_rule(old(self)),
    {
        proof {
            self@.lemma_elect(campaign_type@);
        }
        let self_id: u64 = self.id;
        self.become_candidate();
        self.register_vote(self_id, true);
        match self.prs().candidacy_status(&self.votes) {
            CandidacyStatus::Elected => {
                self.become_leader();
            },
            _ => {
                let term: u64 = self.term;
                self.request_votes(MessageType::MsgRequestVote, term, campaign_type);
            },
        }
    }

    /// Campaigns to become the leader, with pre-votes first or at once.
    pub fn campaign(&mut self, campaign_type: &[u8])
        requires
            old(self).wf(),
            old(self)@.campaign_ok(campaign_type@),
        ensures
            final(self)@ == old(self)@.campaign(campaign_type@),
            final(self).wf(),
            final(self).timeout_rule(old(self)),
    {
        proof {
            if campaign_type@ == pre_election() && self@.pre_standing().candidacy()
                == CandidacyStatus::Elected {
                self@.pre_standing().lemma_elect(election());
            }
        }
        let name = campaign_pre_election();
        if !bytes_equal(campaign_type, name.as_slice()) {
            self.elect(campaign_type);
            return;
        }
        let self_id: u64 = self.id;
        self.become_pre_candidate();
        self.register_vote(self_id, true);
        match self.prs().candidacy_status(&self.votes) {
            CandidacyStatus::Elected => {
                let name = campaign_election();
                self.elect(name.as_slice());
            },
            _ => {
                let term: u64 = self.term + 1;
                self.request_votes(MessageType::MsgRequestPreVote, term, campaign_type);
            },
        }
    }

    /// Whether this node is a voter, and so can become the leader.
    pub fn promotable(&self) -> (r: bool)
        requires
            self@.progress is Some,
        ensures
            r == self@.promotable(),
    {
        let ids = self.prs().voter_ids();
        contains(&ids, self.id)
    }

    /// Starts a campaign, unless the node is the leader, or still has to apply a
    /// configuration change.
    fn hup(&mut self)
        requires
            old(self).wf(),
            old(self)@.hup_ok(),
        ensures
            final(self)@ == old(self)@.hup(),
            final(self).wf(),
            final(self).timeout_rule(old(self)),
    {
        if self.state == StateRole::Leader {
            return;
        }
        let low: u64 = self.raft_log.applied + 1;
        let high: u64 = self.raft_log.committed + 1;
        let ents = match self.raft_log.slice(low, high, NO_LIMIT) {
            Ok(ents) => ents,
            Err(_) => Vec::new(),
        };
        let n: usize = self.num_pending_conf(&ents);
        if n != 0 && self.raft_log.committed > self.raft_log.applied {
            return;
        }
        let kind = if self.pre_vote {
            campaign_pre_election()
        } else {
            campaign_election()
        };
        self.campaign(kind.as_slice());
    }
}

// Messages from a leader.
impl<T: Storage> Raft<T> {
    /// Takes in the entries of `m`, or refuses them, and answers.
    pub fn handle_append_entries(&mut self, m: &Message)
        requires
            old(self).wf(),
            old(self)@.handle_append_entries_ok(m@),
        ensures
            final(self)@ == old(self)@.handle_append_entries(m@),
            final(self).wf(),
            final(self).same_timeout(old(self)),
    {
        let mut to_send = new_message(m.from, MessageType::MsgAppendResponse, None);
        if m.index < self.raft_log.committed {
            to_send.index = self.raft_log.committed;
            self.send(to_send);
            return;
        }
        assert(m@.entries.len() == m.entries@.len());
        match self.raft_log.maybe_append(m.index, m.log_term, m.commit, &m.entries) {
            Some(mlast_index) => {
                to_send.index = mlast_index;
                self.send(to_send);
            },
            None => {
                to_send.index = m.index;
                to_send.reject = true;
                to_send.reject_hint = self.raft_log.last_index();
                self.send(to_send);
            },
        }
    }

    /// Commits as far as the heartbeat `m` says, and answers.
    pub fn handle_heartbeat(&mut self, m: Message)
        requires
            old(self).wf(),
            old(self)@.raft_log.commit_ok(m@.commit),
        ensures
            final(self)@ == old(self)@.handle_heartbeat(m@),
            final(self).wf(),
            final(self).same_timeout(old(self)),
    {
        self.raft_log.commit_to(m.commit);
        let mut to_send = new_message(m.from, MessageType::MsgHeartbeatResponse, None);
        to_send.context = m.context;
        self.send(to_send);
    }

    /// Handles the snapshot of `m`, and answers.
    fn handle_snapshot(&mut self, m: Message)
        requires
            old(self).wf(),
            old(self)@.restore_ok(m@.snapshot),
        ensures
            final(self)@ == old(self)@.handle_snapshot(m@),
            final(self).wf(),
            final(self).same_timeout(old(self)),
    {
        let mut to_send = new_message(m.from, MessageType::MsgAppendResponse, None);
        if self.restore(m.snapshot) {
            to_send.index = self.raft_log.last_index();
        } else {
            to_send.index = self.raft_log.committed;
        }
        self.send(to_send);
    }

    /// Takes over the cluster of a snapshot. Returns nothing then; returns `false` where
    /// the snapshot only shows what is committed, or is ignored.
    fn restore_raft(&mut self, snap: &Snapshot) -> (r: Option<bool>)
        requires
            old(self).wf(),
            old(self)@.restore_ok(snap@),
            snap@.metadata.index >= old(self)@.raft_log.committed,
        ensures
            r == (if old(self)@.restores(snap@) {
                None::<bool>
            } else {
                Some(false)
            }),
            final(self)@ == (if old(self)@.restores(snap@) {
                old(self)@.restore_raft(snap@.metadata)
            } else {
                old(self)@.restore(snap@)
            }),
            final(self).wf(),
            final(self).same_timeout(old(self)),
    {
        let ghost s = self@;
        let meta = &snap.metadata;
        if self.raft_log.match_term(meta.index, meta.term) {
            self.raft_log.commit_to(meta.index);
            return Some(false);
        }
        if self.prs().ids.len() != 0 && !self.is_learner {
            if contains(&meta.conf_state.learners, self.id) {
                return Some(false);
            }
        }
        let next_idx: u64 = self.raft_log.last_index() + 1;
        let mut prs = ProgressSet::restore_snapmeta(meta, next_idx, self.max_inflight);
        let ghost fresh = prs@;
        let ghost own = ProgressView { matched: (next_idx - 1) as u64, ..fresh.at(s.id) };
        assert(fresh.at(s.id).wf()) by {
            assert(fresh.ids.contains(s.id));
        }
        proof {
            fresh.lemma_set(s.id, own);
        }
        let self_id: u64 = self.id;
        prs.get_mut(self_id).unwrap().matched = next_idx - 1;
        assert(prs@ == fresh.set(s.id, own));
        if self.is_learner && contains(&prs.configuration.voters, self_id) {
            self.is_learner = false;
        }
        self.set_prs(prs);
        if meta.pending_membership_change_index > 0 {
            let conf_change = ConfChange::begin(
                meta.pending_membership_change_index,
                meta.pending_membership_change.clone(),
            );
            self.note_change(conf_change);
        }
        None
    }

    /// Puts a snapshot in the place of the log, with its cluster. Returns whether that was
    /// done: a snapshot that is older than what is committed, or that the log has already,
    /// or that would make a voter a learner, is not taken.
    pub fn restore(&mut self, snap: Snapshot) -> (r: bool)
        requires
            old(self).wf(),
            old(self)@.restore_ok(snap@),
        ensures
            r == old(self)@.restores(snap@),
            final(self)@ == old(self)@.restore(snap@),
            final(self).wf(),
            final(self).same_timeout(old(self)),
    {
        if snap.metadata.index < self.raft_log.committed {
            return false;
        }
        if let Some(b) = self.restore_raft(&snap) {
            return b;
        }
        self.raft_log.restore(snap);
        true
    }

    /// Handles the message `m` of a leader.
    fn from_leader(&mut self, m: Message)
        requires
            old(self).wf(),
            is_leader_msg(m@.msg_type),
            old(self)@.from_leader_ok(m@),
        ensures
            final(self)@ == old(self)@.from_leader(m@),
            final(self).wf(),
            final(self).same_timeout(old(self)),
    {
        match m.msg_type {
            MessageType::MsgAppend => {
                self.handle_append_entries(&m);
            },
            MessageType::MsgHeartbeat => {
                self.handle_heartbeat(m);
            },
            _ => {
                self.handle_snapshot(m);
            },
        }
    }
}

// Messages to a leader.
impl<T: Storage> Raft<T> {
    /// Asks the node `to` to start an election at once.
    pub fn send_timeout_now(&mut self, to: u64)
        ensures
            final(self)@ == old(self)@.timeout_now(to),
            final(self).same_timeout(old(self)),
    {
        let msg = new_message(to, MessageType::MsgTimeoutNow, None);
        self.send(msg);
    }

    /// Handles the answer `m` to entries.
    fn handle_append_response(&mut self, m: &Message) -> (r: Reaction)
        requires
            old(self).wf(),
            old(self)@.prs().has(m@.from),
            old(self)@.append_response_ok(m@),
        ensures
            (final(self)@, r@) == old(self)@.handle_append_response(m@),
            final(self).wf(),
            final(self).same_timeout(old(self)),
    {
        let ghost s = self@;
        let mut r = Reaction::none();
        let mut prs = self.take_prs();
        assert(s.prs().at(m@.from).wf()) by {
            assert(s.prs().ids.contains(m@.from));
        }
        let pr = prs.get_mut(m.from).unwrap();
        pr.recent_active = true;
        if m.reject {
            if pr.maybe_decr_to(m.index, m.reject_hint) {
                if pr.state == ProgressState::Replicate {
                    pr.become_probe();
                }
                r.send_append = true;
            }
        } else {
            r.old_paused = pr.is_paused();
            if pr.maybe_update(m.index) {
                if let Some(lead_transferee) = self.lead_transferee {
                    let last_index: u64 = self.raft_log.last_index();
                    if m.from == lead_transferee && pr.matched == last_index {
                        self.send_timeout_now(m.from);
                    }
                }
                match pr.state {
                    ProgressState::Probe => {
                        pr.become_replicate();
                        r.maybe_commit = true;
                    },
                    ProgressState::Snapshot => {
                        if pr.maybe_snapshot_abort() {
                            pr.become_probe();
                            r.maybe_commit = true;
                        }
                    },
                    ProgressState::Replicate => {
                        pr.ins.free_to(m.index);
                        r.maybe_commit = true;
                    },
                }
            }
        }
        let ghost p1 = pr@;
        assert(p1.wf());
        proof {
            s.prs().lemma_set(m@.from, p1);
        }
        self.set_prs(prs);
        r
    }

    /// Answers the reads of `rss` that were made at this node, and returns the answers to
    /// those that were made elsewhere.
    fn answer_reads(&mut self, rss: &Vec<ReadIndexStatus>) -> (r: Vec<Message>)
        requires
            forall|i: int|
                0 <= i < rss.len() ==> (#[trigger] statuses_view(rss@)[i]).req.entries.len() > 0,
        ensures
            messages_view(r@) == remote_reads(old(self)@.id, statuses_view(rss@)),
            final(self)@ == (RaftView {
                read_states: old(self)@.read_states + own_reads(old(self)@.id, statuses_view(rss@)),
                ..old(self)@
            }),
            final(self).same_timeout(old(self)),
    {
        let ghost s = self@;
        let ghost timeout = self.randomized_election_timeout;
        let ghost all = statuses_view(rss@);
        let mut more: Vec<Message> = Vec::new();
        let mut i: usize = 0;
        assert(messages_view(more@) =~= Seq::<MessageView>::empty());
        assert(all.take(0) =~= Seq::<ReadIndexStatusView>::empty());
        assert(s.read_states + own_reads(s.id, all.take(0)) =~= s.read_states);
        while i < rss.len()
            invariant
                all == statuses_view(rss@),
                forall|k: int|
                    0 <= k < rss.len() ==> (#[trigger] all[k]).req.entries.len() > 0,
                i <= rss.len(),
                messages_view(more@) == remote_reads(s.id, all.take(i as int)),
                self@ == (RaftView {
                    read_states: s.read_states + own_reads(s.id, all.take(i as int)),
                    ..s
                }),
                self.randomized_election_timeout == timeout,
            decreases rss.len() - i,
        {
            assert(all.take(i + 1).drop_last() =~= all.take(i as int));
            assert(all[i as int] == rss@[i as int]@);
            let req = &rss[i].req;
            let ghost before = self.read_states@;
            assert(req@.entries.len() == req.entries@.len());
            if req.from == INVALID_ID || req.from == self.id {
                assert(req@.entries[0] == req.entries@[0]@);
                let rs = ReadState {
                    index: rss[i].index,
                    request_ctx: clone_bytes(&req.entries[0].data),
                };
                let ghost added = rs@;
                self.read_states.push(rs);
                assert(read_states_view(self.read_states@) =~= read_states_view(before).push(
                    added,
                ));
                assert(self@.read_states =~= s.read_states + own_reads(s.id, all.take(i + 1)));
            } else {
                let mut to_send = new_message(req.from, MessageType::MsgReadIndexResp, None);
                to_send.index = rss[i].index;
                to_send.entries = clone_entries(&req.entries, 0, req.entries.len());
                assert(to_send@.entries =~= req@.entries);
                let ghost sent = more@;
                let ghost answer = to_send@;
                more.push(to_send);
                assert(messages_view(more@) =~= messages_view(sent).push(answer));
            }
            i += 1;
        }
        assert(all.take(rss.len() as int) =~= all);
        more
    }

    /// Handles the answer `m` to a heartbeat.
    fn handle_heartbeat_response(&mut self, m: &Message) -> (r: Reaction)
        requires
            old(self).wf(),
            old(self)@.prs().has(m@.from),
        ensures
            (final(self)@, r@) == old(self)@.handle_heartbeat_response(m@),
            final(self).wf(),
            final(self).same_timeout(old(self)),
    {
        let ghost s = self@;
        let mut r = Reaction::none();
        let mut prs = self.take_prs();
        assert(s.prs().at(m@.from).wf()) by {
            assert(s.prs().ids.contains(m@.from));
        }
        let pr = prs.get_mut(m.from).unwrap();
        pr.recent_active = true;
        pr.resume();
        if pr.state == ProgressState::Replicate && pr.ins.full() {
            pr.ins.free_first_one();
        }
        if pr.matched < self.raft_log.last_index() {
            r.send_append = true;
        }
        let ghost p1 = pr@;
        proof {
            s.prs().lemma_set(m@.from, p1);
        }
        self.set_prs(prs);
        if self.read_only.option != ReadOnlyOption::Safe || m.context.len() == 0 {
            return r;
        }
        let acks = self.read_only.recv_ack(m);
        if !self.prs().has_quorum(&acks) {
            return r;
        }
        let ghost ro = self@.read_only;
        let rss = self.read_only.advance(m);
        assert forall|i: int| 0 <= i < rss.len() implies (#[trigger] statuses_view(
            rss@,
        )[i]).req.entries.len() > 0 by {
            let answered = ro.answered(m@.context);
            let key = ro.queue[i];
            assert(answered[i] == ro.pending[key]);
            assert(ro.queue.contains(key));
            assert(ro.pending.contains_key(key));
        }
        r.more_to_send = self.answer_reads(&rss);
        r
    }

    /// Starts the transfer of the leadership that `m` asks for, or refuses it.
    fn handle_transfer_leader(&mut self, m: &Message)
        requires
            old(self).wf(),
            old(self)@.prs().has(m@.from),
            old(self)@.transfer_leader_ok(m@),
        ensures
            final(self)@ == old(self)@.handle_transfer_leader(m@),
            final(self).wf(),
            final(self).same_timeout(old(self)),
    {
        let ghost s = self@;
        let from: u64 = m.from;
        let learners = self.prs().learner_ids();
        if contains(&learners, from) {
            return;
        }
        if let Some(last_lead_transferee) = self.lead_transferee {
            if last_lead_transferee == from {
                return;
            }
            self.abort_leader_transfer();
        }
        if from == self.id {
            return;
        }
        self.election_elapsed = 0;
        self.lead_transferee = Some(from);
        assert(self@ =~= s.transferring(from));
        let matched: u64 = self.prs().get(from).unwrap().matched;
        if matched == self.raft_log.last_index() {
            self.send_timeout_now(from);
        } else {
            self.send_append_to(from);
        }
    }

    /// Sends entries to the node `to` of the cluster.
    fn send_append_to(&mut self, to: u64)
        requires
            old(self).wf(),
            old(self)@.prs().has(to),
            old(self)@.append_to_ok(old(self)@.prs().at(to)),
        ensures
            final(self)@ == old(self)@.send_append_to(to),
            final(self).wf(),
            final(self).same_timeout(old(self)),
    {
        let ghost s = self@;
        let mut prs = self.take_prs();
        assert(s.prs().at(to).wf()) by {
            assert(s.prs().ids.contains(to));
        }
        proof {
            s.prs().lemma_set(to, s.append_to(to, s.prs().at(to)).0);
        }
        let pr = prs.get_mut(to).unwrap();
        self.send_append(to, pr);
        self.set_prs(prs);
    }

    /// Handles the report `m` on a snapshot that was sent to the peer with progress `pr`.
    fn handle_snapshot_status(&mut self, m: &Message, pr: &mut Progress)
        requires
            old(pr)@.wf(),
        ensures
            *final(self) == *old(self),
            final(pr)@ == old(self)@.snapshot_reported(old(pr)@, m@),
            final(pr)@.wf(),
    {
        if m.reject {
            pr.snapshot_failure();
        }
        pr.become_probe();
        pr.pause();
    }

    /// Handles the message `m` of a peer, and returns what follows from it.
    fn check_message_with_progress(&mut self, m: &Message) -> (r: Reaction)
        requires
            old(self).wf(),
            old(self)@.check_message_ok(m@),
        ensures
            (final(self)@, r@) == old(self)@.check_message(m@),
            final(self).wf(),
            final(self).same_timeout(old(self)),
    {
        let ghost s = self@;
        if self.prs().get(m.from).is_none() {
            return Reaction::none();
        }
        assert(s.prs().at(m@.from).wf()) by {
            assert(s.prs().ids.contains(m@.from));
        }
        match m.msg_type {
            MessageType::MsgAppendResponse => self.handle_append_response(m),
            MessageType::MsgHeartbeatResponse => self.handle_heartbeat_response(m),
            MessageType::MsgSnapStatus => {
                let mut prs = self.take_prs();
                let pr = prs.get_mut(m.from).unwrap();
                if pr.state == ProgressState::Snapshot {
                    self.handle_snapshot_status(m, pr);
                }
                let ghost p1 = pr@;
                proof {
                    s.prs().lemma_set(m@.from, p1);
                }
                self.set_prs(prs);
                assert(s.prs().set(m@.from, s.prs().at(m@.from)) =~= s.prs());
                Reaction::none()
            },
            MessageType::MsgUnreachable => {
                let mut prs = self.take_prs();
                let pr = prs.get_mut(m.from).unwrap();
                if pr.state == ProgressState::Replicate {
                    pr.become_probe();
                }
                let ghost p1 = pr@;
                proof {
                    s.prs().lemma_set(m@.from, p1);
                }
                self.set_prs(prs);
                assert(s.prs().set(m@.from, s.prs().at(m@.from)) =~= s.prs());
                Reaction::none()
            },
            MessageType::MsgTransferLeader => {
                self.handle_transfer_leader(m);
                Reaction::none()
            },
            _ => Reaction::none(),
        }
    }

    /// Carries out the reaction to a message from `from`.
    fn react(&mut self, from: u64, r: Reaction)
        requires
            old(self).wf(),
            r@.send_append || r@.old_paused ==> old(self)@.prs().has(from),
            forall|i: int|
                0 <= i < r@.more_to_send.len() ==> old(self)@.send_ok(
                    #[trigger] r@.more_to_send[i],
                ),
            old(self)@.react_ok(from, r@),
        ensures
            final(self)@ == old(self)@.react(from, r@),
            final(self).wf(),
            final(self).same_timeout(old(self)),
    {
        let ghost s = self@;
        let mut send_append = r.send_append;
        if r.maybe_commit {
            if self.maybe_commit() {
                if self.should_bcast_commit() {
                    self.bcast_append();
                    assert(self@.prs().ids == s.prs().ids);
                }
            } else if r.old_paused {
                send_append = true;
            }
        }
        assert(self@ == s.react_commit(r@));
        if send_append {
            self.send_append_to(from);
        }
        self.send_all(&r.more_to_send);
    }

    /// Sends all of `ms`, in their order.
    fn send_all(&mut self, ms: &Vec<Message>)
        requires
            forall|i: int|
                0 <= i < ms.len() ==> old(self)@.send_ok(#[trigger] messages_view(ms@)[i]),
        ensures
            final(self)@ == old(self)@.send_all(messages_view(ms@)),
            final(self).same_timeout(old(self)),
    {
        let ghost s = self@;
        let ghost timeout = self.randomized_election_timeout;
        let ghost all = messages_view(ms@);
        let mut i: usize = 0;
        assert(self@ =~= s.send_all(all.take(0)));
        while i < ms.len()
            invariant
                i <= ms.len(),
                all == messages_view(ms@),
                forall|k: int| 0 <= k < ms.len() ==> s.send_ok(#[trigger] all[k]),
                self@ == s.send_all(all.take(i as int)),
                self.randomized_election_timeout == timeout,
            decreases ms.len() - i,
        {
            assert(all[i as int] == ms@[i as int]@);
            self.send(ms[i].clone());
            assert(self@ =~= s.send_all(all.take(i + 1)));
            i += 1;
        }
        assert(all.take(ms.len() as int) =~= all);
    }

    /// Takes the configuration changes out of a proposal that may not be made now.
    fn hold_back(&mut self, es: &mut Vec<Entry>)
        requires
            old(self)@.raft_log.wf(),
            old(self)@.raft_log.last() + old(es).len() < u64::MAX,
        ensures
            entries_view(final(es)@) == old(self)@.admitted(entries_view(old(es)@)).0,
            final(self)@ == old(self)@.admitting(entries_view(old(es)@)),
            final(self).same_timeout(old(self)),
    {
        let ghost s = self@;
        let ghost timeout = self.randomized_election_timeout;
        let ghost given = entries_view(es@);
        let last: u64 = self.raft_log.last_index();
        let mut i: usize = 0;
        assert(given.take(0) =~= Seq::<EntryView>::empty());
        assert(entries_view(es@) =~= s.admitted(given.take(0)).0 + given.skip(0));
        while i < es.len()
            invariant
                i <= es.len(),
                es.len() == given.len(),
                last == s.raft_log.last(),
                last + given.len() < u64::MAX,
                s.admitted(given.take(i as int)).0.len() == i,
                entries_view(es@) == s.admitted(given.take(i as int)).0 + given.skip(i as int),
                self@ == (RaftView {
                    pending_conf_index: s.admitted(given.take(i as int)).1,
                    ..s
                }),
                self.randomized_election_timeout == timeout,
            decreases es.len() - i,
        {
            let ghost before = entries_view(es@);
            assert(given.take(i + 1).drop_last() =~= given.take(i as int));
            assert(before[i as int] == given[i as int]);
            assert(before[i as int] == es@[i as int]@);
            if es[i].entry_type == EntryType::EntryConfChange {
                if self.has_pending_conf() {
                    es[i] = Entry::new();
                } else {
                    self.pending_conf_index = last + i as u64 + 1;
                }
            }
            assert(entries_view(es@) =~= before.update(i as int, es@[i as int]@));
            assert(entries_view(es@) =~= s.admitted(given.take(i + 1)).0 + given.skip(i + 1));
            i += 1;
        }
        assert(given.take(given.len() as int) =~= given);
        assert(entries_view(es@) =~= s.admitted(given).0);
    }

    /// Puts in and sends the proposal `es`, or drops it.
    fn propose(&mut self, es: Vec<Entry>) -> (r: Result<(), Error>)
        requires
            old(self).wf(),
            old(self)@.propose_ok(entries_view(es@)),
        ensures
            (final(self)@, unit_result(r)) == old(self)@.propose(entries_view(es@)),
            final(self).wf(),
            final(self).same_timeout(old(self)),
    {
        let ghost s = self@;
        let ghost given = entries_view(es@);
        if !self.promotable() {
            return Err(Error::ProposalDropped);
        }
        if self.lead_transferee.is_some() {
            return Err(Error::ProposalDropped);
        }
        proof {
            s.lemma_admitted_len(given);
        }
        assert(given.len() == es@.len());
        let mut es = es;
        self.hold_back(&mut es);
        self.append_entry(&mut es);
        self.bcast_append();
        Ok(())
    }

    /// Answers the read request `m`, or asks the other nodes first.
    fn read_index(&mut self, m: Message)
        requires
            old(self).wf(),
            old(self)@.read_index_ok(m@),
        ensures
            final(self)@ == old(self)@.read_index(m@),
            final(self).wf(),
            final(self).same_timeout(old(self)),
    {
        let committed: u64 = self.raft_log.committed;
        if !self.raft_log.match_term(committed, self.term) {
            return;
        }
        assert(m@.entries.len() == m.entries@.len());
        let self_set = AckSet::singleton(self.id);
        if self.prs().has_quorum(&self_set) {
            self.answer_read(committed, &m);
            return;
        }
        match self.read_only.option {
            ReadOnlyOption::Safe => {
                assert(m@.entries[0] == m.entries@[0]@);
                let ctx = clone_bytes(&m.entries[0].data);
                self.read_only.add_request(committed, m);
                self.bcast_heartbeat_with_ctx(Some(ctx));
            },
            ReadOnlyOption::LeaseBased => {
                if m.from == INVALID_ID || m.from == self.id {
                    self.answer_read(committed, &m);
                } else {
                    let mut to_send = new_message(m.from, MessageType::MsgReadIndexResp, None);
                    to_send.index = committed;
                    to_send.entries = m.entries;
                    self.send(to_send);
                }
            },
        }
    }

    /// Answers the read request `m` at this node.
    fn answer_read(&mut self, index: u64, m: &Message)
        requires
            m@.entries.len() > 0,
        ensures
            final(self)@ == old(self)@.answer_read(index, m@),
            final(self).same_timeout(old(self)),
    {
        assert(m@.entries.len() == m.entries@.len());
        assert(m@.entries[0] == m.entries@[0]@);
        let ghost before = self.read_states@;
        let rs = ReadState { index, request_ctx: clone_bytes(&m.entries[0].data) };
        let ghost added = rs@;
        self.read_states.push(rs);
        assert(read_states_view(self.read_states@) =~= read_states_view(before).push(added));
    }

    /// Returns whether a quorum is active, and starts the next period of the check.
    fn check_quorum_active(&mut self) -> (r: bool)
        requires
            old(self).wf(),
        ensures
            r == old(self)@.prs().has_quorum(old(self)@.prs().active(old(self)@.id)),
            final(self)@ == old(self)@.with_prs(old(self)@.prs().checked(old(self)@.id)),
            final(self).wf(),
            final(self).same_timeout(old(self)),
    {
        let self_id: u64 = self.id;
        self.mut_prs().quorum_recently_active(self_id)
    }

    /// Handles `m` as the leader.
    fn step_leader(&mut self, m: Message) -> (r: Result<(), Error>)
        requires
            old(self).wf(),
            old(self)@.state == StateRole::Leader,
            old(self)@.step_leader_ok(m@),
        ensures
            (final(self)@, unit_result(r)) == old(self)@.step_leader(m@),
            final(self).wf(),
            final(self).timeout_rule(old(self)),
    {
        match m.msg_type {
            MessageType::MsgBeat => {
                self.bcast_heartbeat();
                return Ok(());
            },
            MessageType::MsgCheckQuorum => {
                if !self.check_quorum_active() {
                    let term: u64 = self.term;
                    self.become_follower(term, INVALID_ID);
                }
                return Ok(());
            },
            MessageType::MsgPropose => {
                return self.propose(m.entries);
            },
            MessageType::MsgReadIndex => {
                self.read_index(m);
                return Ok(());
            },
            _ => {},
        }
        let from: u64 = m.from;
        proof {
            self@.lemma_reaction(m@);
        }
        let r = self.check_message_with_progress(&m);
        self.react(from, r);
        Ok(())
    }
}

// Messages to candidates and followers, and all messages.
impl<T: Storage> Raft<T> {
    /// Counts the votes with that of `m`.
    fn count_vote(&mut self, m: &Message)
        requires
            old(self).wf(),
            old(self)@.state == StateRole::Candidate || old(self)@.state
                == StateRole::PreCandidate,
            old(self)@.count_vote_ok(m@),
        ensures
            final(self)@ == old(self)@.count_vote(m@),
            final(self).wf(),
            final(self).timeout_rule(old(self)),
    {
        self.register_vote(m.from, !m.reject);
        match self.prs().candidacy_status(&self.votes) {
            CandidacyStatus::Elected => {
                if self.state == StateRole::PreCandidate {
                    proof {
                        lemma_campaign_names();
                        self@.lemma_campaign(election());
                    }
                    let name = campaign_election();
                    self.campaign(name.as_slice());
                } else {
                    proof {
                        self@.lemma_become_leader();
                        self@.become_leader().lemma_bcast_append();
                    }
                    self.become_leader();
                    self.bcast_append();
                }
            },
            CandidacyStatus::Ineligible => {
                let term: u64 = self.term;
                self.become_follower(term, INVALID_ID);
            },
            CandidacyStatus::Eligible => {},
        }
    }

    /// Handles `m` as a candidate or a pre-candidate. They differ in the answers that they
    /// count.
    #[verifier::rlimit(40)]
    #[verifier::spinoff_prover]
    fn step_candidate(&mut self, m: Message) -> (r: Result<(), Error>)
        requires
            old(self).wf(),
            old(self)@.state == StateRole::Candidate || old(self)@.state
                == StateRole::PreCandidate,
            old(self)@.step_candidate_ok(m@),
        ensures
            (final(self)@, unit_result(r)) == old(self)@.step_candidate(m@),
            final(self).wf(),
            final(self).timeout_rule(old(self)),
    {
        match m.msg_type {
            MessageType::MsgPropose => {
                return Err(Error::ProposalDropped);
            },
            MessageType::MsgAppend | MessageType::MsgHeartbeat | MessageType::MsgSnapshot => {
                self.become_follower(m.term, m.from);
                proof {
                    self@.lemma_from_leader(m@);
                }
                self.from_leader(m);
            },
            MessageType::MsgRequestPreVoteResponse | MessageType::MsgRequestVoteResponse => {
                if (self.state == StateRole::PreCandidate && m.msg_type
                    != MessageType::MsgRequestPreVoteResponse) || (self.state
                    == StateRole::Candidate && m.msg_type
                    != MessageType::MsgRequestVoteResponse) {
                    return Ok(());
                }
                self.count_vote(&m);
            },
            _ => {},
        }
        Ok(())
    }

    /// Passes `m` on to the leader.
    fn pass_on(&mut self, m: Message)
        requires
            RaftView::<T>::is_passed_on(m@.msg_type),
            m@.term == 0,
        ensures
            final(self)@ == old(self)@.send(MessageView { to: old(self)@.leader_id, ..m@ }),
            final(self).same_timeout(old(self)),
    {
        let mut m = m;
        m.to = self.leader_id;
        self.send(m);
    }

    /// Handles `m` as a follower.
    fn step_follower(&mut self, m: Message) -> (r: Result<(), Error>)
        requires
            old(self).wf(),
            old(self)@.step_follower_ok(m@),
        ensures
            (final(self)@, unit_result(r)) == old(self)@.step_follower(m@),
            final(self).wf(),
            final(self).timeout_rule(old(self)),
    {
        assert(m@.entries.len() == m.entries@.len());
        match m.msg_type {
            MessageType::MsgPropose => {
                if self.leader_id == INVALID_ID {
                    return Err(Error::ProposalDropped);
                }
                self.pass_on(m);
            },
            MessageType::MsgAppend | MessageType::MsgHeartbeat | MessageType::MsgSnapshot => {
                self.election_elapsed = 0;
                self.leader_id = m.from;
                self.from_leader(m);
            },
            MessageType::MsgTransferLeader | MessageType::MsgReadIndex => {
                if self.leader_id == INVALID_ID {
                    return Ok(());
                }
                self.pass_on(m);
            },
            MessageType::MsgTimeoutNow => {
                if self.promotable() {
                    let name = campaign_transfer();
                    self.campaign(name.as_slice());
                }
            },
            MessageType::MsgReadIndexResp => {
                if m.entries.len() != 1 {
                    return Ok(());
                }
                self.answer_read(m.index, &m);
            },
            _ => {},
        }
        Ok(())
    }

    /// Answers the request `m` for a vote or a pre-vote. A learner refuses, unless a membership
    /// change under way makes it a voter.
    fn vote_on(&mut self, m: &Message)
        requires
            old(self).wf(),
            is_vote_request(m@.msg_type),
            old(self)@.vote_on_ok(m@),
        ensures
            final(self)@ == old(self)@.vote_on(m@),
            final(self).wf(),
            final(self).same_timeout(old(self)),
    {
        let can_vote = self.vote == m.from || (self.vote == INVALID_ID && self.leader_id
            == INVALID_ID) || (m.msg_type == MessageType::MsgRequestPreVote && m.term > self.term);
        let mut to_send = new_message(m.from, vote_resp_msg_type(m.msg_type), None);
        let only_learns = self.is_learner && !self.prs().is_voter(self.id);
        if !only_learns && can_vote && self.raft_log.is_up_to_date(m.index, m.log_term) {
            to_send.reject = false;
            to_send.term = m.term;
            self.send(to_send);
            if m.msg_type == MessageType::MsgRequestVote {
                self.election_elapsed = 0;
                self.vote = m.from;
            }
        } else {
            to_send.reject = true;
            to_send.term = self.term;
            self.send(to_send);
        }
    }

    /// Looks at the term of `m`: adopts a later one, and answers an earlier one where that
    /// helps the sender. Returns whether `m` is still to be handled.
    fn check_term(&mut self, m: &Message) -> (r: bool)
        requires
            old(self).wf(),
        ensures
            r == old(self)@.goes_on(m@),
            final(self)@ == old(self)@.check_term(m@),
            final(self).wf(),
            final(self).timeout_rule(old(self)),
    {
        if m.term == 0 || m.term == self.term {
            return true;
        }
        if m.term > self.term {
            if m.msg_type == MessageType::MsgRequestVote || m.msg_type
                == MessageType::MsgRequestPreVote {
                let name = campaign_transfer();
                let force = bytes_equal(m.context.as_slice(), name.as_slice());
                let in_lease = self.check_quorum && self.leader_id != INVALID_ID
                    && self.election_elapsed < self.election_timeout;
                if !force && in_lease {
                    return false;
                }
            }
            if m.msg_type == MessageType::MsgRequestPreVote || (m.msg_type
                == MessageType::MsgRequestPreVoteResponse && !m.reject) {
                return true;
            }
            if m.msg_type == MessageType::MsgAppend || m.msg_type == MessageType::MsgHeartbeat
                || m.msg_type == MessageType::MsgSnapshot {
                self.become_follower(m.term, m.from);
            } else {
                self.become_follower(m.term, INVALID_ID);
            }
            return true;
        }
        if (self.check_quorum || self.pre_vote) && (m.msg_type == MessageType::MsgHeartbeat
            || m.msg_type == MessageType::MsgAppend) {
            let to_send = new_message(m.from, MessageType::MsgAppendResponse, None);
            self.send(to_send);
        } else if m.msg_type == MessageType::MsgRequestPreVote {
            let mut to_send = new_message(m.from, MessageType::MsgRequestPreVoteResponse, None);
            to_send.term = self.term;
            to_send.reject = true;
            self.send(to_send);
        }
        false
    }

    /// Handles a message of a peer, or of this node itself.
    pub fn step(&mut self, m: Message) -> (r: Result<(), Error>)
        requires
            old(self).wf(),
            old(self)@.step_ok(m@),
        ensures
            (final(self)@, unit_result(r)) == old(self)@.step(m@),
            final(self).wf(),
            final(self).timeout_rule(old(self)),
    {
        proof {
            self@.lemma_check_term(m@);
        }
        if !self.check_term(&m) {
            return Ok(());
        }
        proof {
            self@.lemma_dispatch(m@);
        }
        match m.msg_type {
            MessageType::MsgHup => {
                self.hup();
                Ok(())
            },
            MessageType::MsgRequestVote | MessageType::MsgRequestPreVote => {
                self.vote_on(&m);
                Ok(())
            },
            _ => match self.state {
                StateRole::PreCandidate | StateRole::Candidate => self.step_candidate(m),
                StateRole::Follower => self.step_follower(m),
                StateRole::Leader => self.step_leader(m),
            },
        }
    }
}

// Time.
impl<T: Storage> Raft<T> {
    /// Lets one tick pass. Returns whether there may be something to do.
    pub fn tick(&mut self) -> (r: bool)
        requires
            old(self).wf(),
            old(self)@.tick_ok(old(self).randomized_election_timeout),
        ensures
            (final(self)@, r) == old(self)@.tick(old(self).randomized_election_timeout),
            final(self).wf(),
            final(self).timeout_rule(old(self)),
    {
        match self.state {
            StateRole::Follower | StateRole::PreCandidate | StateRole::Candidate =>
                self.tick_election(),
            StateRole::Leader => self.tick_heartbeat(),
        }
    }

    /// Whether the election timeout has passed.
    pub fn pass_election_timeout(&self) -> (r: bool)
        ensures
            r == (self.election_elapsed >= self.randomized_election_timeout),
    {
        self.election_elapsed >= self.randomized_election_timeout
    }

    /// Lets one tick pass at a node that is not the leader. Returns whether there may be
    /// something to do.
    pub fn tick_election(&mut self) -> (r: bool)
        requires
            old(self).wf(),
            old(self)@.tick_election_ok(old(self).randomized_election_timeout),
        ensures
            (final(self)@, r) == old(self)@.tick_election(old(self).randomized_election_timeout),
            final(self).wf(),
            final(self).timeout_rule(old(self)),
    {
        self.election_elapsed += 1;
        if !self.pass_election_timeout() || !self.promotable() {
            return false;
        }
        self.election_elapsed = 0;
        let m = new_message(INVALID_ID, MessageType::MsgHup, Some(self.id));
        let _ = self.step(m);
        true
    }

    /// Ends a period of the quorum check: without an active quorum the leader steps down,
    /// and a transfer of the leadership that took that long is given up.
    fn end_period(&mut self)
        requires
            old(self).wf(),
            old(self)@.state == StateRole::Leader,
        ensures
            final(self)@ == old(self)@.end_period(),
            final(self)@.state == StateRole::Leader ==> final(self)@.term == old(self)@.term,
            final(self)@.id == old(self)@.id,
            final(self).wf(),
            final(self).timeout_rule(old(self)),
    {
        let id: u64 = self.id;
        self.election_elapsed = 0;
        if self.check_quorum {
            let m = new_message(INVALID_ID, MessageType::MsgCheckQuorum, Some(id));
            proof {
                self@.lemma_leader_local(MessageType::MsgCheckQuorum);
            }
            let _ = self.step(m);
        }
        if self.state == StateRole::Leader && self.lead_transferee.is_some() {
            self.abort_leader_transfer();
        }
    }

    /// Sends heartbeats as the leader.
    fn beat(&mut self)
        requires
            old(self).wf(),
            old(self)@.state == StateRole::Leader,
        ensures
            final(self)@ == old(self)@.bcast_heartbeat(),
            final(self)@.term == old(self)@.term,
            final(self)@.state == old(self)@.state,
            final(self).wf(),
            final(self).same_timeout(old(self)),
    {
        let m = new_message(INVALID_ID, MessageType::MsgBeat, Some(self.id));
        proof {
            self@.lemma_leader_local(MessageType::MsgBeat);
        }
        let _ = self.step(m);
    }

    /// Lets one tick pass at the leader. Returns whether there may be something to do.
    fn tick_heartbeat(&mut self) -> (r: bool)
        requires
            old(self).wf(),
            old(self)@.tick_heartbeat_ok(),
        ensures
            (final(self)@, r) == old(self)@.tick_heartbeat(),
            final(self).wf(),
            final(self).timeout_rule(old(self)),
    {
        self.heartbeat_elapsed += 1;
        self.election_elapsed += 1;
        let mut has_ready = false;
        if self.election_elapsed >= self.election_timeout {
            has_ready = self.check_quorum;
            self.end_period();
        }
        if self.state != StateRole::Leader {
            return has_ready;
        }
        if self.heartbeat_elapsed >= self.heartbeat_timeout {
            self.heartbeat_elapsed = 0;
            has_ready = true;
            self.beat();
        }
        has_ready
    }
}

/// Returns the name of a kind of configuration change.
fn change_type_name(t: ConfChangeType) -> (r: &'static str)
    ensures
        r@ == change_name(t),
{
    match t {
        ConfChangeType::AddNode => "AddNode",
        ConfChangeType::RemoveNode => "RemoveNode",
        ConfChangeType::AddLearnerNode => "AddLearnerNode",
        ConfChangeType::BeginMembershipChange => "BeginMembershipChange",
        ConfChangeType::FinalizeMembershipChange => "FinalizeMembershipChange",
    }
}

/// Returns the error for a change of another kind than the one that was asked for.
fn wrong_kind_error(t: ConfChangeType) -> (r: Error)
    ensures
        r@ == ErrorView::ViolatesContract(wrong_kind(t)),
{
    Error::ViolatesContract(join(change_type_name(t), " != BeginMembershipChange"))
}

// Membership.
impl<T: Storage> Raft<T> {
    /// Notes the membership change under way, or that there is none.
    fn set_pending_membership_change(&mut self, maybe_change: Option<ConfChange>)
        requires
            maybe_change matches Some(c) ==> old(self)@.note_change_ok(c@),
        ensures
            final(self)@ == (match maybe_change {
                Some(c) => old(self)@.note_change(c@),
                None => RaftView { pending_membership_change: None, ..old(self)@ },
            }),
            final(self).same_timeout(old(self)),
    {
        match maybe_change {
            Some(change) => {
                self.note_change(change);
            },
            None => {
                self.pending_membership_change = None;
            },
        }
    }

    /// Notes the membership change under way; further changes wait for its index at least.
    fn note_change(&mut self, change: ConfChange)
        ensures
            final(self)@ == old(self)@.note_change(change@),
            final(self).same_timeout(old(self)),
    {
        if change.start_index > self.pending_conf_index {
            self.pending_conf_index = change.start_index;
        }
        self.pending_membership_change = Some(change);
    }

    /// Returns the membership change under way.
    pub fn pending_membership_change(&self) -> (r: &Option<ConfChange>)
        ensures
            opt_change_view(*r) == self@.pending_membership_change,
    {
        &self.pending_membership_change
    }

    /// Returns the index at which the membership change under way began.
    pub fn began_membership_change_at(&self) -> (r: Option<u64>)
        ensures
            r == (match self@.pending_membership_change {
                Some(c) => Some(c.start_index),
                None => None,
            }),
    {
        match &self.pending_membership_change {
            Some(c) => Some(c.start_index),
            None => None,
        }
    }

    /// Whether a membership change is under way.
    pub fn is_in_membership_change(&self) -> (r: bool)
        requires
            self@.progress is Some,
        ensures
            r == self@.prs().is_in_membership_change(),
    {
        self.prs().is_in_membership_change()
    }

    /// Begins a membership change: until it ends, two configurations are in force, and
    /// elections and commits need a quorum of each. A learner that the next one makes a voter
    /// may vote from then on, and is no learner any more when the change ends.
    ///
    /// # Errors
    ///
    /// * The change is not of the kind `BeginMembershipChange`.
    /// * It has no configuration.
    /// * It has no start index, which must be the index of its entry.
    /// * The configuration is not valid, or makes a voter a learner.
    pub fn begin_membership_change(&mut self, conf_change: &ConfChange) -> (r: Result<(), Error>)
        requires
            old(self).wf(),
            old(self)@.begin_membership_change_ok(conf_change@),
        ensures
            (final(self)@, unit_result(r)) == old(self)@.begin_membership_change(conf_change@),
            final(self).wf(),
            final(self).same_timeout(old(self)),
    {
        if conf_change.change_type != ConfChangeType::BeginMembershipChange {
            return Err(wrong_kind_error(conf_change.change_type));
        }
        let configuration = match &conf_change.configuration {
            Some(c) => Configuration::from_conf_state(c),
            None => {
                return Err(
                    Error::ViolatesContract("!ConfChange::has_configuration()".to_owned()),
                );
            },
        };
        if conf_change.start_index == 0 {
            return Err(Error::ViolatesContract("!ConfChange::has_start_index()".to_owned()));
        }
        self.set_pending_membership_change(Some(conf_change.clone()));
        let max_inflights: usize = self.max_inflight;
        self.mut_prs().begin_membership_change(configuration, Progress::new(1, max_inflights))
    }

    /// Ends the membership change: from then on only the next configuration is in force. A
    /// leader that it leaves out steps down, and a learner that it makes a voter is no learner
    /// any more.
    ///
    /// # Errors
    ///
    /// * The change is not of the kind `FinalizeMembershipChange`.
    /// * It has a configuration.
    /// * It has a start index.
    /// * No membership change is under way.
    pub fn finalize_membership_change(&mut self, conf_change: &ConfChange) -> (r: Result<
        (),
        Error,
    >)
        requires
            old(self).wf(),
        ensures
            (final(self)@, unit_result(r)) == old(self)@.finalize_membership_change(conf_change@),
            final(self).wf(),
            final(self).timeout_rule(old(self)),
    {
        if conf_change.change_type != ConfChangeType::FinalizeMembershipChange {
            return Err(wrong_kind_error(conf_change.change_type));
        }
        if conf_change.configuration.is_some() {
            return Err(Error::ViolatesContract("ConfChange::has_configuration()".to_owned()));
        }
        if conf_change.start_index != 0 {
            return Err(Error::ViolatesContract("ConfChange::has_start_index()".to_owned()));
        }
        let leader_in_new_set = match &self.prs().next_configuration {
            Some(config) => config.contains(self.leader_id),
            None => {
                return Err(Error::NoPendingMembershipChange);
            },
        };
        if !leader_in_new_set {
            let last_term: u64 = self.raft_log.last_term();
            if self.state == StateRole::Leader {
                self.become_follower(last_term, INVALID_ID);
            } else {
                self.leader_id = INVALID_ID;
            }
        }
        match self.mut_prs().finalize_membership_change() {
            Ok(_) => {},
            Err(e) => {
                return Err(e);
            },
        }
        if self.is_learner && contains(&self.prs().configuration.voters, self.id) {
            self.is_learner = false;
        }
        self.set_pending_membership_change(None);
        Ok(())
    }

    /// Proposes a membership change to `config`. While another change may be pending, an empty
    /// entry is put in for it.
    ///
    /// # Errors
    ///
    /// * This node is not the leader.
    /// * A node is both a voter and a learner.
    /// * There is no voter.
    /// * The proposal is dropped.
    pub fn propose_membership_change(&mut self, config: Configuration) -> (r: Result<(), Error>)
        requires
            old(self).wf(),
            old(self)@.propose_membership_change_ok(config@),
        ensures
            (final(self)@, unit_result(r)) == old(self)@.propose_membership_change(config@),
            final(self).wf(),
            final(self).timeout_rule(old(self)),
    {
        if self.state != StateRole::Leader {
            return Err(Error::InvalidState(self.state));
        }
        match config.valid() {
            Ok(_) => {},
            Err(e) => {
                return Err(e);
            },
        }
        let destination_index: u64 = self.raft_log.last_index() + 1;
        let conf_change = ConfChange::begin(destination_index, config.to_conf_state());
        let data = encode_conf_change(&conf_change);
        let mut entry = Entry::new();
        entry.entry_type = EntryType::EntryConfChange;
        entry.data = data;
        let mut message = Message::new();
        message.msg_type = MessageType::MsgPropose;
        message.from = self.id;
        message.index = destination_index;
        message.entries = vec![entry];
        assert(message@ =~= self@.change_proposal(config@.to_conf_state()));
        self.step(message)
    }

    /// Adds a voter or a learner.
    fn add_voter_or_learner(&mut self, id: u64, learner: bool) -> (r: Result<(), Error>)
        requires
            old(self).wf(),
        ensures
            (final(self)@, unit_result(r)) == old(self)@.add_voter_or_learner(id, learner),
            final(self).wf(),
            final(self).same_timeout(old(self)),
    {
        let ghost s = self@;
        let next_idx: u64 = self.raft_log.last_index() + 1;
        let progress = Progress::new(next_idx, self.max_inflight);
        let result = if learner {
            self.mut_prs().insert_learner(id, progress)
        } else {
            self.mut_prs().insert_voter(id, progress)
        };
        match result {
            Ok(_) => {},
            Err(e) => {
                return Err(e);
            },
        }
        let ghost prs = self@.prs();
        assert(prs == s.added_prs(id, learner));
        assert(prs.has(id)) by {
            s.prs().lemma_put(id, s.joining());
        }
        proof {
            prs.lemma_set(id, ProgressView { recent_active: true, ..prs.at(id) });
        }
        assert(prs.at(id).wf()) by {
            assert(prs.ids.contains(id));
        }
        if self.id == id {
            self.is_learner = learner;
        }
        self.mut_prs().get_mut(id).unwrap().recent_active = true;
        Ok(())
    }

    /// Adds a voter.
    ///
    /// # Errors
    ///
    /// * `id` is a voter already.
    /// * `id` is a learner already.
    /// * A membership change is under way.
    pub fn add_node(&mut self, id: u64) -> (r: Result<(), Error>)
        requires
            old(self).wf(),
        ensures
            (final(self)@, unit_result(r)) == old(self)@.add_voter_or_learner(id, false),
            final(self).wf(),
            final(self).same_timeout(old(self)),
    {
        self.add_voter_or_learner(id, false)
    }

    /// Adds a learner.
    ///
    /// # Errors
    ///
    /// * `id` is a voter already.
    /// * `id` is a learner already.
    /// * A membership change is under way.
    pub fn add_learner(&mut self, id: u64) -> (r: Result<(), Error>)
        requires
            old(self).wf(),
        ensures
            (final(self)@, unit_result(r)) == old(self)@.add_voter_or_learner(id, true),
            final(self).wf(),
            final(self).same_timeout(old(self)),
    {
        self.add_voter_or_learner(id, true)
    }

    /// Removes a node.
    ///
    /// # Errors
    ///
    /// * `id` is neither a voter nor a learner.
    /// * A membership change is under way.
    pub fn remove_node(&mut self, id: u64) -> (r: Result<(), Error>)
        requires
            old(self).wf(),
            old(self)@.remove_node_ok(id),
        ensures
            (final(self)@, unit_result(r)) == old(self)@.remove_node(id),
            final(self).wf(),
            final(self).same_timeout(old(self)),
    {
        match self.mut_prs().remove(id) {
            Ok(_) => {},
            Err(e) => {
                return Err(e);
            },
        }
        let voters = self.prs().voter_ids();
        let learners = self.prs().learner_ids();
        if voters.len() == 0 && learners.len() == 0 {
            return Ok(());
        }
        if self.maybe_commit() {
            self.bcast_append();
            assert(self@.state == old(self)@.state && self@.lead_transferee
                == old(self)@.lead_transferee);
        }
        if self.state == StateRole::Leader {
            if let Some(transferee) = self.lead_transferee {
                if transferee == id {
                    self.abort_leader_transfer();
                }
            }
        }
        Ok(())
    }

    /// Puts in a node with a given progress.
    pub fn set_progress(&mut self, id: u64, matched: u64, next_idx: u64, is_learner: bool)
        requires
            old(self).wf(),
            old(self)@.prs().insert_error(id) is None,
        ensures
            final(self)@ == old(self)@.set_progress(id, matched, next_idx, is_learner),
            final(self)@.prs().wf(),
            next_idx >= 1 && matched < u64::MAX ==> final(self).wf(),
            final(self).same_timeout(old(self)),
    {
        let mut p = Progress::new(next_idx, self.max_inflight);
        p.matched = matched;
        if is_learner {
            let _ = self.mut_prs().insert_learner(id, p);
        } else {
            let _ = self.mut_prs().insert_voter(id, p);
        }
    }
}

/// Returns the cluster that a node starts with.
fn first_cluster(voters: &Vec<u64>, learners: &Vec<u64>, max_inflight: usize) -> (r: ProgressSet)
    requires
        voters@.no_duplicates(),
        learners@.no_duplicates(),
        forall|id: u64| !(#[trigger] voters@.contains(id) && learners@.contains(id)),
    ensures
        r@ == first_prs(voters@, learners@, max_inflight),
        r@.wf(),
        r@.all_ok(),
{
    let mut r = ProgressSet::new();
    let none: Ghost<Seq<u64>> = Ghost(Seq::empty());
    assert(voters@.take(0) =~= none@);
    assert(r@ =~= first_prs(voters@.take(0), none@, max_inflight));
    let mut i: usize = 0;
    while i < voters.len()
        invariant
            i <= voters.len(),
            none@ == Seq::<u64>::empty(),
            voters@.no_duplicates(),
            r@ == first_prs(voters@.take(i as int), none@, max_inflight),
            r@.wf(),
            r@.all_ok(),
        decreases voters.len() - i,
    {
        let ghost before = r@;
        let id: u64 = voters[i];
        assert(!voters@.take(i as int).contains(id));
        assert(before.ids =~= voters@.take(i as int));
        assert(before.insert_error(id) is None);
        let _ = r.insert_voter(id, Progress::new(1, max_inflight));
        assert(voters@.take(i + 1) =~= voters@.take(i as int).push(id));
        assert(r@ =~= first_prs(voters@.take(i + 1), none@, max_inflight));
        i += 1;
    }
    assert(voters@.take(voters.len() as int) =~= voters@);
    assert(learners@.take(0) =~= none@);
    let mut i: usize = 0;
    while i < learners.len()
        invariant
            i <= learners.len(),
            learners@.no_duplicates(),
            forall|id: u64| !(#[trigger] voters@.contains(id) && learners@.contains(id)),
            r@ == first_prs(voters@, learners@.take(i as int), max_inflight),
            r@.wf(),
            r@.all_ok(),
        decreases learners.len() - i,
    {
        let ghost before = r@;
        let id: u64 = learners[i];
        assert(learners@.contains(id));
        assert(!learners@.take(i as int).contains(id));
        assert(!voters@.contains(id));
        assert(!before.ids.contains(id)) by {
            if before.ids.contains(id) {
                let j = before.ids.index_of(id);
                if j < voters@.len() {
                    assert(voters@[j] == id);
                } else {
                    assert(learners@.take(i as int)[j - voters@.len()] == id);
                }
            }
        }
        assert(before.insert_error(id) is None);
        let _ = r.insert_learner(id, Progress::new(1, max_inflight));
        assert(learners@.take(i + 1) =~= learners@.take(i as int).push(id));
        assert(r@ =~= first_prs(voters@, learners@.take(i + 1), max_inflight));
        i += 1;
    }
    assert(learners@.take(learners.len() as int) =~= learners@);
    r
}

/// The outcome of [`Raft::new`].
pub open spec fn new_result<T: Storage>(r: Result<Raft<T>, Error>) -> Result<
    RaftView<T>,
    ErrorView,
> {
    match r {
        Ok(raft) => Ok(raft@),
        Err(e) => Err(e@),
    }
}

// The start, and what can be looked at.
impl<T: Storage> Raft<T> {
    /// Returns a node that knows nothing but its configuration, its log and its cluster.
    fn blank(c: &Config, raft_log: RaftLog<T>, voters: &Vec<u64>, learners: &Vec<u64>) -> (r:
        Raft<T>)
        requires
            c.min_timeout() < c.max_timeout() <= usize::MAX,
            raft_log@.wf(),
            voters@.no_duplicates(),
            learners@.no_duplicates(),
            forall|id: u64| !(#[trigger] voters@.contains(id) && learners@.contains(id)),
        ensures
            r@ == RaftView::blank(*c, raft_log@, voters@, learners@),
            r.wf(),
    {
        let prs = first_cluster(voters, learners, c.max_inflight_msgs);
        let min_election_timeout: usize = c.min_election_tick();
        let max_election_timeout: usize = c.max_election_tick();
        let r = Raft {
            term: 0,
            vote: INVALID_ID,
            id: c.id,
            read_states: Vec::new(),
            raft_log,
            max_inflight: c.max_inflight_msgs,
            max_msg_size: c.max_size_per_msg,
            prs: Some(prs),
            state: StateRole::Follower,
            is_learner: contains(learners, c.id),
            votes: votes_new(),
            msgs: Vec::new(),
            leader_id: INVALID_ID,
            lead_transferee: None,
            pending_conf_index: 0,
            pending_membership_change: None,
            read_only: ReadOnly::new(c.read_only_option),
            election_elapsed: 0,
            heartbeat_elapsed: 0,
            check_quorum: c.check_quorum,
            pre_vote: c.pre_vote,
            skip_bcast_commit: c.skip_bcast_commit,
            heartbeat_timeout: c.heartbeat_tick,
            election_timeout: c.election_tick,
            randomized_election_timeout: min_election_timeout,
            min_election_timeout,
            max_election_timeout,
        };
        assert(r@.read_states =~= Seq::<ReadStateView>::empty());
        assert(r@.msgs =~= Seq::<MessageView>::empty());
        r
    }

    /// Returns a node that starts from `raft_state`, which the store has saved.
    fn start(c: &Config, store: T, raft_state: &RaftState) -> (r: Raft<T>)
        requires
            c.min_timeout() < c.max_timeout() <= usize::MAX,
            RaftView::first_state_ok(*c, store, raft_state@),
        ensures
            r@ == RaftView::first_state(*c, store, raft_state@),
            r@.pending_membership_change is None,
            r.wf(),
    {
        let raft_log = RaftLog::new(store);
        let conf_state = &raft_state.conf_state;
        let in_config = conf_state.nodes.len() == 0 && conf_state.learners.len() == 0;
        let mut r = if in_config {
            Raft::blank(c, raft_log, &c.peers, &c.learners)
        } else {
            Raft::blank(c, raft_log, &conf_state.nodes, &conf_state.learners)
        };
        if raft_state.hard_state != HardState::new() {
            r.load_state(&raft_state.hard_state);
        }
        if c.applied > 0 {
            r.commit_apply(c.applied);
        }
        let term: u64 = r.term;
        r.become_follower(term, INVALID_ID);
        r
    }

    /// Returns a node that starts from what the store has saved.
    ///
    /// # Errors
    ///
    /// * The configuration is not valid.
    /// * The store answers with an error.
    /// * A membership change that was under way cannot be taken up again.
    pub fn new(c: &Config, store: T) -> (r: Result<Raft<T>, Error>)
        requires
            RaftView::new_ok(*c, store),
        ensures
            new_result(r) == RaftView::new(*c, store),
            r matches Ok(raft) ==> raft.wf(),
    {
        match c.validate() {
            Ok(_) => {},
            Err(e) => {
                return Err(e);
            },
        }
        let raft_state = match store.initial_state() {
            Ok(s) => s,
            Err(e) => {
                return Err(e);
            },
        };
        let mut r = Raft::start(c, store, &raft_state);
        if let Some(state) = &raft_state.pending_conf_state {
            if let Some(idx) = raft_state.pending_conf_state_start_index {
                match r.begin_membership_change(&ConfChange::begin(idx, state.clone())) {
                    Ok(_) => {},
                    Err(e) => {
                        return Err(e);
                    },
                }
            }
        }
        Ok(r)
    }

    /// Takes over a saved hard state.
    pub fn load_state(&mut self, hs: &HardState)
        requires
            old(self)@.raft_log.wf(),
            old(self)@.raft_log.committed <= hs.commit <= old(self)@.raft_log.last(),
        ensures
            final(self)@ == (RaftView {
                term: hs.term,
                vote: hs.vote,
                raft_log: RaftLogView { committed: hs.commit, ..old(self)@.raft_log },
                ..old(self)@
            }),
            final(self)@.raft_log.wf(),
            final(self).same_timeout(old(self)),
    {
        self.raft_log.committed = hs.commit;
        self.term = hs.term;
        self.vote = hs.vote;
    }

    /// Returns the store.
    pub fn get_store(&self) -> (r: &T)
        ensures
            *r == self@.raft_log.store,
    {
        &self.raft_log.store
    }

    /// Returns the store for changes.
    pub fn mut_store(&mut self) -> (r: &mut T)
        ensures
            *r == old(self)@.raft_log.store,
            final(self)@ == (RaftView {
                raft_log: RaftLogView { store: *final(r), ..old(self)@.raft_log },
                ..old(self)@
            }),
            final(self).same_timeout(old(self)),
    {
        &mut self.raft_log.store
    }

    /// Returns the snapshot that is to be saved.
    pub fn get_snap(&self) -> (r: Option<&Snapshot>)
        ensures
            self@.raft_log.unstable.snapshot == (match r {
                Some(s) => Some(s@),
                None => None,
            }),
    {
        self.raft_log.unstable.snapshot.as_ref()
    }

    /// Returns how many reads wait for a quorum.
    pub fn pending_read_count(&self) -> (n: usize)
        ensures
            n == self@.read_only.queue.len(),
    {
        self.read_only.pending_read_count()
    }

    /// Returns how many reads can be answered.
    pub fn ready_read_count(&self) -> (n: usize)
        ensures
            n == self@.read_states.len(),
    {
        self.read_states.len()
    }

    /// Returns the state that need not be saved.
    pub fn soft_state(&self) -> (r: SoftState)
        ensures
            r == (SoftState { leader_id: self@.leader_id, raft_state: self@.state }),
    {
        SoftState { leader_id: self.leader_id, raft_state: self.state }
    }

    /// Returns the state that is to be saved.
    pub fn hard_state(&self) -> (r: HardState)
        ensures
            r == (HardState {
                term: self@.term,
                vote: self@.vote,
                commit: self@.raft_log.committed,
            }),
    {
        HardState { term: self.term, vote: self.vote, commit: self.raft_log.committed }
    }

    /// Whether the node is a leader that checks its quorum.
    pub fn in_lease(&self) -> (r: bool)
        ensures
            r == (self@.state == StateRole::Leader && self@.check_quorum),
    {
        self.state == StateRole::Leader && self.check_quorum
    }

    /// Returns the ticks of an election timeout.
    pub fn get_election_timeout(&self) -> (r: usize)
        ensures
            r == self@.election_timeout,
    {
        self.election_timeout
    }

    /// Returns the ticks between heartbeats.
    pub fn get_heartbeat_timeout(&self) -> (r: usize)
        ensures
            r == self@.heartbeat_timeout,
    {
        self.heartbeat_timeout
    }

    /// Returns the ticks since the last heartbeat.
    pub fn get_heartbeat_elapsed(&self) -> (r: usize)
        ensures
            r == self@.heartbeat_elapsed,
    {
        self.heartbeat_elapsed
    }

    /// Returns the randomized election timeout.
    pub fn get_randomized_election_timeout(&self) -> (r: usize)
        ensures
            r == self.randomized_election_timeout,
    {
        self.randomized_election_timeout
    }

    /// Sets whether a new commit index is not broadcast at once.
    pub fn skip_bcast_commit(&mut self, skip: bool)
        ensures
            *final(self) == (Raft { skip_bcast_commit: skip, ..*old(self) }),
    {
        self.skip_bcast_commit = skip;
    }
}

} // verus!
