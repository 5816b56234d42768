//! A node, as the application drives it: it hands in messages and ticks, and takes out what
//! is to be saved, sent and applied.
use crate::codec::{conf_change_bytes, encode_conf_change};
use crate::config::Config;
use crate::eraftpb::{
    clone_bytes, clone_entries, entries_view, messages_view, opt_bytes_view, ConfChange,
    ConfChangeType, ConfChangeView, ConfState, ConfStateView, Entry, EntryType, EntryView,
    HardState, Message, MessageType, MessageView, Snapshot, SnapshotView,
};
use crate::errors::{unit_result, Error, ErrorView};
use crate::raft::{Raft, SoftState, StateRole, INVALID_ID};
use crate::raft_log::RaftLogView;
use crate::raft_model::{change_entry, RaftView};
use crate::read_only::{clone_read_states, read_states_view, ReadState, ReadStateView};
use crate::status::Status;
use crate::storage::Storage;
use vstd::prelude::*;

verus! {

/// A node of the cluster.
#[derive(Debug)]
pub struct Peer {
    /// The id of the node.
    pub id: u64,
    /// What the application keeps with the node, such as how to reach it.
    pub context: Option<Vec<u8>>,
}

impl Default for Peer {
    fn default() -> (r: Peer)
        ensures
            r.id == 0,
            r.context is None,
    {
        Peer { id: 0, context: None }
    }
}

/// What became of a snapshot that was sent.
#[derive(Debug, PartialEq, Eq, Structural, Clone, Copy)]
pub enum SnapshotStatus {
    /// The snapshot arrived.
    Finish,
    /// The snapshot did not arrive.
    Failure,
}

/// Whether messages of this type never come over the network.
pub open spec fn local_type(t: MessageType) -> bool {
    t == MessageType::MsgHup || t == MessageType::MsgBeat || t == MessageType::MsgUnreachable || t
        == MessageType::MsgSnapStatus || t == MessageType::MsgCheckQuorum
}

/// Whether messages of this type are answers, or stand for one that will not come.
pub open spec fn response_type(t: MessageType) -> bool {
    t == MessageType::MsgAppendResponse || t == MessageType::MsgRequestVoteResponse || t
        == MessageType::MsgHeartbeatResponse || t == MessageType::MsgUnreachable || t
        == MessageType::MsgRequestPreVoteResponse
}

/// Whether messages of this type never come over the network.
pub fn is_local_msg(t: MessageType) -> (r: bool)
    ensures
        r == local_type(t),
{
    match t {
        MessageType::MsgHup | MessageType::MsgBeat | MessageType::MsgUnreachable
        | MessageType::MsgSnapStatus | MessageType::MsgCheckQuorum => true,
        _ => false,
    }
}

/// Whether messages of this type are answers, or stand for one that will not come.
pub fn is_response_msg(t: MessageType) -> (r: bool)
    ensures
        r == response_type(t),
{
    match t {
        MessageType::MsgAppendResponse | MessageType::MsgRequestVoteResponse
        | MessageType::MsgHeartbeatResponse | MessageType::MsgUnreachable
        | MessageType::MsgRequestPreVoteResponse => true,
        _ => false,
    }
}

/// Whether a snapshot is empty.
pub fn is_empty_snap(s: &Snapshot) -> (r: bool)
    ensures
        r == (s@.metadata.index == 0),
{
    s.metadata.index == 0
}

/// What is to be saved, sent and applied.
#[derive(Debug, PartialEq)]
pub struct Ready {
    /// The state that need not be saved, if it changed.
    pub ss: Option<SoftState>,
    /// The state that is to be saved before messages are sent; the empty state if it did not
    /// change.
    pub hs: Option<HardState>,
    /// The reads that can be answered once the log is applied as far as they say.
    pub read_states: Vec<ReadState>,
    /// The entries that are to be saved before messages are sent.
    pub entries: Vec<Entry>,
    /// The snapshot that is to be saved; empty if there is none.
    pub snapshot: Snapshot,
    /// The entries that are to be applied: they are committed.
    pub committed_entries: Option<Vec<Entry>>,
    /// The messages that are to be sent once the entries are saved. Of each snapshot among
    /// them the application reports whether it arrived.
    pub messages: Vec<Message>,
    /// Whether the hard state and the entries must be on disk before the application goes
    /// on.
    pub must_sync: bool,
}

/// The view of a [`Ready`].
#[verifier::ext_equal]
pub struct ReadyView {
    /// The state that need not be saved, if it changed.
    pub ss: Option<SoftState>,
    /// The state that is to be saved before messages are sent; the empty state if it did not
    /// change.
    pub hs: Option<HardState>,
    /// The reads that can be answered once the log is applied as far as they say.
    pub read_states: Seq<ReadStateView>,
    /// The entries that are to be saved before messages are sent.
    pub entries: Seq<EntryView>,
    /// The snapshot that is to be saved; empty if there is none.
    pub snapshot: SnapshotView,
    /// The entries that are to be applied.
    pub committed_entries: Option<Seq<EntryView>>,
    /// The messages that are to be sent.
    pub messages: Seq<MessageView>,
    /// Whether the hard state and the entries must be on disk first.
    pub must_sync: bool,
}

impl ReadyView {
    /// Nothing at all.
    pub open spec fn empty() -> ReadyView {
        ReadyView {
            ss: None,
            hs: None,
            read_states: Seq::empty(),
            entries: Seq::empty(),
            snapshot: SnapshotView::empty(),
            committed_entries: None,
            messages: Seq::empty(),
            must_sync: false,
        }
    }
}

impl Default for Ready {
    fn default() -> (r: Ready)
        ensures
            r@ == ReadyView::empty(),
    {
        let r = Ready {
            ss: None,
            hs: None,
            read_states: Vec::new(),
            entries: Vec::new(),
            snapshot: Snapshot::new(),
            committed_entries: None,
            messages: Vec::new(),
            must_sync: false,
        };
        assert(r@ =~= ReadyView::empty());
        r
    }
}

impl View for Ready {
    type V = ReadyView;

    open spec fn view(&self) -> ReadyView {
        ReadyView {
            ss: self.ss,
            hs: self.hs,
            read_states: read_states_view(self.read_states@),
            entries: entries_view(self.entries@),
            snapshot: self.snapshot@,
            committed_entries: match self.committed_entries {
                Some(es) => Some(entries_view(es@)),
                None => None,
            },
            messages: messages_view(self.messages@),
            must_sync: self.must_sync,
        }
    }
}

/// A node, with what the application was last told of it.
pub struct RawNode<T: Storage> {
    /// The node.
    pub raft: Raft<T>,
    /// The state that need not be saved, as it was last handed out.
    pub prev_ss: SoftState,
    /// The state that is to be saved, as it was last handed out.
    pub prev_hs: HardState,
}

/// The view of a [`RawNode`].
#[verifier::ext_equal]
pub struct RawNodeView<T: Storage> {
    /// The node.
    pub raft: RaftView<T>,
    /// The state that need not be saved, as it was last handed out.
    pub prev_ss: SoftState,
    /// The state that is to be saved, as it was last handed out.
    pub prev_hs: HardState,
}

impl<T: Storage> View for RawNode<T> {
    type V = RawNodeView<T>;

    open spec fn view(&self) -> RawNodeView<T> {
        RawNodeView { raft: self.raft@, prev_ss: self.prev_ss, prev_hs: self.prev_hs }
    }
}

impl<T: Storage> RaftView<T> {
    /// The state that need not be saved.
    pub open spec fn soft_state(self) -> SoftState {
        SoftState { leader_id: self.leader_id, raft_state: self.state }
    }

    /// The state that is to be saved.
    pub open spec fn hard_state(self) -> HardState {
        HardState { term: self.term, vote: self.vote, commit: self.raft_log.committed }
    }

    /// The index behind which entries are to be applied: `since`, or the applied index.
    pub open spec fn since(self, since: Option<u64>) -> u64 {
        match since {
            Some(i) => i,
            None => self.raft_log.applied,
        }
    }
}

impl<T: Storage> RawNodeView<T> {
    /// What is to be done, with the entries behind `since` to be applied.
    pub open spec fn ready(self, since: Option<u64>) -> ReadyView {
        let s = self.raft;
        ReadyView {
            ss: if s.soft_state() != self.prev_ss {
                Some(s.soft_state())
            } else {
                None
            },
            hs: Some(
                if s.hard_state() != self.prev_hs {
                    s.hard_state()
                } else {
                    HardState::empty()
                },
            ),
            read_states: s.read_states,
            entries: s.raft_log.unstable.entries,
            snapshot: match s.raft_log.unstable.snapshot {
                Some(snap) => snap,
                None => SnapshotView::empty(),
            },
            committed_entries: Some(
                match s.raft_log.next_since(s.since(since)) {
                    Some(es) => es,
                    None => Seq::empty(),
                },
            ),
            messages: s.msgs,
            must_sync: s.vote != self.prev_hs.vote || s.term != self.prev_hs.term,
        }
    }

    /// After what is to be done was taken out.
    pub open spec fn taken(self) -> RawNodeView<T> {
        RawNodeView { raft: RaftView { msgs: Seq::empty(), ..self.raft }, ..self }
    }

    /// Whether something is to be done.
    pub open spec fn has_ready(self, since: Option<u64>) -> bool {
        let s = self.raft;
        ||| s.msgs.len() > 0
        ||| s.raft_log.unstable.entries.len() > 0
        ||| s.read_states.len() > 0
        ||| (s.raft_log.unstable.snapshot matches Some(snap) && snap.metadata.index != 0)
        ||| s.raft_log.has_next_since(s.since(since))
        ||| s.soft_state() != self.prev_ss
        ||| s.hard_state() != HardState::empty() && s.hard_state() != self.prev_hs
    }

    /// Whether what `rd` holds can be marked as done: its last index fits.
    pub open spec fn commit_ready_ok(self, rd: ReadyView) -> bool {
        rd.entries.len() > 0 ==> rd.entries.last().index < u64::MAX
    }

    /// After what `rd` holds was saved.
    pub open spec fn commit_ready(self, rd: ReadyView) -> RawNodeView<T> {
        let log = self.raft.raft_log;
        let entries_saved = if rd.entries.len() > 0 {
            log.unstable.stable_to(rd.entries.last().index, rd.entries.last().term)
        } else {
            log.unstable
        };
        let saved = if rd.snapshot != SnapshotView::empty() {
            entries_saved.stable_snap_to(rd.snapshot.metadata.index)
        } else {
            entries_saved
        };
        RawNodeView {
            raft: RaftView {
                raft_log: RaftLogView { unstable: saved, ..log },
                read_states: if rd.read_states.len() > 0 {
                    Seq::empty()
                } else {
                    self.raft.read_states
                },
                ..self.raft
            },
            prev_ss: match rd.ss {
                Some(ss) => ss,
                None => self.prev_ss,
            },
            prev_hs: match rd.hs {
                Some(hs) => if hs != HardState::empty() {
                    hs
                } else {
                    self.prev_hs
                },
                None => self.prev_hs,
            },
        }
    }

    /// With the node in another state.
    pub open spec fn with_raft(self, raft: RaftView<T>) -> RawNodeView<T> {
        RawNodeView { raft, ..self }
    }

    /// With another store.
    pub open spec fn with_store(self, store: T) -> RawNodeView<T> {
        self.with_raft(
            RaftView {
                raft_log: RaftLogView { store, ..self.raft.raft_log },
                ..self.raft
            },
        )
    }

    /// Whether what `rd` holds can be marked as saved and applied: the store has it.
    pub open spec fn advance_ok(self, rd: ReadyView) -> bool {
        let s = self.commit_ready(rd);
        &&& self.commit_ready_ok(rd)
        &&& s.raft.raft_log.wf()
        &&& s.prev_hs.commit != 0 ==> s.raft.commit_apply_ok(s.prev_hs.commit)
    }

    /// After what `rd` holds was saved and applied.
    pub open spec fn advance(self, rd: ReadyView) -> RawNodeView<T> {
        let s = self.commit_ready(rd);
        if s.prev_hs.commit != 0 {
            s.with_raft(s.raft.commit_apply(s.prev_hs.commit))
        } else {
            s
        }
    }
}

impl Ready {
    /// Returns what is to be done, and takes the messages out of the node.
    fn new<T: Storage>(
        raft: &mut Raft<T>,
        prev_ss: &SoftState,
        prev_hs: &HardState,
        since_idx: Option<u64>,
    ) -> (r: Ready)
        requires
            old(raft).wf(),
            old(raft)@.since(since_idx) < u64::MAX,
        ensures
            r@ == (RawNodeView {
                raft: old(raft)@,
                prev_ss: *prev_ss,
                prev_hs: *prev_hs,
            }).ready(since_idx),
            final(raft)@ == (RaftView { msgs: Seq::empty(), ..old(raft)@ }),
            final(raft).wf(),
            final(raft).same_timeout(old(raft)),
    {
        let entries = clone_entries(
            &raft.raft_log.unstable.entries,
            0,
            raft.raft_log.unstable.entries.len(),
        );
        assert(entries_view(entries@) =~= raft@.raft_log.unstable.entries);
        let mut messages: Vec<Message> = Vec::new();
        std::mem::swap(&mut raft.msgs, &mut messages);
        assert(messages_view(raft.msgs@) =~= Seq::<MessageView>::empty());
        let since: u64 = match since_idx {
            Some(i) => i,
            None => raft.raft_log.applied,
        };
        let committed_entries = match raft.raft_log.next_entries_since(since) {
            Some(es) => es,
            None => {
                let es: Vec<Entry> = Vec::new();
                assert(entries_view(es@) =~= Seq::<EntryView>::empty());
                es
            },
        };
        let ss = raft.soft_state();
        let hs = raft.hard_state();
        let snapshot = match &raft.raft_log.unstable.snapshot {
            Some(s) => s.clone(),
            None => Snapshot::new(),
        };
        let read_states = clone_read_states(&raft.read_states);
        Ready {
            ss: if ss != *prev_ss {
                Some(ss)
            } else {
                None
            },
            hs: Some(
                if hs != *prev_hs {
                    hs
                } else {
                    HardState::new()
                },
            ),
            read_states,
            entries,
            snapshot,
            committed_entries: Some(committed_entries),
            messages,
            must_sync: hs.vote != prev_hs.vote || hs.term != prev_hs.term,
        }
    }

    /// Returns the state that need not be saved, if it changed.
    pub fn ss(&self) -> (r: Option<&SoftState>)
        ensures
            self@.ss == (match r {
                Some(s) => Some(*s),
                None => None,
            }),
    {
        self.ss.as_ref()
    }

    /// Returns the state that is to be saved before messages are sent. It equals the empty
    /// state if it did not change.
    pub fn hs(&self) -> (r: Option<&HardState>)
        ensures
            self@.hs == (match r {
                Some(s) => Some(*s),
                None => None,
            }),
    {
        self.hs.as_ref()
    }

    /// Returns the reads that can be answered once the log is applied as far as they say.
    pub fn read_states(&self) -> (r: &[ReadState])
        ensures
            read_states_view(r@) == self@.read_states,
    {
        self.read_states.as_slice()
    }

    /// Returns the entries that are to be saved before messages are sent.
    pub fn entries(&self) -> (r: &[Entry])
        ensures
            entries_view(r@) == self@.entries,
    {
        self.entries.as_slice()
    }

    /// Returns the snapshot that is to be saved.
    pub fn snapshot(&self) -> (r: &Snapshot)
        ensures
            r@ == self@.snapshot,
    {
        &self.snapshot
    }

    /// Whether the hard state and the entries must be on disk before the application goes
    /// on.
    pub fn must_sync(&self) -> (r: bool)
        ensures
            r == self@.must_sync,
    {
        self.must_sync
    }
}

/// The entry that adds the node `id` with context `ctx` to a new cluster, at index `i + 1`.
pub open spec fn first_entry(i: int, id: u64, ctx: Option<Seq<u8>>) -> EntryView {
    EntryView {
        entry_type: EntryType::EntryConfChange,
        term: 1,
        index: (i + 1) as u64,
        data: conf_change_bytes(
            ConfChangeView {
                change_type: ConfChangeType::AddNode,
                node_id: id,
                context: match ctx {
                    Some(c) => c,
                    None => Seq::empty(),
                },
                ..ConfChangeView::empty()
            },
        ),
        ..EntryView::empty()
    }
}

/// The entries that a new cluster of `peers` starts with.
pub open spec fn first_entries(peers: Seq<Peer>) -> Seq<EntryView> {
    Seq::new(
        peers.len(),
        |i: int| first_entry(i, peers[i].id, opt_bytes_view(peers[i].context)),
    )
}

impl<T: Storage> RaftView<T> {
    /// After the first `n` of `peers` were added, up to the first that is refused.
    pub open spec fn add_peers(self, peers: Seq<Peer>, n: int) -> (
        RaftView<T>,
        Result<(), ErrorView>,
    )
        decreases n,
    {
        if n <= 0 {
            (self, Ok(()))
        } else {
            let (s, r) = self.add_peers(peers, n - 1);
            match r {
                Ok(_) => s.add_voter_or_learner(peers[n - 1].id, false),
                Err(_) => (s, r),
            }
        }
    }

    /// A node that is refused ends the adding.
    pub proof fn lemma_add_peers_stops(self, peers: Seq<Peer>, i: int, n: int)
        requires
            i <= n,
            self.add_peers(peers, i).1 is Err,
        ensures
            self.add_peers(peers, n) == self.add_peers(peers, i),
        decreases n,
    {
        if i < n {
            self.lemma_add_peers_stops(peers, i, n - 1);
        }
    }

    /// With the entries that a new cluster starts with, all committed.
    pub open spec fn with_first_entries(self, peers: Seq<Peer>) -> RaftView<T> {
        RaftView {
            raft_log: RaftLogView {
                committed: peers.len() as u64,
                ..self.raft_log.append(first_entries(peers))
            },
            ..self
        }
    }

    /// After a new cluster of `peers` was set up, or why it was not.
    pub open spec fn bootstrap(self, peers: Seq<Peer>) -> (RaftView<T>, Result<(), ErrorView>) {
        self.become_follower(1, INVALID_ID).with_first_entries(peers).add_peers(
            peers,
            peers.len() as int,
        )
    }
}

/// The outcome of [`RawNode::new`].
pub open spec fn node_result<T: Storage>(r: Result<RawNode<T>, Error>) -> Result<
    RawNodeView<T>,
    ErrorView,
> {
    match r {
        Ok(node) => Ok(node@),
        Err(e) => Err(e@),
    }
}

/// The outcome of [`RawNode::apply_conf_change`].
pub open spec fn conf_result(r: Result<ConfState, Error>) -> Result<ConfStateView, ErrorView> {
    match r {
        Ok(cs) => Ok(cs@),
        Err(e) => Err(e@),
    }
}

impl<T: Storage> RawNodeView<T> {
    /// The node at the start, or why there is none: with an empty store, a new cluster of
    /// `peers` is set up.
    pub open spec fn new(c: Config, store: T, peers: Seq<Peer>) -> Result<
        RawNodeView<T>,
        ErrorView,
    > {
        match RaftView::new(c, store) {
            Err(e) => Err(e),
            Ok(raft) => if store.spec_last_index() == Ok::<u64, ErrorView>(0) {
                let (s, r) = raft.bootstrap(peers);
                match r {
                    Err(e) => Err(e),
                    Ok(_) => Ok(
                        RawNodeView {
                            raft: s,
                            prev_ss: s.soft_state(),
                            prev_hs: HardState::empty(),
                        },
                    ),
                }
            } else {
                Ok(
                    RawNodeView {
                        raft,
                        prev_ss: raft.soft_state(),
                        prev_hs: raft.hard_state(),
                    },
                )
            },
        }
    }

    /// Whether the configuration change `c` is one of a single node, and names none.
    pub open spec fn is_void_change(c: ConfChangeView) -> bool {
        c.node_id == INVALID_ID && c.change_type != ConfChangeType::BeginMembershipChange
            && c.change_type != ConfChangeType::FinalizeMembershipChange
    }

    /// Whether the configuration change `c` can be applied: the beginning or the end of a
    /// membership change is not refused.
    pub open spec fn apply_conf_change_ok(self, c: ConfChangeView) -> bool {
        !Self::is_void_change(c) ==> {
            &&& c.change_type == ConfChangeType::RemoveNode ==> self.raft.remove_node_ok(c.node_id)
            &&& c.change_type == ConfChangeType::BeginMembershipChange ==> {
                &&& self.raft.begin_membership_change_ok(c)
                &&& self.raft.begin_membership_change(c).1 is Ok
            }
            &&& c.change_type == ConfChangeType::FinalizeMembershipChange
                ==> self.raft.finalize_membership_change(c).1 is Ok
        }
    }

    /// After the configuration change `c` was applied to the node, or refused.
    pub open spec fn changed(self, c: ConfChangeView) -> (RaftView<T>, Result<(), ErrorView>) {
        match c.change_type {
            ConfChangeType::AddNode => self.raft.add_voter_or_learner(c.node_id, false),
            ConfChangeType::AddLearnerNode => self.raft.add_voter_or_learner(c.node_id, true),
            ConfChangeType::RemoveNode => self.raft.remove_node(c.node_id),
            ConfChangeType::BeginMembershipChange => self.raft.begin_membership_change(c),
            ConfChangeType::FinalizeMembershipChange => self.raft.finalize_membership_change(c),
        }
    }

    /// After the configuration change `c` was applied, and the configuration then, or why
    /// it was refused.
    pub open spec fn apply_conf_change(self, c: ConfChangeView) -> (
        RawNodeView<T>,
        Result<ConfStateView, ErrorView>,
    ) {
        if Self::is_void_change(c) {
            (
                self,
                Ok(
                    ConfStateView {
                        nodes: self.raft.prs().voter_ids(),
                        learners: self.raft.prs().learner_ids(),
                    },
                ),
            )
        } else {
            let (s, r) = self.changed(c);
            (
                self.with_raft(s),
                match r {
                    Ok(_) => Ok(s.prs().configuration.to_conf_state()),
                    Err(e) => Err(e),
                },
            )
        }
    }

    /// Whether `m` is handed to the node.
    pub open spec fn takes(self, m: MessageView) -> bool {
        !local_type(m.msg_type) && (self.raft.prs().has(m.from) || !response_type(m.msg_type))
    }

    /// Whether `m` can be handled.
    pub open spec fn step_ok(self, m: MessageView) -> bool {
        self.takes(m) ==> self.raft.step_ok(m)
    }

    /// After `m` was handled, and the outcome.
    pub open spec fn step(self, m: MessageView) -> (RawNodeView<T>, Result<(), ErrorView>) {
        if local_type(m.msg_type) {
            (self, Err(ErrorView::StepLocalMsg))
        } else if self.takes(m) {
            (self.with_raft(self.raft.step(m).0), self.raft.step(m).1)
        } else {
            (self, Err(ErrorView::StepPeerNotFound))
        }
    }
}

/// The proposal of an entry.
pub open spec fn proposal(from: u64, e: EntryView) -> MessageView {
    MessageView {
        msg_type: MessageType::MsgPropose,
        from,
        entries: seq![e],
        ..MessageView::empty()
    }
}

/// The message that starts a campaign.
pub open spec fn campaign_message() -> MessageView {
    MessageView { msg_type: MessageType::MsgHup, ..MessageView::empty() }
}

/// The report that the node `id` cannot be reached.
pub open spec fn unreachable_message(id: u64) -> MessageView {
    MessageView { msg_type: MessageType::MsgUnreachable, from: id, ..MessageView::empty() }
}

/// The report on a snapshot for the node `id`.
pub open spec fn snapshot_report(id: u64, status: SnapshotStatus) -> MessageView {
    MessageView {
        msg_type: MessageType::MsgSnapStatus,
        from: id,
        reject: status == SnapshotStatus::Failure,
        ..MessageView::empty()
    }
}

/// The request to transfer the leadership to the node `id`.
pub open spec fn transfer_message(id: u64) -> MessageView {
    MessageView { msg_type: MessageType::MsgTransferLeader, from: id, ..MessageView::empty() }
}

/// The read request with context `rctx`.
pub open spec fn read_message(rctx: Seq<u8>) -> MessageView {
    MessageView {
        msg_type: MessageType::MsgReadIndex,
        entries: seq![EntryView { data: rctx, ..EntryView::empty() }],
        ..MessageView::empty()
    }
}

/// Returns the entries that a new cluster of `peers` starts with.
fn bootstrap_entries(peers: &Vec<Peer>) -> (ents: Vec<Entry>)
    ensures
        entries_view(ents@) == first_entries(peers@),
{
    let mut ents: Vec<Entry> = Vec::new();
    let mut i: usize = 0;
    while i < peers.len()
        invariant
            i <= peers.len(),
            ents.len() == i,
            forall|k: int| 0 <= k < i ==> (#[trigger] ents@[k])@ == first_entries(peers@)[k],
        decreases peers.len() - i,
    {
        let mut cc = ConfChange::new();
        cc.change_type = ConfChangeType::AddNode;
        cc.node_id = peers[i].id;
        if let Some(ctx) = &peers[i].context {
            cc.context = clone_bytes(ctx);
        }
        let data = encode_conf_change(&cc);
        let mut e = Entry::new();
        e.entry_type = EntryType::EntryConfChange;
        e.term = 1;
        e.index = i as u64 + 1;
        e.data = data;
        assert(e@ =~= first_entries(peers@)[i as int]);
        ents.push(e);
        i += 1;
    }
    assert(entries_view(ents@) =~= first_entries(peers@));
    ents
}

impl<T: Storage> RawNode<T> {
    /// The invariant of a node.
    pub open spec fn wf(&self) -> bool {
        self.raft.wf()
    }

    /// Sets up a new cluster of `peers`.
    fn bootstrap(raft: &mut Raft<T>, peers: &Vec<Peer>) -> (r: Result<(), Error>)
        requires
            old(raft).wf(),
            old(raft)@.raft_log.last() == 0,
            peers.len() < usize::MAX,
        ensures
            (final(raft)@, unit_result(r)) == old(raft)@.bootstrap(peers@),
            final(raft).wf(),
    {
        let ghost given = raft@;
        raft.become_follower(1, INVALID_ID);
        let ents = bootstrap_entries(peers);
        let ghost es = entries_view(ents@);
        assert(es.len() == peers@.len());
        assert forall|i: int| 0 <= i < es.len() implies (#[trigger] es[i]).index < u64::MAX by {}
        raft.raft_log.append(ents);
        raft.raft_log.committed = peers.len() as u64;
        let ghost s = raft@;
        let mut i: usize = 0;
        while i < peers.len()
            invariant
                i <= peers.len(),
                raft.wf(),
                given == old(raft)@,
                s == given.become_follower(1, INVALID_ID).with_first_entries(peers@),
                (raft@, Ok::<(), ErrorView>(())) == s.add_peers(peers@, i as int),
            decreases peers.len() - i,
        {
            match raft.add_node(peers[i].id) {
                Ok(_) => {},
                Err(e) => {
                    proof {
                        s.lemma_add_peers_stops(peers@, i + 1, peers@.len() as int);
                    }
                    return Err(e);
                },
            }
            i += 1;
        }
        Ok(())
    }

    /// Returns a node that starts from what the store has saved. With an empty store, a new
    /// cluster of `peers` is set up.
    ///
    /// # Errors
    ///
    /// * The node cannot start; see [`Raft::new`].
    /// * A node is among `peers` twice, or in the cluster already.
    pub fn new(config: &Config, store: T, peers: Vec<Peer>) -> (r: Result<RawNode<T>, Error>)
        requires
            config.id != 0,
            RaftView::new_ok(*config, store),
            peers.len() < usize::MAX,
        ensures
            node_result(r) == RawNodeView::new(*config, store, peers@),
            r matches Ok(node) ==> node.wf(),
    {
        let mut raft = match Raft::new(config, store) {
            Ok(raft) => raft,
            Err(e) => {
                return Err(e);
            },
        };
        proof {
            RaftView::lemma_new_store(*config, store);
        }
        let last_index: u64 = match raft.get_store().last_index() {
            Ok(i) => i,
            Err(e) => {
                return Err(e);
            },
        };
        if last_index == 0 {
            match RawNode::bootstrap(&mut raft, &peers) {
                Ok(_) => {},
                Err(e) => {
                    return Err(e);
                },
            }
            let prev_ss = raft.soft_state();
            return Ok(RawNode { raft, prev_ss, prev_hs: HardState::new() });
        }
        let prev_ss = raft.soft_state();
        let prev_hs = raft.hard_state();
        Ok(RawNode { raft, prev_ss, prev_hs })
    }

    /// Marks what `rd` holds as saved.
    fn commit_ready(&mut self, rd: Ready)
        requires
            old(self)@.commit_ready_ok(rd@),
        ensures
            final(self)@ == old(self)@.commit_ready(rd@),
            final(self).raft.same_timeout(&old(self).raft),
    {
        if let Some(ss) = rd.ss {
            self.prev_ss = ss;
        }
        if let Some(hs) = rd.hs {
            if hs != HardState::new() {
                self.prev_hs = hs;
            }
        }
        assert(rd@.entries.len() == rd.entries@.len());
        if rd.entries.len() > 0 {
            let e = &rd.entries[rd.entries.len() - 1];
            assert(rd@.entries.last() == e@);
            self.raft.raft_log.stable_to(e.index, e.term);
        }
        if !rd.snapshot.is_default() {
            self.raft.raft_log.stable_snap_to(rd.snapshot.metadata.index);
        }
        if rd.read_states.len() > 0 {
            self.raft.read_states = Vec::new();
            assert(read_states_view(self.raft.read_states@) =~= Seq::<ReadStateView>::empty());
        }
    }

    /// Marks the entries up to `applied` as applied.
    fn commit_apply(&mut self, applied: u64)
        requires
            old(self).wf(),
            old(self)@.raft.commit_apply_ok(applied),
        ensures
            final(self)@ == old(self)@.with_raft(old(self)@.raft.commit_apply(applied)),
            final(self).wf(),
            final(self).raft.same_timeout(&old(self).raft),
    {
        self.raft.commit_apply(applied);
    }

    /// Lets one tick pass. Returns whether there may be something to do.
    pub fn tick(&mut self) -> (r: bool)
        requires
            old(self).wf(),
            old(self)@.raft.tick_ok(old(self).raft.randomized_election_timeout),
        ensures
            final(self)@ == old(self)@.with_raft(
                old(self)@.raft.tick(old(self).raft.randomized_election_timeout).0,
            ),
            r == old(self)@.raft.tick(old(self).raft.randomized_election_timeout).1,
            final(self).wf(),
            final(self).raft.timeout_rule(&old(self).raft),
    {
        self.raft.tick()
    }

    /// Campaigns to become the leader.
    pub fn campaign(&mut self) -> (r: Result<(), Error>)
        requires
            old(self).wf(),
            old(self)@.raft.step_ok(campaign_message()),
        ensures
            final(self)@ == old(self)@.with_raft(old(self)@.raft.step(campaign_message()).0),
            unit_result(r) == old(self)@.raft.step(campaign_message()).1,
            final(self).wf(),
            final(self).raft.timeout_rule(&old(self).raft),
    {
        let mut m = Message::new();
        m.msg_type = MessageType::MsgHup;
        self.raft.step(m)
    }

    /// Proposes that `data` is put into the log.
    pub fn propose(&mut self, context: Vec<u8>, data: Vec<u8>) -> (r: Result<(), Error>)
        requires
            old(self).wf(),
            old(self)@.raft.step_ok(
                proposal(
                    old(self)@.raft.id,
                    EntryView { data: data@, context: context@, ..EntryView::empty() },
                ),
            ),
        ensures
            ({
                let m = proposal(
                    old(self)@.raft.id,
                    EntryView { data: data@, context: context@, ..EntryView::empty() },
                );
                &&& final(self)@ == old(self)@.with_raft(old(self)@.raft.step(m).0)
                &&& unit_result(r) == old(self)@.raft.step(m).1
            }),
            final(self).wf(),
            final(self).raft.timeout_rule(&old(self).raft),
    {
        let mut m = Message::new();
        m.msg_type = MessageType::MsgPropose;
        m.from = self.raft.id;
        let mut e = Entry::new();
        e.data = data;
        e.context = context;
        m.entries = vec![e];
        assert(m@ =~= proposal(
            self@.raft.id,
            EntryView { data: data@, context: context@, ..EntryView::empty() },
        ));
        self.raft.step(m)
    }

    /// Proposes a configuration change.
    pub fn propose_conf_change(&mut self, context: Vec<u8>, cc: ConfChange) -> (r: Result<
        (),
        Error,
    >)
        requires
            old(self).wf(),
            old(self)@.raft.step_ok(
                proposal(INVALID_ID, EntryView { context: context@, ..change_entry(cc@) }),
            ),
        ensures
            ({
                let m = proposal(
                    INVALID_ID,
                    EntryView { context: context@, ..change_entry(cc@) },
                );
                &&& final(self)@ == old(self)@.with_raft(old(self)@.raft.step(m).0)
                &&& unit_result(r) == old(self)@.raft.step(m).1
            }),
            final(self).wf(),
            final(self).raft.timeout_rule(&old(self).raft),
    {
        let data = encode_conf_change(&cc);
        let mut m = Message::new();
        m.msg_type = MessageType::MsgPropose;
        let mut e = Entry::new();
        e.entry_type = EntryType::EntryConfChange;
        e.data = data;
        e.context = context;
        m.entries = vec![e];
        assert(m@ =~= proposal(
            INVALID_ID,
            EntryView { context: context@, ..change_entry(cc@) },
        ));
        self.raft.step(m)
    }

    /// Applies a configuration change, and returns the configuration then.
    ///
    /// The beginning or the end of a membership change must be one that is not refused. Where
    /// that is not known, call [`Raft::begin_membership_change`] or
    /// [`Raft::finalize_membership_change`], which return errors.
    ///
    /// # Errors
    ///
    /// * The node cannot be added or removed; see [`Raft::add_node`], [`Raft::add_learner`] and
    ///   [`Raft::remove_node`].
    pub fn apply_conf_change(&mut self, cc: &ConfChange) -> (r: Result<ConfState, Error>)
        requires
            old(self).wf(),
            old(self)@.apply_conf_change_ok(cc@),
        ensures
            (final(self)@, conf_result(r)) == old(self)@.apply_conf_change(cc@),
            final(self).wf(),
            final(self).raft.timeout_rule(&old(self).raft),
    {
        if cc.node_id == INVALID_ID && cc.change_type != ConfChangeType::BeginMembershipChange
            && cc.change_type != ConfChangeType::FinalizeMembershipChange {
            let nodes = self.raft.prs().voter_ids();
            let learners = self.raft.prs().learner_ids();
            return Ok(ConfState { nodes, learners });
        }
        let nid: u64 = cc.node_id;
        let outcome = match cc.change_type {
            ConfChangeType::AddNode => self.raft.add_node(nid),
            ConfChangeType::AddLearnerNode => self.raft.add_learner(nid),
            ConfChangeType::RemoveNode => self.raft.remove_node(nid),
            ConfChangeType::BeginMembershipChange => self.raft.begin_membership_change(cc),
            ConfChangeType::FinalizeMembershipChange => self.raft.finalize_membership_change(cc),
        };
        match outcome {
            Ok(_) => Ok(self.raft.prs().configuration.to_conf_state()),
            Err(e) => Err(e),
        }
    }

    /// Handles a message that came over the network.
    ///
    /// # Errors
    ///
    /// * The message is one that never comes over the network.
    /// * The message is an answer of a node that is not in the cluster.
    /// * The proposal is dropped.
    pub fn step(&mut self, m: Message) -> (r: Result<(), Error>)
        requires
            old(self).wf(),
            old(self)@.step_ok(m@),
        ensures
            (final(self)@, unit_result(r)) == old(self)@.step(m@),
            final(self).wf(),
            final(self).raft.timeout_rule(&old(self).raft),
    {
        if is_local_msg(m.msg_type) {
            return Err(Error::StepLocalMsg);
        }
        if self.raft.prs().get(m.from).is_some() || !is_response_msg(m.msg_type) {
            return self.raft.step(m);
        }
        Err(Error::StepPeerNotFound)
    }

    /// Returns what is to be done, with the entries behind `applied_idx` to be applied.
    pub fn ready_since(&mut self, applied_idx: u64) -> (r: Ready)
        requires
            old(self).wf(),
            applied_idx < u64::MAX,
        ensures
            r@ == old(self)@.ready(Some(applied_idx)),
            final(self)@ == old(self)@.taken(),
            final(self).wf(),
            final(self).raft.same_timeout(&old(self).raft),
    {
        Ready::new(&mut self.raft, &self.prev_ss, &self.prev_hs, Some(applied_idx))
    }

    /// Returns what is to be done.
    pub fn ready(&mut self) -> (r: Ready)
        requires
            old(self).wf(),
        ensures
            r@ == old(self)@.ready(None),
            final(self)@ == old(self)@.taken(),
            final(self).wf(),
            final(self).raft.same_timeout(&old(self).raft),
    {
        Ready::new(&mut self.raft, &self.prev_ss, &self.prev_hs, None)
    }

    /// Whether something is to be done, with the entries behind `applied_idx` to be applied.
    pub fn has_ready_since(&self, applied_idx: Option<u64>) -> (r: bool)
        requires
            self.wf(),
            self@.raft.since(applied_idx) < u64::MAX,
        ensures
            r == self@.has_ready(applied_idx),
    {
        let raft = &self.raft;
        assert(raft@.raft_log.unstable.entries.len() == raft.raft_log.unstable.entries@.len());
        if raft.msgs.len() > 0 || raft.raft_log.unstable.entries.len() > 0 {
            return true;
        }
        if raft.read_states.len() > 0 {
            return true;
        }
        if let Some(s) = self.get_snap() {
            if !is_empty_snap(s) {
                return true;
            }
        }
        let since: u64 = match applied_idx {
            Some(i) => i,
            None => raft.raft_log.applied,
        };
        if raft.raft_log.has_next_entries_since(since) {
            return true;
        }
        if raft.soft_state() != self.prev_ss {
            return true;
        }
        let hs = raft.hard_state();
        hs != HardState::new() && hs != self.prev_hs
    }

    /// Whether something is to be done.
    pub fn has_ready(&self) -> (r: bool)
        requires
            self.wf(),
        ensures
            r == self@.has_ready(None),
    {
        self.has_ready_since(None)
    }

    /// Returns the snapshot that is to be saved.
    pub fn get_snap(&self) -> (r: Option<&Snapshot>)
        ensures
            self@.raft.raft_log.unstable.snapshot == (match r {
                Some(s) => Some(s@),
                None => None,
            }),
    {
        self.raft.get_snap()
    }

    /// Marks what `rd` holds as saved and applied.
    pub fn advance(&mut self, rd: Ready)
        requires
            old(self).wf(),
            old(self)@.advance_ok(rd@),
        ensures
            final(self)@ == old(self)@.advance(rd@),
            final(self).wf(),
            final(self).raft.same_timeout(&old(self).raft),
    {
        self.advance_append(rd);
        let commit_idx: u64 = self.prev_hs.commit;
        if commit_idx != 0 {
            self.advance_apply(commit_idx);
        }
    }

    /// Marks what `rd` holds as saved. The node stays valid where the store has it.
    pub fn advance_append(&mut self, rd: Ready)
        requires
            old(self).wf(),
            old(self)@.commit_ready_ok(rd@),
        ensures
            final(self)@ == old(self)@.commit_ready(rd@),
            old(self)@.commit_ready(rd@).raft.raft_log.wf() ==> final(self).wf(),
            final(self).raft.same_timeout(&old(self).raft),
    {
        self.commit_ready(rd);
    }

    /// Marks the entries up to `applied` as applied.
    pub fn advance_apply(&mut self, applied: u64)
        requires
            old(self).wf(),
            old(self)@.raft.commit_apply_ok(applied),
        ensures
            final(self)@ == old(self)@.with_raft(old(self)@.raft.commit_apply(applied)),
            final(self).wf(),
            final(self).raft.same_timeout(&old(self).raft),
    {
        self.commit_apply(applied);
    }

    /// Returns the status of the node.
    pub fn status(&self) -> (r: Status)
        requires
            self@.raft.progress is Some,
        ensures
            r.id == self@.raft.id,
            r.hs == self@.raft.hard_state(),
            r.ss == self@.raft.soft_state(),
            r.applied == self@.raft.raft_log.applied,
            r.progress_view() == (if self@.raft.state == StateRole::Leader {
                Some(self@.raft.prs())
            } else {
                None
            }),
    {
        Status::new(&self.raft)
    }

    /// Reports that the node `id` could not be reached.
    pub fn report_unreachable(&mut self, id: u64)
        requires
            old(self).wf(),
            old(self)@.raft.step_ok(unreachable_message(id)),
        ensures
            final(self)@ == old(self)@.with_raft(
                old(self)@.raft.step(unreachable_message(id)).0,
            ),
            final(self).wf(),
            final(self).raft.timeout_rule(&old(self).raft),
    {
        let mut m = Message::new();
        m.msg_type = MessageType::MsgUnreachable;
        m.from = id;
        let _ = self.raft.step(m);
    }

    /// Reports what became of the snapshot for the node `id`.
    pub fn report_snapshot(&mut self, id: u64, status: SnapshotStatus)
        requires
            old(self).wf(),
            old(self)@.raft.step_ok(snapshot_report(id, status)),
        ensures
            final(self)@ == old(self)@.with_raft(
                old(self)@.raft.step(snapshot_report(id, status)).0,
            ),
            final(self).wf(),
            final(self).raft.timeout_rule(&old(self).raft),
    {
        let rej = status == SnapshotStatus::Failure;
        let mut m = Message::new();
        m.msg_type = MessageType::MsgSnapStatus;
        m.from = id;
        m.reject = rej;
        let _ = self.raft.step(m);
    }

    /// Tries to transfer the leadership to the node `transferee`.
    pub fn transfer_leader(&mut self, transferee: u64)
        requires
            old(self).wf(),
            old(self)@.raft.step_ok(transfer_message(transferee)),
        ensures
            final(self)@ == old(self)@.with_raft(
                old(self)@.raft.step(transfer_message(transferee)).0,
            ),
            final(self).wf(),
            final(self).raft.timeout_rule(&old(self).raft),
    {
        let mut m = Message::new();
        m.msg_type = MessageType::MsgTransferLeader;
        m.from = transferee;
        let _ = self.raft.step(m);
    }

    /// Asks for the index that the log must be applied to before a read. The answer comes
    /// with the same context.
    pub fn read_index(&mut self, rctx: Vec<u8>)
        requires
            old(self).wf(),
            old(self)@.raft.step_ok(read_message(rctx@)),
        ensures
            final(self)@ == old(self)@.with_raft(
                old(self)@.raft.step(read_message(rctx@)).0,
            ),
            final(self).wf(),
            final(self).raft.timeout_rule(&old(self).raft),
    {
        let mut m = Message::new();
        m.msg_type = MessageType::MsgReadIndex;
        let mut e = Entry::new();
        e.data = rctx;
        m.entries = vec![e];
        assert(m@ =~= read_message(rctx@));
        let _ = self.raft.step(m);
    }

    /// Returns the store.
    pub fn get_store(&self) -> (r: &T)
        ensures
            *r == self@.raft.raft_log.store,
    {
        self.raft.get_store()
    }

    /// Returns the store for changes.
    pub fn mut_store(&mut self) -> (r: &mut T)
        ensures
            *r == old(self)@.raft.raft_log.store,
            final(self)@ == old(self)@.with_store(*final(r)),
            final(self).raft.same_timeout(&old(self).raft),
    {
        self.raft.mut_store()
    }

    /// Sets whether a new commit index is not broadcast at once.
    pub fn skip_bcast_commit(&mut self, skip: bool)
        ensures
            final(self)@ == old(self)@.with_raft(
                RaftView { skip_bcast_commit: skip, ..old(self)@.raft },
            ),
            final(self).raft.same_timeout(&old(self).raft),
    {
        self.raft.skip_bcast_commit(skip);
    }
}

} // verus!
