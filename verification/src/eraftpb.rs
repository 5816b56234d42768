//! The values that nodes exchange and store: log entries, messages, snapshots,
//! configuration changes and the hard state.
//!
//! Each type that owns a vector has a view, a record of mathematical sequences,
//! which the contracts of the library speak of.
use vstd::prelude::*;

verus! {

/// What an entry carries.
#[derive(Debug, PartialEq, Eq, Structural, Clone, Copy)]
pub enum EntryType {
    /// Data of the application.
    EntryNormal,
    /// An encoded configuration change.
    EntryConfChange,
}

/// The kinds of messages.
#[derive(Debug, PartialEq, Eq, Structural, Clone, Copy)]
pub enum MessageType {
    /// Local: start an election.
    MsgHup,
    /// Local: send heartbeats.
    MsgBeat,
    /// Append entries to the log.
    MsgPropose,
    /// Entries from the leader.
    MsgAppend,
    /// Answer to `MsgAppend` and `MsgSnapshot`.
    MsgAppendResponse,
    /// Ask for a vote.
    MsgRequestVote,
    /// Answer to `MsgRequestVote`.
    MsgRequestVoteResponse,
    /// A snapshot from the leader.
    MsgSnapshot,
    /// A heartbeat from the leader.
    MsgHeartbeat,
    /// Answer to `MsgHeartbeat`.
    MsgHeartbeatResponse,
    /// Local: a peer could not be reached.
    MsgUnreachable,
    /// Local: what became of a snapshot that was sent.
    MsgSnapStatus,
    /// Local: check that a quorum is active.
    MsgCheckQuorum,
    /// Hand the leadership over.
    MsgTransferLeader,
    /// Start an election at once.
    MsgTimeoutNow,
    /// Ask for a read index.
    MsgReadIndex,
    /// Answer to `MsgReadIndex`.
    MsgReadIndexResp,
    /// Ask for a vote before an election is started.
    MsgRequestPreVote,
    /// Answer to `MsgRequestPreVote`.
    MsgRequestPreVoteResponse,
}

/// The kinds of configuration changes.
#[derive(Debug, PartialEq, Eq, Structural, Clone, Copy)]
pub enum ConfChangeType {
    /// Add one voter.
    AddNode,
    /// Remove one node.
    RemoveNode,
    /// Add one learner.
    AddLearnerNode,
    /// Enter the joint configuration.
    BeginMembershipChange,
    /// Leave the joint configuration.
    FinalizeMembershipChange,
}

/// The part of the state that survives a restart.
#[derive(Debug, PartialEq, Eq, Structural, Clone, Copy)]
pub struct HardState {
    /// The current term.
    pub term: u64,
    /// The candidate voted for in that term.
    pub vote: u64,
    /// The commit index.
    pub commit: u64,
}

impl HardState {
    /// The hard state of a node that has stored nothing.
    pub open spec fn empty() -> HardState {
        HardState { term: 0, vote: 0, commit: 0 }
    }

    /// Returns the hard state of a node that has stored nothing.
    pub fn new() -> (hs: HardState)
        ensures
            hs == HardState::empty(),
    {
        HardState { term: 0, vote: 0, commit: 0 }
    }
}

/// One entry of the log.
#[derive(Debug, PartialEq)]
pub struct Entry {
    /// What the entry carries.
    pub entry_type: EntryType,
    /// The term in which the entry was proposed.
    pub term: u64,
    /// The position in the log.
    pub index: u64,
    /// The payload.
    pub data: Vec<u8>,
    /// Data that the application attaches.
    pub context: Vec<u8>,
}

/// The view of an [`Entry`].
#[verifier::ext_equal]
pub struct EntryView {
    /// What the entry carries.
    pub entry_type: EntryType,
    /// The term in which the entry was proposed.
    pub term: u64,
    /// The position in the log.
    pub index: u64,
    /// The payload.
    pub data: Seq<u8>,
    /// Data that the application attaches.
    pub context: Seq<u8>,
}

impl View for Entry {
    type V = EntryView;

    open spec fn view(&self) -> EntryView {
        EntryView {
            entry_type: self.entry_type,
            term: self.term,
            index: self.index,
            data: self.data@,
            context: self.context@,
        }
    }
}

impl EntryView {
    /// An entry with nothing in it.
    pub open spec fn empty() -> EntryView {
        EntryView {
            entry_type: EntryType::EntryNormal,
            term: 0,
            index: 0,
            data: Seq::empty(),
            context: Seq::empty(),
        }
    }
}

impl Entry {
    /// Returns an entry with nothing in it.
    pub fn new() -> (e: Entry)
        ensures
            e@ == EntryView::empty(),
    {
        Entry {
            entry_type: EntryType::EntryNormal,
            term: 0,
            index: 0,
            data: Vec::new(),
            context: Vec::new(),
        }
    }
}

/// Returns a vector with the bytes of `b`.
pub fn clone_bytes(b: &Vec<u8>) -> (r: Vec<u8>)
    ensures
        r@ == b@,
{
    let r = b.clone();
    assert(r@ =~= b@);
    r
}

/// Returns a vector with the numbers of `v`.
pub fn clone_ids(v: &Vec<u64>) -> (r: Vec<u64>)
    ensures
        r@ == v@,
{
    let r = v.clone();
    assert(r@ =~= v@);
    r
}

/// Whether two byte vectors hold the same bytes.
pub fn bytes_equal(a: &[u8], b: &[u8]) -> (r: bool)
    ensures
        r == (a@ == b@),
{
    if a.len() != b.len() {
        return false;
    }
    let mut i: usize = 0;
    while i < a.len()
        invariant
            a.len() == b.len(),
            i <= a.len(),
            forall|j: int| 0 <= j < i ==> a@[j] == b@[j],
        decreases a.len() - i,
    {
        if a[i] != b[i] {
            return false;
        }
        i += 1;
    }
    assert(a@ =~= b@);
    true
}

/// The view of an optional sequence of bytes.
pub open spec fn opt_bytes_view(b: Option<Vec<u8>>) -> Option<Seq<u8>> {
    match b {
        Some(b) => Some(b@),
        None => None,
    }
}

impl Clone for Entry {
    fn clone(&self) -> (r: Self)
        ensures
            r@ == self@,
    {
        Entry {
            entry_type: self.entry_type,
            term: self.term,
            index: self.index,
            data: clone_bytes(&self.data),
            context: clone_bytes(&self.context),
        }
    }
}

/// The views of a sequence of entries.
pub open spec fn entries_view(s: Seq<Entry>) -> Seq<EntryView> {
    s.map_values(|e: Entry| e@)
}

/// Returns copies of the entries `es[from..to]`.
pub fn clone_entries(es: &Vec<Entry>, from: usize, to: usize) -> (r: Vec<Entry>)
    requires
        from <= to <= es.len(),
    ensures
        entries_view(r@) == entries_view(es@).subrange(from as int, to as int),
{
    let mut r: Vec<Entry> = Vec::new();
    let mut i: usize = from;
    while i < to
        invariant
            from <= i <= to <= es.len(),
            entries_view(r@) =~= entries_view(es@).subrange(from as int, i as int),
        decreases to - i,
    {
        let ghost before = r@;
        r.push(es[i].clone());
        assert(entries_view(r@) =~= entries_view(before).push(es@[i as int]@));
        i += 1;
    }
    r
}

/// The voters and the learners of a configuration.
#[derive(Debug, PartialEq)]
pub struct ConfState {
    /// The voters.
    pub nodes: Vec<u64>,
    /// The learners.
    pub learners: Vec<u64>,
}

/// The view of a [`ConfState`].
#[verifier::ext_equal]
pub struct ConfStateView {
    /// The voters.
    pub nodes: Seq<u64>,
    /// The learners.
    pub learners: Seq<u64>,
}

impl View for ConfState {
    type V = ConfStateView;

    open spec fn view(&self) -> ConfStateView {
        ConfStateView { nodes: self.nodes@, learners: self.learners@ }
    }
}

impl ConfStateView {
    /// A configuration without nodes.
    pub open spec fn empty() -> ConfStateView {
        ConfStateView { nodes: Seq::empty(), learners: Seq::empty() }
    }
}

impl ConfState {
    /// Returns a configuration without nodes.
    pub fn new() -> (c: ConfState)
        ensures
            c@ == ConfStateView::empty(),
    {
        ConfState { nodes: Vec::new(), learners: Vec::new() }
    }
}

impl Clone for ConfState {
    fn clone(&self) -> (r: Self)
        ensures
            r@ == self@,
    {
        ConfState { nodes: clone_ids(&self.nodes), learners: clone_ids(&self.learners) }
    }
}

/// What a snapshot says of the log that it stands for.
#[derive(Debug, PartialEq)]
pub struct SnapshotMetadata {
    /// The configuration at the last entry.
    pub conf_state: ConfState,
    /// The configuration that a membership change under way leads to.
    pub pending_membership_change: ConfState,
    /// The index at which that change began; 0 when there is none.
    pub pending_membership_change_index: u64,
    /// The index of the last entry.
    pub index: u64,
    /// The term of the last entry.
    pub term: u64,
}

/// The view of a [`SnapshotMetadata`].
#[verifier::ext_equal]
pub struct SnapshotMetadataView {
    /// The configuration at the last entry.
    pub conf_state: ConfStateView,
    /// The configuration that a membership change under way leads to.
    pub pending_membership_change: ConfStateView,
    /// The index at which that change began; 0 when there is none.
    pub pending_membership_change_index: u64,
    /// The index of the last entry.
    pub index: u64,
    /// The term of the last entry.
    pub term: u64,
}

impl View for SnapshotMetadata {
    type V = SnapshotMetadataView;

    open spec fn view(&self) -> SnapshotMetadataView {
        SnapshotMetadataView {
            conf_state: self.conf_state@,
            pending_membership_change: self.pending_membership_change@,
            pending_membership_change_index: self.pending_membership_change_index,
            index: self.index,
            term: self.term,
        }
    }
}

/// A snapshot of the state machine.
#[derive(Debug, PartialEq)]
pub struct Snapshot {
    /// The state of the application.
    pub data: Vec<u8>,
    /// What the snapshot says of the log.
    pub metadata: SnapshotMetadata,
}

/// The view of a [`Snapshot`].
#[verifier::ext_equal]
pub struct SnapshotView {
    /// The state of the application.
    pub data: Seq<u8>,
    /// What the snapshot says of the log.
    pub metadata: SnapshotMetadataView,
}

impl View for Snapshot {
    type V = SnapshotView;

    open spec fn view(&self) -> SnapshotView {
        SnapshotView { data: self.data@, metadata: self.metadata@ }
    }
}

impl SnapshotView {
    /// A snapshot of nothing.
    pub open spec fn empty() -> SnapshotView {
        SnapshotView {
            data: Seq::empty(),
            metadata: SnapshotMetadataView {
                conf_state: ConfStateView::empty(),
                pending_membership_change: ConfStateView::empty(),
                pending_membership_change_index: 0,
                index: 0,
                term: 0,
            },
        }
    }
}

impl Snapshot {
    /// Returns a snapshot of nothing.
    pub fn new() -> (s: Snapshot)
        ensures
            s@ == SnapshotView::empty(),
    {
        Snapshot {
            data: Vec::new(),
            metadata: SnapshotMetadata {
                conf_state: ConfState::new(),
                pending_membership_change: ConfState::new(),
                pending_membership_change_index: 0,
                index: 0,
                term: 0,
            },
        }
    }

    /// Whether this is the snapshot of nothing.
    pub fn is_default(&self) -> (b: bool)
        ensures
            b == (self@ == SnapshotView::empty()),
    {
        let b = self.data.len() == 0 && self.metadata.conf_state.nodes.len() == 0
            && self.metadata.conf_state.learners.len() == 0
            && self.metadata.pending_membership_change.nodes.len() == 0
            && self.metadata.pending_membership_change.learners.len() == 0
            && self.metadata.pending_membership_change_index == 0 && self.metadata.index == 0
            && self.metadata.term == 0;
        proof {
            if b {
                assert(self@ =~= SnapshotView::empty());
            }
        }
        b
    }
}

impl Clone for SnapshotMetadata {
    fn clone(&self) -> (r: Self)
        ensures
            r@ == self@,
    {
        SnapshotMetadata {
            conf_state: self.conf_state.clone(),
            pending_membership_change: self.pending_membership_change.clone(),
            pending_membership_change_index: self.pending_membership_change_index,
            index: self.index,
            term: self.term,
        }
    }
}

impl Clone for Snapshot {
    fn clone(&self) -> (r: Self)
        ensures
            r@ == self@,
    {
        Snapshot { data: clone_bytes(&self.data), metadata: self.metadata.clone() }
    }
}

/// The view of a snapshot that may be absent.
pub open spec fn opt_snapshot_view(s: Option<Snapshot>) -> Option<SnapshotView> {
    match s {
        Some(s) => Some(s@),
        None => None,
    }
}

/// A message between nodes, or from a node to itself.
#[derive(Debug, PartialEq)]
pub struct Message {
    /// The kind.
    pub msg_type: MessageType,
    /// The receiver.
    pub to: u64,
    /// The sender.
    pub from: u64,
    /// The term of the sender; 0 for a local message.
    pub term: u64,
    /// The term of the entry at `index`.
    pub log_term: u64,
    /// A position in the log.
    pub index: u64,
    /// The entries.
    pub entries: Vec<Entry>,
    /// A commit index.
    pub commit: u64,
    /// The snapshot.
    pub snapshot: Snapshot,
    /// Whether a request is refused.
    pub reject: bool,
    /// The last index of the log of the one who refuses.
    pub reject_hint: u64,
    /// What the message belongs to.
    pub context: Vec<u8>,
}

/// The view of a [`Message`].
#[verifier::ext_equal]
pub struct MessageView {
    /// The kind.
    pub msg_type: MessageType,
    /// The receiver.
    pub to: u64,
    /// The sender.
    pub from: u64,
    /// The term of the sender; 0 for a local message.
    pub term: u64,
    /// The term of the entry at `index`.
    pub log_term: u64,
    /// A position in the log.
    pub index: u64,
    /// The entries.
    pub entries: Seq<EntryView>,
    /// A commit index.
    pub commit: u64,
    /// The snapshot.
    pub snapshot: SnapshotView,
    /// Whether a request is refused.
    pub reject: bool,
    /// The last index of the log of the one who refuses.
    pub reject_hint: u64,
    /// What the message belongs to.
    pub context: Seq<u8>,
}

impl View for Message {
    type V = MessageView;

    open spec fn view(&self) -> MessageView {
        MessageView {
            msg_type: self.msg_type,
            to: self.to,
            from: self.from,
            term: self.term,
            log_term: self.log_term,
            index: self.index,
            entries: entries_view(self.entries@),
            commit: self.commit,
            snapshot: self.snapshot@,
            reject: self.reject,
            reject_hint: self.reject_hint,
            context: self.context@,
        }
    }
}

impl MessageView {
    /// A message with nothing in it.
    pub open spec fn empty() -> MessageView {
        MessageView {
            msg_type: MessageType::MsgHup,
            to: 0,
            from: 0,
            term: 0,
            log_term: 0,
            index: 0,
            entries: Seq::empty(),
            commit: 0,
            snapshot: SnapshotView::empty(),
            reject: false,
            reject_hint: 0,
            context: Seq::empty(),
        }
    }

    /// A message of kind `t` for node `to`, with nothing else in it.
    pub open spec fn to_node(to: u64, t: MessageType) -> MessageView {
        MessageView { to, msg_type: t, ..MessageView::empty() }
    }
}

impl Message {
    /// Returns a message with nothing in it.
    pub fn new() -> (m: Message)
        ensures
            m@ == MessageView::empty(),
    {
        let m = Message {
            msg_type: MessageType::MsgHup,
            to: 0,
            from: 0,
            term: 0,
            log_term: 0,
            index: 0,
            entries: Vec::new(),
            commit: 0,
            snapshot: Snapshot::new(),
            reject: false,
            reject_hint: 0,
            context: Vec::new(),
        };
        assert(m@ =~= MessageView::empty());
        m
    }
}

impl Clone for Message {
    fn clone(&self) -> (r: Self)
        ensures
            r@ == self@,
    {
        let r = Message {
            msg_type: self.msg_type,
            to: self.to,
            from: self.from,
            term: self.term,
            log_term: self.log_term,
            index: self.index,
            entries: clone_entries(&self.entries, 0, self.entries.len()),
            commit: self.commit,
            snapshot: self.snapshot.clone(),
            reject: self.reject,
            reject_hint: self.reject_hint,
            context: clone_bytes(&self.context),
        };
        assert(r@ =~= self@);
        r
    }
}

/// The views of a sequence of messages.
pub open spec fn messages_view(s: Seq<Message>) -> Seq<MessageView> {
    s.map_values(|m: Message| m@)
}

/// A change of the configuration.
#[derive(Debug, PartialEq)]
pub struct ConfChange {
    /// Chosen by the application.
    pub id: u64,
    /// The kind.
    pub change_type: ConfChangeType,
    /// The node that is added or removed.
    pub node_id: u64,
    /// Data that the application attaches.
    pub context: Vec<u8>,
    /// The configuration that a membership change leads to.
    pub configuration: Option<ConfState>,
    /// The index at which a membership change begins.
    pub start_index: u64,
}

/// The view of a [`ConfChange`].
#[verifier::ext_equal]
pub struct ConfChangeView {
    /// Chosen by the application.
    pub id: u64,
    /// The kind.
    pub change_type: ConfChangeType,
    /// The node that is added or removed.
    pub node_id: u64,
    /// Data that the application attaches.
    pub context: Seq<u8>,
    /// The configuration that a membership change leads to.
    pub configuration: Option<ConfStateView>,
    /// The index at which a membership change begins.
    pub start_index: u64,
}

impl View for ConfChange {
    type V = ConfChangeView;

    open spec fn view(&self) -> ConfChangeView {
        ConfChangeView {
            id: self.id,
            change_type: self.change_type,
            node_id: self.node_id,
            context: self.context@,
            configuration: match self.configuration {
                Some(c) => Some(c@),
                None => None,
            },
            start_index: self.start_index,
        }
    }
}

impl ConfChangeView {
    /// A change with nothing in it.
    pub open spec fn empty() -> ConfChangeView {
        ConfChangeView {
            id: 0,
            change_type: ConfChangeType::AddNode,
            node_id: 0,
            context: Seq::empty(),
            configuration: None,
            start_index: 0,
        }
    }

    /// The change that begins a move to `configuration` at `start_index`.
    pub open spec fn begin(start_index: u64, configuration: ConfStateView) -> ConfChangeView {
        ConfChangeView {
            change_type: ConfChangeType::BeginMembershipChange,
            configuration: Some(configuration),
            start_index,
            ..ConfChangeView::empty()
        }
    }

    /// The change that ends a move to a new configuration.
    pub open spec fn finalize() -> ConfChangeView {
        ConfChangeView {
            change_type: ConfChangeType::FinalizeMembershipChange,
            ..ConfChangeView::empty()
        }
    }
}

impl ConfChange {
    /// Returns a change with nothing in it.
    pub fn new() -> (c: ConfChange)
        ensures
            c@ == ConfChangeView::empty(),
    {
        let c = ConfChange {
            id: 0,
            change_type: ConfChangeType::AddNode,
            node_id: 0,
            context: Vec::new(),
            configuration: None,
            start_index: 0,
        };
        assert(c@ =~= ConfChangeView::empty());
        c
    }

    /// Returns the change that begins a move to `configuration` at `start_index`.
    pub fn begin(start_index: u64, configuration: ConfState) -> (c: ConfChange)
        ensures
            c@ == ConfChangeView::begin(start_index, configuration@),
    {
        let mut c = ConfChange::new();
        c.change_type = ConfChangeType::BeginMembershipChange;
        c.configuration = Some(configuration);
        c.start_index = start_index;
        c
    }
}

impl Clone for ConfChange {
    fn clone(&self) -> (r: Self)
        ensures
            r@ == self@,
    {
        ConfChange {
            id: self.id,
            change_type: self.change_type,
            node_id: self.node_id,
            context: clone_bytes(&self.context),
            configuration: match &self.configuration {
                Some(c) => Some(c.clone()),
                None => None,
            },
            start_index: self.start_index,
        }
    }
}

/// The view of a configuration change that may be absent.
pub open spec fn opt_change_view(c: Option<ConfChange>) -> Option<ConfChangeView> {
    match c {
        Some(c) => Some(c@),
        None => None,
    }
}

} // verus!
