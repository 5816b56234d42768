//! The store that keeps the log, the hard state and the snapshot of a node.
use crate::eraftpb::{
    clone_entries, entries_view, ConfState, ConfStateView, Entry, EntryView, HardState, Snapshot,
    SnapshotView,
};
use crate::errors::{Error, ErrorView, StorageError, StorageErrorView};
use crate::util::{limit_size, limited};
use vstd::prelude::*;

verus! {

/// What a store knows of a node when it starts.
#[derive(Debug)]
pub struct RaftState {
    /// The hard state.
    pub hard_state: HardState,
    /// The configuration.
    pub conf_state: ConfState,
    /// The configuration that a membership change under way leads to.
    pub pending_conf_state: Option<ConfState>,
    /// The index at which that change began.
    pub pending_conf_state_start_index: Option<u64>,
}

/// The view of a [`RaftState`].
#[verifier::ext_equal]
pub struct RaftStateView {
    /// The hard state.
    pub hard_state: HardState,
    /// The configuration.
    pub conf_state: ConfStateView,
    /// The configuration that a membership change under way leads to.
    pub pending_conf_state: Option<ConfStateView>,
    /// The index at which that change began.
    pub pending_conf_state_start_index: Option<u64>,
}

impl View for RaftState {
    type V = RaftStateView;

    open spec fn view(&self) -> RaftStateView {
        RaftStateView {
            hard_state: self.hard_state,
            conf_state: self.conf_state@,
            pending_conf_state: match self.pending_conf_state {
                Some(c) => Some(c@),
                None => None,
            },
            pending_conf_state_start_index: self.pending_conf_state_start_index,
        }
    }
}

impl RaftStateView {
    /// What a store that holds nothing knows.
    pub open spec fn empty() -> RaftStateView {
        RaftStateView {
            hard_state: HardState::empty(),
            conf_state: ConfStateView::empty(),
            pending_conf_state: None,
            pending_conf_state_start_index: None,
        }
    }
}

impl Clone for RaftState {
    fn clone(&self) -> (r: Self)
        ensures
            r@ == self@,
    {
        RaftState {
            hard_state: self.hard_state,
            conf_state: self.conf_state.clone(),
            pending_conf_state: match &self.pending_conf_state {
                Some(c) => Some(c.clone()),
                None => None,
            },
            pending_conf_state_start_index: self.pending_conf_state_start_index,
        }
    }
}

/// The view of the answer to [`Storage::initial_state`].
pub open spec fn state_result(r: Result<RaftState, Error>) -> Result<RaftStateView, ErrorView> {
    match r {
        Ok(s) => Ok(s@),
        Err(e) => Err(e@),
    }
}

/// The view of the answer to [`Storage::entries`].
pub open spec fn entries_result(r: Result<Vec<Entry>, Error>) -> Result<
    Seq<EntryView>,
    ErrorView,
> {
    match r {
        Ok(es) => Ok(entries_view(es@)),
        Err(e) => Err(e@),
    }
}

/// The view of an answer that is a number.
pub open spec fn number_result(r: Result<u64, Error>) -> Result<u64, ErrorView> {
    match r {
        Ok(n) => Ok(n),
        Err(e) => Err(e@),
    }
}

/// The view of the answer to [`Storage::snapshot`].
pub open spec fn snapshot_result(r: Result<Snapshot, Error>) -> Result<SnapshotView, ErrorView> {
    match r {
        Ok(s) => Ok(s@),
        Err(e) => Err(e@),
    }
}

/// What the library asks of a store, for the application to implement.
///
/// Each answer is a function of the state of the store and of the arguments, and has a
/// name; nothing is said of which answers are errors. An implementation in ordinary code need
/// not define the names.
pub trait Storage: Sized {
    /// The answer to [`Storage::initial_state`].
    open spec fn spec_initial_state(&self) -> Result<RaftStateView, ErrorView> {
        arbitrary()
    }

    /// The answer to [`Storage::entries`].
    open spec fn spec_entries(&self, low: u64, high: u64, max_size: u64) -> Result<
        Seq<EntryView>,
        ErrorView,
    > {
        arbitrary()
    }

    /// The answer to [`Storage::term`].
    open spec fn spec_term(&self, idx: u64) -> Result<u64, ErrorView> {
        arbitrary()
    }

    /// The answer to [`Storage::first_index`].
    open spec fn spec_first_index(&self) -> Result<u64, ErrorView> {
        arbitrary()
    }

    /// The answer to [`Storage::last_index`].
    open spec fn spec_last_index(&self) -> Result<u64, ErrorView> {
        arbitrary()
    }

    /// The answer to [`Storage::snapshot`].
    open spec fn spec_snapshot(&self) -> Result<SnapshotView, ErrorView> {
        arbitrary()
    }

    /// Returns the saved hard state and configuration.
    fn initial_state(&self) -> (r: Result<RaftState, Error>)
        ensures
            state_result(r) == self.spec_initial_state(),
    ;

    /// Returns the entries from `low` up to, but without, `high`, no more than `max_size`
    /// bytes of them.
    fn entries(&self, low: u64, high: u64, max_size: u64) -> (r: Result<Vec<Entry>, Error>)
        ensures
            entries_result(r) == self.spec_entries(low, high, max_size),
    ;

    /// Returns the term of the entry at `idx`.
    fn term(&self, idx: u64) -> (r: Result<u64, Error>)
        ensures
            number_result(r) == self.spec_term(idx),
    ;

    /// Returns the index of the first entry.
    fn first_index(&self) -> (r: Result<u64, Error>)
        ensures
            number_result(r) == self.spec_first_index(),
    ;

    /// Returns the index of the last entry.
    fn last_index(&self) -> (r: Result<u64, Error>)
        ensures
            number_result(r) == self.spec_last_index(),
    ;

    /// Returns the latest snapshot.
    fn snapshot(&self) -> (r: Result<Snapshot, Error>)
        ensures
            snapshot_result(r) == self.spec_snapshot(),
    ;
}

/// A store in memory: a snapshot, and the entries that follow it.
#[derive(Debug)]
pub struct MemStorage {
    raft_state: RaftState,
    snapshot: Snapshot,
    entries: Vec<Entry>,
}

/// The view of a [`MemStorage`].
#[verifier::ext_equal]
pub struct MemStorageView {
    /// The hard state and the configuration.
    pub raft_state: RaftStateView,
    /// The snapshot.
    pub snapshot: SnapshotView,
    /// The entries that follow the snapshot.
    pub entries: Seq<EntryView>,
}

impl View for MemStorage {
    type V = MemStorageView;

    closed spec fn view(&self) -> MemStorageView {
        MemStorageView {
            raft_state: self.raft_state@,
            snapshot: self.snapshot@,
            entries: entries_view(self.entries@),
        }
    }
}

impl MemStorageView {
    /// The index of the snapshot, which the entries follow.
    pub open spec fn base(self) -> u64 {
        self.snapshot.metadata.index
    }

    /// The index of the last entry, or of the snapshot if there is none.
    pub open spec fn last(self) -> int {
        self.base() + self.entries.len()
    }

    /// The store after `ents` were saved from index `first` on: what stood there goes.
    pub open spec fn append(self, first: u64, ents: Seq<EntryView>) -> MemStorageView {
        MemStorageView { entries: self.entries.take(first - self.base() - 1) + ents, ..self }
    }
}

impl MemStorage {
    #[verifier::type_invariant]
    spec fn indexes_fit(self) -> bool {
        self@.last() < u64::MAX
    }

    /// Returns a store that holds nothing.
    pub fn new() -> (r: MemStorage)
        ensures
            r@ == (MemStorageView {
                raft_state: RaftStateView::empty(),
                snapshot: SnapshotView::empty(),
                entries: Seq::empty(),
            }),
    {
        let r = MemStorage {
            raft_state: RaftState {
                hard_state: HardState::new(),
                conf_state: ConfState::new(),
                pending_conf_state: None,
                pending_conf_state_start_index: None,
            },
            snapshot: Snapshot::new(),
            entries: Vec::new(),
        };
        assert(r@.entries =~= Seq::<EntryView>::empty());
        r
    }

    /// Saves the hard state.
    pub fn set_hardstate(&mut self, hs: HardState)
        ensures
            final(self)@ == (MemStorageView {
                raft_state: RaftStateView { hard_state: hs, ..old(self)@.raft_state },
                ..old(self)@
            }),
    {
        proof {
            use_type_invariant(&*self);
        }
        self.raft_state.hard_state = hs;
    }

    /// Saves the configuration, and the membership change under way.
    pub fn set_conf_state(&mut self, cs: ConfState, pending: Option<(ConfState, u64)>)
        ensures
            final(self)@ == (MemStorageView {
                raft_state: RaftStateView {
                    conf_state: cs@,
                    pending_conf_state: match pending {
                        Some(p) => Some(p.0@),
                        None => None,
                    },
                    pending_conf_state_start_index: match pending {
                        Some(p) => Some(p.1),
                        None => None,
                    },
                    ..old(self)@.raft_state
                },
                ..old(self)@
            }),
    {
        proof {
            use_type_invariant(&*self);
        }
        let hard_state = self.raft_state.hard_state;
        self.raft_state =
        match pending {
            Some(p) => RaftState {
                hard_state,
                conf_state: cs,
                pending_conf_state: Some(p.0),
                pending_conf_state_start_index: Some(p.1),
            },
            None => RaftState {
                hard_state,
                conf_state: cs,
                pending_conf_state: None,
                pending_conf_state_start_index: None,
            },
        };
    }

    /// Saves entries from the index of the first of them on: what stood there goes.
    pub fn append(&mut self, ents: &Vec<Entry>)
        requires
            ents.len() > 0 ==> old(self)@.base() < ents@[0]@.index <= old(self)@.last() + 1
                && ents@[0]@.index + ents.len() <= u64::MAX,
        ensures
            final(self)@ == (if ents.len() == 0 {
                old(self)@
            } else {
                old(self)@.append(ents@[0]@.index, entries_view(ents@))
            }),
    {
        if ents.len() == 0 {
            return;
        }
        proof {
            use_type_invariant(&*self);
        }
        assert(self@.entries.len() == self.entries.len());
        assert(ents@[0].index - self.snapshot.metadata.index - 1 <= self.entries.len());
        let keep: usize = (ents[0].index - self.snapshot.metadata.index - 1) as usize;
        let mut entries = clone_entries(&self.entries, 0, keep);
        let ghost kept = entries@;
        let mut more = clone_entries(ents, 0, ents.len());
        let ghost added = more@;
        entries.append(&mut more);
        assert(entries_view(entries@) =~= entries_view(kept) + entries_view(added));
        assert(entries_view(kept) =~= self@.entries.take(keep as int));
        assert(entries_view(added) =~= entries_view(ents@));
        assert(entries_view(entries@) =~= self@.append(ents@[0]@.index, entries_view(ents@)).entries);
        self.entries = entries;
    }

    /// Replaces everything by a snapshot.
    pub fn apply_snapshot(&mut self, snapshot: Snapshot) -> (r: Result<(), Error>)
        requires
            snapshot@.metadata.index < u64::MAX,
        ensures
            if old(self)@.base() > snapshot@.metadata.index {
                crate::errors::unit_result(r) == Err::<(), ErrorView>(
                    ErrorView::Store(StorageErrorView::SnapshotOutOfDate),
                ) && final(self)@ == old(self)@
            } else {
                r is Ok && final(self)@ == (MemStorageView {
                    raft_state: RaftStateView {
                        hard_state: old(self)@.raft_state.hard_state,
                        conf_state: snapshot@.metadata.conf_state,
                        pending_conf_state: if snapshot@.metadata.pending_membership_change_index
                            > 0 {
                            Some(snapshot@.metadata.pending_membership_change)
                        } else {
                            None
                        },
                        pending_conf_state_start_index: if snapshot@.metadata.pending_membership_change_index
                            > 0 {
                            Some(snapshot@.metadata.pending_membership_change_index)
                        } else {
                            None
                        },
                    },
                    snapshot: snapshot@,
                    entries: Seq::empty(),
                })
            },
    {
        if self.snapshot.metadata.index > snapshot.metadata.index {
            return Err(Error::Store(StorageError::SnapshotOutOfDate));
        }
        let pending = if snapshot.metadata.pending_membership_change_index > 0 {
            Some(
                (
                    snapshot.metadata.pending_membership_change.clone(),
                    snapshot.metadata.pending_membership_change_index,
                ),
            )
        } else {
            None
        };
        self.set_conf_state(snapshot.metadata.conf_state.clone(), pending);
        self.entries = Vec::new();
        self.snapshot = snapshot;
        assert(self@.entries =~= Seq::<EntryView>::empty());
        Ok(())
    }
}

impl Default for MemStorage {
    fn default() -> (r: MemStorage)
        ensures
            r@ == (MemStorageView {
                raft_state: RaftStateView::empty(),
                snapshot: SnapshotView::empty(),
                entries: Seq::empty(),
            }),
    {
        MemStorage::new()
    }
}

impl Storage for MemStorage {
    open spec fn spec_initial_state(&self) -> Result<RaftStateView, ErrorView> {
        Ok(self@.raft_state)
    }

    open spec fn spec_entries(&self, low: u64, high: u64, max_size: u64) -> Result<
        Seq<EntryView>,
        ErrorView,
    > {
        if low <= self@.base() {
            Err(ErrorView::Store(StorageErrorView::Compacted))
        } else if low > high || high > self@.last() + 1 {
            Err(ErrorView::Store(StorageErrorView::Unavailable))
        } else {
            Ok(
                limited(
                    self@.entries.subrange(low - self@.base() - 1, high - self@.base() - 1),
                    max_size,
                ),
            )
        }
    }

    open spec fn spec_term(&self, idx: u64) -> Result<u64, ErrorView> {
        if idx < self@.base() {
            Err(ErrorView::Store(StorageErrorView::Compacted))
        } else if idx == self@.base() {
            Ok(self@.snapshot.metadata.term)
        } else if idx > self@.last() {
            Err(ErrorView::Store(StorageErrorView::Unavailable))
        } else {
            Ok(self@.entries[idx - self@.base() - 1].term)
        }
    }

    open spec fn spec_first_index(&self) -> Result<u64, ErrorView> {
        Ok((self@.base() + 1) as u64)
    }

    open spec fn spec_last_index(&self) -> Result<u64, ErrorView> {
        Ok(self@.last() as u64)
    }

    open spec fn spec_snapshot(&self) -> Result<SnapshotView, ErrorView> {
        Ok(self@.snapshot)
    }

    fn initial_state(&self) -> (r: Result<RaftState, Error>) {
        Ok(self.raft_state.clone())
    }

    fn entries(&self, low: u64, high: u64, max_size: u64) -> (r: Result<Vec<Entry>, Error>) {
        proof {
            use_type_invariant(self);
        }
        let base: u64 = self.snapshot.metadata.index;
        if low <= base {
            return Err(Error::Store(StorageError::Compacted));
        }
        if low > high || high > base + self.entries.len() as u64 + 1 {
            return Err(Error::Store(StorageError::Unavailable));
        }
        let mut es = clone_entries(
            &self.entries,
            (low - base - 1) as usize,
            (high - base - 1) as usize,
        );
        limit_size(&mut es, max_size);
        Ok(es)
    }

    fn term(&self, idx: u64) -> (r: Result<u64, Error>) {
        proof {
            use_type_invariant(self);
        }
        let base: u64 = self.snapshot.metadata.index;
        if idx < base {
            return Err(Error::Store(StorageError::Compacted));
        }
        if idx == base {
            return Ok(self.snapshot.metadata.term);
        }
        if idx > base + self.entries.len() as u64 {
            return Err(Error::Store(StorageError::Unavailable));
        }
        Ok(self.entries[(idx - base - 1) as usize].term)
    }

    fn first_index(&self) -> (r: Result<u64, Error>) {
        proof {
            use_type_invariant(self);
        }
        Ok(self.snapshot.metadata.index + 1)
    }

    fn last_index(&self) -> (r: Result<u64, Error>) {
        proof {
            use_type_invariant(self);
        }
        Ok(self.snapshot.metadata.index + self.entries.len() as u64)
    }

    fn snapshot(&self) -> (r: Result<Snapshot, Error>) {
        Ok(self.snapshot.clone())
    }
}

} // verus!
