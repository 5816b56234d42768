//! The log of a node: what its store holds, and what is still to be saved.
use crate::eraftpb::{clone_entries, entries_view, Entry, EntryView, Snapshot, SnapshotView};
use crate::errors::{Error, ErrorView, StorageError, StorageErrorView};
use crate::log_unstable::{Unstable, UnstableView};
use crate::storage::{entries_result, snapshot_result, Storage};
use crate::util::{limit_size, limited, NO_LIMIT};
use vstd::prelude::*;

verus! {

/// The log of a node.
#[derive(Debug)]
pub struct RaftLog<T: Storage> {
    /// The store.
    pub store: T,
    /// What the store does not hold yet.
    pub unstable: Unstable,
    /// The highest index known to be on a quorum.
    pub committed: u64,
    /// The highest index that the application was told to apply.
    pub applied: u64,
}

/// The view of a [`RaftLog`].
#[verifier::ext_equal]
pub struct RaftLogView<T: Storage> {
    /// The store.
    pub store: T,
    /// What the store does not hold yet.
    pub unstable: UnstableView,
    /// The highest index known to be on a quorum.
    pub committed: u64,
    /// The highest index that the application was told to apply.
    pub applied: u64,
}

impl<T: Storage> View for RaftLog<T> {
    type V = RaftLogView<T>;

    open spec fn view(&self) -> RaftLogView<T> {
        RaftLogView {
            store: self.store,
            unstable: self.unstable@,
            committed: self.committed,
            applied: self.applied,
        }
    }
}

/// The error for an entry that was compacted away.
pub open spec fn compacted() -> ErrorView {
    ErrorView::Store(StorageErrorView::Compacted)
}

/// Whether `entries` leave room for one more index.
pub open spec fn indexes_ok(entries: Seq<EntryView>) -> bool {
    forall|i: int| 0 <= i < entries.len() ==> (#[trigger] entries[i]).index < u64::MAX
}

/// Whether the store gave entries whose indexes leave room for one more.
pub open spec fn entries_ok(r: Result<Seq<EntryView>, ErrorView>) -> bool {
    match r {
        Ok(es) => indexes_ok(es),
        Err(_) => false,
    }
}

impl<T: Storage> RaftLogView<T> {
    /// The log of a store: everything is saved, and what the store has dropped is committed
    /// and applied.
    pub open spec fn of_store(store: T) -> RaftLogView<T> {
        RaftLogView {
            store,
            unstable: UnstableView {
                snapshot: None,
                entries: Seq::empty(),
                offset: (store.spec_last_index()->Ok_0 + 1) as u64,
            },
            committed: (store.spec_first_index()->Ok_0 - 1) as u64,
            applied: (store.spec_first_index()->Ok_0 - 1) as u64,
        }
    }

    /// The index of the first entry: it follows the snapshot that is to be saved, or is
    /// the first of the store.
    pub open spec fn first(self) -> int {
        match self.unstable.snapshot {
            Some(s) => s.metadata.index + 1,
            None => self.store.spec_first_index()->Ok_0 as int,
        }
    }

    /// The index of the last entry.
    pub open spec fn last(self) -> int {
        if self.unstable.entries.len() > 0 {
            self.unstable.offset + self.unstable.entries.len() - 1
        } else {
            match self.unstable.snapshot {
                Some(s) => s.metadata.index as int,
                None => self.store.spec_last_index()->Ok_0 as int,
            }
        }
    }

    /// The index of the first entry.
    pub open spec fn first_index(self) -> u64 {
        self.first() as u64
    }

    /// The index of the last entry.
    pub open spec fn last_index(self) -> u64 {
        self.last() as u64
    }

    /// Whether the store answers what the log asks of it: the terms and the entries
    /// between the first index and those that are still to be saved.
    pub open spec fn store_ok(self) -> bool {
        &&& self.unstable.snapshot is None ==> {
            &&& self.store.spec_first_index() is Ok
            &&& self.unstable.entries.len() == 0 ==> self.store.spec_last_index() is Ok
        }
        &&& forall|i: u64|
            self.first() - 1 <= i < self.unstable.offset && self.unstable.maybe_term(i) is None
                ==> (#[trigger] self.store.spec_term(i)) is Ok
        &&& forall|lo: u64, hi: u64, max: u64|
            self.first() <= lo < hi <= self.unstable.offset ==> entries_ok(
                #[trigger] self.store.spec_entries(lo, hi, max),
            )
    }

    /// The invariant of the log: the store answers, the indexes fit, what is still to be
    /// saved joins what the store holds, and applied entries are committed, and committed
    /// ones are in the log.
    pub open spec fn wf(self) -> bool {
        &&& self.store_ok()
        &&& 1 <= self.first() <= self.unstable.offset <= self.last() + 1
        &&& self.last() < u64::MAX
        &&& self.unstable.entries.len() == 0 ==> self.unstable.offset == self.last() + 1
        &&& indexes_ok(self.unstable.entries)
        &&& self.first() - 1 <= self.committed <= self.last()
        &&& self.applied <= self.committed
    }

    /// The term of the entry at `idx`; 0 outside the log.
    pub open spec fn term(self, idx: u64) -> u64 {
        if idx < self.first() - 1 || idx > self.last() {
            0
        } else {
            match self.unstable.maybe_term(idx) {
                Some(t) => t,
                None => self.store.spec_term(idx)->Ok_0,
            }
        }
    }

    /// The term of the last entry.
    pub open spec fn last_term(self) -> u64 {
        self.term(self.last_index())
    }

    /// Whether the entry at `idx` has term `term`.
    pub open spec fn match_term(self, idx: u64, term: u64) -> bool {
        self.term(idx) == term
    }

    /// Whether a log that ends at `last_index` with term `term` is at least as recent as
    /// this one: its last term is higher, or the same and it is not shorter.
    pub open spec fn is_up_to_date(self, last_index: u64, term: u64) -> bool {
        term > self.last_term() || (term == self.last_term() && last_index >= self.last())
    }

    /// The entries from `lo` up to, but without, `hi`, no more than `max` bytes of them.
    pub open spec fn slice(self, lo: u64, hi: u64, max: u64) -> Result<Seq<EntryView>, ErrorView> {
        let offset = self.unstable.offset;
        let stable_hi = if hi < offset {
            hi
        } else {
            offset
        };
        let stable = if lo < offset {
            self.store.spec_entries(lo, stable_hi, max)->Ok_0
        } else {
            Seq::empty()
        };
        if lo < self.first() {
            Err(compacted())
        } else if lo == hi {
            Ok(Seq::empty())
        } else if lo < offset && stable.len() < stable_hi - lo {
            Ok(stable)
        } else if hi <= offset {
            Ok(limited(stable, max))
        } else {
            let from = if lo < offset {
                0
            } else {
                lo - offset
            };
            Ok(limited(stable + self.unstable.entries.subrange(from, hi - offset), max))
        }
    }

    /// The entries from `idx` on, no more than `max` bytes of them.
    pub open spec fn entries(self, idx: u64, max: u64) -> Result<Seq<EntryView>, ErrorView> {
        if idx > self.last() {
            Ok(Seq::empty())
        } else {
            self.slice(idx, (self.last() + 1) as u64, max)
        }
    }

    /// How many of `ents` the log has, up to the first that it has not.
    pub open spec fn agreeing(self, ents: Seq<EntryView>) -> int
        decreases ents.len(),
    {
        if ents.len() == 0 {
            0
        } else {
            let n = self.agreeing(ents.drop_last());
            if n == ents.len() - 1 && self.match_term(ents.last().index, ents.last().term) {
                n + 1
            } else {
                n
            }
        }
    }

    /// The index of the first of `ents` that the log has not; 0 if it has them all.
    pub open spec fn find_conflict(self, ents: Seq<EntryView>) -> u64 {
        if self.agreeing(ents) < ents.len() {
            ents[self.agreeing(ents)].index
        } else {
            0
        }
    }

    /// Whether `ents` can be put in: they follow the committed entries without a gap, and
    /// the indexes fit.
    pub open spec fn append_ok(self, ents: Seq<EntryView>) -> bool {
        ents.len() > 0 ==> {
            &&& self.committed < ents[0].index <= self.last() + 1
            &&& ents[0].index + ents.len() <= u64::MAX
            &&& indexes_ok(ents)
        }
    }

    /// With `ents` from the index of the first of them on: what stood there goes.
    pub open spec fn append(self, ents: Seq<EntryView>) -> RaftLogView<T> {
        if ents.len() == 0 {
            self
        } else {
            RaftLogView { unstable: self.unstable.truncate_and_append(ents), ..self }
        }
    }

    /// Whether the log reaches to `index`, or that is committed anyway.
    pub open spec fn commit_ok(self, index: u64) -> bool {
        index <= self.committed || index <= self.last()
    }

    /// Committed up to `index` at least.
    pub open spec fn commit_to(self, index: u64) -> RaftLogView<T> {
        RaftLogView {
            committed: if self.committed >= index {
                self.committed
            } else {
                index
            },
            ..self
        }
    }

    /// What of `ents`, which follow `idx`, is new to the log.
    pub open spec fn new_part(self, idx: u64, ents: Seq<EntryView>) -> Seq<EntryView> {
        let conflict = self.find_conflict(ents);
        if conflict == 0 {
            Seq::empty()
        } else {
            ents.skip(conflict - idx - 1)
        }
    }

    /// Whether `ents`, which follow `idx`, can be put in: the first that the log has not is
    /// not committed, it stands at its place, and the commit index stays in the log.
    pub open spec fn maybe_append_ok(
        self,
        idx: u64,
        term: u64,
        committed: u64,
        ents: Seq<EntryView>,
    ) -> bool {
        let conflict = self.find_conflict(ents);
        let upto = if committed < idx + ents.len() {
            committed
        } else {
            (idx + ents.len()) as u64
        };
        &&& idx + ents.len() < u64::MAX
        &&& self.match_term(idx, term) ==> {
            &&& conflict != 0 ==> self.committed < conflict && idx < conflict <= idx + 1
                + ents.len() && self.append_ok(self.new_part(idx, ents))
            &&& self.append(self.new_part(idx, ents)).commit_ok(upto)
        }
    }

    /// After `ents`, which follow the entry at `idx` of term `term`, came in with commit
    /// index `committed`. A log without that entry stays as it is.
    pub open spec fn maybe_append(
        self,
        idx: u64,
        term: u64,
        committed: u64,
        ents: Seq<EntryView>,
    ) -> RaftLogView<T> {
        if self.match_term(idx, term) {
            let upto = if committed < idx + ents.len() {
                committed
            } else {
                (idx + ents.len()) as u64
            };
            self.append(self.new_part(idx, ents)).commit_to(upto)
        } else {
            self
        }
    }

    /// Whether [`RaftLogView::maybe_commit`] commits more.
    pub open spec fn can_commit(self, max_index: u64, term: u64) -> bool {
        max_index > self.committed && self.term(max_index) == term
    }

    /// Committed up to `max_index`, if that is more, and the entry there has term `term`.
    pub open spec fn maybe_commit(self, max_index: u64, term: u64) -> RaftLogView<T> {
        if self.can_commit(max_index, term) {
            RaftLogView { committed: max_index, ..self }
        } else {
            self
        }
    }

    /// Whether entries up to `idx` can be marked as applied.
    pub open spec fn applied_ok(self, idx: u64) -> bool {
        idx == 0 || self.applied <= idx <= self.committed
    }

    /// Applied up to `idx`; 0 changes nothing.
    pub open spec fn applied_to(self, idx: u64) -> RaftLogView<T> {
        if idx == 0 {
            self
        } else {
            RaftLogView { applied: idx, ..self }
        }
    }

    /// The index of the first entry behind `since` that the log has.
    pub open spec fn next_from(self, since: u64) -> int {
        if since + 1 > self.first() {
            since + 1
        } else {
            self.first()
        }
    }

    /// Whether there are committed entries behind `since`.
    pub open spec fn has_next_since(self, since: u64) -> bool {
        self.committed + 1 > self.next_from(since)
    }

    /// The committed entries behind `since`.
    pub open spec fn next_since(self, since: u64) -> Option<Seq<EntryView>> {
        if self.has_next_since(since) {
            Some(
                self.slice(
                    self.next_from(since) as u64,
                    (self.committed + 1) as u64,
                    NO_LIMIT,
                )->Ok_0,
            )
        } else {
            None
        }
    }

    /// The snapshot: the one that is to be saved, or that of the store.
    pub open spec fn snapshot(self) -> Result<SnapshotView, ErrorView> {
        match self.unstable.snapshot {
            Some(s) => Ok(s),
            None => self.store.spec_snapshot(),
        }
    }

    /// With a snapshot in place of everything.
    pub open spec fn restore(self, snapshot: SnapshotView) -> RaftLogView<T> {
        RaftLogView {
            committed: snapshot.metadata.index,
            unstable: self.unstable.restore(snapshot),
            ..self
        }
    }
}

impl<T: Storage> RaftLogView<T> {
    /// Putting entries in keeps the log well-formed, and makes it end behind them.
    pub proof fn lemma_append_wf(self, ents: Seq<EntryView>)
        requires
            self.wf(),
            self.append_ok(ents),
        ensures
            self.append(ents).wf(),
            ents.len() > 0 ==> self.append(ents).last() == ents[0].index + ents.len() - 1,
            self.append(ents).first() == self.first(),
    {
        if ents.len() > 0 {
            let r = self.append(ents);
            let after = ents[0].index;
            assert(indexes_ok(r.unstable.entries)) by {
                assert forall|i: int| 0 <= i < r.unstable.entries.len() implies (
                #[trigger] r.unstable.entries[i]).index < u64::MAX by {
                    if after > self.unstable.offset {
                        let n = after - self.unstable.offset;
                        if i < n {
                            assert(r.unstable.entries[i] == self.unstable.entries[i]);
                        } else {
                            assert(r.unstable.entries[i] == ents[i - n]);
                        }
                    }
                }
            }
            assert forall|i: u64|
                r.first() - 1 <= i < r.unstable.offset && r.unstable.maybe_term(
                    i,
                ) is None implies (#[trigger] r.store.spec_term(i)) is Ok by {
                assert(self.unstable.maybe_term(i) is None);
            }
        }
    }

    /// A snapshot in place of everything makes a well-formed log.
    pub proof fn lemma_restore_wf(self, snapshot: SnapshotView)
        requires
            self.wf(),
            self.committed <= snapshot.metadata.index < u64::MAX,
        ensures
            self.restore(snapshot).wf(),
            self.restore(snapshot).last() == snapshot.metadata.index,
    {
    }

    /// The terms in the log are known.
    pub proof fn lemma_term_known(self, idx: u64)
        requires
            self.wf(),
            self.first() - 1 <= idx <= self.last(),
            self.unstable.maybe_term(idx) is None,
        ensures
            self.store.spec_term(idx) is Ok,
    {
    }

    /// How many entries agree lies between none and all.
    pub proof fn lemma_agreeing_bounds(self, ents: Seq<EntryView>)
        ensures
            0 <= self.agreeing(ents) <= ents.len(),
        decreases ents.len(),
    {
        if ents.len() > 0 {
            self.lemma_agreeing_bounds(ents.drop_last());
        }
    }

    proof fn lemma_agreeing_prefix(self, ents: Seq<EntryView>, n: int)
        requires
            0 <= n < ents.len(),
            self.agreeing(ents.take(n)) == n,
            !self.match_term(ents[n].index, ents[n].term),
        ensures
            self.agreeing(ents) == n,
        decreases ents.len(),
    {
        if n == ents.len() - 1 {
            assert(ents.take(n) =~= ents.drop_last());
        } else {
            assert(ents.drop_last().take(n) =~= ents.take(n));
            self.lemma_agreeing_prefix(ents.drop_last(), n);
        }
    }
}

impl<T: Storage> RaftLog<T> {
    /// Returns the log of a store: everything is saved, and what the store has dropped is
    /// committed and applied.
    pub fn new(store: T) -> (r: RaftLog<T>)
        requires
            store.spec_first_index() matches Ok(f) && f >= 1,
            store.spec_last_index() matches Ok(l) && l < u64::MAX,
        ensures
            r@ == RaftLogView::of_store(store),
    {
        let first: u64 = match store.first_index() {
            Ok(i) => i,
            Err(_) => 1,
        };
        let last: u64 = match store.last_index() {
            Ok(i) => i,
            Err(_) => 0,
        };
        RaftLog { store, unstable: Unstable::new(last + 1), committed: first - 1, applied: first - 1 }
    }

    /// Returns the index of the first entry.
    pub fn first_index(&self) -> (r: u64)
        requires
            self@.wf(),
        ensures
            r == self@.first(),
    {
        match &self.unstable.snapshot {
            Some(s) => s.metadata.index + 1,
            None => match self.store.first_index() {
                Ok(i) => i,
                Err(_) => 1,
            },
        }
    }

    /// Returns the index of the last entry.
    pub fn last_index(&self) -> (r: u64)
        requires
            self@.wf(),
        ensures
            r == self@.last(),
            r == self@.last_index(),
    {
        assert(self@.unstable.entries.len() == self.unstable.entries.len());
        if self.unstable.entries.len() > 0 {
            return self.unstable.offset + (self.unstable.entries.len() as u64 - 1);
        }
        match &self.unstable.snapshot {
            Some(s) => s.metadata.index,
            None => match self.store.last_index() {
                Ok(i) => i,
                Err(_) => 0,
            },
        }
    }

    /// Returns the term of the entry at `idx`; 0 outside the log.
    pub fn term(&self, idx: u64) -> (r: Result<u64, Error>)
        requires
            self@.wf(),
        ensures
            r == Ok::<u64, Error>(self@.term(idx)),
    {
        let dummy: u64 = self.first_index() - 1;
        if idx < dummy || idx > self.last_index() {
            return Ok(0);
        }
        match self.unstable.maybe_term(idx) {
            Some(t) => Ok(t),
            None => {
                proof {
                    self@.lemma_term_known(idx);
                }
                self.store.term(idx)
            },
        }
    }

    /// Returns the term of the entry at `idx`; 0 outside the log.
    fn term_or_zero(&self, idx: u64) -> (r: u64)
        requires
            self@.wf(),
        ensures
            r == self@.term(idx),
    {
        match self.term(idx) {
            Ok(t) => t,
            Err(_) => 0,
        }
    }

    /// Returns the term of the last entry.
    pub fn last_term(&self) -> (r: u64)
        requires
            self@.wf(),
        ensures
            r == self@.last_term(),
    {
        let last: u64 = self.last_index();
        self.term_or_zero(last)
    }

    /// Whether the entry at `idx` has term `term`.
    pub fn match_term(&self, idx: u64, term: u64) -> (r: bool)
        requires
            self@.wf(),
        ensures
            r == self@.match_term(idx, term),
    {
        self.term_or_zero(idx) == term
    }

    /// Whether a log that ends at `last_index` with term `term` is at least as recent.
    pub fn is_up_to_date(&self, last_index: u64, term: u64) -> (r: bool)
        requires
            self@.wf(),
        ensures
            r == self@.is_up_to_date(last_index, term),
    {
        let last_term: u64 = self.last_term();
        term > last_term || (term == last_term && last_index >= self.last_index())
    }

    /// Returns the entries from `lo` up to, but without, `hi`, no more than `max` bytes of
    /// them.
    pub fn slice(&self, lo: u64, hi: u64, max: u64) -> (r: Result<Vec<Entry>, Error>)
        requires
            self@.wf(),
            lo <= hi <= self@.last() + 1,
        ensures
            entries_result(r) == self@.slice(lo, hi, max),
            self@.first() <= lo ==> r is Ok,
            r matches Ok(es) ==> indexes_ok(entries_view(es@)),
    {
        if lo < self.first_index() {
            return Err(Error::Store(StorageError::Compacted));
        }
        let mut ents: Vec<Entry> = Vec::new();
        if lo == hi {
            assert(entries_view(ents@) =~= Seq::<EntryView>::empty());
            return Ok(ents);
        }
        let offset: u64 = self.unstable.offset;
        let ghost mut stable: Seq<EntryView> = Seq::empty();
        if lo < offset {
            let stable_hi: u64 = if hi < offset {
                hi
            } else {
                offset
            };
            match self.store.entries(lo, stable_hi, max) {
                Ok(es) => {
                    ents = es;
                    proof {
                        stable = entries_view(ents@);
                    }
                    if (ents.len() as u64) < stable_hi - lo {
                        return Ok(ents);
                    }
                },
                Err(e) => {
                    return Err(e);
                },
            }
        }
        assert(entries_view(ents@) =~= stable);
        if hi > offset {
            let from: usize = if lo < offset {
                0
            } else {
                (lo - offset) as usize
            };
            let to: usize = (hi - offset) as usize;
            assert(self@.unstable.entries.len() == self.unstable.entries.len());
            let mut more = clone_entries(&self.unstable.entries, from, to);
            let ghost tail = entries_view(more@);
            ents.append(&mut more);
            assert(entries_view(ents@) =~= stable + tail);
        }
        let ghost all = entries_view(ents@);
        assert(indexes_ok(all));
        limit_size(&mut ents, max);
        proof {
            crate::util::lemma_limited_prefix(all, max);
        }
        Ok(ents)
    }

    /// Returns the entries from `idx` on, no more than `max` bytes of them.
    pub fn entries(&self, idx: u64, max: u64) -> (r: Result<Vec<Entry>, Error>)
        requires
            self@.wf(),
        ensures
            entries_result(r) == self@.entries(idx, max),
            self@.first() <= idx ==> r is Ok,
            r matches Ok(es) ==> indexes_ok(entries_view(es@)),
    {
        let last: u64 = self.last_index();
        if idx > last {
            let ents: Vec<Entry> = Vec::new();
            assert(entries_view(ents@) =~= Seq::<EntryView>::empty());
            return Ok(ents);
        }
        self.slice(idx, last + 1, max)
    }

    /// Returns how many of `ents` the log has, up to the first that it has not.
    fn agreeing(&self, ents: &Vec<Entry>) -> (r: usize)
        requires
            self@.wf(),
        ensures
            r == self@.agreeing(entries_view(ents@)),
            r <= ents.len(),
    {
        let ghost es = entries_view(ents@);
        let mut i: usize = 0;
        assert(es.take(0) =~= Seq::<EntryView>::empty());
        while i < ents.len()
            invariant
                self@.wf(),
                es == entries_view(ents@),
                i <= ents.len(),
                self@.agreeing(es.take(i as int)) == i,
            decreases ents.len() - i,
        {
            assert(es[i as int] == ents@[i as int]@);
            if !self.match_term(ents[i].index, ents[i].term) {
                proof {
                    self@.lemma_agreeing_prefix(es, i as int);
                }
                return i;
            }
            assert(es.take(i + 1).drop_last() =~= es.take(i as int));
            i += 1;
        }
        assert(es.take(ents.len() as int) =~= es);
        i
    }

    /// Returns the index of the first of `ents` that the log has not; 0 if it has them all.
    pub fn find_conflict(&self, ents: &Vec<Entry>) -> (r: u64)
        requires
            self@.wf(),
        ensures
            r == self@.find_conflict(entries_view(ents@)),
    {
        let n: usize = self.agreeing(ents);
        if n < ents.len() {
            ents[n].index
        } else {
            0
        }
    }

    /// Puts `ents` in from the index of the first of them on; returns the last index.
    pub fn append(&mut self, ents: Vec<Entry>) -> (r: u64)
        requires
            old(self)@.wf(),
            old(self)@.append_ok(entries_view(ents@)),
        ensures
            final(self)@ == old(self)@.append(entries_view(ents@)),
            final(self)@.wf(),
            r == final(self)@.last(),
    {
        let ghost before = self@;
        proof {
            before.lemma_append_wf(entries_view(ents@));
        }
        if ents.len() > 0 {
            assert(entries_view(ents@)[0] == ents@[0]@);
            self.unstable.truncate_and_append(ents);
        }
        self.last_index()
    }

    /// Commits up to `index` at least.
    pub fn commit_to(&mut self, index: u64)
        requires
            old(self)@.wf(),
            old(self)@.commit_ok(index),
        ensures
            final(self)@ == old(self)@.commit_to(index),
            final(self)@.wf(),
    {
        if self.committed < index {
            self.committed = index;
        }
    }

    /// Takes in `ents`, which follow the entry at `idx` of term `term`, with commit index
    /// `committed`. Returns the index of the last of them, or nothing if the log has no
    /// such entry.
    pub fn maybe_append(&mut self, idx: u64, term: u64, committed: u64, ents: &Vec<Entry>) -> (r:
        Option<u64>)
        requires
            old(self)@.wf(),
            old(self)@.maybe_append_ok(idx, term, committed, entries_view(ents@)),
        ensures
            final(self)@ == old(self)@.maybe_append(idx, term, committed, entries_view(ents@)),
            final(self)@.wf(),
            r == (if old(self)@.match_term(idx, term) {
                Some((idx + ents@.len()) as u64)
            } else {
                None
            }),
    {
        let ghost before = self@;
        let ghost es = entries_view(ents@);
        let last_new: u64 = idx + ents.len() as u64;
        if !self.match_term(idx, term) {
            return None;
        }
        let conflict: u64 = self.find_conflict(ents);
        if conflict != 0 {
            let from: usize = (conflict - idx - 1) as usize;
            let part = clone_entries(ents, from, ents.len());
            assert(entries_view(part@) =~= before.new_part(idx, es));
            self.append(part);
        }
        let upto: u64 = if committed < last_new {
            committed
        } else {
            last_new
        };
        self.commit_to(upto);
        Some(last_new)
    }

    /// Commits up to `max_index`, if that is more, and the entry there has term `term`.
    pub fn maybe_commit(&mut self, max_index: u64, term: u64) -> (r: bool)
        requires
            old(self)@.wf(),
            old(self)@.can_commit(max_index, term) ==> max_index <= old(self)@.last(),
        ensures
            r == old(self)@.can_commit(max_index, term),
            final(self)@ == old(self)@.maybe_commit(max_index, term),
            final(self)@.wf(),
    {
        if max_index > self.committed && self.term_or_zero(max_index) == term {
            self.commit_to(max_index);
            true
        } else {
            false
        }
    }

    /// Marks the entries up to `idx` as applied; 0 changes nothing.
    pub fn applied_to(&mut self, idx: u64)
        requires
            old(self)@.wf(),
            old(self)@.applied_ok(idx),
        ensures
            final(self)@ == old(self)@.applied_to(idx),
            final(self)@.wf(),
    {
        if idx != 0 {
            self.applied = idx;
        }
    }

    /// Whether there are committed entries behind `since`.
    pub fn has_next_entries_since(&self, since: u64) -> (r: bool)
        requires
            self@.wf(),
            since < u64::MAX,
        ensures
            r == self@.has_next_since(since),
    {
        let first: u64 = self.first_index();
        let from: u64 = if since + 1 > first {
            since + 1
        } else {
            first
        };
        self.committed + 1 > from
    }

    /// Returns the committed entries behind `since`, if there are any.
    pub fn next_entries_since(&self, since: u64) -> (r: Option<Vec<Entry>>)
        requires
            self@.wf(),
            since < u64::MAX,
        ensures
            match r {
                Some(es) => self@.next_since(since) == Some(entries_view(es@)),
                None => self@.next_since(since) is None,
            },
    {
        let first: u64 = self.first_index();
        let from: u64 = if since + 1 > first {
            since + 1
        } else {
            first
        };
        if self.committed + 1 > from {
            match self.slice(from, self.committed + 1, NO_LIMIT) {
                Ok(es) => Some(es),
                Err(_) => None,
            }
        } else {
            None
        }
    }

    /// Notes that the entries up to `idx` were saved, if the one at `idx` has term `term`.
    pub fn stable_to(&mut self, idx: u64, term: u64)
        requires
            idx < u64::MAX,
        ensures
            final(self)@ == (RaftLogView {
                unstable: old(self)@.unstable.stable_to(idx, term),
                ..old(self)@
            }),
    {
        self.unstable.stable_to(idx, term);
    }

    /// Notes that the snapshot at `idx` was saved.
    pub fn stable_snap_to(&mut self, idx: u64)
        ensures
            final(self)@ == (RaftLogView {
                unstable: old(self)@.unstable.stable_snap_to(idx),
                ..old(self)@
            }),
    {
        self.unstable.stable_snap_to(idx);
    }

    /// Returns the snapshot that is to be saved, or that of the store.
    pub fn snapshot(&self) -> (r: Result<Snapshot, Error>)
        ensures
            snapshot_result(r) == self@.snapshot(),
    {
        match &self.unstable.snapshot {
            Some(s) => Ok(s.clone()),
            None => self.store.snapshot(),
        }
    }

    /// Puts a snapshot in place of everything.
    pub fn restore(&mut self, snapshot: Snapshot)
        requires
            old(self)@.wf(),
            old(self)@.committed <= snapshot@.metadata.index < u64::MAX,
        ensures
            final(self)@ == old(self)@.restore(snapshot@),
            final(self)@.wf(),
    {
        proof {
            self@.lemma_restore_wf(snapshot@);
        }
        self.committed = snapshot.metadata.index;
        self.unstable.restore(snapshot);
    }
}

} // verus!
