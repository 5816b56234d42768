//! The part of the log that the store does not hold yet.
use crate::eraftpb::{
    clone_entries, entries_view, opt_snapshot_view, Entry, EntryView, Snapshot, SnapshotView,
};
use vstd::prelude::*;

verus! {

/// The entries from `offset` on, and a snapshot, that are still to be saved.
#[derive(Debug)]
pub struct Unstable {
    /// The snapshot.
    pub snapshot: Option<Snapshot>,
    /// The entries.
    pub entries: Vec<Entry>,
    /// The index of the first of the entries, or of the next one.
    pub offset: u64,
}

/// The view of an [`Unstable`].
#[verifier::ext_equal]
pub struct UnstableView {
    /// The snapshot.
    pub snapshot: Option<SnapshotView>,
    /// The entries.
    pub entries: Seq<EntryView>,
    /// The index of the first of the entries, or of the next one.
    pub offset: u64,
}

impl View for Unstable {
    type V = UnstableView;

    open spec fn view(&self) -> UnstableView {
        UnstableView {
            snapshot: opt_snapshot_view(self.snapshot),
            entries: entries_view(self.entries@),
            offset: self.offset,
        }
    }
}

impl UnstableView {
    /// The term of the entry at `idx`, if it is known here.
    pub open spec fn maybe_term(self, idx: u64) -> Option<u64> {
        if idx < self.offset {
            match self.snapshot {
                Some(s) => if idx == s.metadata.index {
                    Some(s.metadata.term)
                } else {
                    None
                },
                None => None,
            }
        } else if idx < self.offset + self.entries.len() {
            Some(self.entries[idx - self.offset].term)
        } else {
            None
        }
    }

    /// After the entries up to `idx` were saved, if the one at `idx` has term `term`.
    pub open spec fn stable_to(self, idx: u64, term: u64) -> UnstableView {
        if idx >= self.offset && self.maybe_term(idx) == Some(term) {
            UnstableView {
                entries: self.entries.skip(idx + 1 - self.offset),
                offset: (idx + 1) as u64,
                ..self
            }
        } else {
            self
        }
    }

    /// After the snapshot at `idx` was saved.
    pub open spec fn stable_snap_to(self, idx: u64) -> UnstableView {
        match self.snapshot {
            Some(s) => if s.metadata.index == idx {
                UnstableView { snapshot: None, ..self }
            } else {
                self
            },
            None => self,
        }
    }

    /// With a snapshot in place of everything.
    pub open spec fn restore(self, snapshot: SnapshotView) -> UnstableView {
        UnstableView {
            snapshot: Some(snapshot),
            entries: Seq::empty(),
            offset: (snapshot.metadata.index + 1) as u64,
        }
    }

    /// With `ents` from the index of the first of them on: what stood there goes.
    pub open spec fn truncate_and_append(self, ents: Seq<EntryView>) -> UnstableView {
        let after = ents[0].index;
        if after <= self.offset {
            UnstableView { offset: after, entries: ents, ..self }
        } else {
            UnstableView { entries: self.entries.take(after - self.offset) + ents, ..self }
        }
    }
}

impl Unstable {
    /// Returns the state in which everything before `offset` is saved, and nothing
    /// follows.
    pub fn new(offset: u64) -> (r: Unstable)
        ensures
            r@ == (UnstableView { snapshot: None, entries: Seq::empty(), offset }),
    {
        let r = Unstable { snapshot: None, entries: Vec::new(), offset };
        assert(r@.entries =~= Seq::<EntryView>::empty());
        r
    }

    /// Returns the term of the entry at `idx`, if it is known here.
    pub fn maybe_term(&self, idx: u64) -> (r: Option<u64>)
        ensures
            r == self@.maybe_term(idx),
    {
        if idx < self.offset {
            match &self.snapshot {
                Some(s) => {
                    if idx == s.metadata.index {
                        Some(s.metadata.term)
                    } else {
                        None
                    }
                },
                None => None,
            }
        } else {
            let i: u64 = idx - self.offset;
            if i < self.entries.len() as u64 {
                Some(self.entries[i as usize].term)
            } else {
                None
            }
        }
    }

    /// Notes that the entries up to `idx` were saved, if the one at `idx` has term `term`.
    pub fn stable_to(&mut self, idx: u64, term: u64)
        requires
            idx < u64::MAX,
        ensures
            final(self)@ == old(self)@.stable_to(idx, term),
    {
        let ghost before = self@;
        match self.maybe_term(idx) {
            Some(t) => {
                if t == term && idx >= self.offset {
                    let n: usize = (idx - self.offset + 1) as usize;
                    let len: usize = self.entries.len();
                    let rest = clone_entries(&self.entries, n, len);
                    assert(entries_view(rest@) =~= before.entries.skip(n as int));
                    self.entries = rest;
                    self.offset = idx + 1;
                }
            },
            None => {},
        }
    }

    /// Notes that the snapshot at `idx` was saved.
    pub fn stable_snap_to(&mut self, idx: u64)
        ensures
            final(self)@ == old(self)@.stable_snap_to(idx),
    {
        let saved = match &self.snapshot {
            Some(s) => s.metadata.index == idx,
            None => false,
        };
        if saved {
            self.snapshot = None;
        }
    }

    /// Puts a snapshot in place of everything.
    pub fn restore(&mut self, snapshot: Snapshot)
        requires
            snapshot@.metadata.index < u64::MAX,
        ensures
            final(self)@ == old(self)@.restore(snapshot@),
    {
        self.entries = Vec::new();
        self.offset = snapshot.metadata.index + 1;
        self.snapshot = Some(snapshot);
        assert(self@.entries =~= Seq::<EntryView>::empty());
    }

    /// Puts `ents` at the index of the first of them: what stood there goes.
    pub fn truncate_and_append(&mut self, ents: Vec<Entry>)
        requires
            ents.len() > 0,
            ents@[0]@.index <= old(self)@.offset + old(self)@.entries.len(),
        ensures
            final(self)@ == old(self)@.truncate_and_append(entries_view(ents@)),
    {
        let ghost before = self@;
        let ghost added = ents@;
        let mut ents = ents;
        let after: u64 = ents[0].index;
        assert(entries_view(added)[0] == added[0]@);
        if after <= self.offset {
            self.offset = after;
            self.entries = ents;
        } else {
            assert(self.entries.len() == before.entries.len());
            let n: usize = (after - self.offset) as usize;
            self.entries.truncate(n);
            let ghost kept = self.entries@;
            assert(entries_view(kept) =~= before.entries.take(n as int));
            self.entries.append(&mut ents);
            assert(entries_view(self.entries@) =~= entries_view(kept) + entries_view(added));
        }
    }
}

} // verus!
