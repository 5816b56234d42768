//! How far a peer has replicated the log, as the leader sees it.
use vstd::prelude::*;

verus! {

/// How the leader sends entries to a peer.
#[derive(Debug, PartialEq, Eq, Structural, Clone, Copy)]
pub enum ProgressState {
    /// One message at a time, until the peer answers.
    Probe,
    /// Many messages at a time.
    Replicate,
    /// A snapshot is on its way; no entries are sent.
    Snapshot,
}

/// The last indexes of the append messages that are on their way to a peer, in the
/// order in which they were sent, and how many there may be.
#[derive(Debug)]
pub struct Inflights {
    /// How many messages may be on their way.
    pub cap: usize,
    /// The last indexes.
    pub buffer: Vec<u64>,
}

/// The view of an [`Inflights`].
#[verifier::ext_equal]
pub struct InflightsView {
    /// How many messages may be on their way.
    pub cap: usize,
    /// The last indexes.
    pub buffer: Seq<u64>,
}

impl View for Inflights {
    type V = InflightsView;

    open spec fn view(&self) -> InflightsView {
        InflightsView { cap: self.cap, buffer: self.buffer@ }
    }
}

/// What is left of `buffer` when everything up to the first number above `to` goes.
pub open spec fn drop_up_to(buffer: Seq<u64>, to: u64) -> Seq<u64>
    decreases buffer.len(),
{
    if buffer.len() == 0 || to < buffer[0] {
        buffer
    } else {
        drop_up_to(buffer.skip(1), to)
    }
}

impl InflightsView {
    /// Nothing on its way, with room for `cap`.
    pub open spec fn new(cap: usize) -> InflightsView {
        InflightsView { cap, buffer: Seq::empty() }
    }

    /// Whether nothing more may be sent.
    pub open spec fn full(self) -> bool {
        self.buffer.len() >= self.cap
    }

    /// One more message, whose last index is `last`.
    pub open spec fn push(self, last: u64) -> InflightsView {
        InflightsView { buffer: self.buffer.push(last), ..self }
    }

    /// The peer has everything up to `to`.
    pub open spec fn free_to(self, to: u64) -> InflightsView {
        InflightsView { buffer: drop_up_to(self.buffer, to), ..self }
    }

    /// The oldest message counts as received.
    pub open spec fn free_first_one(self) -> InflightsView {
        if self.buffer.len() == 0 {
            self
        } else {
            self.free_to(self.buffer[0])
        }
    }
}

impl Inflights {
    /// Returns the state in which nothing is on its way.
    pub fn new(cap: usize) -> (r: Inflights)
        ensures
            r@ == InflightsView::new(cap),
    {
        Inflights { cap, buffer: Vec::new() }
    }

    /// Whether nothing more may be sent.
    pub fn full(&self) -> (r: bool)
        ensures
            r == self@.full(),
    {
        self.buffer.len() >= self.cap
    }

    /// Notes one more message.
    pub fn add(&mut self, last: u64)
        requires
            !old(self)@.full(),
        ensures
            final(self)@ == old(self)@.push(last),
    {
        self.buffer.push(last);
    }

    /// Notes that the peer has everything up to `to`.
    pub fn free_to(&mut self, to: u64)
        ensures
            final(self)@ == old(self)@.free_to(to),
    {
        let ghost before = self.buffer@;
        let mut i: usize = 0;
        assert(before.skip(0) =~= before);
        while i < self.buffer.len() && self.buffer[i] <= to
            invariant
                self.buffer@ == before,
                i <= before.len(),
                drop_up_to(before, to) == drop_up_to(before.skip(i as int), to),
            decreases before.len() - i,
        {
            assert(before.skip(i as int).skip(1) =~= before.skip(i + 1));
            i += 1;
        }
        let rest = self.buffer.split_off(i);
        assert(rest@ =~= before.skip(i as int));
        self.buffer = rest;
    }

    /// Counts the oldest message as received.
    pub fn free_first_one(&mut self)
        ensures
            final(self)@ == old(self)@.free_first_one(),
    {
        if self.buffer.len() > 0 {
            let first: u64 = self.buffer[0];
            self.free_to(first);
        }
    }

    /// Forgets the messages.
    pub fn reset(&mut self)
        ensures
            final(self)@ == InflightsView::new(old(self)@.cap),
    {
        self.buffer.clear();
    }
}

/// How far a peer has replicated the log.
#[derive(Debug)]
pub struct Progress {
    /// The highest index known to be replicated.
    pub matched: u64,
    /// The next index to send.
    pub next_idx: u64,
    /// How entries are sent.
    pub state: ProgressState,
    /// Whether sending waits for an answer, while probing.
    pub paused: bool,
    /// The index of the snapshot that is on its way; 0 when there is none.
    pub pending_snapshot: u64,
    /// Whether the peer was heard of since the last check.
    pub recent_active: bool,
    /// The messages that are on their way.
    pub ins: Inflights,
}

/// The view of a [`Progress`].
#[verifier::ext_equal]
pub struct ProgressView {
    /// The highest index known to be replicated.
    pub matched: u64,
    /// The next index to send.
    pub next_idx: u64,
    /// How entries are sent.
    pub state: ProgressState,
    /// Whether sending waits for an answer, while probing.
    pub paused: bool,
    /// The index of the snapshot that is on its way; 0 when there is none.
    pub pending_snapshot: u64,
    /// Whether the peer was heard of since the last check.
    pub recent_active: bool,
    /// The messages that are on their way.
    pub ins: InflightsView,
}

impl View for Progress {
    type V = ProgressView;

    open spec fn view(&self) -> ProgressView {
        ProgressView {
            matched: self.matched,
            next_idx: self.next_idx,
            state: self.state,
            paused: self.paused,
            pending_snapshot: self.pending_snapshot,
            recent_active: self.recent_active,
            ins: self.ins@,
        }
    }
}

/// The views of a sequence of progresses.
pub open spec fn progress_seq(s: Seq<Progress>) -> Seq<ProgressView> {
    s.map_values(|p: Progress| p@)
}

impl ProgressView {
    /// A peer of which nothing is known, to be sent `next_idx` first.
    pub open spec fn new(next_idx: u64, ins_size: usize) -> ProgressView {
        ProgressView {
            matched: 0,
            next_idx,
            state: ProgressState::Probe,
            paused: false,
            pending_snapshot: 0,
            recent_active: false,
            ins: InflightsView::new(ins_size),
        }
    }

    /// The next index is that of an entry, and the indexes leave room for one more.
    pub open spec fn wf(self) -> bool {
        &&& self.next_idx >= 1
        &&& self.matched < u64::MAX
        &&& self.pending_snapshot < u64::MAX
    }

    /// As if nothing were known of the peer.
    pub open spec fn reset(self, next_idx: u64) -> ProgressView {
        ProgressView::new(next_idx, self.ins.cap)
    }

    /// In state `state`, with nothing on its way.
    pub open spec fn reset_state(self, state: ProgressState) -> ProgressView {
        ProgressView {
            paused: false,
            pending_snapshot: 0,
            state,
            ins: InflightsView::new(self.ins.cap),
            ..self
        }
    }

    /// Probing: from behind what is matched, and behind a snapshot that was sent.
    pub open spec fn become_probe(self) -> ProgressView {
        let next = if self.state == ProgressState::Snapshot && self.pending_snapshot
            > self.matched {
            self.pending_snapshot + 1
        } else {
            self.matched + 1
        };
        ProgressView { next_idx: next as u64, ..self.reset_state(ProgressState::Probe) }
    }

    /// Replicating, from behind what is matched.
    pub open spec fn become_replicate(self) -> ProgressView {
        ProgressView {
            next_idx: (self.matched + 1) as u64,
            ..self.reset_state(ProgressState::Replicate)
        }
    }

    /// Waiting for the snapshot at `index`.
    pub open spec fn become_snapshot(self, index: u64) -> ProgressView {
        ProgressView { pending_snapshot: index, ..self.reset_state(ProgressState::Snapshot) }
    }

    /// The snapshot did not arrive.
    pub open spec fn snapshot_failure(self) -> ProgressView {
        ProgressView { pending_snapshot: 0, ..self }
    }

    /// Whether the peer has what the snapshot on its way holds.
    pub open spec fn snapshot_caught_up(self) -> bool {
        self.state == ProgressState::Snapshot && self.matched >= self.pending_snapshot
    }

    /// The peer has everything up to `n`.
    pub open spec fn update_to(self, n: u64) -> ProgressView {
        ProgressView {
            matched: if self.matched < n {
                n
            } else {
                self.matched
            },
            paused: self.paused && self.matched >= n,
            next_idx: if self.next_idx < n + 1 {
                (n + 1) as u64
            } else {
                self.next_idx
            },
            ..self
        }
    }

    /// Everything up to `n` has been sent.
    pub open spec fn optimistic_update(self, n: u64) -> ProgressView {
        ProgressView { next_idx: (n + 1) as u64, ..self }
    }

    /// Whether a refusal of `rejected` is not out of date.
    pub open spec fn refusal_counts(self, rejected: u64) -> bool {
        if self.state == ProgressState::Replicate {
            rejected > self.matched
        } else {
            self.next_idx - 1 == rejected
        }
    }

    /// The peer has refused `rejected`, and says that its log ends at `hint`.
    pub open spec fn decrease_to(self, rejected: u64, hint: u64) -> ProgressView {
        if !self.refusal_counts(rejected) {
            self
        } else if self.state == ProgressState::Replicate {
            ProgressView { next_idx: (self.matched + 1) as u64, ..self }
        } else {
            let next = if rejected < hint + 1 {
                rejected as int
            } else {
                hint + 1
            };
            ProgressView {
                next_idx: if next < 1 {
                    1
                } else {
                    next as u64
                },
                paused: false,
                ..self
            }
        }
    }

    /// Whether no entries are to be sent at the moment.
    pub open spec fn is_paused(self) -> bool {
        match self.state {
            ProgressState::Probe => self.paused,
            ProgressState::Replicate => self.ins.full(),
            ProgressState::Snapshot => true,
        }
    }
}

impl Progress {
    /// Returns the progress of a peer of which nothing is known.
    pub fn new(next_idx: u64, ins_size: usize) -> (r: Progress)
        ensures
            r@ == ProgressView::new(next_idx, ins_size),
    {
        Progress {
            matched: 0,
            next_idx,
            state: ProgressState::Probe,
            paused: false,
            pending_snapshot: 0,
            recent_active: false,
            ins: Inflights::new(ins_size),
        }
    }

    /// Forgets what is known of the peer.
    pub fn reset(&mut self, next_idx: u64)
        ensures
            final(self)@ == old(self)@.reset(next_idx),
    {
        self.matched = 0;
        self.next_idx = next_idx;
        self.state = ProgressState::Probe;
        self.paused = false;
        self.pending_snapshot = 0;
        self.recent_active = false;
        self.ins.reset();
    }

    fn reset_state(&mut self, state: ProgressState)
        ensures
            final(self)@ == old(self)@.reset_state(state),
    {
        self.paused = false;
        self.pending_snapshot = 0;
        self.state = state;
        self.ins.reset();
    }

    /// Starts probing.
    pub fn become_probe(&mut self)
        requires
            old(self)@.wf(),
        ensures
            final(self)@ == old(self)@.become_probe(),
            final(self)@.wf(),
    {
        if self.state == ProgressState::Snapshot {
            let pending_snapshot: u64 = self.pending_snapshot;
            self.reset_state(ProgressState::Probe);
            self.next_idx = if pending_snapshot > self.matched {
                pending_snapshot + 1
            } else {
                self.matched + 1
            };
        } else {
            self.reset_state(ProgressState::Probe);
            self.next_idx = self.matched + 1;
        }
    }

    /// Starts replicating.
    pub fn become_replicate(&mut self)
        requires
            old(self)@.wf(),
        ensures
            final(self)@ == old(self)@.become_replicate(),
            final(self)@.wf(),
    {
        self.reset_state(ProgressState::Replicate);
        self.next_idx = self.matched + 1;
    }

    /// Starts waiting for the snapshot at `index`.
    pub fn become_snapshot(&mut self, index: u64)
        ensures
            final(self)@ == old(self)@.become_snapshot(index),
    {
        self.reset_state(ProgressState::Snapshot);
        self.pending_snapshot = index;
    }

    /// Notes that the snapshot did not arrive.
    pub fn snapshot_failure(&mut self)
        ensures
            final(self)@ == old(self)@.snapshot_failure(),
    {
        self.pending_snapshot = 0;
    }

    /// Whether the peer has what the snapshot on its way holds.
    pub fn maybe_snapshot_abort(&self) -> (r: bool)
        ensures
            r == self@.snapshot_caught_up(),
    {
        self.state == ProgressState::Snapshot && self.matched >= self.pending_snapshot
    }

    /// Notes that the peer has everything up to `n`; says whether that is news.
    pub fn maybe_update(&mut self, n: u64) -> (r: bool)
        requires
            old(self)@.wf(),
            n < u64::MAX,
        ensures
            r == (old(self)@.matched < n),
            final(self)@ == old(self)@.update_to(n),
            final(self)@.wf(),
    {
        let need_update = self.matched < n;
        if need_update {
            self.matched = n;
            self.resume();
        }
        if self.next_idx < n + 1 {
            self.next_idx = n + 1;
        }
        need_update
    }

    /// Notes that everything up to `n` has been sent.
    pub fn optimistic_update(&mut self, n: u64)
        requires
            n < u64::MAX,
        ensures
            final(self)@ == old(self)@.optimistic_update(n),
    {
        self.next_idx = n + 1;
    }

    /// Notes that the peer has refused `rejected`; says whether that is not out of date.
    pub fn maybe_decr_to(&mut self, rejected: u64, match_hint: u64) -> (r: bool)
        requires
            old(self)@.wf(),
            match_hint < u64::MAX,
        ensures
            r == old(self)@.refusal_counts(rejected),
            final(self)@ == old(self)@.decrease_to(rejected, match_hint),
            final(self)@.wf(),
    {
        if self.state == ProgressState::Replicate {
            if rejected <= self.matched {
                return false;
            }
            self.next_idx = self.matched + 1;
            return true;
        }
        if self.next_idx == 0 || self.next_idx - 1 != rejected {
            return false;
        }
        self.next_idx = if rejected < match_hint + 1 {
            rejected
        } else {
            match_hint + 1
        };
        if self.next_idx < 1 {
            self.next_idx = 1;
        }
        self.resume();
        true
    }

    /// Whether no entries are to be sent at the moment.
    pub fn is_paused(&self) -> (r: bool)
        ensures
            r == self@.is_paused(),
    {
        match self.state {
            ProgressState::Probe => self.paused,
            ProgressState::Replicate => self.ins.full(),
            ProgressState::Snapshot => true,
        }
    }

    /// Lets entries be sent again.
    pub fn resume(&mut self)
        ensures
            final(self)@ == (ProgressView { paused: false, ..old(self)@ }),
    {
        self.paused = false;
    }

    /// Keeps entries from being sent until the peer answers.
    pub fn pause(&mut self)
        ensures
            final(self)@ == (ProgressView { paused: true, ..old(self)@ }),
    {
        self.paused = true;
    }
}

impl Clone for Progress {
    fn clone(&self) -> (r: Self)
        ensures
            r@ == self@,
    {
        Progress {
            matched: self.matched,
            next_idx: self.next_idx,
            state: self.state,
            paused: self.paused,
            pending_snapshot: self.pending_snapshot,
            recent_active: self.recent_active,
            ins: Inflights {
                cap: self.ins.cap,
                buffer: crate::eraftpb::clone_ids(&self.ins.buffer),
            },
        }
    }
}

} // verus!
