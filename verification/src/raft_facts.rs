//! What the operations of a node leave as it is.
use crate::eraftpb::{EntryView, MessageType, MessageView, SnapshotView};
use crate::errors::ErrorView;
use crate::progress::ProgressView;
use crate::progress_set::CandidacyStatus;
use crate::raft::{StateRole, INVALID_ID};
use crate::raft_log::RaftLogView;
use crate::raft_model::{
    change_entry, election, is_election_msg, is_leader_msg, is_vote_request, pre_election,
    transfer, RaftView, ReactionView,
};
use crate::storage::Storage;
use crate::util::NO_LIMIT;
use vstd::prelude::*;

verus! {

impl<T: Storage> RaftLogView<T> {
    /// The entry at `idx`.
    pub open spec fn entry(self, idx: u64) -> EntryView {
        if idx >= self.unstable.offset {
            self.unstable.entries[idx - self.unstable.offset]
        } else {
            self.store.spec_entries(idx, (idx + 1) as u64, NO_LIMIT)->Ok_0[0]
        }
    }

    /// Whether `es` are entries of the log, those from `lo` on.
    pub open spec fn holds_from(self, es: Seq<EntryView>, lo: u64) -> bool {
        forall|i: int| 0 <= i < es.len() ==> #[trigger] es[i] == self.entry((lo + i) as u64)
    }

    /// Whether the store gives many entries as it gives them one by one: from the one that was
    /// asked for on, at least one, and all of them if there is no limit; and their terms.
    pub open spec fn store_agrees(self) -> bool {
        &&& forall|lo: u64, hi: u64, max: u64|
            self.first() <= lo < hi <= self.unstable.offset ==> (
            #[trigger] self.store.spec_entries(lo, hi, max) matches Ok(es) ==> {
                &&& 0 < es.len() <= hi - lo
                &&& max == NO_LIMIT ==> es.len() == hi - lo
                &&& self.holds_from(es, lo)
            })
        &&& forall|idx: u64|
            self.first() <= idx < self.unstable.offset ==> #[trigger] self.store.spec_term(idx)
                == Ok::<u64, ErrorView>(self.entry(idx).term)
    }

    /// What is asked for from `lo` up to, but without, `hi` are the entries from `lo` on: at
    /// least one, and all of them if there is no limit.
    pub proof fn lemma_slice(self, lo: u64, hi: u64, max: u64)
        requires
            self.wf(),
            self.store_agrees(),
            self.first() <= lo < hi <= self.last() + 1,
        ensures
            self.slice(lo, hi, max) matches Ok(es) && 0 < es.len() <= hi - lo && (max == NO_LIMIT
                ==> es.len() == hi - lo) && self.holds_from(es, lo),
    {
        let offset = self.unstable.offset;
        let stable_hi = if hi < offset {
            hi
        } else {
            offset
        };
        let stable = if lo < offset {
            self.store.spec_entries(lo, stable_hi, max)->Ok_0
        } else {
            Seq::empty()
        };
        if lo < offset {
            assert(crate::raft_log::entries_ok(self.store.spec_entries(lo, stable_hi, max)));
            assert(self.holds_from(stable, lo));
        }
        let from = if lo < offset {
            0
        } else {
            lo - offset
        };
        let es = self.slice(lo, hi, max)->Ok_0;
        crate::util::lemma_limited_prefix(stable, max);
        if !(lo < offset && stable.len() < stable_hi - lo) && hi > offset {
            let more = self.unstable.entries.subrange(from, hi - offset);
            let all = stable + more;
            crate::util::lemma_limited_prefix(all, max);
            assert forall|i: int| 0 <= i < es.len() implies #[trigger] es[i] == self.entry(
                (lo + i) as u64,
            ) by {
                assert(es[i] == all[i]);
                if i < stable.len() {
                    assert(all[i] == stable[i]);
                } else {
                    assert(all[i] == more[i - stable.len()]);
                }
            }
        } else {
            assert forall|i: int| 0 <= i < es.len() implies #[trigger] es[i] == self.entry(
                (lo + i) as u64,
            ) by {
                assert(es[i] == stable[i]);
            }
        }
    }

    /// Whether `other` has the same at `idx`.
    pub open spec fn agrees_at(self, other: RaftLogView<T>, idx: u64) -> bool {
        other.entry(idx) == self.entry(idx) && other.term(idx) == self.term(idx)
    }

    /// Whether `later` has kept what is committed, except what a snapshot took the place of.
    pub open spec fn keeps(self, later: RaftLogView<T>) -> bool {
        &&& later.store == self.store
        &&& later.applied == self.applied
        &&& later.committed >= self.committed
        &&& later.first() >= self.first()
        &&& forall|idx: u64|
            later.first() <= idx <= self.committed ==> #[trigger] self.agrees_at(later, idx)
    }

    /// Whether `later` has kept everything, and only has more at the end.
    pub open spec fn extends(self, later: RaftLogView<T>) -> bool {
        &&& later.store == self.store
        &&& later.applied == self.applied
        &&& later.committed >= self.committed
        &&& later.first() == self.first()
        &&& later.last() >= self.last()
        &&& forall|idx: u64|
            self.first() <= idx <= self.last() ==> #[trigger] self.agrees_at(later, idx)
    }

    /// Entries that are put in keep what is before them.
    pub proof fn lemma_append_agrees(self, ents: Seq<EntryView>, idx: u64)
        requires
            self.wf(),
            self.append_ok(ents),
            ents.len() > 0,
            self.first() - 1 <= idx < ents[0].index,
        ensures
            self.append(ents).term(idx) == self.term(idx),
            idx >= self.first() ==> self.append(ents).entry(idx) == self.entry(idx),
    {
        self.lemma_append_wf(ents);
        if idx >= self.unstable.offset {
            assert(self.append(ents).unstable.entries[idx - self.unstable.offset]
                == self.unstable.entries[idx - self.unstable.offset]);
        }
    }

    /// Entries that are put in stand at their places.
    pub proof fn lemma_append_has(self, ents: Seq<EntryView>, i: int)
        requires
            self.wf(),
            self.append_ok(ents),
            0 <= i < ents.len(),
        ensures
            self.append(ents).entry((ents[0].index + i) as u64) == ents[i],
            self.append(ents).term((ents[0].index + i) as u64) == ents[i].term,
    {
        self.lemma_append_wf(ents);
        let r = self.append(ents);
        let at = (ents[0].index + i) as u64;
        assert(r.unstable.entries[at - r.unstable.offset] == ents[i]);
    }

    /// Entries behind the committed ones keep the committed ones.
    pub proof fn lemma_append_keeps(self, ents: Seq<EntryView>)
        requires
            self.wf(),
            self.append_ok(ents),
        ensures
            self.keeps(self.append(ents)),
            self.append(ents).wf(),
    {
        self.lemma_append_wf(ents);
        let r = self.append(ents);
        assert forall|idx: u64| r.first() <= idx <= self.committed implies #[trigger] self.agrees_at(
            r,
            idx,
        ) by {
            if ents.len() > 0 {
                self.lemma_append_agrees(ents, idx);
            }
        }
    }

    /// Entries at the end keep everything.
    pub proof fn lemma_append_extends(self, ents: Seq<EntryView>)
        requires
            self.wf(),
            self.append_ok(ents),
            ents.len() > 0 ==> ents[0].index == self.last() + 1,
        ensures
            self.extends(self.append(ents)),
            self.append(ents).wf(),
    {
        self.lemma_append_wf(ents);
        let r = self.append(ents);
        assert forall|idx: u64| self.first() <= idx <= self.last() implies #[trigger] self.agrees_at(
            r,
            idx,
        ) by {
            if ents.len() > 0 {
                self.lemma_append_agrees(ents, idx);
            }
        }
    }

    /// A higher commit index keeps everything.
    pub proof fn lemma_commit_extends(self, committed: u64)
        requires
            self.wf(),
            self.committed <= committed <= self.last(),
        ensures
            self.extends((RaftLogView { committed, ..self })),
            (RaftLogView { committed, ..self }).wf(),
    {
        let r = RaftLogView { committed, ..self };
        assert forall|idx: u64| self.first() <= idx <= self.last() implies #[trigger] self.agrees_at(
            r,
            idx,
        ) by {}
    }

    /// A log that has kept everything has kept what is committed.
    pub proof fn lemma_extends_keeps(self, later: RaftLogView<T>)
        requires
            self.wf(),
            self.extends(later),
        ensures
            self.keeps(later),
    {
        assert forall|idx: u64| later.first() <= idx <= self.committed implies #[trigger] self.agrees_at(
            later,
            idx,
        ) by {}
    }

    /// Keeping what is committed goes from step to step.
    pub proof fn lemma_keeps_trans(self, b: RaftLogView<T>, c: RaftLogView<T>)
        requires
            self.keeps(b),
            b.keeps(c),
        ensures
            self.keeps(c),
    {
        assert forall|idx: u64| c.first() <= idx <= self.committed implies #[trigger] self.agrees_at(
            c,
            idx,
        ) by {
            assert(self.agrees_at(b, idx));
            assert(b.agrees_at(c, idx));
        }
    }

    /// Keeping everything goes from step to step.
    pub proof fn lemma_extends_trans(self, b: RaftLogView<T>, c: RaftLogView<T>)
        requires
            self.extends(b),
            b.extends(c),
        ensures
            self.extends(c),
    {
        assert forall|idx: u64| self.first() <= idx <= self.last() implies #[trigger] self.agrees_at(
            c,
            idx,
        ) by {
            assert(self.agrees_at(b, idx));
            assert(b.agrees_at(c, idx));
        }
    }

    /// Every log has kept itself.
    pub proof fn lemma_extends_self(self)
        ensures
            self.extends(self),
            self.keeps(self),
    {
        assert forall|idx: u64| self.first() <= idx <= self.last() implies #[trigger] self.agrees_at(
            self,
            idx,
        ) by {}
        assert forall|idx: u64| self.first() <= idx <= self.committed implies #[trigger] self.agrees_at(
            self,
            idx,
        ) by {}
    }

    /// What comes from a leader keeps what is committed.
    pub proof fn lemma_maybe_append_keeps(
        self,
        idx: u64,
        term: u64,
        committed: u64,
        ents: Seq<EntryView>,
    )
        requires
            self.wf(),
            self.maybe_append_ok(idx, term, committed, ents),
        ensures
            self.keeps(self.maybe_append(idx, term, committed, ents)),
            self.maybe_append(idx, term, committed, ents).wf(),
    {
        self.lemma_extends_self();
        if self.match_term(idx, term) {
            let part = self.new_part(idx, ents);
            let grown = self.append(part);
            self.lemma_append_keeps(part);
            let r = self.maybe_append(idx, term, committed, ents);
            grown.lemma_commit_extends(r.committed);
            grown.lemma_extends_keeps(r);
            self.lemma_keeps_trans(grown, r);
        }
    }

    /// A snapshot that is not older than what is committed leaves none of it.
    pub proof fn lemma_restore_keeps(self, snapshot: SnapshotView)
        requires
            self.wf(),
            self.committed <= snapshot.metadata.index < u64::MAX,
        ensures
            self.keeps(self.restore(snapshot)),
            self.restore(snapshot).wf(),
    {
        self.lemma_restore_wf(snapshot);
    }
}

/// Whether `m` was sent by the node `id` in `term`.
pub open spec fn is_from(m: MessageView, id: u64, term: u64) -> bool {
    &&& m.from == id
    &&& is_election_msg(m.msg_type) || m.msg_type == MessageType::MsgPropose || m.msg_type
        == MessageType::MsgReadIndex || m.term == term
}

impl<T: Storage> RaftView<T> {
    /// Whether what `m` says of the log of this node is so: the entries are those of the log,
    /// and follow the one that is named; a snapshot is the one of the log; a request for a vote
    /// names the end of the log, and is for this term, or for the next one if it is for a
    /// pre-vote; and nothing is called committed that is not.
    pub open spec fn tells(self, m: MessageView) -> bool {
        let log = self.raft_log;
        &&& m.msg_type == MessageType::MsgAppend ==> {
            &&& m.log_term == log.term(m.index)
            &&& m.commit <= log.committed
            &&& log.store_agrees() ==> log.holds_from(m.entries, (m.index + 1) as u64)
            &&& m.entries.len() > 0 && log.store_agrees() ==> m.index + m.entries.len()
                <= log.last()
        }
        &&& m.msg_type == MessageType::MsgSnapshot ==> log.snapshot() == Ok::<
            SnapshotView,
            ErrorView,
        >(m.snapshot)
        &&& is_vote_request(m.msg_type) ==> m.index == log.last_index() && m.log_term == log.term(
            log.last_index(),
        )
        &&& m.msg_type == MessageType::MsgRequestVote ==> m.term == self.term
        &&& m.msg_type == MessageType::MsgRequestPreVote ==> m.term == self.term + 1
        &&& m.msg_type == MessageType::MsgHeartbeat ==> m.commit <= log.committed
    }

    /// Whether `later` has the same log, of which more may be committed.
    pub open spec fn same_entries(self, later: RaftView<T>) -> bool {
        &&& later.raft_log.committed >= self.raft_log.committed
        &&& later.raft_log == (RaftLogView {
            committed: later.raft_log.committed,
            ..self.raft_log
        })
    }

    /// What was told of the log is still so if only more of it is committed.
    pub proof fn lemma_still_tells(self, later: RaftView<T>, m: MessageView)
        requires
            self.same_entries(later),
            self.term == later.term,
            self.tells(m),
        ensures
            later.tells(m),
    {
        let a = self.raft_log;
        let b = later.raft_log;
        assert forall|idx: u64| #[trigger] b.entry(idx) == a.entry(idx) by {}
        assert(b.store_agrees() ==> a.store_agrees()) by {
            if b.store_agrees() {
                assert forall|lo: u64, hi: u64, max: u64|
                    a.first() <= lo < hi <= a.unstable.offset implies (
                #[trigger] a.store.spec_entries(lo, hi, max) matches Ok(es) ==> {
                    &&& 0 < es.len() <= hi - lo
                    &&& max == NO_LIMIT ==> es.len() == hi - lo
                    &&& a.holds_from(es, lo)
                }) by {
                    if let Ok(es) = b.store.spec_entries(lo, hi, max) {
                        assert(b.holds_from(es, lo));
                    }
                }
            }
        }
    }

    /// The message with entries, or with a snapshot, tells what is in the log.
    proof fn lemma_append_tells(self, to: u64, p: ProgressView)
        requires
            self.raft_log.wf(),
        ensures
            self.append_to(to, p).1 matches Some(m) ==> self.tells(self.stamped(m)),
    {
        let log = self.raft_log;
        if !p.is_paused() {
            if let Ok(es) = log.entries(p.next_idx, self.max_msg_size) {
                if log.store_agrees() && p.next_idx <= log.last() {
                    log.lemma_slice(p.next_idx, (log.last() + 1) as u64, self.max_msg_size);
                }
            }
        }
    }

    /// Whether `later` is the same node, with the same settings.
    pub open spec fn same_settings(self, later: RaftView<T>) -> bool {
        &&& later.id == self.id
        &&& later.max_inflight == self.max_inflight
        &&& later.max_msg_size == self.max_msg_size
        &&& later.check_quorum == self.check_quorum
        &&& later.pre_vote == self.pre_vote
        &&& later.skip_bcast_commit == self.skip_bcast_commit
        &&& later.heartbeat_timeout == self.heartbeat_timeout
        &&& later.election_timeout == self.election_timeout
        &&& later.min_election_timeout == self.min_election_timeout
        &&& later.max_election_timeout == self.max_election_timeout
        &&& later.read_only.option == self.read_only.option
    }

    /// Whether `later` has only more messages, all of this node and in the term of `later`, and
    /// true of its log.
    pub open spec fn sends(self, later: RaftView<T>) -> bool {
        &&& self.msgs.len() <= later.msgs.len()
        &&& forall|i: int| 0 <= i < self.msgs.len() ==> later.msgs[i] == self.msgs[i]
        &&& forall|i: int|
            self.msgs.len() <= i < later.msgs.len() ==> is_from(
                #[trigger] later.msgs[i],
                self.id,
                later.term,
            ) && later.tells(later.msgs[i])
    }

    /// Whether `later` has the same term, vote, role and leader, and follows this state.
    pub open spec fn stays(self, later: RaftView<T>) -> bool {
        &&& self.same_settings(later)
        &&& later.term == self.term
        &&& later.vote == self.vote
        &&& later.state == self.state
        &&& later.leader_id == self.leader_id
        &&& self.raft_log.keeps(later.raft_log)
        &&& self.sends(later)
        &&& later.raft_log.wf()
    }

    /// Whether `later` can come after this state: the settings stay, the term does not go
    /// down, the vote stays within a term, what is committed stays, and messages only come
    /// in addition.
    pub open spec fn follows(self, later: RaftView<T>) -> bool {
        &&& self.same_settings(later)
        &&& later.term >= self.term
        &&& later.term == self.term && self.vote != INVALID_ID ==> later.vote == self.vote
        &&& self.raft_log.keeps(later.raft_log)
        &&& self.sends(later)
        &&& later.raft_log.wf()
    }

    /// A state with the same log and messages stays.
    pub proof fn lemma_stays_same(self, later: RaftView<T>)
        requires
            self.raft_log.wf(),
            later.raft_log == self.raft_log,
            later.msgs == self.msgs,
            self.same_settings(later),
            later.term == self.term,
            later.vote == self.vote,
            later.state == self.state,
            later.leader_id == self.leader_id,
        ensures
            self.stays(later),
    {
        self.raft_log.lemma_extends_self();
    }

    /// Staying goes from step to step.
    pub proof fn lemma_stays_trans(self, b: RaftView<T>, c: RaftView<T>)
        requires
            self.stays(b),
            b.stays(c),
            b.msgs == self.msgs || b.same_entries(c),
        ensures
            self.stays(c),
    {
        self.raft_log.lemma_keeps_trans(b.raft_log, c.raft_log);
        self.lemma_sends_trans(b, c);
    }

    proof fn lemma_sends_trans(self, b: RaftView<T>, c: RaftView<T>)
        requires
            self.id == b.id,
            self.sends(b),
            b.sends(c),
            b.msgs == self.msgs || (b.term == c.term && b.same_entries(c)),
        ensures
            self.sends(c),
    {
        assert forall|i: int| 0 <= i < self.msgs.len() implies c.msgs[i] == self.msgs[i] by {
            assert(b.msgs[i] == self.msgs[i]);
        }
        assert forall|i: int| self.msgs.len() <= i < c.msgs.len() implies is_from(
            #[trigger] c.msgs[i],
            self.id,
            c.term,
        ) && c.tells(c.msgs[i]) by {
            if i < b.msgs.len() {
                assert(c.msgs[i] == b.msgs[i]);
                assert(is_from(b.msgs[i], self.id, b.term));
                b.lemma_still_tells(c, b.msgs[i]);
            }
        }
    }

    /// Following goes from step to step, if nothing was sent before the term or the entries
    /// changed.
    pub proof fn lemma_follows_trans(self, b: RaftView<T>, c: RaftView<T>)
        requires
            self.follows(b),
            b.follows(c),
            b.msgs == self.msgs || (b.term == c.term && b.same_entries(c)),
        ensures
            self.follows(c),
    {
        self.raft_log.lemma_keeps_trans(b.raft_log, c.raft_log);
        self.lemma_sends_trans(b, c);
    }

    /// What is sent is sent by this node.
    proof fn lemma_send(self, m: MessageView)
        requires
            self.raft_log.wf(),
            self.tells(self.stamped(m)),
        ensures
            self.stays(self.send(m)),
            self.raft_log.extends(self.send(m).raft_log),
    {
        self.raft_log.lemma_extends_self();
    }

    proof fn lemma_send_all(self, ms: Seq<MessageView>)
        requires
            self.raft_log.wf(),
            forall|i: int| 0 <= i < ms.len() ==> self.tells(self.stamped(#[trigger] ms[i])),
        ensures
            self.stays(self.send_all(ms)),
            self.raft_log.extends(self.send_all(ms).raft_log),
    {
        self.raft_log.lemma_extends_self();
        let r = self.send_all(ms);
        assert forall|i: int| self.msgs.len() <= i < r.msgs.len() implies is_from(
            #[trigger] r.msgs[i],
            self.id,
            r.term,
        ) && r.tells(r.msgs[i]) by {
            let m = ms[i - self.msgs.len()];
            assert(r.msgs[i] == self.stamped(m));
            self.lemma_still_tells(r, self.stamped(m));
        }
    }

    proof fn lemma_send_append_to(self, to: u64)
        requires
            self.raft_log.wf(),
        ensures
            self.stays(self.send_append_to(to)),
            self.raft_log.extends(self.send_append_to(to).raft_log),
    {
        let r = self.append_to(to, self.prs().at(to));
        let s = self.with_progress(to, r.0);
        self.lemma_stays_same(s);
        self.raft_log.lemma_extends_self();
        if let Some(m) = r.1 {
            self.lemma_append_tells(to, self.prs().at(to));
            self.lemma_still_tells(s, self.stamped(m));
            s.lemma_send(m);
            self.lemma_stays_trans(s, s.send(m));
        }
    }

    proof fn lemma_append_msgs(self, n: int)
        requires
            self.raft_log.wf(),
        ensures
            forall|i: int|
                0 <= i < self.append_msgs(n).len() ==> is_from(
                    #[trigger] self.append_msgs(n)[i],
                    self.id,
                    self.term,
                ) && self.tells(self.append_msgs(n)[i]),
        decreases n,
    {
        if n > 0 {
            self.lemma_append_msgs(n - 1);
            let rest = self.append_msgs(n - 1);
            self.lemma_append_tells(self.prs().ids[n - 1], self.prs().progress[n - 1]);
            assert forall|i: int| 0 <= i < self.append_msgs(n).len() implies is_from(
                #[trigger] self.append_msgs(n)[i],
                self.id,
                self.term,
            ) && self.tells(self.append_msgs(n)[i]) by {
                if i < rest.len() {
                    assert(self.append_msgs(n)[i] == rest[i]);
                }
            }
        }
    }

    /// Sending entries changes only messages and progress.
    pub proof fn lemma_bcast_append(self)
        requires
            self.raft_log.wf(),
        ensures
            self.stays(self.bcast_append()),
            self.bcast_append().raft_log == self.raft_log,
            self.bcast_append().prs().ids == self.prs().ids,
    {
        let n = self.prs().ids.len() as int;
        self.lemma_append_msgs(n);
        self.raft_log.lemma_extends_self();
        let r = self.bcast_append();
        assert forall|i: int| self.msgs.len() <= i < r.msgs.len() implies is_from(
            #[trigger] r.msgs[i],
            self.id,
            r.term,
        ) && r.tells(r.msgs[i]) by {
            assert(r.msgs[i] == self.append_msgs(n)[i - self.msgs.len()]);
            self.lemma_still_tells(r, r.msgs[i]);
        }
    }

    proof fn lemma_heartbeat_msgs(self, ctx: Option<Seq<u8>>, n: int)
        ensures
            forall|i: int|
                0 <= i < self.heartbeat_msgs(ctx, n).len() ==> is_from(
                    #[trigger] self.heartbeat_msgs(ctx, n)[i],
                    self.id,
                    self.term,
                ) && self.tells(self.heartbeat_msgs(ctx, n)[i]),
        decreases n,
    {
        if n > 0 {
            self.lemma_heartbeat_msgs(ctx, n - 1);
            let rest = self.heartbeat_msgs(ctx, n - 1);
            assert forall|i: int| 0 <= i < self.heartbeat_msgs(ctx, n).len() implies is_from(
                #[trigger] self.heartbeat_msgs(ctx, n)[i],
                self.id,
                self.term,
            ) && self.tells(self.heartbeat_msgs(ctx, n)[i]) by {
                if i < rest.len() {
                    assert(self.heartbeat_msgs(ctx, n)[i] == rest[i]);
                }
            }
        }
    }

    /// Sending heartbeats changes only messages.
    pub proof fn lemma_bcast_heartbeat(self, ctx: Option<Seq<u8>>)
        requires
            self.raft_log.wf(),
        ensures
            self.stays(self.bcast_heartbeat_with_ctx(ctx)),
            self.bcast_heartbeat_with_ctx(ctx).raft_log == self.raft_log,
    {
        let n = self.prs().ids.len() as int;
        self.lemma_heartbeat_msgs(ctx, n);
        self.raft_log.lemma_extends_self();
        let r = self.bcast_heartbeat_with_ctx(ctx);
        assert forall|i: int| self.msgs.len() <= i < r.msgs.len() implies is_from(
            #[trigger] r.msgs[i],
            self.id,
            r.term,
        ) && r.tells(r.msgs[i]) by {
            assert(r.msgs[i] == self.heartbeat_msgs(ctx, n)[i - self.msgs.len()]);
            self.lemma_still_tells(r, r.msgs[i]);
        }
    }

    /// Committing what a quorum has changes only the commit index.
    pub proof fn lemma_maybe_commit(self)
        requires
            self.raft_log.wf(),
            self.maybe_commit_ok(),
        ensures
            self.stays(self.maybe_commit()),
            self.raft_log.extends(self.maybe_commit().raft_log),
    {
        self.raft_log.lemma_extends_self();
        if self.can_commit() {
            self.raft_log.lemma_commit_extends(self.prs().maximal_committed_index());
        }
        self.raft_log.lemma_extends_keeps(self.maybe_commit().raft_log);
    }

    /// Putting entries in changes the log at its end.
    pub proof fn lemma_append_entry(self, es: Seq<EntryView>)
        requires
            self.raft_log.wf(),
            self.append_entry_ok(es),
        ensures
            self.stays(self.append_entry(es)),
            self.raft_log.extends(self.append_entry(es).raft_log),
            self.append_entry(es).raft_log.last() == self.raft_log.last() + es.len(),
            self.append_entry(es).prs().ids == self.prs().ids,
    {
        let ents = self.numbered(es);
        assert forall|k: int| 0 <= k < ents.len() implies (#[trigger] ents[k]).index < u64::MAX by {}
        self.raft_log.lemma_append_wf(ents);
        self.raft_log.lemma_append_extends(ents);
        let s = self.with_entries(es);
        self.raft_log.lemma_extends_keeps(s.raft_log);
        s.lemma_maybe_commit();
        self.lemma_stays_trans(s, s.maybe_commit());
        self.raft_log.lemma_extends_trans(s.raft_log, s.maybe_commit().raft_log);
    }

    pub proof fn lemma_append_finalize(self)
        requires
            self.raft_log.wf(),
            self.append_finalize_ok(),
        ensures
            self.stays(self.append_finalize()),
            self.raft_log.extends(self.append_finalize().raft_log),
    {
        let es = seq![change_entry(crate::eraftpb::ConfChangeView::finalize())];
        self.lemma_append_entry(es);
        let s = self.append_entry(es);
        s.lemma_bcast_append();
        self.lemma_stays_trans(s, s.bcast_append());
    }

    /// A later term is followed, or the same one with its vote.
    pub proof fn lemma_become_follower(self, term: u64, leader_id: u64)
        requires
            self.raft_log.wf(),
            term >= self.term,
        ensures
            self.follows(self.become_follower(term, leader_id)),
    {
        self.raft_log.lemma_extends_self();
    }

    /// The leader puts in entries of its own, in its term.
    pub proof fn lemma_become_leader(self)
        requires
            self.raft_log.wf(),
            self.become_leader_ok(),
        ensures
            self.follows(self.become_leader()),
            self.become_leader().term == self.term,
            self.become_leader().vote == self.vote,
            self.become_leader().state == StateRole::Leader,
            self.become_leader().leader_id == self.id,
            self.raft_log.extends(self.become_leader().raft_log),
            self.become_leader().raft_log.last() > self.raft_log.last(),
    {
        let first = seq![EntryView::empty()];
        let l = self.leading();
        self.raft_log.lemma_extends_self();
        assert(self.follows(l));
        l.lemma_append_entry(first);
        let s = l.append_entry(first);
        self.lemma_follows_trans(l, s);
        self.raft_log.lemma_extends_trans(l.raft_log, s.raft_log);
        if s.is_change_due(s.raft_log.committed) {
            s.lemma_append_finalize();
            self.lemma_follows_trans(s, s.append_finalize());
            self.raft_log.lemma_extends_trans(s.raft_log, s.append_finalize().raft_log);
        }
    }

    proof fn lemma_vote_requests(
        self,
        ids: Seq<u64>,
        kind: MessageType,
        term: u64,
        campaign: Seq<u8>,
    )
        requires
            is_vote_request(kind),
            term == (if kind == MessageType::MsgRequestVote {
                self.term as int
            } else {
                self.term + 1
            }),
        ensures
            forall|i: int|
                0 <= i < self.vote_requests(ids, kind, term, campaign).len() ==> is_from(
                    #[trigger] self.vote_requests(ids, kind, term, campaign)[i],
                    self.id,
                    self.term,
                ) && self.tells(self.vote_requests(ids, kind, term, campaign)[i]),
        decreases ids.len(),
    {
        if ids.len() > 0 {
            self.lemma_vote_requests(ids.drop_last(), kind, term, campaign);
            let rest = self.vote_requests(ids.drop_last(), kind, term, campaign);
            assert forall|i: int| 0 <= i < self.vote_requests(ids, kind, term, campaign).len() implies is_from(
                #[trigger] self.vote_requests(ids, kind, term, campaign)[i],
                self.id,
                self.term,
            ) && self.tells(self.vote_requests(ids, kind, term, campaign)[i]) by {
                if i < rest.len() {
                    assert(self.vote_requests(ids, kind, term, campaign)[i] == rest[i]);
                }
            }
        }
    }

    pub proof fn lemma_request_votes(self, kind: MessageType, term: u64, campaign: Seq<u8>)
        requires
            self.raft_log.wf(),
            is_vote_request(kind),
            term == (if kind == MessageType::MsgRequestVote {
                self.term as int
            } else {
                self.term + 1
            }),
        ensures
            self.stays(self.request_votes(kind, term, campaign)),
            self.raft_log.extends(self.request_votes(kind, term, campaign).raft_log),
    {
        let ids = self.prs().voter_ids();
        self.lemma_vote_requests(ids, kind, term, campaign);
        self.raft_log.lemma_extends_self();
        let r = self.request_votes(kind, term, campaign);
        assert forall|i: int| self.msgs.len() <= i < r.msgs.len() implies is_from(
            #[trigger] r.msgs[i],
            self.id,
            r.term,
        ) && r.tells(r.msgs[i]) by {
            assert(r.msgs[i] == self.vote_requests(ids, kind, term, campaign)[i
                - self.msgs.len()]);
            self.lemma_still_tells(r, r.msgs[i]);
        }
    }

    /// A candidate stands in the next term, with its own vote.
    pub proof fn lemma_elect(self, campaign: Seq<u8>)
        requires
            self.raft_log.wf(),
            self.elect_ok(),
        ensures
            self.follows(self.elect(campaign)),
            self.elect(campaign).term == self.term + 1,
            self.elect(campaign).vote == self.id,
            self.elect(campaign).state == StateRole::Candidate || self.elect(campaign).state
                == StateRole::Leader,
    {
        let s = self.standing();
        self.raft_log.lemma_extends_self();
        assert(self.follows(s));
        if s.candidacy() == CandidacyStatus::Elected {
            s.lemma_become_leader();
            self.lemma_follows_trans(s, s.become_leader());
        } else {
            s.lemma_request_votes(MessageType::MsgRequestVote, s.term, campaign);
            self.lemma_follows_trans(
                s,
                s.request_votes(MessageType::MsgRequestVote, s.term, campaign),
            );
        }
    }

    /// A campaign leads to the next term, or asks for pre-votes in this one.
    pub proof fn lemma_campaign(self, campaign: Seq<u8>)
        requires
            self.raft_log.wf(),
            self.campaign_ok(campaign),
        ensures
            self.follows(self.campaign(campaign)),
            campaign != pre_election() ==> self.campaign(campaign).term == self.term + 1,
            self.campaign(campaign).term == self.term ==> self.campaign(campaign).state
                == StateRole::PreCandidate && self.campaign(campaign).vote == self.vote,
            self.campaign(campaign).term > self.term ==> self.campaign(campaign).vote == self.id,
            self.campaign(campaign).state != StateRole::Follower,
    {
        if campaign == pre_election() {
            let s = self.pre_standing();
            self.raft_log.lemma_extends_self();
            assert(self.follows(s));
            if s.candidacy() == CandidacyStatus::Elected {
                s.lemma_elect(election());
                self.lemma_follows_trans(s, s.elect(election()));
            } else {
                let term = (s.term + 1) as u64;
                s.lemma_request_votes(MessageType::MsgRequestPreVote, term, campaign);
                self.lemma_follows_trans(
                    s,
                    s.request_votes(MessageType::MsgRequestPreVote, term, campaign),
                );
            }
        } else {
            self.lemma_elect(campaign);
        }
    }

    pub proof fn lemma_hup(self)
        requires
            self.raft_log.wf(),
            self.hup_ok(),
        ensures
            self.follows(self.hup()),
    {
        self.raft_log.lemma_extends_self();
        if self.state != StateRole::Leader && !self.change_unapplied() {
            self.lemma_campaign(self.campaign_kind());
        }
    }

    /// What comes from a leader changes the log and is answered.
    pub proof fn lemma_from_leader(self, m: MessageView)
        requires
            self.raft_log.wf(),
            is_leader_msg(m.msg_type),
            self.from_leader_ok(m),
        ensures
            self.stays(self.from_leader(m)),
    {
        self.raft_log.lemma_extends_self();
        if m.msg_type == MessageType::MsgAppend {
            if m.index >= self.raft_log.committed {
                self.raft_log.lemma_maybe_append_keeps(m.index, m.log_term, m.commit, m.entries);
            }
        } else if m.msg_type == MessageType::MsgHeartbeat {
            let log = self.raft_log.commit_to(m.commit);
            self.raft_log.lemma_commit_extends(log.committed);
            self.raft_log.lemma_extends_keeps(log);
        } else {
            self.lemma_restore(m.snapshot);
            let s = self.restore(m.snapshot);
            let answer = MessageView {
                index: if self.restores(m.snapshot) {
                    s.raft_log.last_index()
                } else {
                    s.raft_log.committed
                },
                ..MessageView::to_node(m.from, MessageType::MsgAppendResponse)
            };
            s.lemma_send(answer);
            self.lemma_stays_trans(s, s.send(answer));
        }
    }

    pub proof fn lemma_restore(self, snap: SnapshotView)
        requires
            self.raft_log.wf(),
            self.restore_ok(snap),
        ensures
            self.stays(self.restore(snap)),
    {
        self.raft_log.lemma_extends_self();
        if self.restores(snap) {
            self.raft_log.lemma_restore_keeps(snap);
        } else if snap.metadata.index >= self.raft_log.committed && self.has_snapshot(
            snap.metadata,
        ) {
            let log = self.raft_log.commit_to(snap.metadata.index);
            self.raft_log.lemma_commit_extends(log.committed);
            self.raft_log.lemma_extends_keeps(log);
        }
    }

    /// What comes from a peer changes its progress, and may be answered.
    pub proof fn lemma_check_message(self, m: MessageView)
        requires
            self.raft_log.wf(),
        ensures
            self.stays(self.check_message(m).0),
            self.check_message(m).0.raft_log == self.raft_log,
            forall|i: int|
                0 <= i < self.check_message(m).1.more_to_send.len() ==> (
                #[trigger] self.check_message(m).1.more_to_send[i]).msg_type
                    == MessageType::MsgReadIndexResp,
    {
        crate::raft_model::lemma_remote_reads(
            self.id,
            self.read_only.recv_ack(m).answered(m.context),
        );
        self.raft_log.lemma_extends_self();
        if self.starts_transfer(m.from) {
            let s = self.transferring(m.from);
            self.lemma_stays_same(s);
            s.lemma_send_append_to(m.from);
            self.lemma_stays_trans(s, s.send_append_to(m.from));
        }
    }

    proof fn lemma_react(self, from: u64, r: ReactionView)
        requires
            self.raft_log.wf(),
            self.react_ok(from, r),
            forall|i: int|
                0 <= i < r.more_to_send.len() ==> (#[trigger] r.more_to_send[i]).msg_type
                    == MessageType::MsgReadIndexResp,
        ensures
            self.stays(self.react(from, r)),
            self.same_entries(self.react(from, r)),
            self.raft_log.extends(self.react(from, r).raft_log),
    {
        self.raft_log.lemma_extends_self();
        let s = self.react_commit(r);
        if r.maybe_commit {
            self.lemma_maybe_commit();
            let c = self.maybe_commit();
            c.lemma_bcast_append();
            self.lemma_stays_trans(c, c.bcast_append());
        } else {
            self.lemma_stays_same(self);
        }
        assert(self.stays(s) && self.raft_log.extends(s.raft_log));
        let sent = if self.react_sends(r) {
            s.lemma_send_append_to(from);
            self.lemma_stays_trans(s, s.send_append_to(from));
            self.raft_log.lemma_extends_trans(s.raft_log, s.send_append_to(from).raft_log);
            s.send_append_to(from)
        } else {
            s
        };
        let all = sent.send_all(r.more_to_send);
        sent.lemma_send_all(r.more_to_send);
        self.lemma_stays_trans(sent, all);
        self.raft_log.lemma_extends_trans(sent.raft_log, all.raft_log);
    }

    proof fn lemma_propose(self, es: Seq<EntryView>)
        requires
            self.raft_log.wf(),
            self.propose_ok(es),
        ensures
            self.stays(self.propose(es).0),
            self.raft_log.extends(self.propose(es).0.raft_log),
    {
        self.lemma_stays_same(self);
        self.raft_log.lemma_extends_self();
        if self.takes_proposals() {
            let a = self.admitting(es);
            self.lemma_stays_same(a);
            a.lemma_append_entry(self.admitted(es).0);
            let s = a.append_entry(self.admitted(es).0);
            self.lemma_stays_trans(a, s);
            s.lemma_bcast_append();
            self.lemma_stays_trans(s, s.bcast_append());
        }
    }

    proof fn lemma_read_index(self, m: MessageView)
        requires
            self.raft_log.wf(),
        ensures
            self.stays(self.read_index(m)),
            self.read_index(m).raft_log == self.raft_log,
    {
        self.raft_log.lemma_extends_self();
        let s = self.with_read(m);
        self.lemma_stays_same(s);
        s.lemma_bcast_heartbeat(Some(m.entries[0].data));
        self.lemma_stays_trans(s, s.bcast_heartbeat_with_ctx(Some(m.entries[0].data)));
    }

    /// A leader that checks its quorum stays, or steps down in its term, and sends nothing.
    pub proof fn lemma_check_active(self)
        requires
            self.raft_log.wf(),
        ensures
            self.follows(self.check_active()),
            self.check_active().msgs == self.msgs,
            self.check_active().term == self.term,
    {
        let s = self.with_prs(self.prs().checked(self.id));
        self.lemma_stays_same(s);
        s.lemma_become_follower(self.term, INVALID_ID);
        self.lemma_follows_trans(s, s.become_follower(self.term, INVALID_ID));
    }

    /// A leader stays the leader, and only adds to its log, or steps down in its term.
    pub proof fn lemma_step_leader(self, m: MessageView)
        requires
            self.raft_log.wf(),
            self.step_leader_ok(m),
        ensures
            self.follows(self.step_leader(m).0),
            self.step_leader(m).0.term == self.term,
            self.step_leader(m).0.state == self.state || self.step_leader(m).0.state
                == StateRole::Follower,
            m.msg_type != MessageType::MsgCheckQuorum ==> self.stays(self.step_leader(m).0),
            self.raft_log.extends(self.step_leader(m).0.raft_log),
    {
        self.raft_log.lemma_extends_self();
        if m.msg_type == MessageType::MsgBeat {
            self.lemma_bcast_heartbeat(
                if self.read_only.queue.len() == 0 {
                    None
                } else {
                    Some(self.read_only.queue.last())
                },
            );
        } else if m.msg_type == MessageType::MsgCheckQuorum {
            self.lemma_check_active();
        } else if m.msg_type == MessageType::MsgPropose {
            self.lemma_propose(m.entries);
        } else if m.msg_type == MessageType::MsgReadIndex {
            self.lemma_read_index(m);
        } else {
            let c = self.check_message(m);
            self.lemma_check_message(m);
            c.0.lemma_react(m.from, c.1);
            self.lemma_stays_trans(c.0, c.0.react(m.from, c.1));
        }
    }

    /// A candidate wins, loses, or goes on waiting.
    pub proof fn lemma_count_vote(self, m: MessageView)
        requires
            self.raft_log.wf(),
            self.count_vote_ok(m),
        ensures
            self.follows(self.count_vote(m)),
    {
        let s = self.with_vote(m);
        self.lemma_stays_same(s);
        match s.candidacy() {
            CandidacyStatus::Elected => {
                if self.state == StateRole::PreCandidate {
                    s.lemma_campaign(election());
                    self.lemma_follows_trans(s, s.campaign(election()));
                } else {
                    s.lemma_become_leader();
                    let l = s.become_leader();
                    self.lemma_follows_trans(s, l);
                    l.lemma_bcast_append();
                    self.lemma_follows_trans(l, l.bcast_append());
                }
            },
            CandidacyStatus::Ineligible => {
                s.lemma_become_follower(s.term, INVALID_ID);
                self.lemma_follows_trans(s, s.become_follower(s.term, INVALID_ID));
            },
            CandidacyStatus::Eligible => {},
        }
    }

    pub proof fn lemma_step_candidate(self, m: MessageView)
        requires
            self.raft_log.wf(),
            self.step_candidate_ok(m),
        ensures
            self.follows(self.step_candidate(m).0),
    {
        self.lemma_stays_same(self);
        if is_leader_msg(m.msg_type) {
            let s = self.become_follower(m.term, m.from);
            self.lemma_become_follower(m.term, m.from);
            s.lemma_from_leader(m);
            self.lemma_follows_trans(s, s.from_leader(m));
        } else if m.msg_type != MessageType::MsgPropose && self.is_vote_for_me(m) {
            self.lemma_count_vote(m);
        }
    }

    pub proof fn lemma_step_follower(self, m: MessageView)
        requires
            self.raft_log.wf(),
            self.step_follower_ok(m),
        ensures
            self.follows(self.step_follower(m).0),
    {
        self.lemma_stays_same(self);
        if Self::is_passed_on(m.msg_type) {
            self.lemma_send(MessageView { to: self.leader_id, ..m });
        } else if is_leader_msg(m.msg_type) {
            let s = self.heard_of(m.from);
            self.raft_log.lemma_extends_self();
            assert(self.follows(s));
            s.lemma_from_leader(m);
            self.lemma_follows_trans(s, s.from_leader(m));
        } else if m.msg_type == MessageType::MsgTimeoutNow && self.promotable() {
            self.lemma_campaign(transfer());
        }
    }

    pub proof fn lemma_vote_on(self, m: MessageView)
        requires
            self.raft_log.wf(),
            is_vote_request(m.msg_type),
        ensures
            self.follows(self.vote_on(m)),
            self.vote_on(m).term == self.term,
            self.vote_on(m).state == self.state,
            m.msg_type == MessageType::MsgRequestPreVote ==> self.stays(self.vote_on(m)),
    {
        self.raft_log.lemma_extends_self();
    }

    /// Looking at the term of a message follows, and sends nothing that is not in order.
    pub proof fn lemma_check_term(self, m: MessageView)
        requires
            self.raft_log.wf(),
        ensures
            self.follows(self.check_term(m)),
            self.goes_on(m) ==> self.check_term(m).msgs == self.msgs,
            self.check_term(m).term == self.term ==> self.check_term(m).state == self.state,
            self.check_term(m).term == self.term ==> self.check_term(m).vote == self.vote,
    {
        self.raft_log.lemma_extends_self();
    }

    /// Handling a message follows.
    pub proof fn lemma_dispatch(self, m: MessageView)
        requires
            self.raft_log.wf(),
            self.dispatch_ok(m),
        ensures
            self.follows(self.dispatch(m).0),
    {
        if m.msg_type == MessageType::MsgHup {
            self.lemma_hup();
        } else if is_vote_request(m.msg_type) {
            self.lemma_vote_on(m);
        } else {
            match self.state {
                StateRole::Follower => self.lemma_step_follower(m),
                StateRole::Leader => self.lemma_step_leader(m),
                _ => self.lemma_step_candidate(m),
            }
        }
    }

    /// Handling a message follows, whatever its term.
    pub proof fn lemma_step(self, m: MessageView)
        requires
            self.raft_log.wf(),
            self.step_ok(m),
        ensures
            self.follows(self.step(m).0),
    {
        let s = self.check_term(m);
        self.lemma_check_term(m);
        if self.goes_on(m) {
            s.lemma_dispatch(m);
            self.lemma_follows_trans(s, s.dispatch(m).0);
        }
    }
}

} // verus!
