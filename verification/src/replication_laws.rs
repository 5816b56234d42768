//! How the log of a leader gets to the other nodes, and what is committed.
use crate::codec::entry_size;
use crate::eraftpb::{EntryType, EntryView, MessageType, MessageView, SnapshotView};
use crate::errors::ErrorView;
use crate::progress::{drop_up_to, InflightsView, ProgressState, ProgressView};
use crate::progress_set::{lemma_distinct, ProgressSetView};
use crate::raft::{StateRole, INVALID_ID};
use crate::raft_log::RaftLogView;
use crate::raft_model::{conf_changes, RaftView, ReactionView};
use crate::storage::Storage;
use crate::util::{lemma_limited_prefix, limited, total_size, NO_LIMIT};
use vstd::prelude::*;

verus! {

// The log.
/// The term of an entry is the one that it holds.
pub proof fn law_term_is_that_of_the_entry<T: Storage>(log: RaftLogView<T>, idx: u64)
    requires
        log.wf(),
        log.store_agrees(),
        log.first() <= idx <= log.last(),
    ensures
        log.term(idx) == log.entry(idx).term,
{
    assert(idx < log.unstable.offset ==> log.store.spec_term(idx) == Ok::<u64, ErrorView>(
        log.entry(idx).term,
    ));
}

/// What is read from the log are its entries from `lo` on, in all that they hold: at least one,
/// none from `hi` on, and all of them if there is no limit. What was dropped cannot be read.
pub proof fn law_read_entries_are_of_the_log<T: Storage>(
    log: RaftLogView<T>,
    lo: u64,
    hi: u64,
    max: u64,
)
    requires
        log.wf(),
        log.store_agrees(),
        lo < hi <= log.last() + 1,
    ensures
        lo >= log.first() ==> (log.slice(lo, hi, max) matches Ok(es) && {
            &&& 0 < es.len() <= hi - lo
            &&& max == NO_LIMIT ==> es.len() == hi - lo
            &&& forall|i: int|
                0 <= i < es.len() ==> #[trigger] es[i] == log.entry((lo + i) as u64)
        }),
        lo < log.first() ==> log.slice(lo, hi, max) is Err,
{
    if lo >= log.first() {
        log.lemma_slice(lo, hi, max);
    }
}

/// What is handed out to be applied are the committed entries behind `since`, as they stand in
/// the log, in all that they hold, and all of them.
pub proof fn law_handed_out_entries_are_of_the_log<T: Storage>(log: RaftLogView<T>, since: u64)
    requires
        log.wf(),
        log.store_agrees(),
    ensures
        ({
            let from = if since + 1 > log.first() {
                since + 1
            } else {
                log.first()
            };
            &&& log.committed >= from ==> (log.next_since(since) matches Some(es) && es.len()
                == log.committed + 1 - from && forall|i: int|
                0 <= i < es.len() ==> #[trigger] es[i] == log.entry((from + i) as u64))
            &&& log.committed < from ==> log.next_since(since) is None
        }),
{
    let from = log.next_from(since);
    if log.committed >= from {
        log.lemma_slice(from as u64, (log.committed + 1) as u64, NO_LIMIT);
    }
}

/// The term is 0 outside the log, and, at the index before its first entry, that of the snapshot
/// that is to be saved, or what the store says.
pub proof fn law_term_around_the_log<T: Storage>(log: RaftLogView<T>, idx: u64)
    requires
        log.wf(),
    ensures
        idx > log.last() ==> log.term(idx) == 0,
        idx < log.first() - 1 ==> log.term(idx) == 0,
        idx == log.first() - 1 && log.unstable.snapshot is Some ==> log.term(idx)
            == log.unstable.snapshot->0.metadata.term,
        idx == log.first() - 1 && log.unstable.snapshot is None ==> log.store.spec_term(idx)
            == Ok::<u64, ErrorView>(log.term(idx)),
{
}

/// A batch that is cut to a size keeps its first entries, at least one, and as many as fit: what is
/// kept fits, if it is more than one, and one more would not.
pub proof fn law_limit_is_used(es: Seq<EntryView>, max: u64)
    requires
        es.len() > 0,
    ensures
        ({
            let kept = limited(es, max);
            let n = kept.len() as int;
            &&& 1 <= n <= es.len()
            &&& kept == es.take(n)
            &&& max == NO_LIMIT ==> kept == es
            &&& n > 1 && max != NO_LIMIT ==> total_size(kept) <= max
            &&& n < es.len() ==> total_size(es.take(n + 1)) > max
        }),
    decreases es.len(),
{
    lemma_limited_prefix(es, max);
    if !(max == NO_LIMIT || es.len() <= 1 || total_size(es) <= max) {
        let rest = es.drop_last();
        law_limit_is_used(rest, max);
        let n = limited(es, max).len() as int;
        if n == rest.len() {
            assert(es.take(n + 1) =~= es);
        } else {
            assert(es.take(n + 1) =~= rest.take(n + 1));
        }
    }
}

/// The size of a batch is the sum of the sizes of its entries.
pub proof fn law_size_is_a_sum(a: Seq<EntryView>, b: Seq<EntryView>, e: EntryView)
    ensures
        total_size(a + b) == total_size(a) + total_size(b),
        total_size(seq![e]) == entry_size(e),
    decreases b.len(),
{
    assert(seq![e].drop_last() =~= Seq::<EntryView>::empty());
    assert(total_size(Seq::<EntryView>::empty()) == 0);
    assert(seq![e].last() == e);
    if b.len() == 0 {
        assert(a + b =~= a);
    } else {
        law_size_is_a_sum(a, b.drop_last(), e);
        assert((a + b).drop_last() =~= a + b.drop_last());
    }
}

/// The snapshot of a log is the one that is to be saved, and that of the store if there is none.
pub proof fn law_snapshot_is_the_latest<T: Storage>(log: RaftLogView<T>)
    ensures
        log.unstable.snapshot is Some ==> log.snapshot() == Ok::<SnapshotView, ErrorView>(
            log.unstable.snapshot->0,
        ),
        log.unstable.snapshot is None ==> log.snapshot() == log.store.spec_snapshot(),
{
}

/// Whether the log has the first of `ents` up to the one at `i`, by their terms.
pub open spec fn has_all_up_to<T: Storage>(
    log: RaftLogView<T>,
    ents: Seq<EntryView>,
    i: int,
) -> bool {
    forall|j: int| 0 <= j <= i ==> log.term((#[trigger] ents[j]).index) == ents[j].term
}

proof fn lemma_agreeing_is_known<T: Storage>(log: RaftLogView<T>, ents: Seq<EntryView>)
    ensures
        0 <= log.agreeing(ents) <= ents.len(),
        forall|j: int|
            0 <= j < log.agreeing(ents) ==> log.term((#[trigger] ents[j]).index) == ents[j].term,
        log.agreeing(ents) < ents.len() ==> log.term(ents[log.agreeing(ents)].index)
            != ents[log.agreeing(ents)].term,
    decreases ents.len(),
{
    if ents.len() > 0 {
        let rest = ents.drop_last();
        lemma_agreeing_is_known(log, rest);
        let n = log.agreeing(rest);
        assert forall|j: int| 0 <= j < log.agreeing(ents) implies log.term(
            (#[trigger] ents[j]).index,
        ) == ents[j].term by {
            if j < rest.len() {
                assert(rest[j] == ents[j]);
            }
        }
        if n < rest.len() {
            assert(rest[n] == ents[n]);
        }
    }
}

/// A log that takes in the entries of a leader has then, from the first that it did not have on,
/// each of them at its index, in all that it holds, and ends with them. Those that it had, and
/// everything before them, stay as they were; if it had them all, the log stays as it was, and
/// nothing behind them goes.
pub proof fn law_taken_in_entries_are_the_leaders<T: Storage>(
    log: RaftLogView<T>,
    idx: u64,
    term: u64,
    committed: u64,
    ents: Seq<EntryView>,
)
    requires
        log.wf(),
        log.maybe_append_ok(idx, term, committed, ents),
        log.match_term(idx, term),
        log.first() - 1 <= idx,
        forall|i: int| 0 <= i < ents.len() ==> (#[trigger] ents[i]).index == idx + 1 + i,
    ensures
        ({
            let r = log.maybe_append(idx, term, committed, ents);
            &&& forall|i: int|
                0 <= i < ents.len() && !has_all_up_to(log, ents, i) ==> r.entry(
                    (#[trigger] ents[i]).index,
                ) == ents[i]
            &&& forall|i: int|
                0 <= i < ents.len() && has_all_up_to(log, ents, i) && ents[i].index <= log.last()
                    ==> r.entry((#[trigger] ents[i]).index) == log.entry(ents[i].index)
            &&& forall|k: u64| log.first() <= k <= idx ==> #[trigger] r.entry(k) == log.entry(k)
            &&& has_all_up_to(log, ents, ents.len() - 1) ==> r.unstable == log.unstable
            &&& !has_all_up_to(log, ents, ents.len() - 1) ==> r.last() == idx + ents.len()
            &&& r.store == log.store
            &&& r.applied == log.applied
        }),
{
    let n = log.agreeing(ents);
    lemma_agreeing_is_known(log, ents);
    let part = log.new_part(idx, ents);
    let r = log.maybe_append(idx, term, committed, ents);
    if n < ents.len() {
        assert(log.find_conflict(ents) == idx + 1 + n);
        assert(part =~= ents.skip(n));
        assert(part[0] == ents[n]);
        log.lemma_append_wf(part);
        assert(!has_all_up_to(log, ents, n)) by {
            if has_all_up_to(log, ents, n) {
                assert(log.term(ents[n].index) == ents[n].term);
            }
        }
        assert(!has_all_up_to(log, ents, ents.len() - 1)) by {
            if has_all_up_to(log, ents, ents.len() - 1) {
                assert(log.term(ents[n].index) == ents[n].term);
            }
        }
        assert forall|k: u64| log.first() <= k <= idx implies #[trigger] r.entry(k) == log.entry(
            k,
        ) by {
            log.lemma_append_agrees(part, k);
        }
    } else {
        assert(has_all_up_to(log, ents, ents.len() - 1));
    }
    assert forall|i: int| 0 <= i < ents.len() && !has_all_up_to(log, ents, i) implies r.entry(
        (#[trigger] ents[i]).index,
    ) == ents[i] by {
        assert(i >= n);
        log.lemma_append_has(part, i - n);
        assert(part[i - n] == ents[i]);
    }
    assert forall|i: int|
        0 <= i < ents.len() && has_all_up_to(log, ents, i) && ents[i].index
            <= log.last() implies r.entry((#[trigger] ents[i]).index) == log.entry(
        ents[i].index,
    ) by {
        if n < ents.len() {
            assert(i < n) by {
                if i >= n {
                    assert(log.term(ents[n].index) == ents[n].term);
                }
            }
            log.lemma_append_agrees(part, ents[i].index);
        }
    }
}

/// A log takes in nothing from a leader whose entry before them it has not.
pub proof fn law_nothing_is_taken_in_without_a_match<T: Storage>(
    log: RaftLogView<T>,
    idx: u64,
    term: u64,
    committed: u64,
    ents: Seq<EntryView>,
)
    requires
        log.term(idx) != term,
    ensures
        log.maybe_append(idx, term, committed, ents) == log,
{
}

/// What was saved is no longer to be saved: the entries up to `idx` go, and those behind it stay,
/// each at its index, if the one at `idx` is of that term. Otherwise nothing changes.
pub proof fn law_saved_entries_go<T: Storage>(log: RaftLogView<T>, idx: u64, term: u64)
    requires
        idx < u64::MAX,
    ensures
        ({
            let u = log.unstable;
            let r = u.stable_to(idx, term);
            let known = u.offset <= idx < u.offset + u.entries.len() && u.entries[idx
                - u.offset].term == term;
            &&& r.snapshot == u.snapshot
            &&& !known ==> r == u
            &&& known ==> {
                &&& r.offset == idx + 1
                &&& r.entries.len() == u.offset + u.entries.len() - (idx + 1)
                &&& forall|i: int|
                    0 <= i < r.entries.len() ==> #[trigger] r.entries[i] == u.entries[idx + 1
                        - u.offset + i]
            }
        }),
{
}

// Followers.
/// A follower follows the sender of entries of its term, and answers it. Entries that begin before
/// what is committed are answered with what is committed; those whose entry before them is not in
/// the log are refused, with the index that was named and the end of the log; all others are taken
/// in, and answered with the index of the last of them. Nothing else changes.
pub proof fn law_follower_answers_entries<T: Storage>(s: RaftView<T>, m: MessageView)
    requires
        s.state == StateRole::Follower,
        m.msg_type == MessageType::MsgAppend,
        m.term == s.term,
    ensures
        ({
            let old = m.index < s.raft_log.committed;
            let fits = s.raft_log.term(m.index) == m.log_term;
            s.step(m) == (
                RaftView {
                    leader_id: m.from,
                    election_elapsed: 0,
                    raft_log: if !old && fits {
                        s.raft_log.maybe_append(m.index, m.log_term, m.commit, m.entries)
                    } else {
                        s.raft_log
                    },
                    msgs: s.msgs.push(
                        MessageView {
                            msg_type: MessageType::MsgAppendResponse,
                            from: s.id,
                            to: m.from,
                            term: s.term,
                            index: if old {
                                s.raft_log.committed
                            } else if fits {
                                (m.index + m.entries.len()) as u64
                            } else {
                                m.index
                            },
                            reject: !old && !fits,
                            reject_hint: if !old && !fits {
                                s.raft_log.last() as u64
                            } else {
                                0
                            },
                            ..MessageView::empty()
                        },
                    ),
                    ..s
                },
                Ok::<(), ErrorView>(()),
            )
        }),
{
}

/// A follower follows the sender of a heartbeat of its term, commits as far as it says, and
/// answers it with its context. Nothing else changes; no entry does.
pub proof fn law_follower_answers_heartbeat<T: Storage>(s: RaftView<T>, m: MessageView)
    requires
        s.state == StateRole::Follower,
        m.msg_type == MessageType::MsgHeartbeat,
        m.term == s.term,
    ensures
        s.step(m) == (
            RaftView {
                leader_id: m.from,
                election_elapsed: 0,
                raft_log: RaftLogView {
                    committed: if m.commit > s.raft_log.committed {
                        m.commit
                    } else {
                        s.raft_log.committed
                    },
                    ..s.raft_log
                },
                msgs: s.msgs.push(
                    MessageView {
                        msg_type: MessageType::MsgHeartbeatResponse,
                        from: s.id,
                        to: m.from,
                        term: s.term,
                        context: m.context,
                        ..MessageView::empty()
                    },
                ),
                ..s
            },
            Ok::<(), ErrorView>(()),
        ),
{
}

/// A follower that knows its leader passes proposals, read requests and transfers on to it, as
/// they came but for sender and receiver. One that knows none drops proposals, and ignores the
/// others.
pub proof fn law_follower_passes_on<T: Storage>(s: RaftView<T>, m: MessageView)
    requires
        s.state == StateRole::Follower,
        m.msg_type == MessageType::MsgPropose || m.msg_type == MessageType::MsgReadIndex
            || m.msg_type == MessageType::MsgTransferLeader,
        m.term == 0,
    ensures
        s.leader_id == INVALID_ID && m.msg_type == MessageType::MsgPropose ==> s.step(m) == (
            s,
            Err::<(), ErrorView>(ErrorView::ProposalDropped),
        ),
        s.leader_id == INVALID_ID && m.msg_type != MessageType::MsgPropose ==> s.step(m) == (
            s,
            Ok::<(), ErrorView>(()),
        ),
        s.leader_id != INVALID_ID ==> s.step(m) == (
            RaftView {
                msgs: s.msgs.push(
                    MessageView {
                        from: s.id,
                        to: s.leader_id,
                        term: if m.msg_type == MessageType::MsgTransferLeader {
                            s.term
                        } else {
                            0
                        },
                        ..m
                    },
                ),
                ..s
            },
            Ok::<(), ErrorView>(()),
        ),
{
}

/// A follower that takes in the entries of a message has then each of them that it did not have, at
/// its index and in all that it holds; those that it had are the ones that it had. It has committed
/// as far as the leader says, but no further than those entries, and nothing less than before.
pub proof fn law_follower_has_the_sent_entries<T: Storage>(s: RaftView<T>, m: MessageView, i: int)
    requires
        s.wf(),
        s.step_ok(m),
        s.state == StateRole::Follower,
        m.msg_type == MessageType::MsgAppend,
        m.term == s.term,
        m.index >= s.raft_log.committed,
        s.raft_log.term(m.index) == m.log_term,
        forall|k: int|
            0 <= k < m.entries.len() ==> (#[trigger] m.entries[k]).index == m.index + 1 + k,
        0 <= i < m.entries.len(),
    ensures
        ({
            let before = s.raft_log;
            let log = s.step(m).0.raft_log;
            let at = m.entries[i].index;
            let end = m.index + m.entries.len();
            let upto = if m.commit < end {
                m.commit as int
            } else {
                end
            };
            &&& !has_all_up_to(before, m.entries, i) ==> log.entry(at) == m.entries[i]
            &&& has_all_up_to(before, m.entries, i) && at <= before.last() ==> log.entry(at)
                == before.entry(at)
            &&& m.entries[i].term != 0 ==> at <= log.last()
            &&& log.committed == (if upto > before.committed {
                upto
            } else {
                before.committed as int
            })
        }),
{
    law_follower_answers_entries(s, m);
    law_taken_in_entries_are_the_leaders(
        s.raft_log,
        m.index,
        m.log_term,
        m.commit,
        m.entries,
    );
    assert(m.entries[i].index == m.index + 1 + i);
    if has_all_up_to(s.raft_log, m.entries, i) {
        assert(s.raft_log.term(m.entries[i].index) == m.entries[i].term);
        if m.entries[i].term != 0 && has_all_up_to(
            s.raft_log,
            m.entries,
            m.entries.len() - 1,
        ) {
            assert(m.entries[i].index <= s.raft_log.last());
        }
    }
}

/// Entries that are put into the log stand there from the index of the first of them on, each in
/// all that it holds; what stood there goes, and what stood before stays.
pub proof fn law_put_in_entries_are_there<T: Storage>(
    log: RaftLogView<T>,
    ents: Seq<EntryView>,
    i: int,
)
    requires
        log.wf(),
        log.append_ok(ents),
        0 <= i < ents.len(),
    ensures
        log.append(ents).entry((ents[0].index + i) as u64) == ents[i],
        log.append(ents).last() == ents[0].index + ents.len() - 1,
        log.append(ents).committed == log.committed,
        log.append(ents).applied == log.applied,
        log.append(ents).store == log.store,
        forall|k: u64|
            log.first() <= k < ents[0].index ==> #[trigger] log.append(ents).entry(k) == log.entry(
                k,
            ),
{
    log.lemma_append_wf(ents);
    let r = log.append(ents);
    let after = ents[0].index;
    let n = after - log.unstable.offset;
    if n > 0 {
        assert(r.unstable.entries[n + i] == ents[i]);
    }
    assert forall|k: u64| log.first() <= k < ents[0].index implies #[trigger] r.entry(k)
        == log.entry(k) by {
        log.lemma_append_agrees(ents, k);
    }
}

// Proposals.
/// An entry that is put in stands in the log with all that it holds, in this term and at its
/// index.
pub proof fn lemma_appended<T: Storage>(s: RaftView<T>, es: Seq<EntryView>, i: int)
    requires
        s.raft_log.wf(),
        s.append_entry_ok(es),
        0 <= i < es.len(),
    ensures
        s.append_entry(es).raft_log.entry((s.raft_log.last() + 1 + i) as u64) == (EntryView {
            term: s.term,
            index: (s.raft_log.last() + 1 + i) as u64,
            ..es[i]
        }),
{
    let ents = s.numbered(es);
    assert forall|k: int| 0 <= k < ents.len() implies (#[trigger] ents[k]).index < u64::MAX by {}
    s.raft_log.lemma_append_has(ents, i);
}

/// A leader that has no vote, or is handing over, drops proposals; nothing changes.
pub proof fn law_proposal_is_dropped<T: Storage>(s: RaftView<T>, m: MessageView)
    requires
        s.state == StateRole::Leader,
        !s.prs().voter_ids().contains(s.id) || s.lead_transferee is Some,
        m.msg_type == MessageType::MsgPropose,
        m.term == 0 || m.term == s.term,
    ensures
        s.step(m) == (s, Err::<(), ErrorView>(ErrorView::ProposalDropped)),
{
}

/// The leader has what it puts in: its own progress goes to the end of the log, and is to go on
/// from there; that of the others stays. What is committed is what a quorum has then.
pub proof fn law_leader_has_its_own_entries<T: Storage>(
    s: RaftView<T>,
    es: Seq<EntryView>,
    other: u64,
)
    requires
        s.wf(),
        s.append_entry_ok(es),
        s.prs().has(other),
    ensures
        ({
            let r = s.append_entry(es);
            let p = s.prs().at(s.id);
            let q = r.prs().at(s.id);
            let last = s.raft_log.last() + es.len();
            let n = r.prs().maximal_committed_index();
            &&& r.raft_log.last() == last
            &&& q.matched == (if p.matched < last {
                last
            } else {
                p.matched as int
            })
            &&& q.next_idx == (if p.next_idx < last + 1 {
                last + 1
            } else {
                p.next_idx as int
            })
            &&& q.state == p.state
            &&& r.prs().ids == s.prs().ids
            &&& other != s.id ==> r.prs().at(other) == s.prs().at(other)
            &&& r.raft_log.committed == (if n > s.raft_log.committed && r.raft_log.term(n)
                == s.term {
                n
            } else {
                s.raft_log.committed
            })
            &&& r == (RaftView { raft_log: r.raft_log, progress: r.progress, ..s })
        }),
{
    let ents = s.numbered(es);
    let log = s.raft_log;
    assert forall|k: int| 0 <= k < ents.len() implies (#[trigger] ents[k]).index < u64::MAX by {}
    log.lemma_append_wf(ents);
    let k = s.prs().ids.index_of(s.id);
    let j = s.prs().ids.index_of(other);
    assert(s.prs().ids[k] == s.id);
    assert(s.prs().ids[j] == other);
    let w = s.with_entries(es);
    let n = w.prs().maximal_committed_index();
    assert(w.raft_log.term(n) == s.append_entry(es).raft_log.term(n));
}

/// A progress that is set from outside puts in a node that has that much and is to be sent that
/// index next, as a voter or as a learner.
pub proof fn law_progress_is_put_in<T: Storage>(
    s: RaftView<T>,
    id: u64,
    matched: u64,
    next_idx: u64,
    is_learner: bool,
)
    requires
        s.wf(),
    ensures
        ({
            let r = s.set_progress(id, matched, next_idx, is_learner);
            &&& r == (RaftView { progress: r.progress, ..s })
            &&& r.prs().has(id)
            &&& r.prs().at(id) == (ProgressView {
                matched,
                next_idx,
                state: ProgressState::Probe,
                paused: false,
                pending_snapshot: 0,
                recent_active: false,
                ins: InflightsView { buffer: Seq::empty(), cap: s.max_inflight },
            })
            &&& is_learner ==> r.prs().configuration.learners
                == s.prs().configuration.learners.push(id) && r.prs().configuration.voters
                == s.prs().configuration.voters
            &&& !is_learner ==> r.prs().configuration.voters == s.prs().configuration.voters.push(
                id,
            ) && r.prs().configuration.learners == s.prs().configuration.learners
        }),
{
    let p = ProgressView { matched, ..ProgressView::new(next_idx, s.max_inflight) };
    s.prs().lemma_put(id, p);
    assert(s.prs().put(id, p).ids.contains(id));
}

/// A leader that takes proposals puts the proposed entries in behind its log, in their order, in
/// its term: each holds what was proposed, unless it is a configuration change that has to wait,
/// for which an empty entry stands. What was in the log stays. The leader itself has them then, and
/// sends everyone what is due with them in the log.
pub proof fn law_proposal_is_put_in<T: Storage>(s: RaftView<T>, m: MessageView, i: int)
    requires
        s.wf(),
        s.step_ok(m),
        s.state == StateRole::Leader,
        s.prs().voter_ids().contains(s.id),
        s.lead_transferee is None,
        m.msg_type == MessageType::MsgPropose,
        m.term == 0 || m.term == s.term,
        0 <= i < m.entries.len(),
    ensures
        ({
            let r = s.step(m).0;
            let at = (s.raft_log.last() + 1 + i) as u64;
            let put = r.raft_log.entry(at);
            let given = EntryView { term: s.term, index: at, ..m.entries[i] };
            let empty = EntryView {
                entry_type: EntryType::EntryNormal,
                term: s.term,
                index: at,
                data: Seq::empty(),
                context: Seq::empty(),
            };
            &&& s.step(m).1 is Ok
            &&& s.raft_log.extends(r.raft_log)
            &&& r.raft_log.last() == s.raft_log.last() + m.entries.len()
            &&& m.entries[i].entry_type != EntryType::EntryConfChange ==> put == given
            &&& m.entries[i].entry_type == EntryType::EntryConfChange ==> put == (
            if s.raft_log.applied > s.pending_conf_index && s.pending_membership_change is None
                && conf_changes(m.entries.take(i)) == 0 {
                given
            } else {
                empty
            })
            &&& r.prs().has(s.id)
            &&& r.prs().at(s.id).matched >= r.raft_log.last()
            &&& exists|e: RaftView<T>|
                r == #[trigger] e.bcast_append() && e.msgs == s.msgs && e.raft_log == r.raft_log
        }),
{
    let es = m.entries;
    let a = s.admitting(es);
    let put = s.admitted(es).0;
    s.lemma_admitted_len(es);
    lemma_admitted_entry(s, es, i);
    lemma_appended(a, put, i);
    a.lemma_append_entry(put);
    let e = a.append_entry(put);
    e.lemma_bcast_append();
    s.lemma_step_leader(m);
    lemma_broadcast_keeps_known(e);
    let k = s.prs().ids.index_of(s.id);
    assert(s.prs().ids[k] == s.id);
    assert(e.prs().ids == s.prs().ids);
}

proof fn lemma_admitted_entry<T: Storage>(s: RaftView<T>, es: Seq<EntryView>, i: int)
    requires
        s.raft_log.wf(),
        s.raft_log.last() + es.len() < u64::MAX,
        0 <= i < es.len(),
    ensures
        ({
            let waits = s.raft_log.applied <= s.pending_conf_index
                || s.pending_membership_change is Some || conf_changes(es.take(i)) > 0;
            s.admitted(es).0[i] == (if es[i].entry_type == EntryType::EntryConfChange && waits {
                EntryView::empty()
            } else {
                es[i]
            })
        }),
        s.admitted(es).0.len() == es.len(),
    decreases es.len(),
{
    s.lemma_admitted_len(es);
    let rest = es.drop_last();
    s.lemma_admitted_len(rest);
    if i < rest.len() {
        lemma_admitted_entry(s, rest, i);
        assert(rest.take(i) =~= es.take(i));
        assert(s.admitted(es).0[i] == s.admitted(rest).0[i]);
    } else {
        assert(es.take(i) =~= rest);
        lemma_pending_after(s, rest);
    }
}

proof fn lemma_pending_after<T: Storage>(s: RaftView<T>, es: Seq<EntryView>)
    requires
        s.raft_log.wf(),
        s.raft_log.last() + es.len() < u64::MAX,
    ensures
        s.pending_membership_change is None ==> (s.admitted(es).1 >= s.raft_log.applied <==> (
        s.raft_log.applied <= s.pending_conf_index || conf_changes(es) > 0)),
        s.pending_membership_change is Some ==> s.admitted(es).1 == s.pending_conf_index,
    decreases es.len(),
{
    if es.len() > 0 {
        lemma_pending_after(s, es.drop_last());
    }
}

/// The configuration change that is let through is the one that further changes wait for: its
/// index is noted. A proposal without one leaves that index as it is.
pub proof fn law_admitted_change_is_noted<T: Storage>(s: RaftView<T>, es: Seq<EntryView>, i: int)
    requires
        s.raft_log.wf(),
        s.raft_log.last() + es.len() < u64::MAX,
        0 <= i < es.len(),
    ensures
        s.raft_log.applied > s.pending_conf_index && s.pending_membership_change is None
            && es[i].entry_type == EntryType::EntryConfChange && conf_changes(es.take(i)) == 0
            ==> s.admitting(es).pending_conf_index == s.raft_log.last() + 1 + i,
        conf_changes(es) == 0 || s.raft_log.applied <= s.pending_conf_index
            || s.pending_membership_change is Some ==> s.admitting(es).pending_conf_index
            == s.pending_conf_index,
    decreases es.len(),
{
    let rest = es.drop_last();
    lemma_pending_after(s, rest);
    if rest.len() > 0 {
        if i < rest.len() {
            law_admitted_change_is_noted(s, rest, i);
            assert(rest.take(i) =~= es.take(i));
            assert(rest[i] == es[i]);
        } else {
            law_admitted_change_is_noted(s, rest, 0);
        }
    }
    if i == rest.len() {
        assert(es.take(i) =~= rest);
    }
}

// What the leader learns of its peers.
/// Whether `b` says of each node the same as `a` on what it has, and on whether it is active.
pub open spec fn same_known(a: ProgressSetView, b: ProgressSetView) -> bool {
    &&& b.ids == a.ids
    &&& b.progress.len() == a.progress.len()
    &&& b.configuration == a.configuration
    &&& b.next_configuration == a.next_configuration
    &&& forall|i: int|
        0 <= i < a.progress.len() ==> (#[trigger] b.progress[i]).matched == a.progress[i].matched
            && b.progress[i].recent_active == a.progress[i].recent_active
}

proof fn lemma_broadcast_keeps_known<T: Storage>(s: RaftView<T>)
    ensures
        same_known(s.prs(), s.bcast_append().prs()),
{
}

proof fn lemma_send_keeps_known<T: Storage>(s: RaftView<T>, to: u64)
    requires
        s.prs().has(to),
        s.prs().ids.len() == s.prs().progress.len(),
    ensures
        same_known(s.prs(), s.send_append_to(to).prs()),
{
}

/// Sending to one node sends it what is due to it, and changes only its progress.
pub proof fn law_sending_to_one<T: Storage>(s: RaftView<T>, to: u64)
    requires
        s.progress is Some,
        s.prs().wf(),
        s.prs().has(to),
    ensures
        ({
            let r = s.send_append_to(to);
            let due = s.append_to(to, s.prs().at(to));
            &&& r == (RaftView { msgs: r.msgs, progress: r.progress, ..s })
            &&& r.msgs == (if due.1 is Some {
                s.msgs.push(MessageView { from: s.id, term: s.term, ..due.1->0 })
            } else {
                s.msgs
            })
            &&& r.prs().at(to) == due.0
            &&& r.prs().ids == s.prs().ids
            &&& forall|id: u64| #[trigger]
                s.prs().has(id) && id != to ==> r.prs().at(id) == s.prs().at(id)
        }),
{
    s.prs().lemma_set(to, s.append_to(to, s.prs().at(to)).0);
    let k = s.prs().ids.index_of(to);
    assert(s.prs().ids[k] == to);
}

/// What a peer acknowledges it has: after that it is known to have that much, or what it was
/// known to have if that is more, and counts as active. Of the other nodes nothing else is known
/// than before.
pub proof fn law_acknowledgement_is_noted<T: Storage>(s: RaftView<T>, m: MessageView, id: u64)
    requires
        s.wf(),
        s.step_ok(m),
        s.state == StateRole::Leader,
        m.msg_type == MessageType::MsgAppendResponse,
        !m.reject,
        m.term == 0 || m.term == s.term,
        s.prs().has(m.from),
        s.prs().has(id),
    ensures
        ({
            let r = s.step(m).0;
            let p = s.prs().at(id);
            let q = r.prs().at(id);
            &&& r.state == StateRole::Leader
            &&& r.term == s.term
            &&& r.prs().ids == s.prs().ids
            &&& id == m.from ==> q.recent_active && q.matched == (if p.matched < m.index {
                m.index
            } else {
                p.matched
            })
            &&& id != m.from ==> q.recent_active == p.recent_active && q.matched == p.matched
        }),
{
    let c = s.check_message(m);
    lemma_reaction_keeps_known(s, m);
    s.lemma_step_leader(m);
    let k = s.prs().ids.index_of(id);
    let f = s.prs().ids.index_of(m.from);
    assert(s.prs().ids[k] == id);
    assert(s.prs().ids[f] == m.from);
    assert(c.0.prs().ids == s.prs().ids);
    let r = s.step(m).0;
    assert(r.prs().progress[k].matched == c.0.prs().progress[k].matched);
}

proof fn lemma_reaction_keeps_known<T: Storage>(s: RaftView<T>, m: MessageView)
    requires
        s.wf(),
        s.step_ok(m),
        s.state == StateRole::Leader,
        m.msg_type == MessageType::MsgAppendResponse,
        m.term == 0 || m.term == s.term,
        s.prs().has(m.from),
    ensures
        same_known(s.check_message(m).0.prs(), s.step(m).0.prs()),
{
    let c = s.check_message(m);
    let f = s.prs().ids.index_of(m.from);
    assert(s.prs().ids[f] == m.from);
    assert(c.0.prs().ids == s.prs().ids);
    let a = c.0.react_commit(c.1);
    assert(same_known(c.0.prs(), a.prs())) by {
        if c.1.maybe_commit {
            lemma_broadcast_keeps_known(c.0.maybe_commit());
        }
    }
    assert(a.prs().ids == s.prs().ids);
    if c.0.react_sends(c.1) {
        lemma_send_keeps_known(a, m.from);
    }
}

/// What the leader makes of an acknowledgement that is news, before it sends anything: a peer that
/// was probed replicates from then on, right behind what it has; one that replicates has the
/// messages on their way counted off; one that waited for a snapshot, and has what that holds, is
/// probed behind it; one that does not have it yet goes on waiting.
pub proof fn law_acknowledged_peer_goes_on<T: Storage>(s: RaftView<T>, m: MessageView)
    requires
        s.wf(),
        s.prs().has(m.from),
        m.msg_type == MessageType::MsgAppendResponse,
        !m.reject,
        s.prs().at(m.from).matched < m.index < u64::MAX,
    ensures
        ({
            let (c, reaction) = s.check_message(m);
            let p = s.prs().at(m.from);
            let q = c.prs().at(m.from);
            let next = if p.next_idx < m.index + 1 {
                m.index + 1
            } else {
                p.next_idx as int
            };
            let waits = p.state == ProgressState::Snapshot && m.index < p.pending_snapshot;
            &&& c == (RaftView { msgs: c.msgs, progress: c.progress, ..s })
            &&& q.matched == m.index
            &&& q.recent_active
            &&& !q.paused
            &&& q.ins.cap == p.ins.cap
            &&& p.state == ProgressState::Probe ==> q.state == ProgressState::Replicate
                && q.next_idx == m.index + 1 && q.ins.buffer.len() == 0
            &&& p.state == ProgressState::Replicate ==> q.state == ProgressState::Replicate
                && q.next_idx == next && q.ins.buffer == drop_up_to(p.ins.buffer, m.index)
            &&& p.state == ProgressState::Snapshot && !waits ==> q.state == ProgressState::Probe
                && q.next_idx == m.index + 1 && q.pending_snapshot == 0
            &&& waits ==> q.state == ProgressState::Snapshot && q.pending_snapshot
                == p.pending_snapshot
            &&& reaction.maybe_commit == !waits
            &&& reaction.old_paused == p.is_paused()
            &&& !reaction.send_append
            &&& reaction.more_to_send.len() == 0
            &&& c.msgs == (if s.lead_transferee == Some(m.from) && m.index == s.raft_log.last() {
                s.msgs.push(
                    MessageView {
                        msg_type: MessageType::MsgTimeoutNow,
                        from: s.id,
                        to: m.from,
                        term: s.term,
                        ..MessageView::empty()
                    },
                )
            } else {
                s.msgs
            })
        }),
{
    let f = s.prs().ids.index_of(m.from);
    assert(s.prs().ids[f] == m.from);
    assert(s.raft_log.last_index() == s.raft_log.last());
}

/// Once an acknowledgement is noted, the leader commits what a quorum has then, and tells everyone
/// of it, unless that is skipped; if there is nothing to commit, a peer that was paused is sent
/// what is due to it. While the peer waits for a snapshot, nothing follows.
pub proof fn law_acknowledgement_may_commit<T: Storage>(s: RaftView<T>, m: MessageView)
    requires
        s.wf(),
        s.step_ok(m),
        s.state == StateRole::Leader,
        m.msg_type == MessageType::MsgAppendResponse,
        !m.reject,
        m.term == 0 || m.term == s.term,
        s.prs().has(m.from),
        s.prs().at(m.from).matched < m.index,
    ensures
        ({
            let c = s.check_message(m).0;
            let waits = s.prs().at(m.from).state == ProgressState::Snapshot && m.index
                < s.prs().at(m.from).pending_snapshot;
            let n = c.prs().maximal_committed_index();
            let more = n > s.raft_log.committed && s.raft_log.term(n) == s.term;
            let d = RaftView { raft_log: RaftLogView { committed: n, ..s.raft_log }, ..c };
            let told = !s.skip_bcast_commit || s.pending_conf_index >= s.raft_log.applied
                || s.pending_membership_change is Some;
            &&& waits ==> s.step(m).0 == c
            &&& !waits && more && told ==> s.step(m).0 == d.bcast_append()
            &&& !waits && more && !told ==> s.step(m).0 == d
            &&& !waits && !more && s.prs().at(m.from).is_paused() ==> s.step(m).0
                == c.send_append_to(m.from)
            &&& !waits && !more && !s.prs().at(m.from).is_paused() ==> s.step(m).0 == c
        }),
{
    law_acknowledged_peer_goes_on(s, m);
    let r = s.step(m).0;
    let c = s.check_message(m);
    let none = Seq::<MessageView>::empty();
    assert(c.1.more_to_send =~= none);
    assert forall|a: RaftView<T>| #[trigger] a.send_all(none) == a by {
        assert(a.send_all(none).msgs =~= a.msgs);
    }
}

/// An acknowledgement of what the peer is known to have already changes nothing but that it counts
/// as active, and that everything up to there counts as sent.
pub proof fn law_old_acknowledgement_changes_nothing<T: Storage>(s: RaftView<T>, m: MessageView)
    requires
        s.wf(),
        s.state == StateRole::Leader,
        m.msg_type == MessageType::MsgAppendResponse,
        !m.reject,
        m.index < u64::MAX,
        m.term == 0 || m.term == s.term,
        s.prs().has(m.from),
        s.prs().at(m.from).matched >= m.index,
    ensures
        ({
            let r = s.step(m).0;
            let p = s.prs().at(m.from);
            &&& r == s.with_progress(m.from, r.prs().at(m.from))
            &&& r.prs().at(m.from) == (ProgressView {
                recent_active: true,
                next_idx: if p.next_idx < m.index + 1 {
                    (m.index + 1) as u64
                } else {
                    p.next_idx
                },
                ..p
            })
        }),
{
    let r = s.step(m).0;
    let f = s.prs().ids.index_of(m.from);
    assert(s.prs().ids[f] == m.from);
    let c = s.check_message(m);
    assert(c.1.more_to_send =~= Seq::<MessageView>::empty());
    assert(r.msgs =~= s.msgs);
}

/// A refusal that is not out of date moves the leader back: a peer that replicates is probed right
/// behind what it has; one that is probed is probed further back, at the end of its log or one
/// before what it refused. It is sent what is due to it then. A refusal that is out of date only
/// shows that the peer is active.
pub proof fn law_refusal_moves_the_leader_back<T: Storage>(s: RaftView<T>, m: MessageView)
    requires
        s.wf(),
        s.state == StateRole::Leader,
        m.msg_type == MessageType::MsgAppendResponse,
        m.reject,
        m.reject_hint < u64::MAX,
        m.term == 0 || m.term == s.term,
        s.prs().has(m.from),
    ensures
        ({
            let r = s.step(m).0;
            let p = s.prs().at(m.from);
            let replicates = p.state == ProgressState::Replicate;
            let counts = if replicates {
                m.index > p.matched
            } else {
                p.next_idx == m.index + 1
            };
            let back = if m.index < m.reject_hint + 1 {
                m.index as int
            } else {
                m.reject_hint + 1
            };
            &&& !counts ==> r == s.with_progress(
                m.from,
                ProgressView { recent_active: true, ..p },
            )
            &&& counts && replicates ==> r == s.with_progress(
                m.from,
                ProgressView {
                    state: ProgressState::Probe,
                    next_idx: (p.matched + 1) as u64,
                    recent_active: true,
                    paused: false,
                    pending_snapshot: 0,
                    ins: InflightsView { buffer: Seq::empty(), cap: p.ins.cap },
                    ..p
                },
            ).send_append_to(m.from)
            &&& counts && !replicates ==> r == s.with_progress(
                m.from,
                ProgressView {
                    next_idx: if back < 1 {
                        1
                    } else {
                        back as u64
                    },
                    recent_active: true,
                    paused: false,
                    ..p
                },
            ).send_append_to(m.from)
        }),
{
    let r = s.step(m).0;
    let f = s.prs().ids.index_of(m.from);
    assert(s.prs().ids[f] == m.from);
    assert(s.prs().ids.contains(m.from));
    assert(s.prs().at(m.from).wf());
    let c = s.check_message(m);
    let none = Seq::<MessageView>::empty();
    assert(c.1.more_to_send =~= none);
    assert forall|a: RaftView<T>| #[trigger] a.send_all(none) == a by {
        assert(a.send_all(none).msgs =~= a.msgs);
    }
}

/// An answer to a heartbeat shows that the peer is active, and lets entries be sent to it again:
/// of one that replicates with as many messages on their way as there may be, the oldest counts
/// as received. It is sent what is due to it if it is not known to have all of the log.
pub proof fn law_heartbeat_answer_resumes<T: Storage>(s: RaftView<T>, m: MessageView)
    requires
        s.wf(),
        s.state == StateRole::Leader,
        m.msg_type == MessageType::MsgHeartbeatResponse,
        m.context.len() == 0,
        m.term == 0 || m.term == s.term,
        s.prs().has(m.from),
    ensures
        ({
            let r = s.step(m).0;
            let p = s.prs().at(m.from);
            let full = p.state == ProgressState::Replicate && p.ins.buffer.len() >= p.ins.cap
                && p.ins.buffer.len() > 0;
            let q = ProgressView {
                recent_active: true,
                paused: false,
                ins: if full {
                    InflightsView {
                        buffer: drop_up_to(p.ins.buffer, p.ins.buffer[0]),
                        cap: p.ins.cap,
                    }
                } else {
                    p.ins
                },
                ..p
            };
            &&& p.matched < s.raft_log.last() ==> r == s.with_progress(m.from, q).send_append_to(
                m.from,
            )
            &&& p.matched >= s.raft_log.last() ==> r == s.with_progress(m.from, q)
        }),
{
    let f = s.prs().ids.index_of(m.from);
    assert(s.prs().ids[f] == m.from);
    let c = s.check_message(m);
    let none = Seq::<MessageView>::empty();
    assert(c.1.more_to_send =~= none);
    assert forall|a: RaftView<T>| #[trigger] a.send_all(none) == a by {
        assert(a.send_all(none).msgs =~= a.msgs);
    }
}

/// An answer to a heartbeat with a context does to the peer what one without does; the messages
/// that follow come before those that answer reads.
pub proof fn law_heartbeat_answer_resumes_with_context<T: Storage>(s: RaftView<T>, m: MessageView)
    requires
        s.wf(),
        s.state == StateRole::Leader,
        m.msg_type == MessageType::MsgHeartbeatResponse,
        m.term == 0 || m.term == s.term,
        s.prs().has(m.from),
    ensures
        ({
            let r = s.step(m).0;
            let plain = s.step(MessageView { context: Seq::empty(), ..m }).0;
            &&& r.msgs.len() >= plain.msgs.len()
            &&& r.msgs.take(plain.msgs.len() as int) == plain.msgs
            &&& r == (RaftView {
                msgs: r.msgs,
                read_only: r.read_only,
                read_states: r.read_states,
                ..plain
            })
        }),
{
    let p = MessageView { context: Seq::empty(), ..m };
    let c = s.check_message(m);
    let d = s.check_message(p);
    lemma_heartbeat_answers_alike(s, m);
    lemma_reacts_alike(d.0, c.0, m.from, c.1);
    assert(s.step(m).0 == c.0.react(m.from, c.1));
    assert(s.step(p).0 == d.0.react(m.from, d.1));
}

proof fn lemma_heartbeat_answers_alike<T: Storage>(s: RaftView<T>, m: MessageView)
    requires
        m.msg_type == MessageType::MsgHeartbeatResponse,
        s.prs().has(m.from),
    ensures
        ({
            let (c, r) = s.check_message(m);
            let (d, q) = s.check_message(MessageView { context: Seq::empty(), ..m });
            &&& c == (RaftView { read_only: c.read_only, read_states: c.read_states, ..d })
            &&& q == (ReactionView { more_to_send: Seq::empty(), ..r })
            &&& !r.maybe_commit
        }),
{
}

proof fn lemma_reacts_alike<T: Storage>(
    d: RaftView<T>,
    c: RaftView<T>,
    from: u64,
    r: ReactionView,
)
    requires
        c == (RaftView { read_only: c.read_only, read_states: c.read_states, ..d }),
        !r.maybe_commit,
    ensures
        ({
            let full = c.react(from, r);
            let plain = d.react(from, ReactionView { more_to_send: Seq::empty(), ..r });
            &&& full.msgs.len() >= plain.msgs.len()
            &&& full.msgs.take(plain.msgs.len() as int) == plain.msgs
            &&& full == (RaftView {
                msgs: full.msgs,
                read_only: full.read_only,
                read_states: full.read_states,
                ..plain
            })
        }),
{
    let x = if r.send_append {
        d.send_append_to(from)
    } else {
        d
    };
    let y = if r.send_append {
        c.send_append_to(from)
    } else {
        c
    };
    assert(c.append_to(from, c.prs().at(from)) == d.append_to(from, d.prs().at(from)));
    assert(y == RaftView { read_only: y.read_only, read_states: y.read_states, ..x });
    let none = Seq::<MessageView>::empty();
    assert(x.send_all(none).msgs =~= x.msgs);
    assert(y.send_all(r.more_to_send).msgs.take(x.msgs.len() as int) =~= x.msgs);
}

/// What a peer has is counted off from the messages on their way: from the oldest on, all go whose
/// last index it has, up to the first that it has not. The others stay, in their order.
pub proof fn law_window_is_counted_off(buffer: Seq<u64>, to: u64)
    ensures
        ({
            let rest = drop_up_to(buffer, to);
            &&& rest.len() <= buffer.len()
            &&& rest == buffer.skip(buffer.len() - rest.len())
            &&& rest.len() > 0 ==> rest[0] > to
            &&& forall|i: int| 0 <= i < buffer.len() - rest.len() ==> #[trigger] buffer[i] <= to
        }),
    decreases buffer.len(),
{
    if buffer.len() == 0 || to < buffer[0] {
        assert(buffer.skip(0) =~= buffer);
    } else {
        let less = buffer.skip(1);
        law_window_is_counted_off(less, to);
        let rest = drop_up_to(buffer, to);
        assert(less.skip(less.len() - rest.len()) =~= buffer.skip(buffer.len() - rest.len()));
        assert forall|i: int| 0 <= i < buffer.len() - rest.len() implies #[trigger] buffer[i]
            <= to by {
            if i > 0 {
                assert(buffer[i] == less[i - 1]);
            }
        }
    }
}

/// A peer that could not be reached, and replicated, is probed right behind what it has. For any
/// other nothing changes.
pub proof fn law_unreachable_peer_is_probed<T: Storage>(s: RaftView<T>, m: MessageView)
    requires
        s.wf(),
        s.state == StateRole::Leader,
        m.msg_type == MessageType::MsgUnreachable,
        m.term == 0 || m.term == s.term,
        s.prs().has(m.from),
    ensures
        ({
            let p = s.prs().at(m.from);
            s.step(m).0 == (if p.state == ProgressState::Replicate {
                s.with_progress(
                    m.from,
                    ProgressView {
                        state: ProgressState::Probe,
                        next_idx: (p.matched + 1) as u64,
                        paused: false,
                        pending_snapshot: 0,
                        ins: InflightsView { buffer: Seq::empty(), cap: p.ins.cap },
                        ..p
                    },
                )
            } else {
                s
            })
        }),
{
    let c = s.check_message(m);
    assert(c.1.more_to_send =~= Seq::<MessageView>::empty());
    assert(s.step(m).0.msgs =~= s.msgs);
}

/// What a node says that the leader does not know changes nothing.
pub proof fn law_strangers_are_ignored<T: Storage>(s: RaftView<T>, m: MessageView)
    requires
        s.state == StateRole::Leader,
        m.term == 0 || m.term == s.term,
        !s.prs().has(m.from),
        m.msg_type == MessageType::MsgAppendResponse || m.msg_type
            == MessageType::MsgHeartbeatResponse || m.msg_type == MessageType::MsgSnapStatus
            || m.msg_type == MessageType::MsgUnreachable || m.msg_type
            == MessageType::MsgTransferLeader,
    ensures
        s.step(m).0 == s,
{
    assert(s.step(m).0.msgs =~= s.msgs);
}

// Snapshots and transfers.
/// A peer of which it is reported that a snapshot arrived is probed behind what that holds, and
/// one that did not get it behind what it has; either way nothing is sent to it before it is heard
/// of again. For a peer that waits for no snapshot nothing changes.
pub proof fn law_snapshot_report_leads_to_probing<T: Storage>(s: RaftView<T>, m: MessageView)
    requires
        s.wf(),
        s.state == StateRole::Leader,
        m.msg_type == MessageType::MsgSnapStatus,
        m.term == 0 || m.term == s.term,
        s.prs().has(m.from),
    ensures
        ({
            let p = s.prs().at(m.from);
            let has = if !m.reject && p.pending_snapshot > p.matched {
                p.pending_snapshot
            } else {
                p.matched
            };
            s.step(m).0 == (if p.state == ProgressState::Snapshot {
                s.with_progress(
                    m.from,
                    ProgressView {
                        state: ProgressState::Probe,
                        next_idx: (has + 1) as u64,
                        paused: true,
                        pending_snapshot: 0,
                        ins: InflightsView { buffer: Seq::empty(), cap: p.ins.cap },
                        ..p
                    },
                )
            } else {
                s
            })
        }),
{
    let c = s.check_message(m);
    assert(c.1.more_to_send =~= Seq::<MessageView>::empty());
    assert(s.step(m).0.msgs =~= s.msgs);
}

/// A leader that is asked to hand over to another node notes that node, and starts its count of
/// ticks anew. A node that has all of the log it asks to stand for election at once; any other it
/// sends what is due to it. For a learner, and for the node that it is handing over to already,
/// nothing changes; to hand over to itself gives up what it was doing.
pub proof fn law_transfer_is_started<T: Storage>(s: RaftView<T>, m: MessageView)
    requires
        s.wf(),
        s.step_ok(m),
        s.state == StateRole::Leader,
        m.msg_type == MessageType::MsgTransferLeader,
        m.term == 0 || m.term == s.term,
        s.prs().has(m.from),
    ensures
        ({
            let r = s.step(m).0;
            let t = RaftView { election_elapsed: 0, lead_transferee: Some(m.from), ..s };
            let has_all = s.prs().at(m.from).matched == s.raft_log.last();
            let ignored = s.prs().is_learner(m.from) || s.lead_transferee == Some(m.from);
            &&& ignored ==> r == s
            &&& !ignored && m.from == s.id ==> r == (RaftView { lead_transferee: None, ..s })
            &&& !ignored && m.from != s.id && has_all ==> r == (RaftView {
                msgs: s.msgs.push(
                    MessageView {
                        msg_type: MessageType::MsgTimeoutNow,
                        from: s.id,
                        to: m.from,
                        term: s.term,
                        ..MessageView::empty()
                    },
                ),
                ..t
            })
            &&& !ignored && m.from != s.id && !has_all ==> r == t.send_append_to(m.from)
        }),
{
    let c = s.check_message(m);
    let none = Seq::<MessageView>::empty();
    assert(c.1.more_to_send =~= none);
    assert forall|a: RaftView<T>| #[trigger] a.send_all(none) == a by {
        assert(a.send_all(none).msgs =~= a.msgs);
    }
    if let Some(next) = s.prs().next_configuration {
        let all = s.prs().configuration.learners + next.learners;
        lemma_distinct(all);
        let now = s.prs().configuration.learners;
        if now.contains(m.from) {
            assert(all[now.index_of(m.from)] == m.from);
        }
        if next.learners.contains(m.from) {
            assert(all[now.len() + next.learners.index_of(m.from)] == m.from);
        }
        if all.contains(m.from) {
            let k = all.index_of(m.from);
            assert(k < now.len() ==> now[k] == m.from);
            assert(k >= now.len() ==> next.learners[k - now.len()] == m.from);
        }
    }
}

/// To set the progress of a node changes that of no other, and nothing else.
pub proof fn law_progress_is_set<T: Storage>(s: RaftView<T>, id: u64, p: ProgressView, other: u64)
    requires
        s.progress is Some,
        s.prs().wf(),
        s.prs().has(id),
        s.prs().has(other),
    ensures
        ({
            let r = s.with_progress(id, p);
            &&& r == (RaftView { progress: r.progress, ..s })
            &&& r.prs().ids == s.prs().ids
            &&& r.prs().configuration == s.prs().configuration
            &&& r.prs().next_configuration == s.prs().next_configuration
            &&& r.prs().at(other) == (if other == id {
                p
            } else {
                s.prs().at(other)
            })
        }),
{
    let k = s.prs().ids.index_of(id);
    let j = s.prs().ids.index_of(other);
    assert(s.prs().ids[k] == id);
    assert(s.prs().ids[j] == other);
}

// Commits.
/// A leader commits the greatest index that a quorum has, if the entry there is of its term and it
/// is more than before; otherwise it commits nothing. Nothing else changes.
pub proof fn law_what_a_quorum_has_is_committed<T: Storage>(s: RaftView<T>, n: u64)
    requires
        s.wf(),
        s.prs().has_voters(),
        s.prs().has_quorum(Set::new(|id: u64| s.prs().has(id) && s.prs().at(id).matched >= n)),
        forall|more: u64|
            more > n ==> !s.prs().has_quorum(
                #[trigger] s.prs().replicated_on(more),
            ),
    ensures
        s.prs().maximal_committed_index() == n,
        s.maybe_commit() == (if n > s.raft_log.committed && s.raft_log.term(n) == s.term {
            RaftView { raft_log: RaftLogView { committed: n, ..s.raft_log }, ..s }
        } else {
            s
        }),
{
    assert(s.prs().replicated_on(n) =~= Set::new(
        |id: u64| s.prs().has(id) && s.prs().at(id).matched >= n,
    ));
    assert(s.prs().is_quorum_index(n));
    s.prs().lemma_maximal();
    let k = s.prs().maximal_committed_index();
    assert(s.prs().is_quorum_index(k));
    if k > n {
        assert(!s.prs().has_quorum(s.prs().replicated_on(k)));
    }
    if k < n {
        assert(!s.prs().has_quorum(s.prs().replicated_on(n)));
    }
}

/// A node is known to have an index if and only if it has a progress that matches that far.
pub proof fn law_who_has_an_index(prs: ProgressSetView, n: u64, id: u64)
    ensures
        prs.replicated_on(n).contains(id) <==> prs.has(id) && prs.at(id).matched >= n,
{
}

/// A configuration change may be pending as long as the last one that was let through is not behind
/// what is applied, or a membership change is under way. While one may be, a new commit index is
/// sent to all at once, whatever the setting.
pub proof fn law_when_a_change_is_pending<T: Storage>(s: RaftView<T>)
    ensures
        s.has_pending_conf() <==> s.raft_log.applied <= s.pending_conf_index
            || s.pending_membership_change is Some,
        s.should_bcast_commit() <==> !s.skip_bcast_commit || s.raft_log.applied
            <= s.pending_conf_index || s.pending_membership_change is Some,
{
}

} // verus!
