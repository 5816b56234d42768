//! What holds of the messages that a node sends, whatever made it send them.
use crate::eraftpb::{MessageType, MessageView, SnapshotView};
use crate::errors::ErrorView;
use crate::progress::{ProgressState, ProgressView};
use crate::raft_log::{entries_ok, RaftLogView};
use crate::raft_model::RaftView;
use crate::storage::{MemStorage, Storage};
use crate::util::{lemma_limited_prefix, NO_LIMIT};
use vstd::prelude::*;

verus! {

/// A store in memory gives many entries as it gives them one by one.
pub proof fn law_memory_agrees(log: RaftLogView<MemStorage>)
    requires
        log.wf(),
    ensures
        log.store_agrees(),
{
    let base = log.store@.base();
    let kept = log.store@.entries;
    assert forall|idx: u64| log.first() <= idx < log.unstable.offset implies log.entry(idx)
        == kept[idx - base - 1] && idx - base - 1 < kept.len() by {
        let one = log.store.spec_entries(idx, (idx + 1) as u64, NO_LIMIT);
        assert(entries_ok(one));
        assert(one->Ok_0 == kept.subrange(idx - base - 1, idx - base));
    }
    assert forall|lo: u64, hi: u64, max: u64|
        log.first() <= lo < hi <= log.unstable.offset implies (#[trigger] log.store.spec_entries(
        lo,
        hi,
        max,
    ) matches Ok(es) ==> {
        &&& 0 < es.len() <= hi - lo
        &&& max == NO_LIMIT ==> es.len() == hi - lo
        &&& log.holds_from(es, lo)
    }) by {
        if let Ok(es) = log.store.spec_entries(lo, hi, max) {
            let range = kept.subrange(lo - base - 1, hi - base - 1);
            lemma_limited_prefix(range, max);
            assert forall|i: int| 0 <= i < es.len() implies #[trigger] es[i] == log.entry(
                (lo + i) as u64,
            ) by {
                assert(es[i] == range[i]);
                assert(log.entry((lo + i) as u64) == kept[lo + i - base - 1]);
            }
        }
    }
    assert forall|idx: u64| log.first() <= idx < log.unstable.offset implies (
    #[trigger] log.store.spec_term(idx)) == Ok::<u64, ErrorView>(log.entry(idx).term) by {
        assert(log.entry(idx) == kept[idx - base - 1]);
    }
}

/// The entries of a message to a peer are those of the log of the sender, in all that they hold,
/// from the one behind the index that the message names on; and that index is named with the
/// term that the log has there. This is of any message that the handling of another one sends.
pub proof fn law_sent_entries_are_of_the_log<T: Storage>(s: RaftView<T>, m: MessageView, i: int)
    requires
        s.wf(),
        s.step_ok(m),
        s.step(m).0.raft_log.store_agrees(),
        s.msgs.len() <= i < s.step(m).0.msgs.len(),
        s.step(m).0.msgs[i].msg_type == MessageType::MsgAppend,
    ensures
        ({
            let log = s.step(m).0.raft_log;
            let sent = s.step(m).0.msgs[i];
            &&& sent.log_term == log.term(sent.index)
            &&& forall|k: int|
                0 <= k < sent.entries.len() ==> #[trigger] sent.entries[k] == log.entry(
                    (sent.index + 1 + k) as u64,
                )
            &&& sent.entries.len() > 0 ==> sent.index + sent.entries.len() <= log.last()
        }),
{
    s.lemma_step(m);
    let sent = s.step(m).0.msgs[i];
    assert(s.step(m).0.tells(sent));
}

/// The snapshot of each message that is sent is the one of the log of the sender, its data and
/// all that goes with it.
pub proof fn law_sent_snapshot_is_of_the_log<T: Storage>(s: RaftView<T>, m: MessageView, i: int)
    requires
        s.wf(),
        s.step_ok(m),
        s.msgs.len() <= i < s.step(m).0.msgs.len(),
        s.step(m).0.msgs[i].msg_type == MessageType::MsgSnapshot,
    ensures
        s.step(m).0.raft_log.snapshot() == Ok::<SnapshotView, ErrorView>(
            s.step(m).0.msgs[i].snapshot,
        ),
{
    s.lemma_step(m);
    assert(s.step(m).0.tells(s.step(m).0.msgs[i]));
}

/// Each request for a vote or a pre-vote names the end of the log of the candidate, with the term
/// of the entry there. A vote is asked for in the term of the candidate, a pre-vote for the next.
pub proof fn law_vote_request_names_the_log_end<T: Storage>(s: RaftView<T>, m: MessageView, i: int)
    requires
        s.wf(),
        s.step_ok(m),
        s.msgs.len() <= i < s.step(m).0.msgs.len(),
    ensures
        ({
            let r = s.step(m).0;
            let sent = r.msgs[i];
            let last = r.raft_log.last();
            &&& sent.msg_type == MessageType::MsgRequestVote ==> sent.index == last
                && sent.log_term == r.raft_log.term(last as u64) && sent.term == r.term
            &&& sent.msg_type == MessageType::MsgRequestPreVote ==> sent.index == last
                && sent.log_term == r.raft_log.term(last as u64) && sent.term == r.term + 1
        }),
{
    s.lemma_step(m);
    assert(s.step(m).0.tells(s.step(m).0.msgs[i]));
}

/// No message calls anything committed that the sender has not committed.
pub proof fn law_sent_commit_is_committed<T: Storage>(s: RaftView<T>, m: MessageView, i: int)
    requires
        s.wf(),
        s.step_ok(m),
        s.msgs.len() <= i < s.step(m).0.msgs.len(),
        s.step(m).0.msgs[i].msg_type == MessageType::MsgAppend || s.step(m).0.msgs[i].msg_type
            == MessageType::MsgHeartbeat,
    ensures
        s.step(m).0.msgs[i].commit <= s.step(m).0.raft_log.committed,
{
    s.lemma_step(m);
    assert(s.step(m).0.tells(s.step(m).0.msgs[i]));
}

/// What a tick sends tells of the log what is in it: entries, snapshots, the end of the log, and
/// what is committed.
pub proof fn law_tick_tells_of_the_log<T: Storage>(s: RaftView<T>, timeout: usize, i: int)
    requires
        s.wf(),
        s.tick_ok(timeout),
        s.msgs.len() <= i < s.tick(timeout).0.msgs.len(),
    ensures
        ({
            let r = s.tick(timeout).0;
            let sent = r.msgs[i];
            let last = r.raft_log.last();
            &&& sent.from == s.id
            &&& sent.msg_type == MessageType::MsgAppend && r.raft_log.store_agrees()
                ==> sent.log_term == r.raft_log.term(sent.index) && forall|k: int|
                0 <= k < sent.entries.len() ==> #[trigger] sent.entries[k] == r.raft_log.entry(
                    (sent.index + 1 + k) as u64,
                )
            &&& sent.msg_type == MessageType::MsgSnapshot ==> r.raft_log.snapshot() == Ok::<
                SnapshotView,
                ErrorView,
            >(sent.snapshot)
            &&& sent.msg_type == MessageType::MsgRequestVote || sent.msg_type
                == MessageType::MsgRequestPreVote ==> sent.index == last && sent.log_term
                == r.raft_log.term(last as u64)
            &&& sent.msg_type == MessageType::MsgHeartbeat ==> sent.commit
                <= r.raft_log.committed
        }),
{
    crate::laws::law_tick_follows(s, timeout);
    let r = s.tick(timeout).0;
    assert(r.tells(r.msgs[i]));
}

/// What is sent to all other nodes are entries of the log of the sender, or its snapshot.
pub proof fn law_broadcast_tells_of_the_log<T: Storage>(s: RaftView<T>, i: int)
    requires
        s.raft_log.wf(),
        s.msgs.len() <= i < s.bcast_append().msgs.len(),
    ensures
        ({
            let sent = s.bcast_append().msgs[i];
            &&& sent.from == s.id
            &&& sent.term == s.term
            &&& sent.msg_type == MessageType::MsgAppend || sent.msg_type
                == MessageType::MsgSnapshot
            &&& sent.msg_type == MessageType::MsgAppend && s.raft_log.store_agrees()
                ==> forall|k: int|
                0 <= k < sent.entries.len() ==> #[trigger] sent.entries[k] == s.raft_log.entry(
                    (sent.index + 1 + k) as u64,
                )
            &&& sent.msg_type == MessageType::MsgSnapshot ==> s.raft_log.snapshot() == Ok::<
                SnapshotView,
                ErrorView,
            >(sent.snapshot)
        }),
{
    s.lemma_bcast_append();
    crate::laws::law_entries_go_to_peers(s, i);
    let r = s.bcast_append();
    let sent = r.msgs[i];
    assert(r.tells(sent));
    assert(s.same_entries(r));
    r.lemma_still_tells(s, sent);
}

/// Whether a peer is not to be sent entries: while a snapshot is on its way to it, while it is
/// probed and has not answered, or while as many messages are on their way as there may be.
pub proof fn law_when_a_peer_is_paused(p: ProgressView)
    ensures
        p.state == ProgressState::Snapshot ==> p.is_paused(),
        p.state == ProgressState::Probe ==> p.is_paused() == p.paused,
        p.state == ProgressState::Replicate ==> p.is_paused() == (p.ins.buffer.len()
            >= p.ins.cap),
{
}

/// A peer that is not paused, and needs nothing that the log has dropped, is sent what follows:
/// the message names the index before the next one that the peer needs, with its term, and all
/// that is committed. It has entries if there are any, and all of them if there is no limit.
pub proof fn law_peer_is_sent_what_it_needs<T: Storage>(s: RaftView<T>, to: u64, p: ProgressView)
    requires
        s.raft_log.wf(),
        s.raft_log.store_agrees(),
        !p.is_paused(),
        p.next_idx >= s.raft_log.first(),
    ensures
        s.append_to(to, p).1 matches Some(m) && {
            &&& m.msg_type == MessageType::MsgAppend
            &&& m.to == to
            &&& m.index == p.next_idx - 1
            &&& m.log_term == s.raft_log.term((p.next_idx - 1) as u64)
            &&& m.commit == s.raft_log.committed
            &&& !m.reject
            &&& p.next_idx <= s.raft_log.last() ==> m.entries.len() > 0
            &&& p.next_idx > s.raft_log.last() ==> m.entries.len() == 0
            &&& p.next_idx <= s.raft_log.last() && s.max_msg_size == NO_LIMIT
                ==> m.entries.len() == s.raft_log.last() + 1 - p.next_idx
            &&& forall|k: int|
                0 <= k < m.entries.len() ==> #[trigger] m.entries[k] == s.raft_log.entry(
                    (p.next_idx + k) as u64,
                )
        },
{
    let log = s.raft_log;
    if p.next_idx <= log.last() {
        log.lemma_slice(p.next_idx, (log.last() + 1) as u64, s.max_msg_size);
    }
}

/// What is known of a peer after entries were sent to it: that it has no more than before. A
/// peer that replicates counts as sent up to the last of them, and has one more message on its
/// way; one that is probed is paused. Without entries nothing changes.
pub proof fn law_progress_after_sending<T: Storage>(s: RaftView<T>, to: u64, p: ProgressView)
    requires
        s.append_to(to, p).1 matches Some(m) && m.msg_type == MessageType::MsgAppend,
    ensures
        ({
            let q = s.append_to(to, p).0;
            let es = s.append_to(to, p).1->0.entries;
            &&& q.matched == p.matched
            &&& q.state == p.state
            &&& q.recent_active == p.recent_active
            &&& q.pending_snapshot == p.pending_snapshot
            &&& es.len() == 0 ==> q == p
            &&& es.len() > 0 && p.state == ProgressState::Replicate ==> {
                &&& q.next_idx == (es.last().index + 1) as u64
                &&& q.ins.buffer == p.ins.buffer.push(es.last().index)
                &&& q.ins.cap == p.ins.cap
                &&& q.paused == p.paused
            }
            &&& es.len() > 0 && p.state != ProgressState::Replicate ==> {
                &&& q.paused
                &&& q.next_idx == p.next_idx
                &&& q.ins == p.ins
            }
        }),
{
}

/// A peer that needs what the log has dropped is sent the snapshot of the log, if it is active
/// and there is one. From then on nothing is sent to it until it has the snapshot. Otherwise
/// nothing is sent, and nothing changes.
pub proof fn law_lagging_peer_is_sent_the_snapshot<T: Storage>(
    s: RaftView<T>,
    to: u64,
    p: ProgressView,
)
    requires
        s.raft_log.wf(),
        !p.is_paused(),
        p.next_idx < s.raft_log.first(),
        p.next_idx <= s.raft_log.last(),
    ensures
        ({
            let (q, sent) = s.append_to(to, p);
            &&& p.recent_active ==> (s.raft_log.snapshot() matches Ok(snap) ==> {
                &&& sent matches Some(m) && m.msg_type == MessageType::MsgSnapshot && m.to == to
                    && m.snapshot == snap
                &&& q.state == ProgressState::Snapshot
                &&& q.pending_snapshot == snap.metadata.index
                &&& q.is_paused()
                &&& q.matched == p.matched
                &&& q.next_idx == p.next_idx
                &&& q.recent_active
                &&& q.ins.buffer.len() == 0
                &&& q.ins.cap == p.ins.cap
            })
            &&& !p.recent_active || s.raft_log.snapshot() is Err ==> q == p && sent is None
        }),
{
}

/// A peer that is paused is sent nothing, and nothing changes.
pub proof fn law_paused_peer_is_sent_nothing<T: Storage>(s: RaftView<T>, to: u64, p: ProgressView)
    requires
        p.is_paused(),
    ensures
        s.append_to(to, p) == (p, None::<MessageView>),
{
}

/// What is sent to all other nodes leaves out nobody but this one: each node gets what is due to
/// it, learners too, and only its own progress changes by that. Nothing else of the node changes.
pub proof fn law_broadcast_reaches_everyone<T: Storage>(s: RaftView<T>, k: int)
    requires
        s.progress is Some,
        s.prs().wf(),
        0 <= k < s.prs().ids.len(),
    ensures
        ({
            let r = s.bcast_append();
            let to = s.prs().ids[k];
            let due = s.append_to(to, s.prs().progress[k]);
            &&& r == (RaftView { msgs: r.msgs, progress: r.progress, ..s })
            &&& r.prs().ids == s.prs().ids
            &&& r.prs().configuration == s.prs().configuration
            &&& r.prs().next_configuration == s.prs().next_configuration
            &&& to == s.id ==> r.prs().progress[k] == s.prs().progress[k]
            &&& to != s.id ==> r.prs().progress[k] == due.0
            &&& to != s.id ==> (due.1 matches Some(m) ==> exists|i: int|
                s.msgs.len() <= i < r.msgs.len() && #[trigger] r.msgs[i] == (MessageView {
                    from: s.id,
                    term: s.term,
                    ..m
                }))
        }),
{
    let n = s.prs().ids.len() as int;
    let to = s.prs().ids[k];
    let r = s.bcast_append();
    if to != s.id {
        if let Some(m) = s.append_to(to, s.prs().progress[k]).1 {
            let j = lemma_append_goes_out(s, n, k);
            assert(r.msgs[s.msgs.len() + j] == s.append_msgs(n)[j]);
        }
    }
}

proof fn lemma_append_goes_out<T: Storage>(s: RaftView<T>, n: int, k: int) -> (j: int)
    requires
        0 <= k < n,
        s.prs().ids[k] != s.id,
        s.append_to(s.prs().ids[k], s.prs().progress[k]).1 is Some,
    ensures
        0 <= j < s.append_msgs(n).len(),
        s.append_msgs(n)[j] == (MessageView {
            from: s.id,
            term: s.term,
            ..s.append_to(s.prs().ids[k], s.prs().progress[k]).1->0
        }),
    decreases n,
{
    if k == n - 1 {
        s.append_msgs(n).len() - 1
    } else {
        let j = lemma_append_goes_out(s, n - 1, k);
        assert(s.append_msgs(n)[j] == s.append_msgs(n - 1)[j]);
        j
    }
}

/// A heartbeat goes to each other node, with the context that was given, and calls committed what
/// is committed and the node is known to have.
pub proof fn law_heartbeat_reaches_everyone<T: Storage>(
    s: RaftView<T>,
    ctx: Option<Seq<u8>>,
    k: int,
)
    requires
        0 <= k < s.prs().ids.len(),
        s.prs().ids[k] != s.id,
    ensures
        ({
            let r = s.bcast_heartbeat_with_ctx(ctx);
            let matched = s.prs().progress[k].matched;
            &&& r == (RaftView { msgs: r.msgs, ..s })
            &&& exists|i: int|
                s.msgs.len() <= i < r.msgs.len() && #[trigger] r.msgs[i] == (MessageView {
                    msg_type: MessageType::MsgHeartbeat,
                    from: s.id,
                    to: s.prs().ids[k],
                    term: s.term,
                    commit: if matched < s.raft_log.committed {
                        matched
                    } else {
                        s.raft_log.committed
                    },
                    context: if ctx is Some {
                        ctx->0
                    } else {
                        Seq::empty()
                    },
                    ..MessageView::empty()
                })
        }),
{
    let n = s.prs().ids.len() as int;
    let j = lemma_heartbeat_goes_out(s, ctx, n, k);
    let r = s.bcast_heartbeat_with_ctx(ctx);
    assert(r.msgs[s.msgs.len() + j] == s.heartbeat_msgs(ctx, n)[j]);
}

proof fn lemma_heartbeat_goes_out<T: Storage>(
    s: RaftView<T>,
    ctx: Option<Seq<u8>>,
    n: int,
    k: int,
) -> (j: int)
    requires
        0 <= k < n,
        s.prs().ids[k] != s.id,
    ensures
        0 <= j < s.heartbeat_msgs(ctx, n).len(),
        s.heartbeat_msgs(ctx, n)[j] == s.stamped(
            s.heartbeat_message(s.prs().ids[k], s.prs().progress[k], ctx),
        ),
    decreases n,
{
    if k == n - 1 {
        s.heartbeat_msgs(ctx, n).len() - 1
    } else {
        let j = lemma_heartbeat_goes_out(s, ctx, n - 1, k);
        assert(s.heartbeat_msgs(ctx, n)[j] == s.heartbeat_msgs(ctx, n - 1)[j]);
        j
    }
}

/// The heartbeats of a leader have the context of the read that came last, as long as one waits.
pub proof fn law_heartbeat_has_the_last_context<T: Storage>(s: RaftView<T>)
    ensures
        s.read_only.queue.len() == 0 ==> s.bcast_heartbeat() == s.bcast_heartbeat_with_ctx(None),
        s.read_only.queue.len() > 0 ==> s.bcast_heartbeat() == s.bcast_heartbeat_with_ctx(
            Some(s.read_only.queue.last()),
        ),
{
}

/// What is sent to all other nodes goes to each of them once, and not to this one.
pub proof fn law_broadcast_goes_to_each_once<T: Storage>(s: RaftView<T>, i: int, j: int)
    requires
        s.prs().wf(),
        s.msgs.len() <= i <= j < s.bcast_append().msgs.len(),
    ensures
        s.bcast_append().msgs[i].to != s.id,
        s.prs().has(s.bcast_append().msgs[i].to),
        i < j ==> s.bcast_append().msgs[i].to != s.bcast_append().msgs[j].to,
{
    let n = s.msgs.len();
    let a = lemma_append_receiver(s, s.prs().ids.len() as int, i - n);
    let b = lemma_append_receiver(s, s.prs().ids.len() as int, j - n);
    if i < j {
        lemma_append_order(s, s.prs().ids.len() as int, i - n, j - n);
    }
}

proof fn lemma_append_receiver<T: Storage>(s: RaftView<T>, n: int, i: int) -> (k: int)
    requires
        0 <= n <= s.prs().ids.len(),
        0 <= i < s.append_msgs(n).len(),
    ensures
        0 <= k < n,
        s.append_msgs(n)[i].to == s.prs().ids[k],
        s.prs().ids[k] != s.id,
    decreases n,
{
    if i < s.append_msgs(n - 1).len() {
        lemma_append_receiver(s, n - 1, i)
    } else {
        n - 1
    }
}

proof fn lemma_append_order<T: Storage>(s: RaftView<T>, n: int, i: int, j: int)
    requires
        s.prs().wf(),
        0 <= n <= s.prs().ids.len(),
        0 <= i < j < s.append_msgs(n).len(),
    ensures
        s.append_msgs(n)[i].to != s.append_msgs(n)[j].to,
    decreases n,
{
    if j < s.append_msgs(n - 1).len() {
        lemma_append_order(s, n - 1, i, j);
    } else {
        let k = lemma_append_receiver(s, n - 1, i);
        assert(s.append_msgs(n)[j].to == s.prs().ids[n - 1]);
    }
}

/// A heartbeat goes to each other node once, and not to this one.
pub proof fn law_heartbeat_goes_to_each_once<T: Storage>(
    s: RaftView<T>,
    ctx: Option<Seq<u8>>,
    i: int,
    j: int,
)
    requires
        s.prs().wf(),
        s.msgs.len() <= i <= j < s.bcast_heartbeat_with_ctx(ctx).msgs.len(),
    ensures
        ({
            let r = s.bcast_heartbeat_with_ctx(ctx);
            &&& r.msgs[i].to != s.id
            &&& s.prs().has(r.msgs[i].to)
            &&& r.msgs[i].msg_type == MessageType::MsgHeartbeat
            &&& i < j ==> r.msgs[i].to != r.msgs[j].to
        }),
{
    let n = s.msgs.len();
    let a = lemma_heartbeat_receiver(s, ctx, s.prs().ids.len() as int, i - n);
    let b = lemma_heartbeat_receiver(s, ctx, s.prs().ids.len() as int, j - n);
    if i < j {
        lemma_heartbeat_order(s, ctx, s.prs().ids.len() as int, i - n, j - n);
    }
}

proof fn lemma_heartbeat_receiver<T: Storage>(
    s: RaftView<T>,
    ctx: Option<Seq<u8>>,
    n: int,
    i: int,
) -> (k: int)
    requires
        0 <= n <= s.prs().ids.len(),
        0 <= i < s.heartbeat_msgs(ctx, n).len(),
    ensures
        0 <= k < n,
        s.heartbeat_msgs(ctx, n)[i].to == s.prs().ids[k],
        s.heartbeat_msgs(ctx, n)[i].msg_type == MessageType::MsgHeartbeat,
        s.prs().ids[k] != s.id,
    decreases n,
{
    if i < s.heartbeat_msgs(ctx, n - 1).len() {
        lemma_heartbeat_receiver(s, ctx, n - 1, i)
    } else {
        n - 1
    }
}

proof fn lemma_heartbeat_order<T: Storage>(
    s: RaftView<T>,
    ctx: Option<Seq<u8>>,
    n: int,
    i: int,
    j: int,
)
    requires
        s.prs().wf(),
        0 <= n <= s.prs().ids.len(),
        0 <= i < j < s.heartbeat_msgs(ctx, n).len(),
    ensures
        s.heartbeat_msgs(ctx, n)[i].to != s.heartbeat_msgs(ctx, n)[j].to,
    decreases n,
{
    if j < s.heartbeat_msgs(ctx, n - 1).len() {
        lemma_heartbeat_order(s, ctx, n - 1, i, j);
    } else {
        let k = lemma_heartbeat_receiver(s, ctx, n - 1, i);
        assert(s.heartbeat_msgs(ctx, n)[j].to == s.prs().ids[n - 1]);
    }
}

/// A message is sent as it is, behind the others, but from this node, and in its term unless it
/// belongs to an election, or is a proposal or a read request that is passed on.
pub proof fn law_message_is_sent<T: Storage>(s: RaftView<T>, m: MessageView)
    ensures
        ({
            let t = m.msg_type;
            let keeps = t == MessageType::MsgRequestVote || t == MessageType::MsgRequestVoteResponse
                || t == MessageType::MsgRequestPreVote || t
                == MessageType::MsgRequestPreVoteResponse || t == MessageType::MsgPropose || t
                == MessageType::MsgReadIndex;
            s.send(m) == (RaftView {
                msgs: s.msgs.push(
                    MessageView {
                        from: s.id,
                        term: if keeps {
                            m.term
                        } else {
                            s.term
                        },
                        ..m
                    },
                ),
                ..s
            })
        }),
{
}

} // verus!
