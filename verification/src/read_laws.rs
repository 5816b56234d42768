//! How reads are asked for, confirmed and answered.
use crate::election_laws::law_quorum_is_a_majority;
use crate::eraftpb::{MessageType, MessageView};
use crate::errors::ErrorView;
use crate::laws::{law_each_read_is_answered, law_read_answer_has_context};
use crate::progress_set::{count_in, ProgressSetView};
use crate::raft::{StateRole, INVALID_ID};
use crate::raft_model::{own_reads, read_response, remote_reads, RaftView};
use crate::read_only::{ReadIndexStatusView, ReadOnlyOption, ReadOnlyView, ReadStateView};
use crate::storage::Storage;
use vstd::prelude::*;

verus! {

/// Whether more than half of the voters of each configuration in force are in `set`.
pub open spec fn is_majority(prs: ProgressSetView, set: Set<u64>) -> bool {
    let now = prs.configuration.voters.to_set();
    &&& 2 * now.intersect(set).len() > now.len()
    &&& prs.next_configuration matches Some(next) ==> 2 * next.voters.to_set().intersect(set).len()
        > next.voters.to_set().len()
}

/// Whether a read that waits with context `ctx` would be confirmed by an answer of `from` to a
/// heartbeat of the node `to`: with those two, and the nodes that have answered before, there is
/// a majority.
pub open spec fn is_confirmed<T: Storage>(
    s: RaftView<T>,
    ctx: Seq<u8>,
    from: u64,
    to: u64,
) -> bool {
    let waiting = s.read_only.pending;
    waiting.contains_key(ctx) && is_majority(
        s.prs(),
        waiting[ctx].acks.union(set![from, to]),
    )
}

/// Whether `later` has more answers to reads than `s`: for this node, or in messages to others.
pub open spec fn answers_reads<T: Storage>(s: RaftView<T>, later: RaftView<T>) -> bool {
    ||| later.read_states != s.read_states
    ||| exists|i: int|
        s.msgs.len() <= i < later.msgs.len() && (#[trigger] later.msgs[i]).msg_type
            == MessageType::MsgReadIndexResp
}

proof fn lemma_empty_is_no_quorum(prs: ProgressSetView)
    ensures
        !prs.has_quorum(Set::empty()),
{
    lemma_count_none(prs.configuration.voters);
}

proof fn lemma_count_none(ids: Seq<u64>)
    ensures
        count_in(ids, Set::empty()) == 0,
    decreases ids.len(),
{
    if ids.len() > 0 {
        lemma_count_none(ids.drop_last());
    }
}

proof fn lemma_confirmed<T: Storage>(s: RaftView<T>, m: MessageView)
    requires
        s.wf(),
        s.prs().has(m.from),
    ensures
        ({
            let q = s.check_message(
                MessageView { msg_type: MessageType::MsgHeartbeatResponse, ..m },
            ).0.prs();
            q.has_quorum(s.read_only.acknowledged(m)) <==> is_confirmed(
                s,
                m.context,
                m.from,
                m.to,
            )
        }),
{
    let q = s.check_message(MessageView { msg_type: MessageType::MsgHeartbeatResponse, ..m }).0;
    let waiting = s.read_only.pending;
    if waiting.contains_key(m.context) {
        let acks = waiting[m.context].acks;
        assert(acks.insert(m.from).insert(m.to) =~= acks.union(set![m.from, m.to]));
        law_quorum_is_a_majority(s.prs(), acks.insert(m.from).insert(m.to));
    } else {
        lemma_empty_is_no_quorum(s.prs());
    }
    assert(q.prs().configuration == s.prs().configuration);
    assert(q.prs().next_configuration == s.prs().next_configuration);
}

proof fn lemma_unconfirmed<T: Storage>(s: RaftView<T>, m: MessageView)
    requires
        s.prs().has(m.from),
        s.state == StateRole::Leader,
        m.msg_type == MessageType::MsgHeartbeatResponse,
        m.term == 0 || m.term == s.term,
        m.context.len() == 0 || !s.check_message(m).0.prs().has_quorum(
            s.read_only.acknowledged(m),
        ),
    ensures
        !answers_reads(s, s.step(m).0),
        s.step(m).0.read_only.queue == s.read_only.queue,
{
    let c = s.check_message(m);
    let r = c.0.react(m.from, c.1);
    assert(s.step(m).0 == r);
    assert(c.1.more_to_send =~= Seq::<MessageView>::empty());
    assert(c.0.msgs == s.msgs);
    let sent = c.0.append_to(m.from, c.0.prs().at(m.from)).1;
    assert(sent is Some ==> sent->0.msg_type == MessageType::MsgAppend || sent->0.msg_type
        == MessageType::MsgSnapshot);
    if c.0.react_sends(c.1) && sent is Some {
        assert(r.msgs =~= s.msgs.push(c.0.stamped(sent->0)));
    } else {
        assert(r.msgs =~= s.msgs);
    }
}

/// A leader that asks its peers before it answers reads answers none on an answer to a heartbeat,
/// for itself or for others, and forgets none that waits, unless a majority of each configuration
/// in force confirms a read that waits: the sender, this node, and those that have confirmed that
/// read before.
pub proof fn law_reads_need_a_quorum<T: Storage>(s: RaftView<T>, m: MessageView)
    requires
        s.wf(),
        s.step_ok(m),
        s.state == StateRole::Leader,
        s.read_only.option == ReadOnlyOption::Safe,
        m.msg_type == MessageType::MsgHeartbeatResponse,
        m.term == 0 || m.term == s.term,
        m.to == s.id,
    ensures
        answers_reads(s, s.step(m).0) || s.step(m).0.read_only.queue != s.read_only.queue
            ==> s.prs().has(m.from) && m.context.len() > 0 && is_confirmed(
            s,
            m.context,
            m.from,
            s.id,
        ),
{
    if !s.prs().has(m.from) {
        assert(s.step(m).0.msgs =~= s.msgs);
    } else if !is_confirmed(s, m.context, m.from, s.id) || m.context.len() == 0 {
        lemma_confirmed(s, m);
        lemma_unconfirmed(s, m);
    }
}

/// The leader notes each node that confirms a read that waits, and no other. No other read changes,
/// and none leaves or joins the queue, as long as there is no majority.
pub proof fn law_confirmation_is_noted<T: Storage>(s: RaftView<T>, m: MessageView)
    requires
        s.wf(),
        s.step_ok(m),
        s.state == StateRole::Leader,
        s.read_only.option == ReadOnlyOption::Safe,
        m.msg_type == MessageType::MsgHeartbeatResponse,
        m.term == 0 || m.term == s.term,
        m.to == s.id,
        s.prs().has(m.from),
        m.context.len() > 0,
        !is_confirmed(s, m.context, m.from, s.id),
    ensures
        ({
            let now = s.step(m).0.read_only;
            let before = s.read_only;
            &&& now.option == before.option
            &&& now.queue == before.queue
            &&& now.pending.dom() == before.pending.dom()
            &&& forall|ctx: Seq<u8>| #[trigger]
                before.pending.contains_key(ctx) ==> {
                    &&& now.pending[ctx].req == before.pending[ctx].req
                    &&& now.pending[ctx].index == before.pending[ctx].index
                    &&& ctx == m.context ==> now.pending[ctx].acks
                        == before.pending[ctx].acks.insert(m.from)
                    &&& ctx != m.context ==> now.pending[ctx].acks == before.pending[ctx].acks
                }
        }),
{
    lemma_confirmed(s, m);
    let now = s.step(m).0.read_only;
    assert(now == s.read_only.recv_ack(m));
    assert(now.pending.dom() =~= s.read_only.pending.dom());
}

/// Once a majority confirms a read, that read and all that came before it are answered: those that
/// were made at this node with one more read state, those of other nodes with a message to them,
/// each with the index at which it was asked and with its context. They leave the queue, and those
/// that came later stay as they are.
pub proof fn law_confirmed_reads_are_answered<T: Storage>(s: RaftView<T>, m: MessageView, k: int)
    requires
        s.wf(),
        s.step_ok(m),
        s.state == StateRole::Leader,
        s.read_only.option == ReadOnlyOption::Safe,
        m.msg_type == MessageType::MsgHeartbeatResponse,
        m.term == 0 || m.term == s.term,
        m.to == s.id,
        s.prs().has(m.from),
        m.context.len() > 0,
        is_confirmed(s, m.context, m.from, s.id),
        0 <= k < s.read_only.queue.len(),
    ensures
        ({
            let r = s.step(m).0;
            let ctx = s.read_only.queue[k];
            let read = s.read_only.pending[ctx];
            let own = read.req.from == s.id || read.req.from == INVALID_ID;
            let last = s.read_only.queue.index_of(m.context);
            &&& 0 <= last < s.read_only.queue.len()
            &&& s.read_only.queue[last] == m.context
            &&& k <= last && own ==> exists|i: int|
                s.read_states.len() <= i < r.read_states.len() && #[trigger] r.read_states[i] == (
                ReadStateView { index: read.index, request_ctx: ctx })
            &&& k <= last && !own ==> exists|i: int|
                s.msgs.len() <= i < r.msgs.len() && #[trigger] r.msgs[i] == (MessageView {
                    msg_type: MessageType::MsgReadIndexResp,
                    from: s.id,
                    to: read.req.from,
                    term: s.term,
                    index: read.index,
                    entries: read.req.entries,
                    ..MessageView::empty()
                })
            &&& k <= last ==> !r.read_only.pending.contains_key(ctx)
            &&& r.read_only.queue == s.read_only.queue.skip(last + 1)
            &&& k > last ==> r.read_only.pending.contains_key(ctx) && r.read_only.pending[ctx]
                == read
        }),
{
    let r = s.step(m).0;
    let ctx = s.read_only.queue[k];
    let read = s.read_only.pending[ctx];
    let own = read.req.from == s.id || read.req.from == INVALID_ID;
    let last = s.read_only.queue.index_of(m.context);
    let queue = s.read_only.queue;
    lemma_confirmed(s, m);
    assert(queue.contains(m.context));
    assert(queue[last] == m.context);
    assert(queue.contains(ctx));
    assert(s.read_only.pending.contains_key(ctx));
    let acked = s.read_only.recv_ack(m);
    let rss = acked.answered(m.context);
    let c = s.check_message(m);
    assert(r.read_only == acked.advance(m.context));
    assert(r.read_states == s.read_states + own_reads(s.id, rss));
    let n = last + 1;
    if k <= last {
        assert(queue.take(n)[k] == ctx);
        assert(queue.take(n).to_set().contains(ctx));
        assert(rss[k] == acked.pending[ctx]);
        law_each_read_is_answered(s.id, rss, k);
        if own {
            let answer = ReadStateView { index: read.index, request_ctx: ctx };
            let j = own_reads(s.id, rss).index_of(answer);
            assert(own_reads(s.id, rss)[j] == answer);
            assert(r.read_states[s.read_states.len() + j] == answer);
        } else {
            let ms = remote_reads(s.id, rss);
            let j = choose|j: int|
                0 <= j < ms.len() && ms[j] == read_response(
                    read.req,
                    read.index,
                );
            let base = if c.0.react_sends(c.1) {
                c.0.send_append_to(m.from)
            } else {
                c.0
            };
            assert(r == base.send_all(ms));
            assert(r.msgs[base.msgs.len() + j] == base.stamped(ms[j]));
        }
    } else {
        if queue.take(n).to_set().contains(ctx) {
            let i = queue.take(n).index_of(ctx);
            assert(queue[i] == queue[k]);
        }
        assert(ctx != m.context);
    }
}

/// Each answer to a read that an answer to a heartbeat brings this node is to a read of its own
/// that waited, not later than the one that was confirmed, and has its context and the index at
/// which it was asked.
pub proof fn law_answered_reads_have_waited<T: Storage>(s: RaftView<T>, m: MessageView, i: int)
    requires
        s.wf(),
        s.step_ok(m),
        s.state == StateRole::Leader,
        m.msg_type == MessageType::MsgHeartbeatResponse,
        m.term == 0 || m.term == s.term,
        s.read_states.len() <= i < s.step(m).0.read_states.len(),
    ensures
        exists|k: int|
            {
                let read = s.read_only.pending[s.read_only.queue[k]];
                &&& 0 <= k <= s.read_only.queue.index_of(m.context)
                &&& (#[trigger] s.read_only.queue[k]) == s.step(m).0.read_states[i].request_ctx
                &&& s.step(m).0.read_states[i].index == read.index
                &&& read.req.from == s.id || read.req.from == INVALID_ID
            },
{
    let acked = s.read_only.recv_ack(m);
    let rss = acked.answered(m.context);
    let answer = s.step(m).0.read_states[i];
    let j = i - s.read_states.len();
    assert(s.step(m).0.read_states == s.read_states + own_reads(s.id, rss));
    assert(own_reads(s.id, rss)[j] == answer);
    law_read_answer_has_context(s.id, rss, j);
    let k = choose|k: int|
        0 <= k < rss.len() && own_reads(s.id, rss)[j].index == (#[trigger] rss[k]).index
            && own_reads(s.id, rss)[j].request_ctx == rss[k].req.entries[0].data && (
        rss[k].req.from == s.id || rss[k].req.from == INVALID_ID);
    let ctx = s.read_only.queue[k];
    assert(s.read_only.queue.contains(ctx));
    assert(s.read_only.pending.contains_key(ctx));
    assert(rss[k] == acked.pending[ctx]);
}

/// A leader that relies on its lease leaves the reads that wait alone when heartbeats are answered,
/// and so does an answer without a context.
pub proof fn law_lease_asks_nobody<T: Storage>(s: RaftView<T>, m: MessageView)
    requires
        s.wf(),
        s.state == StateRole::Leader,
        s.read_only.option == ReadOnlyOption::LeaseBased || m.context.len() == 0,
        m.msg_type == MessageType::MsgHeartbeatResponse,
        m.term == 0 || m.term == s.term,
    ensures
        s.step(m).0.read_only == s.read_only,
        s.step(m).0.read_states == s.read_states,
{
}

/// A leader that has committed an entry of its term answers a read at its commit index: at once,
/// with one more read state, if it is a majority by itself, or if it relies on its lease and the
/// read was made at this node; with a message to the node that made it, if it relies on its lease;
/// and otherwise it puts it into the queue, and asks all other nodes, with the context of the read.
pub proof fn law_read_request_is_handled<T: Storage>(s: RaftView<T>, m: MessageView)
    requires
        s.wf(),
        s.step_ok(m),
        s.state == StateRole::Leader,
        m.msg_type == MessageType::MsgReadIndex,
        m.term == 0 || m.term == s.term,
        s.raft_log.term(s.raft_log.committed) == s.term,
        m.entries.len() > 0,
    ensures
        ({
            let ctx = m.entries[0].data;
            let alone = is_majority(s.prs(), set![s.id]);
            let safe = s.read_only.option == ReadOnlyOption::Safe;
            let own = m.from == s.id || m.from == INVALID_ID;
            let r = s.step(m).0;
            &&& s.step(m).1 == Ok::<(), ErrorView>(())
            &&& alone || !safe && own ==> r == (RaftView {
                read_states: s.read_states.push(
                    ReadStateView { index: s.raft_log.committed, request_ctx: ctx },
                ),
                ..s
            })
            &&& !alone && !safe && !own ==> r == (RaftView {
                msgs: s.msgs.push(
                    MessageView {
                        msg_type: MessageType::MsgReadIndexResp,
                        from: s.id,
                        to: m.from,
                        term: s.term,
                        index: s.raft_log.committed,
                        entries: m.entries,
                        ..MessageView::empty()
                    },
                ),
                ..s
            })
            &&& !alone && safe && !s.read_only.pending.contains_key(ctx) ==> r == (RaftView {
                read_only: ReadOnlyView {
                    queue: s.read_only.queue.push(ctx),
                    pending: s.read_only.pending.insert(
                        ctx,
                        ReadIndexStatusView {
                            req: m,
                            index: s.raft_log.committed,
                            acks: Set::empty(),
                        },
                    ),
                    option: ReadOnlyOption::Safe,
                },
                ..s
            }).bcast_heartbeat_with_ctx(Some(ctx))
            &&& !alone && safe && s.read_only.pending.contains_key(ctx) ==> r
                == s.bcast_heartbeat_with_ctx(Some(ctx))
        }),
{
    assert(set![s.id] =~= Set::<u64>::empty().insert(s.id));
    law_quorum_is_a_majority(s.prs(), set![s.id]);
}

/// A follower hands out the answer to a read that the leader sends it, with its index and context.
/// What is no answer to one read is ignored.
pub proof fn law_read_answer_arrives<T: Storage>(s: RaftView<T>, m: MessageView)
    requires
        s.state == StateRole::Follower,
        m.msg_type == MessageType::MsgReadIndexResp,
        m.term == 0 || m.term == s.term,
    ensures
        m.entries.len() == 1 ==> s.step(m) == (
            RaftView {
                read_states: s.read_states.push(
                    ReadStateView { index: m.index, request_ctx: m.entries[0].data },
                ),
                ..s
            },
            Ok::<(), ErrorView>(()),
        ),
        m.entries.len() != 1 ==> s.step(m) == (s, Ok::<(), ErrorView>(())),
{
}

/// A leader answers reads on nothing but answers to heartbeats and read requests.
pub proof fn law_nothing_else_answers_reads<T: Storage>(s: RaftView<T>, m: MessageView)
    requires
        s.wf(),
        s.step_ok(m),
        s.state == StateRole::Leader,
        m.term == 0 || m.term == s.term,
        m.msg_type != MessageType::MsgHeartbeatResponse,
        m.msg_type != MessageType::MsgReadIndex,
    ensures
        s.step(m).0.read_states == s.read_states,
{
}

/// A leader ignores read requests as long as the last committed entry is not of its term.
pub proof fn law_read_is_ignored_before_the_first_commit<T: Storage>(s: RaftView<T>, m: MessageView)
    requires
        s.state == StateRole::Leader,
        m.msg_type == MessageType::MsgReadIndex,
        m.term == 0 || m.term == s.term,
        s.raft_log.term(s.raft_log.committed) != s.term,
    ensures
        s.step(m) == (s, Ok::<(), ErrorView>(())),
{
}

} // verus!
