//! Read requests that wait for a quorum of heartbeats.
use crate::collections::{
    acks_insert, acks_new, acks_union, reads_contains, reads_get_mut, reads_insert, reads_new,
    reads_remove, AckSet, PendingReads,
};
use crate::eraftpb::{bytes_equal, clone_bytes, Message, MessageView};
use std::collections::VecDeque;
use vstd::prelude::*;

verus! {

/// Determines the relative safety of and consistency of read only requests.
#[derive(Debug, PartialEq, Eq, Structural, Clone, Copy)]
pub enum ReadOnlyOption {
    /// Safe guarantees the linearizability of the read only request by
    /// communicating with the quorum. It is the default and suggested option.
    Safe,
    /// LeaseBased ensures linearizability of the read only request by
    /// relying on the leader lease. It can be affected by clock drift.
    LeaseBased,
}

impl Default for ReadOnlyOption {
    fn default() -> (r: ReadOnlyOption)
        ensures
            r == ReadOnlyOption::Safe,
    {
        ReadOnlyOption::Safe
    }
}

/// ReadState provides state for read only query.
/// It's caller's responsibility to send MsgReadIndex first before getting
/// this state from ready. It's also caller's duty to differentiate if this
/// state is what it requests through request_ctx, e.g. given a unique id as
/// request_ctx.
#[derive(Debug, PartialEq)]
pub struct ReadState {
    /// The index of the read state.
    pub index: u64,
    /// A datagram consisting of context about the request.
    pub request_ctx: Vec<u8>,
}

/// The view of a [`ReadState`].
#[verifier::ext_equal]
pub struct ReadStateView {
    /// The index of the read state.
    pub index: u64,
    /// The context of the request.
    pub request_ctx: Seq<u8>,
}

impl View for ReadState {
    type V = ReadStateView;

    open spec fn view(&self) -> ReadStateView {
        ReadStateView { index: self.index, request_ctx: self.request_ctx@ }
    }
}

impl Default for ReadState {
    fn default() -> (r: ReadState)
        ensures
            r@ == (ReadStateView { index: 0, request_ctx: Seq::empty() }),
    {
        ReadState { index: 0, request_ctx: Vec::new() }
    }
}

impl Clone for ReadState {
    fn clone(&self) -> (r: Self)
        ensures
            r@ == self@,
    {
        ReadState { index: self.index, request_ctx: clone_bytes(&self.request_ctx) }
    }
}

/// The views of a sequence of read states.
pub open spec fn read_states_view(s: Seq<ReadState>) -> Seq<ReadStateView> {
    s.map_values(|r: ReadState| r@)
}

/// Returns a copy of `rs`.
pub fn clone_read_states(rs: &Vec<ReadState>) -> (r: Vec<ReadState>)
    ensures
        read_states_view(r@) == read_states_view(rs@),
{
    let mut r: Vec<ReadState> = Vec::new();
    let mut i: usize = 0;
    while i < rs.len()
        invariant
            i <= rs.len(),
            r.len() == i,
            forall|k: int| 0 <= k < i ==> (#[trigger] r@[k])@ == rs@[k]@,
        decreases rs.len() - i,
    {
        r.push(rs[i].clone());
        i += 1;
    }
    assert(read_states_view(r@) =~= read_states_view(rs@));
    r
}

/// A read request, with the nodes that have acknowledged it.
#[derive(Debug)]
pub struct ReadIndexStatus {
    /// The request.
    pub req: Message,
    /// The commit index when the request came in.
    pub index: u64,
    /// The nodes that have acknowledged it.
    pub acks: AckSet,
}

/// The view of a [`ReadIndexStatus`].
#[verifier::ext_equal]
pub struct ReadIndexStatusView {
    /// The request.
    pub req: MessageView,
    /// The commit index when the request came in.
    pub index: u64,
    /// The nodes that have acknowledged it.
    pub acks: Set<u64>,
}

impl View for ReadIndexStatus {
    type V = ReadIndexStatusView;

    open spec fn view(&self) -> ReadIndexStatusView {
        ReadIndexStatusView { req: self.req@, index: self.index, acks: self.acks@ }
    }
}

impl Clone for ReadIndexStatus {
    fn clone(&self) -> (r: Self)
        ensures
            r@ == self@,
    {
        ReadIndexStatus { req: self.req.clone(), index: self.index, acks: self.acks.clone() }
    }
}

impl Default for ReadIndexStatus {
    fn default() -> (r: ReadIndexStatus)
        ensures
            r@ == (ReadIndexStatusView {
                req: MessageView::empty(),
                index: 0,
                acks: Set::empty(),
            }),
    {
        ReadIndexStatus { req: Message::new(), index: 0, acks: acks_new() }
    }
}

/// The views of a sequence of read requests.
pub open spec fn statuses_view(s: Seq<ReadIndexStatus>) -> Seq<ReadIndexStatusView> {
    s.map_values(|r: ReadIndexStatus| r@)
}

/// The read requests that wait, in the order in which they came.
#[derive(Debug)]
pub struct ReadOnly {
    /// How read requests are answered.
    pub option: ReadOnlyOption,
    /// The requests by their contexts.
    pub pending_read_index: PendingReads,
    /// The contexts, the oldest first.
    pub read_index_queue: VecDeque<Vec<u8>>,
}

/// The view of a [`ReadOnly`].
#[verifier::ext_equal]
pub struct ReadOnlyView {
    /// How read requests are answered.
    pub option: ReadOnlyOption,
    /// The requests by their contexts.
    pub pending: Map<Seq<u8>, ReadIndexStatusView>,
    /// The contexts, the oldest first.
    pub queue: Seq<Seq<u8>>,
}

impl View for ReadOnly {
    type V = ReadOnlyView;

    open spec fn view(&self) -> ReadOnlyView {
        ReadOnlyView {
            option: self.option,
            pending: self.pending_read_index@.map_values(|s: ReadIndexStatus| s@),
            queue: self.read_index_queue@.map_values(|v: Vec<u8>| v@),
        }
    }
}

impl ReadOnlyView {
    /// No requests, answered as `option` says.
    pub open spec fn new(option: ReadOnlyOption) -> ReadOnlyView {
        ReadOnlyView { option, pending: Map::empty(), queue: Seq::empty() }
    }

    /// No context is queued twice, the queued contexts are those of the requests, and
    /// each request has its context in its first entry.
    pub open spec fn wf(self) -> bool {
        &&& self.queue.no_duplicates()
        &&& forall|k: Seq<u8>| #[trigger]
            self.pending.contains_key(k) <==> self.queue.contains(k)
        &&& forall|k: Seq<u8>| #[trigger]
            self.pending.contains_key(k) ==> self.pending[k].req.entries.len() > 0
            && self.pending[k].req.entries[0].data == k
    }

    /// The state after the request `m` came in at commit index `index`: a request whose
    /// context is waiting already is dropped.
    pub open spec fn add_request(self, index: u64, m: MessageView) -> ReadOnlyView {
        let ctx = m.entries[0].data;
        if self.pending.contains_key(ctx) {
            self
        } else {
            ReadOnlyView {
                pending: self.pending.insert(
                    ctx,
                    ReadIndexStatusView { req: m, index, acks: Set::empty() },
                ),
                queue: self.queue.push(ctx),
                ..self
            }
        }
    }

    /// The state after the heartbeat response `m`: its sender acknowledges the request
    /// with its context.
    pub open spec fn recv_ack(self, m: MessageView) -> ReadOnlyView {
        if self.pending.contains_key(m.context) {
            let s = self.pending[m.context];
            ReadOnlyView {
                pending: self.pending.insert(
                    m.context,
                    ReadIndexStatusView { acks: s.acks.insert(m.from), ..s },
                ),
                ..self
            }
        } else {
            self
        }
    }

    /// Who has acknowledged the request once the response `m` is in, the receiver of
    /// `m` among them; nobody if there is no such request.
    pub open spec fn acknowledged(self, m: MessageView) -> Set<u64> {
        if self.pending.contains_key(m.context) {
            self.pending[m.context].acks.insert(m.from).insert(m.to)
        } else {
            Set::empty()
        }
    }

    /// How many requests are answered when the one with context `ctx` is: those that
    /// came before it, and itself.
    pub open spec fn answered_count(self, ctx: Seq<u8>) -> int {
        if self.queue.contains(ctx) {
            self.queue.index_of(ctx) + 1
        } else {
            0
        }
    }

    /// The requests that are answered when the one with context `ctx` is.
    pub open spec fn answered(self, ctx: Seq<u8>) -> Seq<ReadIndexStatusView> {
        self.queue.take(self.answered_count(ctx)).map_values(|k: Seq<u8>| self.pending[k])
    }

    /// The state after the request with context `ctx` and those before it are answered.
    pub open spec fn advance(self, ctx: Seq<u8>) -> ReadOnlyView {
        let n = self.answered_count(ctx);
        ReadOnlyView {
            pending: self.pending.remove_keys(self.queue.take(n).to_set()),
            queue: self.queue.skip(n),
            ..self
        }
    }
}

impl ReadOnlyView {
    /// Answering requests keeps the queue and the requests in step.
    pub proof fn lemma_advance_wf(self, ctx: Seq<u8>)
        requires
            self.wf(),
        ensures
            self.advance(ctx).wf(),
    {
        let n = self.answered_count(ctx);
        let after = self.advance(ctx);
        assert forall|k: Seq<u8>| #[trigger]
            after.pending.contains_key(k) <==> after.queue.contains(k) by {
            let gone = self.queue.take(n);
            if after.pending.contains_key(k) {
                let j = self.queue.index_of(k);
                if j < n {
                    assert(gone[j] == k);
                }
                assert(after.queue[j - n] == k);
            }
            if after.queue.contains(k) {
                let j = after.queue.index_of(k);
                assert(self.queue[j + n] == k);
                if gone.contains(k) {
                    let i = gone.index_of(k);
                    assert(self.queue[i] == k);
                }
            }
        }
    }
}

impl Default for ReadOnly {
    fn default() -> (r: ReadOnly)
        ensures
            r@ == ReadOnlyView::new(ReadOnlyOption::Safe),
    {
        ReadOnly::new(ReadOnlyOption::Safe)
    }
}

impl ReadOnly {
    /// Returns the state without requests.
    pub fn new(option: ReadOnlyOption) -> (r: ReadOnly)
        ensures
            r@ == ReadOnlyView::new(option),
            r@.wf(),
    {
        let r = ReadOnly {
            option,
            pending_read_index: reads_new(),
            read_index_queue: VecDeque::new(),
        };
        assert(r@ =~= ReadOnlyView::new(option));
        r
    }

    /// Adds a read only request into readonly struct.
    ///
    /// `index` is the commit index of the raft state machine when it received
    /// the read only request.
    ///
    /// `m` is the read only request, from the local or a remote node.
    pub fn add_request(&mut self, index: u64, m: Message)
        requires
            old(self)@.wf(),
            m@.entries.len() > 0,
        ensures
            final(self)@ == old(self)@.add_request(index, m@),
            final(self)@.wf(),
    {
        let ghost before = self@;
        let ctx = clone_bytes(&m.entries[0].data);
        assert(ctx@ == m@.entries[0].data);
        if reads_contains(&self.pending_read_index, &ctx) {
            return;
        }
        let status = ReadIndexStatus { req: m, index, acks: acks_new() };
        reads_insert(&mut self.pending_read_index, clone_bytes(&ctx), status);
        self.read_index_queue.push_back(ctx);
        proof {
            let after = before.add_request(index, m@);
            assert(self@.queue =~= after.queue);
            assert(self@.pending =~= after.pending);
            assert forall|k: Seq<u8>| #[trigger]
                after.pending.contains_key(k) <==> after.queue.contains(k) by {
                if before.queue.contains(k) {
                    let j = before.queue.index_of(k);
                    assert(after.queue[j] == k);
                }
                assert(after.queue.last() == ctx@);
            }
        }
    }

    /// Notifies the ReadOnly struct that the raft state machine received
    /// an acknowledgment of the heartbeat that attached with the read only request
    /// context.
    pub fn recv_ack(&mut self, m: &Message) -> (r: AckSet)
        requires
            old(self)@.wf(),
        ensures
            r@ == old(self)@.acknowledged(m@),
            final(self)@ == old(self)@.recv_ack(m@),
            final(self)@.wf(),
    {
        let ghost before = self@;
        match reads_get_mut(&mut self.pending_read_index, &m.context) {
            None => {
                assert(self@ =~= before);
                acks_new()
            },
            Some(rs) => {
                acks_insert(&mut rs.acks, m.from);
                let set_with_self = AckSet::singleton(m.to);
                let r = acks_union(&rs.acks, &set_with_self);
                assert(r@ =~= before.acknowledged(m@));
                proof {
                    assert(self@.pending =~= before.recv_ack(m@).pending);
                    assert(self@ =~= before.recv_ack(m@));
                }
                r
            },
        }
    }

    /// Returns the place of `ctx` in the queue.
    fn position(&self, ctx: &Vec<u8>) -> (r: Option<usize>)
        ensures
            match r {
                Some(i) => i < self.read_index_queue.len() && self@.queue[i as int] == ctx@,
                None => !self@.queue.contains(ctx@),
            },
    {
        let mut i: usize = 0;
        while i < self.read_index_queue.len()
            invariant
                i <= self.read_index_queue.len(),
                forall|j: int| 0 <= j < i ==> self@.queue[j] != ctx@,
            decreases self.read_index_queue.len() - i,
        {
            assert(self@.queue[i as int] == self.read_index_queue@[i as int]@);
            if bytes_equal(self.read_index_queue[i].as_slice(), ctx.as_slice()) {
                return Some(i);
            }
            i += 1;
        }
        None
    }

    /// Advances the read only request queue kept by the ReadOnly struct.
    /// It dequeues the requests until it finds the read only request that has
    /// the same context as the given `m`.
    pub fn advance(&mut self, m: &Message) -> (rss: Vec<ReadIndexStatus>)
        requires
            old(self)@.wf(),
        ensures
            statuses_view(rss@) == old(self)@.answered(m@.context),
            final(self)@ == old(self)@.advance(m@.context),
            final(self)@.wf(),
    {
        let ghost before = self@;
        let ghost ctx = m@.context;
        let mut rss: Vec<ReadIndexStatus> = Vec::new();
        let n: usize = match self.position(&m.context) {
            Some(i) => i + 1,
            None => 0,
        };
        assert(n == before.answered_count(ctx));
        let mut k: usize = 0;
        proof {
            assert(before.queue.skip(0) =~= before.queue);
            assert(before.queue.take(0).to_set() =~= Set::empty());
            assert(before.pending.remove_keys(before.queue.take(0).to_set()) =~= before.pending);
        }
        while k < n
            invariant
                before.wf(),
                k <= n <= before.queue.len(),
                self.option == before.option,
                self@.queue == before.queue.skip(k as int),
                self@.pending == before.pending.remove_keys(before.queue.take(k as int).to_set()),
                rss.len() == k,
                forall|j: int|
                    0 <= j < k ==> (#[trigger] rss@[j])@ == before.pending[before.queue[j]],
            decreases n - k,
        {
            let ghost reads = self.pending_read_index@;
            let ghost queue = self.read_index_queue@;
            let ghost key = before.queue[k as int];
            let ghost waiting = self@;
            assert(self@.queue.len() == queue.len());
            assert(self@.queue[0] == key);
            assert(self@.queue[0] == queue[0]@);
            let rs = self.read_index_queue.pop_front().unwrap();
            proof {
                assert(before.queue.contains(key));
                assert(before.pending.contains_key(key));
                assert(!before.queue.take(k as int).to_set().contains(key));
                assert(reads.map_values(|s: ReadIndexStatus| s@).contains_key(key));
            }
            let status = reads_remove(&mut self.pending_read_index, &rs).unwrap();
            assert(status@ == waiting.pending[key]);
            rss.push(status);
            proof {
                let next = before.queue.take(k + 1);
                assert(next =~= before.queue.take(k as int).push(key));
                assert(next.to_set() =~= before.queue.take(k as int).to_set().insert(key)) by {
                    broadcast use vstd::seq_lib::group_seq_properties;
                }
                assert(self@.queue =~= waiting.queue.skip(1));
                assert(self@.queue =~= before.queue.skip(k + 1));
                assert(self@.pending =~= waiting.pending.remove(key));
                assert(self@.pending =~= before.pending.remove_keys(next.to_set()));
            }
            k += 1;
        }
        proof {
            assert(statuses_view(rss@) =~= before.answered(ctx));
            assert(self@ =~= before.advance(ctx));
            before.lemma_advance_wf(ctx);
        }
        rss
    }

    /// Returns the context of the last pending read only request in ReadOnly struct.
    pub fn last_pending_request_ctx(&self) -> (r: Option<Vec<u8>>)
        ensures
            match r {
                Some(ctx) => self@.queue.len() > 0 && ctx@ == self@.queue.last(),
                None => self@.queue.len() == 0,
            },
    {
        let n: usize = self.read_index_queue.len();
        if n == 0 {
            None
        } else {
            Some(clone_bytes(&self.read_index_queue[n - 1]))
        }
    }

    /// Returns the number of requests that wait.
    pub fn pending_read_count(&self) -> (n: usize)
        ensures
            n == self@.queue.len(),
    {
        self.read_index_queue.len()
    }
}

} // verus!
