//! What holds of a node, whatever it goes through.
use crate::codec::entry_size;
use crate::eraftpb::{
    ConfChangeView, EntryType, EntryView, HardState, MessageType, MessageView, SnapshotView,
};
use crate::errors::ErrorView;
use crate::progress::ProgressView;
use crate::progress_set::{
    count_in, lemma_count_agree, lemma_count_positive, voted, CandidacyStatus, ConfigurationView,
    ProgressSetView,
};
use crate::raft::{StateRole, INVALID_ID};
use crate::raft_log::{entries_ok, indexes_ok, RaftLogView};
use crate::raft_model::{
    conf_changes, is_own_read, is_vote_request, lemma_campaign_names, local_message, own_reads,
    read_response, remote_reads, transfer, vote_answer, RaftView,
};
use crate::raw_node::{RawNodeView, ReadyView};
use crate::read_only::{ReadIndexStatusView, ReadOnlyView, ReadStateView};
use crate::storage::{MemStorage, MemStorageView, Storage};
use crate::util::{limited, total_size, NO_LIMIT};
use vstd::prelude::*;

verus! {

// Terms, votes and the log.
/// The term of a node never goes down.
pub proof fn law_term_grows<T: Storage>(s: RaftView<T>, m: MessageView)
    requires
        s.wf(),
        s.step_ok(m),
    ensures
        s.step(m).0.term >= s.term,
{
    s.lemma_step(m);
}

/// A node that has voted in a term votes for nobody else in that term.
pub proof fn law_one_vote_per_term<T: Storage>(s: RaftView<T>, m: MessageView)
    requires
        s.wf(),
        s.step_ok(m),
        s.vote != INVALID_ID,
        s.step(m).0.term == s.term,
    ensures
        s.step(m).0.vote == s.vote,
{
    s.lemma_step(m);
}

/// What is committed stays: the commit index does not go down, and each entry up to it is
/// the same, unless a snapshot has taken its place.
pub proof fn law_committed_stays<T: Storage>(s: RaftView<T>, m: MessageView)
    requires
        s.wf(),
        s.step_ok(m),
    ensures
        s.step(m).0.raft_log.committed >= s.raft_log.committed,
        forall|idx: u64|
            s.step(m).0.raft_log.first() <= idx <= s.raft_log.committed ==> #[trigger] s.raft_log.agrees_at(
                s.step(m).0.raft_log,
                idx,
            ),
{
    s.lemma_step(m);
}

/// A message moves neither the applied index nor anything in the store.
pub proof fn law_applied_stays<T: Storage>(s: RaftView<T>, m: MessageView)
    requires
        s.wf(),
        s.step_ok(m),
    ensures
        s.step(m).0.raft_log.applied == s.raft_log.applied,
        s.step(m).0.raft_log.store == s.raft_log.store,
{
    s.lemma_step(m);
}

/// A leader never changes or removes entries of its log: it only adds to it.
pub proof fn law_leader_appends_only<T: Storage>(s: RaftView<T>, m: MessageView)
    requires
        s.wf(),
        s.step_ok(m),
        s.state == StateRole::Leader,
        s.step(m).0.term == s.term,
    ensures
        s.raft_log.extends(s.step(m).0.raft_log),
{
    let c = s.check_term(m);
    s.lemma_check_term(m);
    s.raft_log.lemma_extends_self();
    assert(c.term == s.term && c.raft_log == s.raft_log) by {
        if s.goes_on(m) {
            c.lemma_dispatch(m);
        }
    }
    if s.goes_on(m) {
        if m.msg_type != MessageType::MsgHup && !is_vote_request(m.msg_type) {
            c.lemma_step_leader(m);
        }
    }
}

/// The settings of a node stay.
pub proof fn law_settings_stay<T: Storage>(s: RaftView<T>, m: MessageView)
    requires
        s.wf(),
        s.step_ok(m),
    ensures
        s.same_settings(s.step(m).0),
{
    s.lemma_step(m);
}

/// Messages only come in addition. Each new one is from this node, and in its term, unless
/// it belongs to an election, or is a request that is passed on to the leader.
pub proof fn law_messages_are_stamped<T: Storage>(s: RaftView<T>, m: MessageView)
    requires
        s.wf(),
        s.step_ok(m),
    ensures
        s.sends(s.step(m).0),
{
    s.lemma_step(m);
}

/// A tick keeps what a message keeps: terms, votes, what is committed, and settings.
pub proof fn law_tick_follows<T: Storage>(s: RaftView<T>, timeout: usize)
    requires
        s.wf(),
        s.tick_ok(timeout),
    ensures
        s.follows(s.tick(timeout).0),
{
    s.raft_log.lemma_extends_self();
    if s.state == StateRole::Leader {
        lemma_leader_tick(s);
    } else {
        let w = s.waited();
        assert(s.follows(w));
        if w.times_out(timeout) {
            let z = w.restarted();
            assert(s.follows(z));
            let m = local_message(MessageType::MsgHup, s.id);
            z.lemma_step(m);
            s.lemma_follows_trans(z, z.step(m).0);
        }
    }
}

proof fn lemma_leader_tick<T: Storage>(s: RaftView<T>)
    requires
        s.wf(),
    ensures
        s.follows(s.tick_heartbeat().0),
{
    s.raft_log.lemma_extends_self();
    let led = s.led();
    assert(s.follows(led));
    let mid = if led.period_ends() {
        led.end_period()
    } else {
        led
    };
    if led.period_ends() {
        let z = led.restarted();
        assert(s.follows(z));
        let c = if s.check_quorum {
            z.lemma_check_active();
            s.lemma_follows_trans(z, z.check_active());
            z.check_active()
        } else {
            z
        };
        c.raft_log.lemma_extends_self();
        assert(c.follows(mid));
        s.lemma_follows_trans(c, mid);
    }
    let b = RaftView { heartbeat_elapsed: 0, ..mid };
    mid.raft_log.lemma_extends_self();
    assert(mid.follows(b));
    s.lemma_follows_trans(mid, b);
    let ctx = if b.read_only.queue.len() == 0 {
        None
    } else {
        Some(b.read_only.queue.last())
    };
    b.lemma_bcast_heartbeat(ctx);
    s.lemma_follows_trans(b, b.bcast_heartbeat());
}

/// A follower that hears of no leader until its timeout stands for election in the next term,
/// where pre-votes are not in use and no configuration change is to be applied.
pub proof fn law_timeout_starts_election<T: Storage>(s: RaftView<T>, timeout: usize)
    requires
        s.wf(),
        s.tick_ok(timeout),
        s.state == StateRole::Follower,
        s.promotable(),
        s.election_elapsed + 1 >= timeout,
        !s.pre_vote,
        !s.change_unapplied(),
    ensures
        s.tick(timeout).1,
        s.tick(timeout).0.term == s.term + 1,
        s.tick(timeout).0.vote == s.id,
{
    let z = s.waited().restarted();
    lemma_campaign_names();
    z.lemma_campaign(z.campaign_kind());
}

/// A leader sends heartbeats to all other nodes each time the heartbeat timeout has passed,
/// unless it steps down at that tick.
pub proof fn law_leader_beats<T: Storage>(s: RaftView<T>, timeout: usize)
    requires
        s.tick_ok(timeout),
        s.state == StateRole::Leader,
        s.heartbeat_elapsed + 1 >= s.heartbeat_timeout,
        s.election_elapsed + 1 < s.election_timeout,
    ensures
        s.tick(timeout) == (
            (RaftView { heartbeat_elapsed: 0, ..s.led() }).bcast_heartbeat(),
            true,
        ),
{
}

/// A leader that checks its quorum steps down at the end of an election timeout within which
/// no quorum was active.
pub proof fn law_inactive_leader_steps_down<T: Storage>(s: RaftView<T>, timeout: usize)
    requires
        s.tick_ok(timeout),
        s.state == StateRole::Leader,
        s.check_quorum,
        s.election_elapsed + 1 >= s.election_timeout,
        !s.prs().has_quorum(s.prs().active(s.id)),
    ensures
        s.tick(timeout).0.state == StateRole::Follower,
        s.tick(timeout).0.term == s.term,
{
}

// Elections.
proof fn lemma_counts_meet(ids: Seq<u64>, a: Set<u64>, b: Set<u64>)
    ensures
        count_in(ids, a.intersect(b)) + ids.len() >= count_in(ids, a) + count_in(ids, b),
    decreases ids.len(),
{
    if ids.len() > 0 {
        lemma_counts_meet(ids.drop_last(), a, b);
    }
}

/// Any two quorums of a configuration have a voter in common.
pub proof fn law_quorums_meet(c: ConfigurationView, a: Set<u64>, b: Set<u64>)
    requires
        c.has_quorum(a),
        c.has_quorum(b),
    ensures
        exists|id: u64| #[trigger] c.voters.contains(id) && a.contains(id) && b.contains(id),
{
    lemma_counts_meet(c.voters, a, b);
    let id = lemma_count_positive(c.voters, a.intersect(b));
    assert(c.voters.contains(id) && a.contains(id) && b.contains(id));
}

/// Two candidates that have won in the same cluster share a voter in each configuration, so
/// they cannot both have won in one term if everybody votes once.
pub proof fn law_winners_share_voter(
    prs: ProgressSetView,
    votes: Map<u64, bool>,
    others: Map<u64, bool>,
)
    requires
        prs.candidacy_status(votes) == CandidacyStatus::Elected,
        prs.candidacy_status(others) == CandidacyStatus::Elected,
    ensures
        exists|id: u64| #[trigger]
            prs.configuration.voters.contains(id) && voted(votes, true).contains(id) && voted(
                others,
                true,
            ).contains(id),
        prs.next_configuration matches Some(next) ==> exists|id: u64| #[trigger]
            next.voters.contains(id) && voted(votes, true).contains(id) && voted(
                others,
                true,
            ).contains(id),
{
    law_quorums_meet(prs.configuration, voted(votes, true), voted(others, true));
    if let Some(next) = prs.next_configuration {
        law_quorums_meet(next, voted(votes, true), voted(others, true));
    }
}

/// If everybody votes for one node in a term, only one node wins in that term: of two
/// candidates with the same cluster, whose votes are those that were given, one at most has
/// won.
pub proof fn law_one_winner_per_term(
    prs: ProgressSetView,
    given: Map<u64, u64>,
    candidate: u64,
    votes: Map<u64, bool>,
    rival: u64,
    others: Map<u64, bool>,
)
    requires
        candidate != rival,
        forall|id: u64| #[trigger] voted(votes, true).contains(id) ==> given[id] == candidate,
        forall|id: u64| #[trigger] voted(others, true).contains(id) ==> given[id] == rival,
    ensures
        !(prs.candidacy_status(votes) == CandidacyStatus::Elected && prs.candidacy_status(others)
            == CandidacyStatus::Elected),
{
    if prs.candidacy_status(votes) == CandidacyStatus::Elected && prs.candidacy_status(others)
        == CandidacyStatus::Elected {
        law_winners_share_voter(prs, votes, others);
    }
}

/// A candidate that has won has not lost: no configuration has a quorum against it.
pub proof fn law_winner_has_not_lost(prs: ProgressSetView, votes: Map<u64, bool>)
    requires
        prs.has_quorum(voted(votes, true)),
    ensures
        !prs.configuration.has_quorum(voted(votes, false)),
        prs.next_configuration matches Some(next) ==> !next.has_quorum(voted(votes, false)),
{
    if prs.configuration.has_quorum(voted(votes, false)) {
        law_quorums_meet(prs.configuration, voted(votes, true), voted(votes, false));
    }
    if let Some(next) = prs.next_configuration {
        if next.has_quorum(voted(votes, false)) {
            law_quorums_meet(next, voted(votes, true), voted(votes, false));
        }
    }
}

proof fn lemma_count_without(ids: Seq<u64>, a: Set<u64>, b: Set<u64>, id: u64)
    requires
        !ids.contains(id),
        forall|x: u64| x != id ==> (#[trigger] a.contains(x) <==> b.contains(x)),
    ensures
        count_in(ids, a) == count_in(ids, b),
{
    lemma_count_agree(ids, a, b);
}

/// What a node says that is no voter, such as a learner, counts neither for a quorum nor in
/// an election.
pub proof fn law_only_voters_count(
    prs: ProgressSetView,
    set: Set<u64>,
    votes: Map<u64, bool>,
    id: u64,
    vote: bool,
)
    requires
        !prs.is_voter(id),
    ensures
        prs.has_quorum(set.insert(id)) == prs.has_quorum(set),
        prs.candidacy_status(votes.insert(id, vote)) == prs.candidacy_status(votes),
{
    let voters = prs.configuration.voters;
    let later = votes.insert(id, vote);
    lemma_count_without(voters, set.insert(id), set, id);
    lemma_count_without(voters, voted(later, true), voted(votes, true), id);
    lemma_count_without(voters, voted(later, false), voted(votes, false), id);
    if let Some(next) = prs.next_configuration {
        lemma_count_without(next.voters, set.insert(id), set, id);
        lemma_count_without(next.voters, voted(later, true), voted(votes, true), id);
        lemma_count_without(next.voters, voted(later, false), voted(votes, false), id);
    }
}

/// A node that is no voter does not start elections, however long it hears of no leader.
pub proof fn law_non_voter_waits<T: Storage>(s: RaftView<T>, timeout: usize)
    requires
        s.state != StateRole::Leader,
        !s.promotable(),
    ensures
        s.tick(timeout) == (s.waited(), false),
{
}

proof fn lemma_elected<T: Storage>(s: RaftView<T>, campaign: Seq<u8>)
    requires
        s.raft_log.wf(),
        s.elect_ok(),
        s.elect(campaign).state == StateRole::Leader,
    ensures
        s.is_alone(),
{
    let c = s.standing();
    if c.candidacy() != CandidacyStatus::Elected {
        c.lemma_request_votes(MessageType::MsgRequestVote, c.term, campaign);
    }
    assert(voted(c.votes, true) =~= Set::<u64>::empty().insert(s.id));
}

proof fn lemma_campaign_wins<T: Storage>(s: RaftView<T>, campaign: Seq<u8>)
    requires
        s.raft_log.wf(),
        s.campaign_ok(campaign),
        s.campaign(campaign).state == StateRole::Leader,
    ensures
        s.is_alone(),
{
    let p = s.pre_standing();
    if campaign != crate::raft_model::pre_election() {
        lemma_elected(s, campaign);
    } else if p.candidacy() == CandidacyStatus::Elected {
        lemma_elected(p, crate::raft_model::election());
    } else {
        p.lemma_request_votes(MessageType::MsgRequestPreVote, (p.term + 1) as u64, campaign);
    }
}

/// A node becomes the leader only with the votes of a quorum, those that it had and the one
/// that came, or where it is a quorum by itself.
pub proof fn law_leader_needs_quorum<T: Storage>(s: RaftView<T>, m: MessageView)
    requires
        s.wf(),
        s.step_ok(m),
        s.state != StateRole::Leader,
        s.step(m).0.state == StateRole::Leader,
    ensures
        s.prs().has_quorum(voted(s.with_vote(m).votes, true)) || s.is_alone(),
{
    let c = s.check_term(m);
    s.lemma_check_term(m);
    assert(c.is_alone() == s.is_alone());
    assert(c.state == s.state || c.state == StateRole::Follower);
    if m.msg_type == MessageType::MsgHup {
        lemma_campaign_wins(c, c.campaign_kind());
    } else if is_vote_request(m.msg_type) {
        c.lemma_vote_on(m);
    } else if c.state == StateRole::Follower {
        if crate::raft_model::is_leader_msg(m.msg_type) {
            c.heard_of(m.from).lemma_from_leader(m);
        } else if m.msg_type == MessageType::MsgTimeoutNow && c.promotable() {
            lemma_campaign_wins(c, transfer());
        }
    } else {
        if crate::raft_model::is_leader_msg(m.msg_type) {
            c.become_follower(m.term, m.from).lemma_from_leader(m);
        } else if c.is_vote_for_me(m) {
            assert(c.state == s.state);
            assert(c == s);
        }
    }
}

/// A new leader has an entry of its own term behind what was in its log.
pub proof fn law_leader_has_own_entry<T: Storage>(s: RaftView<T>)
    requires
        s.wf(),
        s.become_leader_ok(),
    ensures
        s.become_leader().state == StateRole::Leader,
        s.become_leader().term == s.term,
        s.raft_log.extends(s.become_leader().raft_log),
        s.become_leader().raft_log.term((s.raft_log.last() + 1) as u64) == s.term,
{
    s.lemma_become_leader();
    let first = seq![EntryView::empty()];
    let l = s.leading();
    let ents = l.numbered(first);
    let at = (s.raft_log.last() + 1) as u64;
    l.raft_log.lemma_append_wf(ents);
    l.raft_log.lemma_append_has(ents, 0);
    l.lemma_append_entry(first);
    let e = l.append_entry(first);
    assert(e.raft_log.term(at) == s.term);
    if e.is_change_due(e.raft_log.committed) {
        e.lemma_append_finalize();
        assert(e.raft_log.agrees_at(e.append_finalize().raft_log, at));
    }
}

/// A pre-candidate keeps its term and its vote, and its log.
pub proof fn law_pre_candidate_keeps_term<T: Storage>(s: RaftView<T>)
    ensures
        s.become_pre_candidate().term == s.term,
        s.become_pre_candidate().vote == s.vote,
        s.become_pre_candidate().raft_log == s.raft_log,
{
}

/// A request for a pre-vote changes neither the term, nor the vote, nor the role, nor the
/// log.
pub proof fn law_pre_vote_changes_nothing<T: Storage>(s: RaftView<T>, m: MessageView)
    requires
        s.wf(),
        s.step_ok(m),
        m.msg_type == MessageType::MsgRequestPreVote,
    ensures
        s.stays(s.step(m).0),
        s.step(m).0.raft_log == s.raft_log,
        s.step(m).0.progress == s.progress,
{
    s.raft_log.lemma_extends_self();
    s.check_term(m).lemma_vote_on(m);
}

/// A node that has heard of its leader within an election timeout ignores requests for
/// votes in later terms, unless the leadership is being transferred.
pub proof fn law_lease_holds<T: Storage>(s: RaftView<T>, m: MessageView)
    requires
        s.hears_leader(),
        is_vote_request(m.msg_type),
        m.term > s.term,
        m.context != transfer(),
    ensures
        s.step(m) == (s, Ok::<(), ErrorView>(())),
{
}

/// A message of an earlier term changes nothing; at most it is answered.
pub proof fn law_old_terms_are_ignored<T: Storage>(s: RaftView<T>, m: MessageView)
    requires
        0 < m.term < s.term,
    ensures
        s.step(m).1 is Ok,
        s.step(m).0 == (RaftView { msgs: s.step(m).0.msgs, ..s }),
        s.step(m).0.msgs.len() <= s.msgs.len() + 1,
{
}

/// A vote goes only to a node whose log is at least as recent, from a node that is no mere
/// learner, has not voted in that term and knows no leader of it.
pub proof fn law_vote_needs_recent_log<T: Storage>(s: RaftView<T>, m: MessageView)
    requires
        s.wf(),
        s.step_ok(m),
        m.msg_type == MessageType::MsgRequestVote,
        s.goes_on(m),
        s.check_term(m).vote != m.from,
        s.step(m).0.vote == m.from,
    ensures
        !s.only_learns(),
        s.raft_log.is_up_to_date(m.index, m.log_term),
        s.check_term(m).vote == INVALID_ID,
        s.check_term(m).leader_id == INVALID_ID,
{
}

/// A learner that is no voter of a configuration in force refuses each request for a vote or a
/// pre-vote that it handles, and its own vote stays.
pub proof fn law_learner_does_not_vote<T: Storage>(s: RaftView<T>, m: MessageView)
    requires
        s.only_learns(),
        is_vote_request(m.msg_type),
        s.goes_on(m),
    ensures
        ({
            let c = s.check_term(m);
            let r = s.step(m).0;
            let answer = r.msgs.last();
            &&& r == (RaftView { msgs: c.msgs.push(answer), ..c })
            &&& answer.to == m.from
            &&& answer.msg_type == vote_answer(m.msg_type)
            &&& answer.reject
        }),
{
}

/// A node that is to take over the leadership stands for election at once, without
/// pre-votes, even where those are in use.
pub proof fn law_transfer_skips_pre_vote<T: Storage>(s: RaftView<T>, m: MessageView)
    requires
        s.wf(),
        s.step_ok(m),
        s.state == StateRole::Follower,
        m.msg_type == MessageType::MsgTimeoutNow,
        m.term == 0 || m.term == s.term,
        s.promotable(),
    ensures
        s.step(m).0.term == s.term + 1,
        s.step(m).0.vote == s.id,
        s.step(m).0.state == StateRole::Candidate || s.step(m).0.state == StateRole::Leader,
{
    lemma_campaign_names();
    s.lemma_elect(transfer());
}

/// A node that has a committed configuration change to apply does not campaign.
pub proof fn law_change_blocks_campaign<T: Storage>(s: RaftView<T>)
    requires
        s.change_unapplied(),
    ensures
        s.step(local_message(MessageType::MsgHup, s.id)) == (s, Ok::<(), ErrorView>(())),
{
}

// Commits.
impl ProgressSetView {
    proof fn lemma_greatest(self, n: u64)
        requires
            self.has_quorum(self.replicated_on(n)),
        ensures
            exists|k: u64| self.is_quorum_index(k),
        decreases u64::MAX - n,
    {
        if exists|m: u64| m > n && self.has_quorum(#[trigger] self.replicated_on(m)) {
            let m = choose|m: u64| m > n && self.has_quorum(#[trigger] self.replicated_on(m));
            self.lemma_greatest(m);
        } else {
            assert(self.is_quorum_index(n));
        }
    }

    /// The index that a quorum has is one that a quorum has, and the greatest.
    pub proof fn lemma_maximal(self)
        requires
            self.wf(),
            self.has_voters(),
        ensures
            self.is_quorum_index(self.maximal_committed_index()),
    {
        self.lemma_quorum_at_zero();
        self.lemma_greatest(0);
    }
}

/// A leader commits more only up to an entry of its own term that a quorum has; during a
/// membership change, a quorum of each configuration.
pub proof fn law_commit_needs_quorum<T: Storage>(s: RaftView<T>)
    requires
        s.wf(),
        s.maybe_commit_ok(),
        s.maybe_commit().raft_log.committed != s.raft_log.committed,
    ensures
        ({
            let committed = s.maybe_commit().raft_log.committed;
            &&& committed > s.raft_log.committed
            &&& s.raft_log.term(committed) == s.term
            &&& s.prs().configuration.has_quorum(s.prs().replicated_on(committed))
            &&& s.prs().next_configuration matches Some(next) ==> next.has_quorum(
                s.prs().replicated_on(committed),
            )
        }),
{
    s.prs().lemma_maximal();
}

/// A heartbeat takes the commit index of a peer no further than what the peer is known to
/// have, nor than what is committed.
pub proof fn law_heartbeat_commit_is_safe<T: Storage>(s: RaftView<T>, ctx: Option<Seq<u8>>, i: int)
    requires
        s.msgs.len() <= i < s.bcast_heartbeat_with_ctx(ctx).msgs.len(),
    ensures
        ({
            let m = s.bcast_heartbeat_with_ctx(ctx).msgs[i];
            exists|k: int|
                0 <= k < s.prs().ids.len() && m.to == #[trigger] s.prs().ids[k] && m.to != s.id
                    && m.msg_type == MessageType::MsgHeartbeat && m.commit
                    <= s.prs().progress[k].matched && m.commit <= s.raft_log.committed
        }),
{
    let n = s.prs().ids.len() as int;
    lemma_heartbeats(s, ctx, n, i - s.msgs.len());
    assert(s.bcast_heartbeat_with_ctx(ctx).msgs[i] == s.heartbeat_msgs(ctx, n)[i - s.msgs.len()]);
}

proof fn lemma_heartbeats<T: Storage>(s: RaftView<T>, ctx: Option<Seq<u8>>, n: int, j: int)
    requires
        0 <= j < s.heartbeat_msgs(ctx, n).len(),
        n <= s.prs().ids.len(),
    ensures
        ({
            let m = s.heartbeat_msgs(ctx, n)[j];
            exists|k: int|
                0 <= k < s.prs().ids.len() && m.to == #[trigger] s.prs().ids[k] && m.to != s.id
                    && m.msg_type == MessageType::MsgHeartbeat && m.commit
                    <= s.prs().progress[k].matched && m.commit <= s.raft_log.committed
        }),
    decreases n,
{
    let rest = s.heartbeat_msgs(ctx, n - 1);
    if j < rest.len() {
        lemma_heartbeats(s, ctx, n - 1, j);
        assert(s.heartbeat_msgs(ctx, n)[j] == rest[j]);
    } else {
        assert(s.heartbeat_msgs(ctx, n)[j].to == s.prs().ids[n - 1]);
    }
}

/// What is sent to all other nodes is one message for each node that is not paused: the
/// entries that follow what it has, or a snapshot.
pub proof fn law_entries_go_to_peers<T: Storage>(s: RaftView<T>, i: int)
    requires
        s.msgs.len() <= i < s.bcast_append().msgs.len(),
    ensures
        ({
            let m = s.bcast_append().msgs[i];
            exists|k: int|
                0 <= k < s.prs().ids.len() && m.to == #[trigger] s.prs().ids[k] && m.to != s.id
                    && !s.prs().progress[k].is_paused() && (m.msg_type == MessageType::MsgSnapshot
                    || (m.msg_type == MessageType::MsgAppend && m.index
                    == (s.prs().progress[k].next_idx - 1) as u64 && m.log_term == s.raft_log.term(
                    m.index,
                ) && m.commit == s.raft_log.committed))
        }),
{
    let n = s.prs().ids.len() as int;
    lemma_appends(s, n, i - s.msgs.len());
    assert(s.bcast_append().msgs[i] == s.append_msgs(n)[i - s.msgs.len()]);
}

proof fn lemma_appends<T: Storage>(s: RaftView<T>, n: int, j: int)
    requires
        0 <= j < s.append_msgs(n).len(),
        n <= s.prs().ids.len(),
    ensures
        ({
            let m = s.append_msgs(n)[j];
            exists|k: int|
                0 <= k < s.prs().ids.len() && m.to == #[trigger] s.prs().ids[k] && m.to != s.id
                    && !s.prs().progress[k].is_paused() && (m.msg_type == MessageType::MsgSnapshot
                    || (m.msg_type == MessageType::MsgAppend && m.index
                    == (s.prs().progress[k].next_idx - 1) as u64 && m.log_term == s.raft_log.term(
                    m.index,
                ) && m.commit == s.raft_log.committed))
        }),
    decreases n,
{
    let rest = s.append_msgs(n - 1);
    if j < rest.len() {
        lemma_appends(s, n - 1, j);
        assert(s.append_msgs(n)[j] == rest[j]);
    } else {
        assert(s.append_msgs(n)[j].to == s.prs().ids[n - 1]);
    }
}

/// A peer that is sent entries one message after another has no more of them on their way
/// than its limit.
pub proof fn law_inflight_is_bounded<T: Storage>(s: RaftView<T>, to: u64, p: ProgressView)
    requires
        p.ins.buffer.len() <= p.ins.cap,
    ensures
        s.append_to(to, p).0.ins.cap == p.ins.cap,
        s.append_to(to, p).0.ins.buffer.len() <= p.ins.cap,
{
}

proof fn lemma_limited_size(es: Seq<EntryView>, max: u64)
    requires
        max != NO_LIMIT,
    ensures
        limited(es, max).len() <= 1 || total_size(limited(es, max)) <= max,
    decreases es.len(),
{
    if es.len() > 1 && total_size(es) > max {
        lemma_limited_size(es.drop_last(), max);
    }
}

/// Whether the store of a log gives no more than `max` bytes of entries at a time, or one
/// entry.
pub open spec fn store_keeps_limit<T: Storage>(log: RaftLogView<T>, max: u64) -> bool {
    forall|lo: u64, hi: u64|
        log.first() <= lo < hi <= log.unstable.offset ==> (#[trigger] log.store.spec_entries(
            lo,
            hi,
            max,
        ) matches Ok(es) ==> es.len() <= 1 || total_size(es) <= max)
}

/// A store in memory keeps each limit.
pub proof fn law_memory_keeps_limit(log: RaftLogView<MemStorage>, max: u64)
    requires
        max != NO_LIMIT,
    ensures
        store_keeps_limit(log, max),
{
    assert forall|lo: u64, hi: u64| log.first() <= lo < hi <= log.unstable.offset implies (
    #[trigger] log.store.spec_entries(lo, hi, max) matches Ok(es) ==> es.len() <= 1
        || total_size(es) <= max) by {
        let base = log.store@.base();
        lemma_limited_size(log.store@.entries.subrange(lo - base - 1, hi - base - 1), max);
    }
}

/// A message holds no more bytes of entries than the limit, or one entry; with a limit of 0 it
/// holds at most one. That is of a store that keeps the limit itself, and of entries that have
/// an index.
pub proof fn law_message_size_is_bounded<T: Storage>(log: RaftLogView<T>, idx: u64, max: u64)
    requires
        log.wf(),
        max != NO_LIMIT,
        log.first() <= idx,
        store_keeps_limit(log, max),
    ensures
        log.entries(idx, max) matches Ok(es) && (es.len() <= 1 || total_size(es) <= max),
        max == 0 && (forall|i: int|
            0 <= i < log.entries(idx, max)->Ok_0.len() ==> (#[trigger] log.entries(
                idx,
                max,
            )->Ok_0[i]).index != 0) ==> log.entries(idx, max)->Ok_0.len() <= 1,
{
    let offset = log.unstable.offset;
    let hi = (log.last() + 1) as u64;
    let stable_hi = if hi < offset {
        hi
    } else {
        offset
    };
    if idx <= log.last() {
        let stable = if idx < offset {
            log.store.spec_entries(idx, stable_hi, max)->Ok_0
        } else {
            Seq::empty()
        };
        assert(idx < offset ==> entries_ok(log.store.spec_entries(idx, stable_hi, max)));
        lemma_limited_size(stable, max);
        let from = if idx < offset {
            0
        } else {
            idx - offset
        };
        lemma_limited_size(stable + log.unstable.entries.subrange(from, hi - offset), max);
    }
    let es = log.entries(idx, max)->Ok_0;
    if es.len() > 1 {
        assert(es.last() == es[es.len() - 1]);
        assert(total_size(es) >= entry_size(es.last()));
    }
}

/// A snapshot that takes the place of the log is all that is in it, and committed; the
/// cluster is that of the snapshot, with the membership change under way in it, which further
/// changes wait for, and a voter has not become a learner by it.
pub proof fn law_restored_log_is_the_snapshot<T: Storage>(s: RaftView<T>, snap: SnapshotView)
    requires
        s.wf(),
        s.restore_ok(snap),
        s.restores(snap),
    ensures
        ({
            let r = s.restore(snap);
            &&& r.raft_log.committed == snap.metadata.index
            &&& r.raft_log.last() == snap.metadata.index
            &&& r.raft_log.last_term() == snap.metadata.term
            &&& r.raft_log.first() == snap.metadata.index + 1
            &&& r.raft_log.snapshot() == Ok::<SnapshotView, ErrorView>(snap)
            &&& r.prs().configuration == ConfigurationView::from_conf_state(
                snap.metadata.conf_state,
            )
            &&& s.prs().ids.len() > 0 && !s.is_learner
                ==> !r.prs().configuration.learners.contains(s.id)
            &&& snap.metadata.pending_membership_change_index > 0 ==> {
                &&& r.pending_membership_change == Some(
                    ConfChangeView::begin(
                        snap.metadata.pending_membership_change_index,
                        snap.metadata.pending_membership_change,
                    ),
                )
                &&& r.pending_conf_index >= snap.metadata.pending_membership_change_index
            }
            &&& r.is_learner == (s.is_learner && !r.prs().configuration.voters.contains(s.id))
        }),
{
    let meta = snap.metadata;
    let p = ProgressView::new((s.raft_log.last() + 1) as u64, s.max_inflight);
    let current = ConfigurationView::from_conf_state(meta.conf_state);
    let base = ProgressSetView { configuration: current, ..ProgressSetView::empty() };
    base.lemma_with_missing(meta.conf_state.nodes, p);
    let a = base.with_missing(meta.conf_state.nodes, p);
    a.lemma_with_missing(meta.conf_state.learners, p);
    let b = a.with_missing(meta.conf_state.learners, p);
    b.lemma_with_missing(meta.pending_membership_change.nodes, p);
    let c = b.with_missing(meta.pending_membership_change.nodes, p);
    c.lemma_with_missing(meta.pending_membership_change.learners, p);
    crate::progress_set::lemma_distinct(meta.conf_state.learners);
}

proof fn lemma_agreeing<T: Storage>(log: RaftLogView<T>, ents: Seq<EntryView>, i: int)
    requires
        0 <= i < log.agreeing(ents),
    ensures
        log.agreeing(ents) <= ents.len(),
        log.match_term(ents[i].index, ents[i].term),
    decreases ents.len(),
{
    if ents.len() > 0 {
        let rest = ents.drop_last();
        if i < log.agreeing(rest) {
            lemma_agreeing(log, rest, i);
        } else {
            log.lemma_agreeing_bounds(rest);
        }
        log.lemma_agreeing_bounds(ents);
    }
}

/// A log that takes in the entries of a leader has each of them then, at its index and with
/// its term, and is committed as far as the leader says, but no further than those entries.
pub proof fn law_log_matches_leader<T: Storage>(
    log: RaftLogView<T>,
    idx: u64,
    term: u64,
    committed: u64,
    ents: Seq<EntryView>,
)
    requires
        log.wf(),
        log.maybe_append_ok(idx, term, committed, ents),
        log.match_term(idx, term),
        log.first() - 1 <= idx,
        forall|i: int| 0 <= i < ents.len() ==> (#[trigger] ents[i]).index == idx + 1 + i,
    ensures
        forall|i: int|
            0 <= i < ents.len() ==> log.maybe_append(idx, term, committed, ents).term(
                #[trigger] ents[i].index,
            ) == ents[i].term,
        log.maybe_append(idx, term, committed, ents).committed == (if committed <= idx
            + ents.len() && committed > log.committed {
            committed as int
        } else if committed > idx + ents.len() && idx + ents.len() > log.committed {
            idx + ents.len()
        } else {
            log.committed as int
        }),
{
    let n = log.agreeing(ents);
    log.lemma_agreeing_bounds(ents);
    let part = log.new_part(idx, ents);
    let grown = log.append(part);
    log.lemma_append_wf(part);
    let r = log.maybe_append(idx, term, committed, ents);
    assert forall|i: int| 0 <= i < ents.len() implies r.term(#[trigger] ents[i].index)
        == ents[i].term by {
        assert(r.term(ents[i].index) == grown.term(ents[i].index));
        if n < ents.len() {
            assert(part == ents.skip(n));
            assert(part[0] == ents[n]);
        }
        if i < n {
            lemma_agreeing(log, ents, i);
            if n < ents.len() {
                log.lemma_append_agrees(part, ents[i].index);
            }
        } else {
            log.lemma_append_has(part, i - n);
            assert(part[i - n] == ents[i]);
        }
    }
}

/// A follower that takes in the entries of a message has each of them then, at its index and
/// with its term, and says so in its answer.
pub proof fn law_accepted_entries_are_there<T: Storage>(s: RaftView<T>, m: MessageView)
    requires
        s.wf(),
        s.handle_append_entries_ok(m),
        m.index >= s.raft_log.committed,
        s.raft_log.match_term(m.index, m.log_term),
        forall|i: int|
            0 <= i < m.entries.len() ==> (#[trigger] m.entries[i]).index == m.index + 1 + i,
    ensures
        forall|i: int|
            0 <= i < m.entries.len() ==> s.handle_append_entries(m).raft_log.term(
                #[trigger] m.entries[i].index,
            ) == m.entries[i].term,
        s.handle_append_entries(m).msgs.last().index == m.index + m.entries.len(),
        !s.handle_append_entries(m).msgs.last().reject,
{
    law_log_matches_leader(s.raft_log, m.index, m.log_term, m.commit, m.entries);
}

/// While the leadership is being transferred, the leader drops proposals.
pub proof fn law_transfer_blocks_proposals<T: Storage>(s: RaftView<T>, m: MessageView)
    requires
        s.state == StateRole::Leader,
        s.lead_transferee is Some,
        m.msg_type == MessageType::MsgPropose,
        m.term == 0 || m.term == s.term,
    ensures
        s.step(m) == (s, Err::<(), ErrorView>(ErrorView::ProposalDropped)),
{
}

// Configuration changes.
/// At most one configuration change of a proposal is let through, and none while one may be
/// pending: only if the applied index is greater than that of the last change, and no membership
/// change is under way. One that is let through is pending from then on. All other entries stay.
pub proof fn law_one_change_at_a_time<T: Storage>(s: RaftView<T>, es: Seq<EntryView>)
    requires
        s.wf(),
        s.raft_log.last() + es.len() < u64::MAX,
    ensures
        conf_changes(s.admitted(es).0) <= 1,
        s.has_pending_conf() ==> conf_changes(s.admitted(es).0) == 0 && s.admitting(
            es,
        ).has_pending_conf(),
        conf_changes(s.admitted(es).0) > 0 ==> s.raft_log.applied > s.pending_conf_index
            && s.pending_membership_change is None && s.admitting(es).has_pending_conf(),
        forall|i: int|
            0 <= i < es.len() && es[i].entry_type != EntryType::EntryConfChange
                ==> s.admitted(es).0[i] == #[trigger] es[i],
    decreases es.len(),
{
    s.lemma_admitted_len(es);
    if es.len() > 0 {
        let before = es.drop_last();
        law_one_change_at_a_time(s, before);
        s.lemma_admitted_len(before);
        assert(s.admitted(es).0.drop_last() =~= s.admitted(before).0);
        assert forall|i: int| 0 <= i < es.len() && es[i].entry_type
            != EntryType::EntryConfChange implies s.admitted(es).0[i] == #[trigger] es[i] by {
            if i < before.len() {
                assert(before[i] == es[i]);
                assert(s.admitted(es).0[i] == s.admitted(before).0[i]);
            }
        }
    }
}

/// Once a membership change has ended, only the configuration that it led to is in force,
/// exactly its nodes are left, no change is under way, and its voters are no learners.
pub proof fn law_finalized_change_is_over<T: Storage>(s: RaftView<T>, c: ConfChangeView)
    requires
        s.wf(),
        s.finalize_membership_change(c).1 is Ok,
    ensures
        ({
            let r = s.finalize_membership_change(c).0;
            let next = s.prs().next_configuration->0;
            &&& s.prs().is_in_membership_change()
            &&& !r.prs().is_in_membership_change()
            &&& r.pending_membership_change is None
            &&& r.prs().configuration == next
            &&& r.is_learner == (s.is_learner && !next.voters.contains(s.id))
            &&& forall|id: u64| #[trigger] r.prs().has(id) <==> next.contains(id)
        }),
{
    let next = s.prs().next_configuration->0;
    let t = s.without_old_leader(next);
    crate::progress_set::lemma_kept(t.prs().ids, t.prs().progress, next);
    let r = s.finalize_membership_change(c).0;
    assert forall|id: u64| #[trigger] r.prs().has(id) <==> next.contains(id) by {
        assert(r.prs().ids.contains(id) <==> t.prs().ids.contains(id) && next.contains(id));
        assert(next.contains(id) ==> s.prs().ids.contains(id));
    }
}

/// A leader that a membership change leaves out steps down when the change ends.
pub proof fn law_removed_leader_steps_down<T: Storage>(s: RaftView<T>, c: ConfChangeView)
    requires
        s.finalize_membership_change(c).1 is Ok,
        s.state == StateRole::Leader,
        !s.prs().next_configuration->0.contains(s.leader_id),
    ensures
        s.finalize_membership_change(c).0.state == StateRole::Follower,
        s.finalize_membership_change(c).0.leader_id == INVALID_ID,
{
}

/// A membership change that begins puts both configurations in force: a quorum is one of
/// each, and every node of the next one has a progress. Other changes wait for its index. A
/// learner that it makes a voter is kept from voting no more.
pub proof fn law_begun_change_is_joint<T: Storage>(s: RaftView<T>, c: ConfChangeView, set: Set<u64>)
    requires
        s.wf(),
        s.begin_membership_change(c).1 is Ok,
    ensures
        ({
            let r = s.begin_membership_change(c).0;
            let next = ConfigurationView::from_conf_state(c.configuration->0);
            &&& r.pending_membership_change == Some(c)
            &&& r.pending_conf_index >= c.start_index
            &&& r.prs().configuration == s.prs().configuration
            &&& r.prs().next_configuration == Some(next)
            &&& r.prs().has_quorum(set) <==> s.prs().configuration.has_quorum(set)
                && next.has_quorum(set)
            &&& forall|id: u64| #[trigger] next.contains(id) ==> r.prs().has(id)
            &&& next.voters.contains(s.id) ==> !r.only_learns()
        }),
{
    let t = s.note_change(c);
    let next = ConfigurationView::from_conf_state(c.configuration->0);
    let p = ProgressView {
        recent_active: true,
        paused: false,
        ..ProgressView::new(1, s.max_inflight)
    };
    let new = next.voters + next.learners;
    t.prs().lemma_with_missing(new, p);
    let r = s.begin_membership_change(c).0;
    assert forall|id: u64| #[trigger] next.contains(id) implies r.prs().has(id) by {
        if next.voters.contains(id) {
            assert(new[next.voters.index_of(id)] == id);
        } else {
            assert(new[next.voters.len() + next.learners.index_of(id)] == id);
        }
        assert(new.contains(id));
        assert(t.prs().with_missing(new, p).ids.contains(id));
    }
}

/// A membership change that begins and ends leaves the configuration that it named.
pub proof fn law_change_leads_to_its_configuration<T: Storage>(
    s: RaftView<T>,
    begin: ConfChangeView,
    end: ConfChangeView,
)
    requires
        s.wf(),
        s.begin_membership_change(begin).1 is Ok,
        s.begin_membership_change(begin).0.finalize_membership_change(end).1 is Ok,
    ensures
        s.begin_membership_change(begin).0.finalize_membership_change(end).0.prs().configuration
            == ConfigurationView::from_conf_state(begin.configuration->0),
{
    law_begun_change_is_joint(s, begin, Set::empty());
}

/// A node that is in the cluster already, as a voter or as a learner, is not added again: that
/// is an error, and nothing changes.
pub proof fn law_known_node_is_refused<T: Storage>(s: RaftView<T>, id: u64, learner: bool)
    requires
        s.prs().is_voter(id) || s.prs().is_learner(id),
    ensures
        s.add_voter_or_learner(id, learner) == (
            s,
            Err::<(), ErrorView>(
                ErrorView::Exists(
                    id,
                    if s.prs().is_learner(id) {
                        "learners"@
                    } else {
                        "voters"@
                    },
                ),
            ),
        ),
{
}

/// A node that was added is in the cluster, as a voter or as a learner, and counts as active.
pub proof fn law_added_node_is_there<T: Storage>(s: RaftView<T>, id: u64, learner: bool)
    requires
        s.wf(),
        s.add_voter_or_learner(id, learner).1 is Ok,
    ensures
        ({
            let r = s.add_voter_or_learner(id, learner).0;
            &&& r.prs().has(id)
            &&& r.prs().at(id).recent_active
            &&& r.prs().is_voter(id) == !learner
            &&& r.prs().is_learner(id) == learner
        }),
{
    let prs = s.prs();
    let conf = prs.configuration;
    let added = s.added_prs(id, learner);
    prs.lemma_put(id, s.joining());
    if learner {
        assert(added.configuration.learners.last() == id);
        assert(added.configuration.learners.contains(id));
        assert(!conf.voters.contains(id));
    } else {
        assert(added.configuration.voters.last() == id);
        assert(added.configuration.voters.contains(id));
        assert(!conf.learners.contains(id));
    }
    assert(added.ids.contains(id));
    let k = added.ids.index_of(id);
    assert(added.ids[k] == id);
}

/// A node that was removed is no longer in the cluster.
pub proof fn law_removed_node_is_gone<T: Storage>(s: RaftView<T>, id: u64)
    requires
        s.wf(),
        s.remove_node_ok(id),
        s.remove_node(id).1 is Ok,
    ensures
        ({
            let r = s.remove_node(id).0;
            &&& !r.prs().has(id)
            &&& !r.prs().is_voter(id)
            &&& !r.prs().is_learner(id)
        }),
{
    let prs = s.prs();
    assert(prs.configuration.contains(id));
    assert(prs.ids.contains(id));
    crate::progress_set::lemma_without(prs.configuration.voters, id);
    crate::progress_set::lemma_without(prs.configuration.learners, id);
    crate::progress_set::lemma_without(prs.ids, id);
}

// Reads.
/// The reads that are answered are those that were asked first, in the order in which they
/// were asked, each with its context.
pub proof fn law_reads_are_answered_in_order(r: ReadOnlyView, ctx: Seq<u8>, i: int)
    requires
        r.wf(),
        0 <= i < r.answered(ctx).len(),
    ensures
        r.answered(ctx).len() + r.advance(ctx).queue.len() == r.queue.len(),
        r.answered(ctx)[i] == r.pending[r.queue[i]],
        r.answered(ctx)[i].req.entries[0].data == r.queue[i],
        !r.advance(ctx).pending.contains_key(r.queue[i]),
{
    let n = r.answered_count(ctx);
    assert(r.queue.contains(r.queue[i]));
    assert(r.pending.contains_key(r.queue[i]));
    assert(r.queue.take(n)[i] == r.queue[i]);
    assert(r.queue.take(n).to_set().contains(r.queue[i]));
}

/// A read keeps the index at which it was asked, and its context, while nodes acknowledge it.
pub proof fn law_read_keeps_index(
    r: ReadOnlyView,
    index: u64,
    req: MessageView,
    ack: MessageView,
)
    requires
        r.wf(),
        req.entries.len() > 0,
        !r.pending.contains_key(req.entries[0].data),
    ensures
        ({
            let k = req.entries[0].data;
            let later = r.add_request(index, req).recv_ack(ack);
            later.pending.contains_key(k) && later.pending[k].index == index
                && later.pending[k].req == req
        }),
{
}

/// Each answer to a read of this node has the context of a request of this node, and the
/// index at which that was asked.
pub proof fn law_read_answer_has_context(id: u64, rss: Seq<ReadIndexStatusView>, i: int)
    requires
        0 <= i < own_reads(id, rss).len(),
    ensures
        exists|k: int|
            0 <= k < rss.len() && own_reads(id, rss)[i].index == (#[trigger] rss[k]).index
                && own_reads(id, rss)[i].request_ctx == rss[k].req.entries[0].data && (
            rss[k].req.from == id || rss[k].req.from == INVALID_ID),
    decreases rss.len(),
{
    let before = rss.drop_last();
    let rest = own_reads(id, before);
    if i < rest.len() {
        law_read_answer_has_context(id, before, i);
        let k = choose|k: int|
            0 <= k < before.len() && rest[i].index == (#[trigger] before[k]).index
                && rest[i].request_ctx == before[k].req.entries[0].data && (before[k].req.from
                == id || before[k].req.from == INVALID_ID);
        assert(rss[k] == before[k]);
        assert(own_reads(id, rss)[i] == rest[i]);
    } else {
        assert(rss[rss.len() - 1] == rss.last());
    }
}

/// Each read that is confirmed is answered: at this node, or with a message to the node that it
/// was made at.
pub proof fn law_each_read_is_answered(id: u64, rss: Seq<ReadIndexStatusView>, k: int)
    requires
        0 <= k < rss.len(),
    ensures
        is_own_read(id, rss[k].req.from) ==> own_reads(id, rss).contains(
            ReadStateView { index: rss[k].index, request_ctx: rss[k].req.entries[0].data },
        ),
        !is_own_read(id, rss[k].req.from) ==> remote_reads(id, rss).contains(
            read_response(rss[k].req, rss[k].index),
        ),
    decreases rss.len(),
{
    let own = ReadStateView { index: rss[k].index, request_ctx: rss[k].req.entries[0].data };
    let remote = read_response(rss[k].req, rss[k].index);
    let before = rss.drop_last();
    if k < before.len() {
        law_each_read_is_answered(id, before, k);
        if is_own_read(id, rss[k].req.from) {
            let j = own_reads(id, before).index_of(own);
            assert(own_reads(id, rss)[j] == own);
        } else {
            let j = remote_reads(id, before).index_of(remote);
            assert(remote_reads(id, rss)[j] == remote);
        }
    } else if is_own_read(id, rss[k].req.from) {
        assert(own_reads(id, rss).last() == own);
    } else {
        assert(remote_reads(id, rss).last() == remote);
    }
}

/// A leader that has committed nothing in its term answers no reads.
pub proof fn law_read_waits_for_commit<T: Storage>(s: RaftView<T>, m: MessageView)
    requires
        s.state == StateRole::Leader,
        m.msg_type == MessageType::MsgReadIndex,
        m.term == 0 || m.term == s.term,
        !s.committed_in_term(),
    ensures
        s.step(m) == (s, Ok::<(), ErrorView>(())),
{
}

// What the application does.
/// Where nothing is to be done, nothing is handed out.
pub proof fn law_nothing_ready_is_empty<T: Storage>(node: RawNodeView<T>, since: Option<u64>)
    requires
        !node.has_ready(since),
    ensures
        ({
            let rd = node.ready(since);
            &&& rd.messages.len() == 0
            &&& rd.entries.len() == 0
            &&& rd.read_states.len() == 0
            &&& rd.snapshot.metadata.index == 0
            &&& rd.committed_entries == Some(Seq::<EntryView>::empty())
            &&& rd.ss is None
            &&& rd.hs == Some(HardState::empty())
        }),
{
}

/// Where the hard state must be on disk first, it is handed out.
pub proof fn law_sync_has_hard_state<T: Storage>(node: RawNodeView<T>, since: Option<u64>)
    requires
        node.ready(since).must_sync,
    ensures
        node.ready(since).hs == Some(node.raft.hard_state()),
{
}

/// Whether the indexes of `es` are those from `first` on, one after another.
pub open spec fn numbered_from(es: Seq<EntryView>, first: u64) -> bool {
    forall|i: int| 0 <= i < es.len() ==> (#[trigger] es[i]).index == first + i
}

/// Whether the store of a log gives the entries that it is asked for, with their indexes.
pub open spec fn store_is_numbered<T: Storage>(log: RaftLogView<T>) -> bool {
    forall|lo: u64, hi: u64|
        log.first() <= lo < hi <= log.unstable.offset ==> (#[trigger] log.store.spec_entries(
            lo,
            hi,
            NO_LIMIT,
        ) matches Ok(es) && es.len() == hi - lo && numbered_from(es, lo))
}

/// A store in memory whose entries have the indexes at which they stand gives them as asked for.
pub proof fn law_memory_is_numbered(log: RaftLogView<MemStorage>)
    requires
        log.wf(),
        numbered_from(log.store@.entries, (log.store@.base() + 1) as u64),
    ensures
        store_is_numbered(log),
{
    let base = log.store@.base();
    let kept = log.store@.entries;
    assert forall|lo: u64, hi: u64| log.first() <= lo < hi <= log.unstable.offset implies (
    #[trigger] log.store.spec_entries(lo, hi, NO_LIMIT) matches Ok(es) && es.len() == hi - lo
        && numbered_from(es, lo)) by {
        assert(entries_ok(log.store.spec_entries(lo, hi, NO_LIMIT)));
        let es = log.store.spec_entries(lo, hi, NO_LIMIT)->Ok_0;
        assert forall|i: int| 0 <= i < es.len() implies (#[trigger] es[i]).index == lo + i by {
            assert(es[i] == kept[lo + i - base - 1]);
        }
    }
}

/// What is handed out to be applied is each committed entry behind `since`, in order, and none
/// up to it. That is of a store that gives the entries that it is asked for, and of unsaved
/// entries that have the indexes at which they stand.
pub proof fn law_entries_are_handed_out_once<T: Storage>(log: RaftLogView<T>, since: u64)
    requires
        log.wf(),
        store_is_numbered(log),
        numbered_from(log.unstable.entries, log.unstable.offset),
    ensures
        log.next_since(since) matches Some(es) ==> {
            &&& es.len() == log.committed + 1 - log.next_from(since)
            &&& forall|i: int|
                0 <= i < es.len() ==> (#[trigger] es[i]).index == log.next_from(since) + i
                    && es[i].index > since
        },
        log.next_since(since) is None ==> log.committed <= since || log.committed < log.first(),
{
    if log.has_next_since(since) {
        let lo = log.next_from(since);
        let hi = log.committed + 1;
        let offset = log.unstable.offset;
        let stable_hi = if hi < offset {
            hi
        } else {
            offset as int
        };
        let es = log.next_since(since)->0;
        let stable = log.store.spec_entries(lo as u64, stable_hi as u64, NO_LIMIT);
        assert forall|i: int| 0 <= i < es.len() implies (#[trigger] es[i]).index == lo + i by {
            if lo + i < offset {
                assert(es[i] == stable->Ok_0[i]);
            } else {
                assert(es[i] == log.unstable.entries[lo + i - offset]);
            }
        }
    }
}

/// Once what was handed out is saved, and marked as done, nothing is left to be done, unless a
/// leader puts in the end of a membership change at that: everything that is committed is
/// applied, no read waits to be answered, and term, vote, role and leader are the same. `store`
/// is the store after the application has saved what it was given; it may be the one before. The
/// last of the unsaved entries has the index at which it stands: by that index it is marked as
/// saved.
pub proof fn law_advance_settles<T: Storage>(node: RawNodeView<T>, store: T)
    requires
        node.raft.wf(),
        ({
            let u = node.raft.raft_log.unstable;
            u.entries.len() > 0 ==> u.entries.last().index == u.offset + u.entries.len() - 1
        }),
        node.taken().with_store(store).advance_ok(node.ready(None)),
        !(node.raft.state == StateRole::Leader && node.raft.is_change_due(
            node.raft.raft_log.committed,
        )),
    ensures
        ({
            let r = node.taken().with_store(store).advance(node.ready(None));
            &&& !r.has_ready(None)
            &&& r.raft.raft_log.applied == r.raft.raft_log.committed
            &&& r.raft.raft_log.committed == node.raft.raft_log.committed
            &&& r.raft.raft_log.store == store
            &&& r.raft.read_states.len() == 0
            &&& r.raft.term == node.raft.term
            &&& r.raft.vote == node.raft.vote
            &&& r.raft.state == node.raft.state
            &&& r.raft.leader_id == node.raft.leader_id
        }),
{
    let rd = node.ready(None);
    let u = node.raft.raft_log.unstable;
    let s = node.taken().with_store(store).commit_ready(rd);
    if u.entries.len() > 0 {
        assert(u.entries.last() == u.entries[u.entries.len() - 1]);
        assert(u.maybe_term(u.entries.last().index) == Some(u.entries.last().term));
    }
    assert(s.raft.raft_log.unstable.entries.len() == 0);
    if node.raft.hard_state() != HardState::empty() {
        assert(s.prev_hs == node.raft.hard_state());
    }
}

// The store in memory.
/// A store in memory gives back the entries that were saved last, and keeps those before
/// them.
pub proof fn law_store_gives_back(
    store: MemStorage,
    later: MemStorage,
    first: u64,
    ents: Seq<EntryView>,
)
    requires
        store@.base() < first <= store@.last() + 1,
        first + ents.len() <= u64::MAX,
        later@ == store@.append(first, ents),
    ensures
        later.spec_entries(first, (first + ents.len()) as u64, NO_LIMIT) == Ok::<
            Seq<EntryView>,
            ErrorView,
        >(ents),
        forall|lo: u64, hi: u64|
            store@.base() < lo <= hi <= first ==> #[trigger] later.spec_entries(lo, hi, NO_LIMIT)
                == store.spec_entries(lo, hi, NO_LIMIT),
{
    let n = first - store@.base() - 1;
    assert(later@.entries.subrange(n, n + ents.len()) =~= ents);
    assert forall|lo: u64, hi: u64| store@.base() < lo <= hi <= first implies #[trigger] later.spec_entries(
        lo,
        hi,
        NO_LIMIT,
    ) == store.spec_entries(lo, hi, NO_LIMIT) by {
        let a = lo - store@.base() - 1;
        let b = hi - store@.base() - 1;
        assert(later@.entries.subrange(a, b) =~= store@.entries.subrange(a, b));
    }
}

/// Entries can be put into the store while they are still marked as unsaved: the log stays
/// valid, and has the same at each index.
pub proof fn law_saving_leaves_log_valid(log: RaftLogView<MemStorage>, store: MemStorage)
    requires
        log.wf(),
        log.unstable.snapshot is None,
        log.unstable.entries.len() > 0,
        store@ == log.store@.append(log.unstable.offset, log.unstable.entries),
    ensures
        (RaftLogView { store, ..log }).wf(),
        forall|idx: u64|
            log.first() <= idx <= log.last() ==> #[trigger] log.agrees_at(
                (RaftLogView { store, ..log }),
                idx,
            ),
{
    let later = RaftLogView { store, ..log };
    let offset = log.unstable.offset;
    let base = log.store@.base();
    assert(log.store.spec_term((offset - 1) as u64) is Ok);
    assert forall|i: u64|
        later.first() - 1 <= i < offset && later.unstable.maybe_term(i) is None implies (
    #[trigger] store.spec_term(i)) is Ok by {
        assert(log.store.spec_term(i) is Ok);
    }
    assert forall|lo: u64, hi: u64, max: u64| later.first() <= lo < hi <= offset implies entries_ok(
        #[trigger] store.spec_entries(lo, hi, max),
    ) by {
        assert(entries_ok(log.store.spec_entries(lo, hi, max)));
        assert(store@.entries.subrange(lo - base - 1, hi - base - 1)
            =~= log.store@.entries.subrange(lo - base - 1, hi - base - 1));
    }
    assert forall|idx: u64| log.first() <= idx <= log.last() implies #[trigger] log.agrees_at(
        later,
        idx,
    ) by {
        let k = idx - base - 1;
        if idx < offset {
            assert(log.store.spec_term(idx) is Ok);
            assert(store@.entries.subrange(k, k + 1) =~= log.store@.entries.subrange(k, k + 1));
        }
    }
}

/// What the store in memory has kept leaves room for one more index.
proof fn lemma_kept_index(log: RaftLogView<MemStorage>, k: int)
    requires
        log.wf(),
        log.unstable.snapshot is None,
        0 <= k < log.unstable.offset - log.store@.base() - 1,
    ensures
        k < log.store@.entries.len(),
        log.store@.entries[k].index < u64::MAX,
{
    let at = (log.store@.base() + 1 + k) as u64;
    let one = log.store.spec_entries(at, (at + 1) as u64, NO_LIMIT);
    assert(entries_ok(one));
    assert(one->Ok_0[0] == log.store@.entries[k]);
}

/// A log that is all in a store in memory is valid.
proof fn lemma_stored_log_wf(log: RaftLogView<MemStorage>)
    requires
        log.unstable.snapshot is None,
        log.unstable.entries.len() == 0,
        log.unstable.offset == log.store@.last() + 1,
        log.store@.last() < u64::MAX,
        indexes_ok(log.store@.entries),
        log.store@.base() <= log.committed <= log.store@.last(),
        log.applied <= log.committed,
    ensures
        log.wf(),
{
    let base = log.store@.base();
    assert forall|lo: u64, hi: u64, max: u64|
        log.first() <= lo < hi <= log.unstable.offset implies entries_ok(
        #[trigger] log.store.spec_entries(lo, hi, max),
    ) by {
        let range = log.store@.entries.subrange(lo - base - 1, hi - base - 1);
        crate::util::lemma_limited_prefix(range, max);
        assert forall|i: int| 0 <= i < range.len() implies (#[trigger] range[i]).index
            < u64::MAX by {
            assert(range[i] == log.store@.entries[lo - base - 1 + i]);
        }
    }
}

/// Whether `store` has saved what `rd` holds, besides what `before` has: the snapshot in the
/// place of everything, if there is one, and the entries from the index of the first of them on.
pub open spec fn has_saved(store: MemStorageView, before: MemStorageView, rd: ReadyView) -> bool {
    if rd.snapshot.metadata.index != 0 {
        store.snapshot == rd.snapshot && store.entries == rd.entries
    } else {
        store.snapshot == before.snapshot && store.entries == (if rd.entries.len() == 0 {
            before.entries
        } else {
            before.append(rd.entries[0].index, rd.entries).entries
        })
    }
}

/// Once a store in memory has saved what was handed out, that can be marked as done: by
/// [`law_advance_settles`] nothing is left to be done then. The unsaved entries have the indexes
/// at which they stand, and follow the unsaved snapshot, if there is one; the hard state that was
/// handed out last is not ahead of an empty one.
pub proof fn law_saved_is_done(node: RawNodeView<MemStorage>, store: MemStorage)
    requires
        node.raft.wf(),
        numbered_from(
            node.raft.raft_log.unstable.entries,
            node.raft.raft_log.unstable.offset,
        ),
        node.raft.raft_log.unstable.snapshot matches Some(snap) ==> 0 < snap.metadata.index
            && node.raft.raft_log.unstable.offset == snap.metadata.index + 1,
        node.raft.hard_state() == HardState::empty() ==> node.prev_hs.commit == 0,
        has_saved(store@, node.raft.raft_log.store@, node.ready(None)),
        store@.last() < u64::MAX,
        !(node.raft.state == StateRole::Leader && node.raft.is_change_due(
            node.raft.raft_log.committed,
        )),
    ensures
        node.taken().with_store(store).advance_ok(node.ready(None)),
{
    let rd = node.ready(None);
    let log = node.raft.raft_log;
    let u = log.unstable;
    let s = node.taken().with_store(store).commit_ready(rd);
    let later = s.raft.raft_log;
    let base = log.store@.base();
    if u.entries.len() > 0 {
        assert(u.entries.last() == u.entries[u.entries.len() - 1]);
        assert(u.maybe_term(u.entries.last().index) == Some(u.entries.last().term));
    }
    assert(later.unstable.entries.len() == 0);
    assert(later.unstable.snapshot is None);
    assert(later.unstable.offset == log.last() + 1);
    if u.snapshot is None {
        assert(log.store.spec_term((u.offset - 1) as u64) is Ok);
        assert forall|k: int| 0 <= k < store@.entries.len() implies (
        #[trigger] store@.entries[k]).index < u64::MAX by {
            let n = u.offset - base - 1;
            if k < n {
                lemma_kept_index(log, k);
                assert(store@.entries[k] == log.store@.entries[k]);
            } else {
                assert(u.entries.len() > 0);
                assert(u.entries[0].index == u.offset);
                assert(store@.entries[k] == u.entries[k - n]);
            }
        }
    }
    lemma_stored_log_wf(later);
}

/// Once the entries that were to be saved are in the store, and marked as saved, the log is
/// the same as before: it is valid, ends where it ended, and has the same at each index.
pub proof fn law_saved_log_is_the_same(log: RaftLogView<MemStorage>, later: RaftLogView<MemStorage>)
    requires
        log.wf(),
        log.unstable.snapshot is None,
        log.unstable.entries.len() > 0,
        numbered_from(log.unstable.entries, log.unstable.offset),
        later.store@ == log.store@.append(log.unstable.offset, log.unstable.entries),
        later == (RaftLogView {
            store: later.store,
            unstable: log.unstable.stable_to(
                log.unstable.entries.last().index,
                log.unstable.entries.last().term,
            ),
            ..log
        }),
    ensures
        later.wf(),
        later.first() == log.first(),
        later.last() == log.last(),
        forall|idx: u64| log.first() <= idx <= log.last() ==> #[trigger] log.agrees_at(later, idx),
{
    let es = log.unstable.entries;
    let offset = log.unstable.offset;
    assert(es.last() == es[es.len() - 1]);
    assert(log.unstable.maybe_term(es.last().index) == Some(es.last().term));
    assert(later.unstable.entries.len() == 0);
    assert(log.store.spec_term((offset - 1) as u64) is Ok);
    let base = log.store@.base();
    let n = offset - base - 1;
    assert(later.store@.entries.len() == n + es.len());
    assert forall|k: int| 0 <= k < later.store@.entries.len() implies (
    #[trigger] later.store@.entries[k]).index < u64::MAX by {
        if k < n {
            lemma_kept_index(log, k);
            assert(later.store@.entries[k] == log.store@.entries[k]);
        } else {
            assert(later.store@.entries[k] == es[k - n]);
        }
    }
    lemma_stored_log_wf(later);
    assert forall|idx: u64| log.first() <= idx <= log.last() implies #[trigger] log.agrees_at(
        later,
        idx,
    ) by {
        let k = idx - base - 1;
        assert(later.store@.entries.subrange(k, k + 1)[0] == later.store@.entries[k]);
        if idx < offset {
            assert(log.store@.entries.subrange(k, k + 1)[0] == log.store@.entries[k]);
            assert(later.store@.entries[k] == log.store@.entries[k]);
            assert(log.store.spec_term(idx) is Ok);
        } else {
            assert(later.store@.entries[k] == es[k - n]);
        }
    }
}

} // verus!
