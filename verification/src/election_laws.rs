//! How a leader is elected: who is asked, who answers what, and who wins.
use crate::eraftpb::{
    ConfChangeType, ConfChangeView, EntryType, EntryView, MessageType, MessageView,
};
use crate::errors::ErrorView;
use crate::progress::ProgressState;
use crate::progress_set::{
    count_in, lemma_distinct, voted, CandidacyStatus, ProgressSetView,
};
use crate::raft::{StateRole, INVALID_ID};
use crate::raft_model::{
    change_entry, conf_changes, is_leader_msg, is_vote_request, lemma_campaign_names,
    pre_election, transfer, RaftView,
};
use crate::storage::Storage;
use crate::util::NO_LIMIT;
use vstd::prelude::*;

verus! {

proof fn lemma_count_is_len(ids: Seq<u64>, set: Set<u64>)
    requires
        ids.no_duplicates(),
    ensures
        ids.to_set().intersect(set).finite(),
        count_in(ids, set) == ids.to_set().intersect(set).len(),
        ids.to_set().len() == ids.len(),
    decreases ids.len(),
{
    ids.unique_seq_to_set();
    if ids.len() == 0 {
        assert(ids.to_set().intersect(set) =~= Set::empty());
    } else {
        let rest = ids.drop_last();
        let last = ids.last();
        lemma_count_is_len(rest, set);
        assert(!rest.contains(last)) by {
            if rest.contains(last) {
                let j = rest.index_of(last);
                assert(ids[j] == ids[ids.len() - 1]);
            }
        }
        assert forall|x: u64| ids.contains(x) <==> rest.contains(x) || x == last by {
            if ids.contains(x) {
                let j = ids.index_of(x);
                if j < rest.len() {
                    assert(rest[j] == x);
                }
            }
            if rest.contains(x) {
                let j = rest.index_of(x);
                assert(ids[j] == x);
            }
            assert(ids[ids.len() - 1] == last);
        }
        let before = rest.to_set().intersect(set);
        if set.contains(last) {
            assert(ids.to_set().intersect(set) =~= before.insert(last));
        } else {
            assert(ids.to_set().intersect(set) =~= before);
        }
    }
}

/// A quorum of a configuration is more than half of its voters, no more and no less. During a
/// membership change it takes that of both configurations.
pub proof fn law_quorum_is_a_majority(prs: ProgressSetView, set: Set<u64>)
    requires
        prs.wf(),
    ensures
        ({
            let now = prs.configuration.voters.to_set();
            &&& prs.next_configuration is None ==> (prs.has_quorum(set) <==> 2 * now.intersect(
                set,
            ).len() > now.len())
            &&& prs.next_configuration matches Some(next) ==> (prs.has_quorum(set) <==> 2
                * now.intersect(set).len() > now.len() && 2 * next.voters.to_set().intersect(
                set,
            ).len() > next.voters.to_set().len())
        }),
{
    lemma_count_is_len(prs.configuration.voters, set);
    if let Some(next) = prs.next_configuration {
        lemma_count_is_len(next.voters, set);
    }
}

/// A candidate has won if and only if a quorum is for it; otherwise it has lost if and only if
/// more than half of the voters of one of the configurations are against it.
pub proof fn law_when_a_candidate_wins_or_loses(prs: ProgressSetView, votes: Map<u64, bool>)
    requires
        prs.wf(),
    ensures
        ({
            let yes = Set::new(|id: u64| votes.contains_key(id) && votes[id]);
            let no = Set::new(|id: u64| votes.contains_key(id) && !votes[id]);
            let now = prs.configuration.voters.to_set();
            let lost = 2 * now.intersect(no).len() > now.len() || (
            prs.next_configuration matches Some(next) && 2 * next.voters.to_set().intersect(
                no,
            ).len() > next.voters.to_set().len());
            &&& prs.candidacy_status(votes) == CandidacyStatus::Elected <==> prs.has_quorum(yes)
            &&& prs.candidacy_status(votes) == CandidacyStatus::Ineligible <==> lost
                && !prs.has_quorum(yes)
        }),
{
    let yes = Set::new(|id: u64| votes.contains_key(id) && votes[id]);
    let no = Set::new(|id: u64| votes.contains_key(id) && !votes[id]);
    assert(voted(votes, true) =~= yes);
    assert(voted(votes, false) =~= no);
    lemma_count_is_len(prs.configuration.voters, no);
    if let Some(next) = prs.next_configuration {
        lemma_count_is_len(next.voters, no);
    }
}

proof fn lemma_request_goes_out<T: Storage>(
    s: RaftView<T>,
    ids: Seq<u64>,
    kind: MessageType,
    term: u64,
    campaign: Seq<u8>,
    k: int,
) -> (j: int)
    requires
        0 <= k < ids.len(),
        ids[k] != s.id,
    ensures
        0 <= j < s.vote_requests(ids, kind, term, campaign).len(),
        s.vote_requests(ids, kind, term, campaign)[j] == s.stamped(
            s.vote_request(ids[k], kind, term, campaign),
        ),
    decreases ids.len(),
{
    if k == ids.len() - 1 {
        s.vote_requests(ids, kind, term, campaign).len() - 1
    } else {
        let j = lemma_request_goes_out(s, ids.drop_last(), kind, term, campaign, k);
        assert(s.vote_requests(ids, kind, term, campaign)[j] == s.vote_requests(
            ids.drop_last(),
            kind,
            term,
            campaign,
        )[j]);
        j
    }
}

proof fn lemma_request_has_receiver<T: Storage>(
    s: RaftView<T>,
    ids: Seq<u64>,
    kind: MessageType,
    term: u64,
    campaign: Seq<u8>,
    j: int,
) -> (k: int)
    requires
        0 <= j < s.vote_requests(ids, kind, term, campaign).len(),
    ensures
        0 <= k < ids.len(),
        ids[k] != s.id,
        s.vote_requests(ids, kind, term, campaign)[j] == s.stamped(
            s.vote_request(ids[k], kind, term, campaign),
        ),
    decreases ids.len(),
{
    let rest = s.vote_requests(ids.drop_last(), kind, term, campaign);
    if j < rest.len() {
        let k = lemma_request_has_receiver(s, ids.drop_last(), kind, term, campaign, j);
        assert(s.vote_requests(ids, kind, term, campaign)[j] == rest[j]);
        k
    } else {
        ids.len() - 1
    }
}

proof fn lemma_voter_ids(prs: ProgressSetView, id: u64)
    ensures
        prs.voter_ids().contains(id) <==> prs.is_voter(id),
{
    let now = prs.configuration.voters;
    if let Some(next) = prs.next_configuration {
        let both = now + next.voters;
        lemma_distinct(both);
        if now.contains(id) {
            assert(both[now.index_of(id)] == id);
        }
        if next.voters.contains(id) {
            assert(both[now.len() + next.voters.index_of(id)] == id);
        }
        if both.contains(id) {
            let j = both.index_of(id);
            if j < now.len() {
                assert(now[j] == id);
            } else {
                assert(next.voters[j - now.len()] == id);
            }
        }
    }
}

/// The request for a vote that the node in state `s` sends to `to`: it names the end of the log,
/// and says so if the leader has asked for the election.
pub open spec fn request_to<T: Storage>(
    s: RaftView<T>,
    to: u64,
    kind: MessageType,
    by_leader: bool,
) -> MessageView {
    MessageView {
        msg_type: kind,
        from: s.id,
        to,
        term: if kind == MessageType::MsgRequestVote {
            s.term
        } else {
            (s.term + 1) as u64
        },
        index: s.raft_log.last() as u64,
        log_term: s.raft_log.term(s.raft_log.last() as u64),
        context: if by_leader {
            "CampaignTransfer"@.map_values(|c: char| c as u8)
        } else {
            Seq::empty()
        },
        ..MessageView::empty()
    }
}

/// Whether the node `id` is asked for its vote in a message of `r` from place `from` on.
pub open spec fn is_asked<T: Storage>(
    r: RaftView<T>,
    from: nat,
    id: u64,
    kind: MessageType,
    by_leader: bool,
) -> bool {
    exists|i: int|
        from <= i < r.msgs.len() && #[trigger] r.msgs[i] == request_to(r, id, kind, by_leader)
}

/// Whether `r` is a state in which the node of `s` asks for votes: exactly the other voters are
/// asked, learners are not, and messages have only come in addition.
pub open spec fn asks_all_voters<T: Storage>(
    s: RaftView<T>,
    r: RaftView<T>,
    kind: MessageType,
    by_leader: bool,
) -> bool {
    &&& s.msgs.len() <= r.msgs.len()
    &&& forall|i: int| 0 <= i < s.msgs.len() ==> r.msgs[i] == s.msgs[i]
    &&& forall|id: u64|
        s.prs().is_voter(id) && id != s.id ==> #[trigger] is_asked(
            r,
            s.msgs.len(),
            id,
            kind,
            by_leader,
        )
    &&& forall|i: int|
        s.msgs.len() <= i < r.msgs.len() ==> {
            let m = #[trigger] r.msgs[i];
            s.prs().is_voter(m.to) && m.to != s.id && m == request_to(r, m.to, kind, by_leader)
        }
}

proof fn lemma_requests<T: Storage>(
    s: RaftView<T>,
    r: RaftView<T>,
    kind: MessageType,
    term: u64,
    campaign: Seq<u8>,
)
    requires
        is_vote_request(kind),
        kind == MessageType::MsgRequestVote ==> term == s.term,
        kind == MessageType::MsgRequestPreVote ==> term == s.term + 1,
        r == s.request_votes(kind, term, campaign),
    ensures
        r == (RaftView { msgs: r.msgs, ..s }),
        asks_all_voters(s, r, kind, campaign == transfer()),
{
    let by_leader = campaign == transfer();
    let ids = s.prs().voter_ids();
    let all = s.vote_requests(ids, kind, term, campaign);
    let n = s.msgs.len();
    assert forall|id: u64| s.prs().is_voter(id) && id != s.id implies #[trigger] is_asked(
        r,
        n,
        id,
        kind,
        by_leader,
    ) by {
        lemma_voter_ids(s.prs(), id);
        let k = ids.index_of(id);
        let j = lemma_request_goes_out(s, ids, kind, term, campaign, k);
        assert(r.msgs[n + j] == all[j]);
        assert(all[j] =~= request_to(r, id, kind, by_leader));
    }
    assert forall|i: int| n <= i < r.msgs.len() implies {
        let m = #[trigger] r.msgs[i];
        s.prs().is_voter(m.to) && m.to != s.id && m == request_to(r, m.to, kind, by_leader)
    } by {
        let j = i - n;
        assert(r.msgs[i] == all[j]);
        let k = lemma_request_has_receiver(s, ids, kind, term, campaign, j);
        assert(ids.contains(ids[k]));
        lemma_voter_ids(s.prs(), ids[k]);
        assert(all[j] =~= request_to(r, ids[k], kind, by_leader));
    }
}

/// A node that stands for election, and is no quorum by itself, is a candidate in the next term.
/// It has its own vote and no other, knows no leader, keeps its log, and asks all other voters.
pub proof fn law_candidate_asks_for_votes<T: Storage>(s: RaftView<T>, campaign: Seq<u8>)
    requires
        s.wf(),
        s.campaign_ok(campaign),
        campaign != pre_election(),
        !s.is_alone(),
    ensures
        ({
            let r = s.campaign(campaign);
            &&& r.state == StateRole::Candidate
            &&& r.term == s.term + 1
            &&& r.vote == s.id
            &&& r.votes == Map::<u64, bool>::empty().insert(s.id, true)
            &&& r.leader_id == INVALID_ID
            &&& r.lead_transferee is None
            &&& r.election_elapsed == 0
            &&& r.raft_log == s.raft_log
            &&& r.read_states == s.read_states
            &&& r.is_learner == s.is_learner
            &&& r.pending_membership_change == s.pending_membership_change
            &&& r.prs().configuration == s.prs().configuration
            &&& r.prs().next_configuration == s.prs().next_configuration
            &&& asks_all_voters(s, r, MessageType::MsgRequestVote, campaign == transfer())
            &&& r == (RaftView {
                state: StateRole::Candidate,
                vote: s.id,
                votes: Map::<u64, bool>::empty().insert(s.id, true),
                msgs: r.msgs,
                ..s.become_follower((s.term + 1) as u64, 0)
            })
        }),
{
    let c = s.standing();
    assert(voted(c.votes, true) =~= Set::<u64>::empty().insert(s.id));
    let r = s.campaign(campaign);
    lemma_requests(c, r, MessageType::MsgRequestVote, c.term, campaign);
    assert forall|id: u64| s.prs().is_voter(id) implies c.prs().is_voter(id) by {}
}

/// A node that asks for pre-votes first, and is no quorum by itself, keeps its term, its vote and
/// its log. It has its own pre-vote and no other, knows no leader, and asks all other voters.
pub proof fn law_pre_candidate_asks_for_pre_votes<T: Storage>(s: RaftView<T>)
    requires
        s.wf(),
        s.campaign_ok(pre_election()),
        !s.is_alone(),
    ensures
        ({
            let r = s.campaign(pre_election());
            &&& r == (RaftView {
                state: StateRole::PreCandidate,
                votes: Map::<u64, bool>::empty().insert(s.id, true),
                leader_id: INVALID_ID,
                msgs: r.msgs,
                ..s
            })
            &&& asks_all_voters(s, r, MessageType::MsgRequestPreVote, false)
        }),
{
    lemma_campaign_names();
    let c = s.pre_standing();
    assert(voted(c.votes, true) =~= Set::<u64>::empty().insert(s.id));
    let r = s.campaign(pre_election());
    lemma_requests(
        c,
        r,
        MessageType::MsgRequestPreVote,
        (c.term + 1) as u64,
        pre_election(),
    );
}

/// A node that is a quorum by itself is the leader of the next term as soon as it campaigns, with
/// pre-votes or without.
pub proof fn law_single_node_wins_at_once<T: Storage>(s: RaftView<T>, campaign: Seq<u8>)
    requires
        s.wf(),
        s.campaign_ok(campaign),
        s.is_alone(),
    ensures
        s.campaign(campaign).state == StateRole::Leader,
        s.campaign(campaign).term == s.term + 1,
        s.campaign(campaign).vote == s.id,
        s.campaign(campaign).leader_id == s.id,
        s.campaign(campaign) == (RaftView {
            state: StateRole::Candidate,
            vote: s.id,
            votes: Map::<u64, bool>::empty().insert(s.id, true),
            ..s.become_follower((s.term + 1) as u64, 0)
        }).become_leader(),
{
    lemma_campaign_names();
    let p = s.pre_standing();
    assert(voted(p.votes, true) =~= Set::<u64>::empty().insert(s.id));
    let a = if campaign == pre_election() {
        p
    } else {
        s
    };
    let c = a.standing();
    assert(voted(c.votes, true) =~= Set::<u64>::empty().insert(s.id));
    c.lemma_become_leader();
    assert(c == RaftView {
        state: StateRole::Candidate,
        vote: s.id,
        votes: Map::<u64, bool>::empty().insert(s.id, true),
        ..s.become_follower((s.term + 1) as u64, 0)
    });
}

/// A timeout makes a node campaign, with pre-votes if those are in use, unless it is the leader
/// or has a committed configuration change to apply: then nothing happens.
pub proof fn law_timeout_leads_to_campaign<T: Storage>(s: RaftView<T>, m: MessageView)
    requires
        m.msg_type == MessageType::MsgHup,
        m.term == 0,
    ensures
        s.state == StateRole::Leader || s.change_unapplied() ==> s.step(m) == (
            s,
            Ok::<(), ErrorView>(()),
        ),
        s.state != StateRole::Leader && !s.change_unapplied() ==> s.step(m) == (
            s.campaign(
                if s.pre_vote {
                    "CampaignPreElection"@.map_values(|c: char| c as u8)
                } else {
                    "CampaignElection"@.map_values(|c: char| c as u8)
                },
            ),
            Ok::<(), ErrorView>(()),
        ),
{
}

/// Each request for a vote or a pre-vote that a node handles gets one answer. It is granted if
/// and only if the node is not kept from voting as a learner, has not voted for another in this
/// term, knows no leader unless it has voted for the sender already, or is asked for a pre-vote
/// for a later term; and the log of the sender is at least as recent. A vote that is given is
/// remembered, a pre-vote is not. A granted request is answered in its own term, a refused one in
/// that of the node. Nothing else changes.
pub proof fn law_vote_request_is_answered<T: Storage>(s: RaftView<T>, m: MessageView)
    requires
        is_vote_request(m.msg_type),
        s.goes_on(m),
    ensures
        ({
            let c = s.check_term(m);
            let last = c.raft_log.last();
            let last_term = c.raft_log.term(last as u64);
            let may = c.vote == m.from || (c.vote == 0 && c.leader_id == 0) || (m.msg_type
                == MessageType::MsgRequestPreVote && m.term > c.term);
            let recent = m.log_term > last_term || (m.log_term == last_term && m.index >= last);
            let granted = may && recent && !(c.is_learner && !c.prs().is_voter(c.id));
            let for_real = m.msg_type == MessageType::MsgRequestVote;
            s.step(m) == (
                RaftView {
                    vote: if granted && for_real {
                        m.from
                    } else {
                        c.vote
                    },
                    election_elapsed: if granted && for_real {
                        0
                    } else {
                        c.election_elapsed
                    },
                    msgs: c.msgs.push(
                        MessageView {
                            msg_type: if for_real {
                                MessageType::MsgRequestVoteResponse
                            } else {
                                MessageType::MsgRequestPreVoteResponse
                            },
                            from: s.id,
                            to: m.from,
                            term: if granted {
                                m.term
                            } else {
                                c.term
                            },
                            reject: !granted,
                            ..MessageView::empty()
                        },
                    ),
                    ..c
                },
                Ok::<(), ErrorView>(()),
            )
        }),
{
    let c = s.check_term(m);
    assert(c.raft_log.last_term() == c.raft_log.term(c.raft_log.last() as u64));
}

/// A message of a later term makes the node a follower in that term, without a vote, and with the
/// sender as the leader if only a leader sends such messages. A request for a pre-vote does not,
/// nor does a granted pre-vote, nor what is ignored as the leader is there. The log stays.
pub proof fn law_later_term_is_adopted<T: Storage>(s: RaftView<T>, m: MessageView)
    requires
        m.term > s.term,
        m.msg_type != MessageType::MsgRequestPreVote,
        m.msg_type == MessageType::MsgRequestPreVoteResponse ==> m.reject,
        m.msg_type == MessageType::MsgRequestVote ==> m.context == transfer() || !s.check_quorum
            || s.leader_id == 0 || s.election_elapsed >= s.election_timeout,
    ensures
        ({
            let c = s.check_term(m);
            let of_leader = m.msg_type == MessageType::MsgAppend || m.msg_type
                == MessageType::MsgHeartbeat || m.msg_type == MessageType::MsgSnapshot;
            &&& s.step(m) == c.step(m)
            &&& c == s.become_follower(
                m.term,
                if of_leader {
                    m.from
                } else {
                    0
                },
            )
            &&& c.term == m.term
            &&& c.vote == INVALID_ID
            &&& c.state == StateRole::Follower
            &&& c.leader_id == (if of_leader {
                m.from
            } else {
                INVALID_ID
            })
            &&& c.lead_transferee is None
            &&& c.votes == Map::<u64, bool>::empty()
            &&& c.election_elapsed == 0
            &&& c.raft_log == s.raft_log
            &&& c.msgs == s.msgs
            &&& c.prs().configuration == s.prs().configuration
        }),
{
}

/// A message of this term, or of no term, is handled in the state as it is; so are a request for
/// a pre-vote for a later term, and a pre-vote that is granted.
pub proof fn law_term_is_kept<T: Storage>(s: RaftView<T>, m: MessageView)
    requires
        m.term == 0 || m.term == s.term || (m.term > s.term && (m.msg_type
            == MessageType::MsgRequestPreVoteResponse && !m.reject || m.msg_type
            == MessageType::MsgRequestPreVote && (m.context == transfer() || !s.check_quorum
            || s.leader_id == 0 || s.election_elapsed >= s.election_timeout))),
    ensures
        s.step(m) == s.dispatch(m),
        s.check_term(m) == s,
{
}

/// A leader of an earlier term is told of this one, where the quorum is checked or pre-votes are
/// in use; a request for a pre-vote of an earlier term is refused in this one. Other messages of
/// earlier terms are not answered.
pub proof fn law_old_terms_are_answered<T: Storage>(s: RaftView<T>, m: MessageView)
    requires
        0 < m.term < s.term,
    ensures
        ({
            let told = (s.check_quorum || s.pre_vote) && (m.msg_type == MessageType::MsgHeartbeat
                || m.msg_type == MessageType::MsgAppend);
            let refused = m.msg_type == MessageType::MsgRequestPreVote;
            s.step(m).0 == (if told {
                RaftView {
                    msgs: s.msgs.push(
                        MessageView {
                            msg_type: MessageType::MsgAppendResponse,
                            from: s.id,
                            to: m.from,
                            term: s.term,
                            ..MessageView::empty()
                        },
                    ),
                    ..s
                }
            } else if refused {
                RaftView {
                    msgs: s.msgs.push(
                        MessageView {
                            msg_type: MessageType::MsgRequestPreVoteResponse,
                            from: s.id,
                            to: m.from,
                            term: s.term,
                            reject: true,
                            ..MessageView::empty()
                        },
                    ),
                    ..s
                }
            } else {
                s
            })
        }),
{
}

/// A candidate notes each answer to its request as the vote of the sender. With a quorum for it,
/// it is the leader of its term, and sends everyone what is due; with more than half of the voters
/// of a configuration against it, it is a follower in its term, and keeps its vote; otherwise it
/// goes on waiting.
pub proof fn law_candidate_counts_votes<T: Storage>(s: RaftView<T>, m: MessageView)
    requires
        s.wf(),
        s.step_ok(m),
        s.state == StateRole::Candidate,
        m.msg_type == MessageType::MsgRequestVoteResponse,
        m.term == 0 || m.term == s.term,
    ensures
        ({
            let r = s.step(m).0;
            let votes = s.votes.insert(m.from, !m.reject);
            let outcome = s.prs().candidacy_status(votes);
            &&& s.step(m).1 is Ok
            &&& outcome == CandidacyStatus::Elected ==> r.state == StateRole::Leader
                && r.leader_id == s.id && r.term == s.term && r.vote == s.vote && r == (RaftView {
                votes,
                ..s
            }).become_leader().bcast_append()
            &&& outcome == CandidacyStatus::Ineligible ==> r.state == StateRole::Follower
                && r.leader_id == INVALID_ID && r.term == s.term && r.vote == s.vote
                && r.raft_log == s.raft_log && r.msgs == s.msgs
            &&& outcome == CandidacyStatus::Ineligible ==> r == s.become_follower(s.term, 0)
            &&& outcome == CandidacyStatus::Eligible ==> r == (RaftView { votes, ..s })
        }),
{
    let v = s.with_vote(m);
    if v.candidacy() == CandidacyStatus::Elected {
        v.lemma_become_leader();
        v.become_leader().lemma_bcast_append();
    }
}

/// A pre-candidate notes each answer to its request. With a quorum for it, it stands for election
/// in the next term; with more than half of the voters of a configuration against it, it is a
/// follower in its term; otherwise it goes on waiting.
pub proof fn law_pre_candidate_counts_pre_votes<T: Storage>(s: RaftView<T>, m: MessageView)
    requires
        s.wf(),
        s.step_ok(m),
        s.state == StateRole::PreCandidate,
        m.msg_type == MessageType::MsgRequestPreVoteResponse,
        m.term == 0 || m.term == s.term || (m.term > s.term && !m.reject),
    ensures
        ({
            let r = s.step(m).0;
            let votes = s.votes.insert(m.from, !m.reject);
            let outcome = s.prs().candidacy_status(votes);
            &&& s.step(m).1 is Ok
            &&& outcome == CandidacyStatus::Elected ==> r.term == s.term + 1 && r.vote == s.id && (
            r.state == StateRole::Candidate || r.state == StateRole::Leader)
            &&& outcome == CandidacyStatus::Elected && !s.is_alone() ==> r.state
                == StateRole::Candidate && asks_all_voters(
                s,
                r,
                MessageType::MsgRequestVote,
                false,
            )
            &&& outcome == CandidacyStatus::Ineligible ==> r.state == StateRole::Follower
                && r.leader_id == INVALID_ID && r.term == s.term && r.vote == s.vote
                && r.raft_log == s.raft_log && r.msgs == s.msgs
            &&& outcome == CandidacyStatus::Elected ==> r == (RaftView { votes, ..s }).campaign(
                "CampaignElection"@.map_values(|c: char| c as u8),
            )
            &&& outcome == CandidacyStatus::Ineligible ==> r == s.become_follower(s.term, 0)
            &&& outcome == CandidacyStatus::Eligible ==> r == (RaftView { votes, ..s })
        }),
{
    lemma_campaign_names();
    let v = s.with_vote(m);
    if v.candidacy() == CandidacyStatus::Elected {
        v.lemma_campaign(crate::raft_model::election());
        v.lemma_elect(crate::raft_model::election());
        if !s.is_alone() {
            law_candidate_asks_for_votes(v, crate::raft_model::election());
        }
    }
}

/// An answer to a request of another kind than the one that was made is not counted.
pub proof fn law_other_answers_do_not_count<T: Storage>(s: RaftView<T>, m: MessageView)
    requires
        m.term == 0 || m.term == s.term,
        s.state == StateRole::Candidate && m.msg_type == MessageType::MsgRequestPreVoteResponse
            || s.state == StateRole::PreCandidate && m.msg_type
            == MessageType::MsgRequestVoteResponse || (s.state == StateRole::Follower && (
        m.msg_type == MessageType::MsgRequestPreVoteResponse || m.msg_type
            == MessageType::MsgRequestVoteResponse)),
    ensures
        s.step(m) == (s, Ok::<(), ErrorView>(())),
{
}

/// A candidate or a pre-candidate drops proposals.
pub proof fn law_candidate_drops_proposals<T: Storage>(s: RaftView<T>, m: MessageView)
    requires
        s.state == StateRole::Candidate || s.state == StateRole::PreCandidate,
        m.msg_type == MessageType::MsgPropose,
        m.term == 0 || m.term == s.term,
    ensures
        s.step(m) == (s, Err::<(), ErrorView>(ErrorView::ProposalDropped)),
{
}

/// At the start of a term nothing is known of the other nodes but that they may need what follows
/// the end of the log; this node has all of its own log. No vote, no transfer, no waiting read and
/// no pending change is carried over; within a term the vote is.
pub proof fn law_term_starts_afresh<T: Storage>(s: RaftView<T>, term: u64, leader_id: u64, k: int)
    requires
        s.wf(),
        0 <= k < s.prs().ids.len(),
    ensures
        ({
            let r = s.become_follower(term, leader_id);
            let p = r.prs().progress[k];
            &&& r.term == term
            &&& r.state == StateRole::Follower
            &&& r.leader_id == leader_id
            &&& r.vote == (if term == s.term {
                s.vote
            } else {
                INVALID_ID
            })
            &&& r.votes == Map::<u64, bool>::empty()
            &&& r.lead_transferee is None
            &&& r.election_elapsed == 0
            &&& r.heartbeat_elapsed == 0
            &&& r.pending_conf_index == 0
            &&& r.pending_membership_change == s.pending_membership_change
            &&& r.read_only.queue.len() == 0
            &&& r.read_only.option == s.read_only.option
            &&& r.read_states == s.read_states
            &&& r.raft_log == s.raft_log
            &&& r.msgs == s.msgs
            &&& r.is_learner == s.is_learner
            &&& s.same_settings(r)
            &&& r.prs().ids == s.prs().ids
            &&& r.prs().configuration == s.prs().configuration
            &&& r.prs().next_configuration == s.prs().next_configuration
            &&& p.state == ProgressState::Probe
            &&& p.next_idx == s.raft_log.last() + 1
            &&& p.matched == (if s.prs().ids[k] == s.id {
                s.raft_log.last()
            } else {
                0
            })
            &&& !p.paused
            &&& !p.recent_active
            &&& p.pending_snapshot == 0
            &&& p.ins.buffer.len() == 0
            &&& p.ins.cap == s.prs().progress[k].ins.cap
        }),
{
}

/// A new leader puts in an empty entry of its term behind its log, and, if a membership change
/// has begun with what is committed, the end of that change behind it. Its log is otherwise the
/// same. It lets no configuration change through before that entry is applied.
pub proof fn law_leader_begins_with_an_empty_entry<T: Storage>(s: RaftView<T>)
    requires
        s.wf(),
        s.become_leader_ok(),
    ensures
        ({
            let r = s.become_leader();
            let at = (s.raft_log.last() + 1) as u64;
            let committed = s.leading().append_entry(seq![EntryView::empty()]).raft_log.committed;
            let due = s.pending_membership_change matches Some(c) && committed >= c.start_index;
            &&& r.state == StateRole::Leader
            &&& r.leader_id == s.id
            &&& r.term == s.term
            &&& r.vote == s.vote
            &&& r.pending_conf_index == s.raft_log.last()
            &&& r.lead_transferee is None
            &&& s.raft_log.extends(r.raft_log)
            &&& r.raft_log.entry(at) == (EntryView {
                entry_type: EntryType::EntryNormal,
                term: s.term,
                index: at,
                data: Seq::empty(),
                context: Seq::empty(),
            })
            &&& !due ==> r.raft_log.last() == s.raft_log.last() + 1
            &&& due ==> r.raft_log.last() == s.raft_log.last() + 2 && r.raft_log.entry(
                (at + 1) as u64,
            ) == (EntryView {
                entry_type: EntryType::EntryConfChange,
                term: s.term,
                index: (at + 1) as u64,
                data: crate::codec::conf_change_bytes(ConfChangeView::finalize()),
                context: Seq::empty(),
            })
        }),
{
    let first = seq![EntryView::empty()];
    s.lemma_become_leader();
    let l = s.leading();
    crate::replication_laws::lemma_appended(l, first, 0);
    l.lemma_append_entry(first);
    let e = l.append_entry(first);
    let at = (s.raft_log.last() + 1) as u64;
    if e.is_change_due(e.raft_log.committed) {
        let end = seq![change_entry(ConfChangeView::finalize())];
        crate::replication_laws::lemma_appended(e, end, 0);
        e.lemma_append_entry(end);
        let f = e.append_entry(end);
        f.lemma_bcast_append();
        assert(e.raft_log.agrees_at(f.raft_log, at));
    }
}

/// A candidate that hears of a leader of its term follows it, and handles the message as a
/// follower does.
pub proof fn law_candidate_yields_to_leader<T: Storage>(s: RaftView<T>, m: MessageView)
    requires
        s.state == StateRole::Candidate || s.state == StateRole::PreCandidate,
        is_leader_msg(m.msg_type),
        m.term == s.term,
        m.term != 0,
    ensures
        s.step(m) == s.become_follower(s.term, m.from).step(m),
{
    let f = s.become_follower(s.term, m.from);
    assert(f.heard_of(m.from) == f);
}

/// A node has a committed configuration change to apply if and only if one of the entries that are
/// committed and not applied is one.
pub proof fn law_when_a_change_is_unapplied<T: Storage>(s: RaftView<T>)
    requires
        s.raft_log.wf(),
        s.raft_log.store_agrees(),
        s.raft_log.applied + 1 >= s.raft_log.first(),
    ensures
        s.change_unapplied() <==> exists|k: u64|
            s.raft_log.applied < k <= s.raft_log.committed && (#[trigger] s.raft_log.entry(
                k,
            )).entry_type == EntryType::EntryConfChange,
{
    let log = s.raft_log;
    if log.committed > log.applied {
        let lo = (log.applied + 1) as u64;
        let hi = (log.committed + 1) as u64;
        log.lemma_slice(lo, hi, NO_LIMIT);
        let es = log.slice(lo, hi, NO_LIMIT)->Ok_0;
        lemma_counts_changes(es);
        if s.change_unapplied() {
            let i = choose|i: int|
                0 <= i < es.len() && (#[trigger] es[i]).entry_type == EntryType::EntryConfChange;
            assert(log.entry((lo + i) as u64) == es[i]);
        }
        assert forall|k: u64|
            log.applied < k <= log.committed && (#[trigger] log.entry(k)).entry_type
                == EntryType::EntryConfChange implies s.change_unapplied() by {
            assert(es[k - lo] == log.entry((lo + (k - lo)) as u64));
        }
    }
}

proof fn lemma_counts_changes(es: Seq<EntryView>)
    ensures
        conf_changes(es) != 0 <==> exists|i: int|
            0 <= i < es.len() && (#[trigger] es[i]).entry_type == EntryType::EntryConfChange,
    decreases es.len(),
{
    if es.len() > 0 {
        let rest = es.drop_last();
        lemma_counts_changes(rest);
        if conf_changes(rest) != 0 {
            let i = choose|i: int|
                0 <= i < rest.len() && (#[trigger] rest[i]).entry_type
                    == EntryType::EntryConfChange;
            assert(es[i] == rest[i]);
        }
        if es.last().entry_type == EntryType::EntryConfChange {
            assert(es[es.len() - 1].entry_type == EntryType::EntryConfChange);
        }
        assert forall|i: int|
            0 <= i < es.len() && (#[trigger] es[i]).entry_type
                == EntryType::EntryConfChange implies conf_changes(es) != 0 by {
            if i < rest.len() {
                assert(rest[i] == es[i]);
            }
        }
    }
}

/// A new leader knows nothing of its peers but that they may need what followed its log; itself it
/// replicates to. Reads that waited and a transfer are forgotten, and it starts to count anew.
pub proof fn law_leader_knows_nothing_of_its_peers<T: Storage>(s: RaftView<T>, k: int)
    requires
        s.wf(),
        s.prs().has(s.id),
        0 <= k < s.prs().ids.len(),
    ensures
        ({
            let r = s.leading();
            let p = r.prs().progress[k];
            let own = s.prs().ids[k] == s.id;
            &&& r.prs().ids == s.prs().ids
            &&& r.prs().configuration == s.prs().configuration
            &&& r.prs().next_configuration == s.prs().next_configuration
            &&& p.matched == (if own {
                s.raft_log.last()
            } else {
                0
            })
            &&& p.next_idx == s.raft_log.last() + 1
            &&& p.state == (if own {
                ProgressState::Replicate
            } else {
                ProgressState::Probe
            })
            &&& !p.paused && !p.recent_active && p.pending_snapshot == 0
            &&& p.ins.buffer.len() == 0 && p.ins.cap == s.prs().progress[k].ins.cap
            &&& r.read_only.queue.len() == 0 && r.read_only.option == s.read_only.option
            &&& r.read_states == s.read_states && r.msgs == s.msgs
            &&& r.votes == Map::<u64, bool>::empty()
            &&& r.lead_transferee is None
            &&& r.election_elapsed == 0 && r.heartbeat_elapsed == 0
            &&& r.pending_conf_index == s.raft_log.last()
            &&& r.pending_membership_change == s.pending_membership_change
            &&& r.raft_log == s.raft_log && r.term == s.term && r.vote == s.vote
        }),
{
    let j = s.prs().ids.index_of(s.id);
    assert(s.prs().ids[j] == s.id);
}

/// Becoming the leader is to lead, and then to put in the empty entry: what is committed follows
/// from what a quorum has then, and if that is where a membership change began, its end is put in
/// and sent to everyone.
pub proof fn law_leader_puts_in_its_first_entry<T: Storage>(s: RaftView<T>)
    ensures
        ({
            let first = s.leading().append_entry(seq![EntryView::empty()]);
            let due = s.pending_membership_change is Some && first.raft_log.committed
                >= s.pending_membership_change->0.start_index;
            &&& !due ==> s.become_leader() == first
            &&& due ==> s.become_leader() == first.append_entry(
                seq![
                    EntryView {
                        entry_type: EntryType::EntryConfChange,
                        data: crate::codec::conf_change_bytes(
                            ConfChangeView {
                                change_type: ConfChangeType::FinalizeMembershipChange,
                                ..ConfChangeView::empty()
                            },
                        ),
                        ..EntryView::empty()
                    },
                ],
            ).bcast_append()
        }),
{
}

/// A follower that the leader asks to stand for election at once does so if it has a vote, without
/// a round of pre-votes, and says on whose wish; one without a vote does nothing.
pub proof fn law_transfer_makes_the_follower_stand<T: Storage>(s: RaftView<T>, m: MessageView)
    requires
        s.state == StateRole::Follower,
        m.msg_type == MessageType::MsgTimeoutNow,
        m.term == 0 || m.term == s.term,
    ensures
        s.prs().voter_ids().contains(s.id) ==> s.step(m) == (
            s.campaign("CampaignTransfer"@.map_values(|c: char| c as u8)),
            Ok::<(), ErrorView>(()),
        ),
        !s.prs().voter_ids().contains(s.id) ==> s.step(m) == (s, Ok::<(), ErrorView>(())),
{
}

/// A follower ignores what is meant for a leader or a candidate, and a candidate what is meant for
/// a leader.
pub proof fn law_messages_for_others_are_ignored<T: Storage>(s: RaftView<T>, m: MessageView)
    requires
        s.state != StateRole::Leader,
        m.term == 0 || m.term == s.term,
        m.msg_type == MessageType::MsgBeat || m.msg_type == MessageType::MsgCheckQuorum
            || m.msg_type == MessageType::MsgAppendResponse || m.msg_type
            == MessageType::MsgHeartbeatResponse || m.msg_type == MessageType::MsgUnreachable
            || m.msg_type == MessageType::MsgSnapStatus || (s.state != StateRole::Follower && (
        m.msg_type == MessageType::MsgTransferLeader || m.msg_type == MessageType::MsgTimeoutNow
            || m.msg_type == MessageType::MsgReadIndex || m.msg_type
            == MessageType::MsgReadIndexResp)),
    ensures
        s.step(m) == (s, Ok::<(), ErrorView>(())),
{
}

/// A leader ignores the messages of its own kind, and votes that come late.
pub proof fn law_leader_ignores_its_own_kind<T: Storage>(s: RaftView<T>, m: MessageView)
    requires
        s.state == StateRole::Leader,
        m.term == 0 || m.term == s.term,
        m.msg_type == MessageType::MsgAppend || m.msg_type == MessageType::MsgHeartbeat
            || m.msg_type == MessageType::MsgSnapshot || m.msg_type
            == MessageType::MsgRequestVoteResponse || m.msg_type
            == MessageType::MsgRequestPreVoteResponse || m.msg_type == MessageType::MsgTimeoutNow
            || m.msg_type == MessageType::MsgReadIndexResp,
    ensures
        s.step(m) == (s, Ok::<(), ErrorView>(())),
{
    assert(s.step(m).0.msgs =~= s.msgs);
}

/// No voter is asked twice.
pub proof fn law_each_voter_is_asked_once<T: Storage>(
    s: RaftView<T>,
    kind: MessageType,
    term: u64,
    campaign: Seq<u8>,
    i: int,
    j: int,
)
    requires
        s.prs().wf(),
        s.msgs.len() <= i < j < s.request_votes(kind, term, campaign).msgs.len(),
    ensures
        s.request_votes(kind, term, campaign).msgs[i].to != s.request_votes(
            kind,
            term,
            campaign,
        ).msgs[j].to,
{
    let ids = s.prs().voter_ids();
    if let Some(next) = s.prs().next_configuration {
        lemma_distinct(s.prs().configuration.voters + next.voters);
    }
    let n = s.msgs.len();
    lemma_receivers_differ(s, ids, kind, term, campaign, i - n, j - n);
}

proof fn lemma_receivers_differ<T: Storage>(
    s: RaftView<T>,
    ids: Seq<u64>,
    kind: MessageType,
    term: u64,
    campaign: Seq<u8>,
    i: int,
    j: int,
)
    requires
        ids.no_duplicates(),
        0 <= i < j < s.vote_requests(ids, kind, term, campaign).len(),
    ensures
        s.vote_requests(ids, kind, term, campaign)[i].to != s.vote_requests(
            ids,
            kind,
            term,
            campaign,
        )[j].to,
    decreases ids.len(),
{
    let rest = ids.drop_last();
    let before = s.vote_requests(rest, kind, term, campaign);
    if j < before.len() {
        lemma_receivers_differ(s, rest, kind, term, campaign, i, j);
    } else {
        lemma_receiver_is_listed(s, rest, kind, term, campaign, i);
        let k = rest.index_of(before[i].to);
        assert(ids[k] == before[i].to);
        assert(ids[ids.len() - 1] == ids.last());
    }
}

proof fn lemma_receiver_is_listed<T: Storage>(
    s: RaftView<T>,
    ids: Seq<u64>,
    kind: MessageType,
    term: u64,
    campaign: Seq<u8>,
    i: int,
)
    requires
        0 <= i < s.vote_requests(ids, kind, term, campaign).len(),
    ensures
        ids.contains(s.vote_requests(ids, kind, term, campaign)[i].to),
    decreases ids.len(),
{
    let rest = ids.drop_last();
    let before = s.vote_requests(rest, kind, term, campaign);
    if i < before.len() {
        lemma_receiver_is_listed(s, rest, kind, term, campaign, i);
        let k = rest.index_of(before[i].to);
        assert(ids[k] == before[i].to);
    } else {
        assert(ids[ids.len() - 1] == ids.last());
    }
}

/// The number of configuration changes among entries is the number of those of that type.
pub proof fn law_changes_are_counted(es: Seq<EntryView>)
    ensures
        conf_changes(es) == es.filter(
            |e: EntryView| e.entry_type == EntryType::EntryConfChange,
        ).len(),
    decreases es.len(),
{
    reveal(Seq::filter);
    if es.len() > 0 {
        law_changes_are_counted(es.drop_last());
    }
}

/// A node that checks its quorum, and has heard of a leader within an election timeout, ignores
/// requests for votes and pre-votes in later terms, unless they come of a transfer of the
/// leadership.
pub proof fn law_leader_that_is_heard_is_kept<T: Storage>(s: RaftView<T>, m: MessageView)
    requires
        s.check_quorum,
        s.leader_id != 0,
        s.election_elapsed < s.election_timeout,
        m.msg_type == MessageType::MsgRequestVote || m.msg_type == MessageType::MsgRequestPreVote,
        m.term > s.term,
        m.context != "CampaignTransfer"@.map_values(|c: char| c as u8),
    ensures
        s.step(m) == (s, Ok::<(), ErrorView>(())),
{
}

} // verus!
