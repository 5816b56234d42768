//! What the passing of time leads to.
use crate::election_laws::law_quorum_is_a_majority;
use crate::eraftpb::{MessageType, MessageView};
use crate::errors::ErrorView;
use crate::progress::ProgressView;
use crate::raft::{StateRole, INVALID_ID};
use crate::raft_model::RaftView;
use crate::read_laws::is_majority;
use crate::storage::Storage;
use vstd::prelude::*;

verus! {

/// Whether more than half of the voters of each configuration in force were heard of since the last
/// check, with this node among them.
pub open spec fn has_active_majority<T: Storage>(s: RaftView<T>) -> bool {
    is_majority(
        s.prs(),
        Set::new(|id: u64| s.prs().has(id) && (id == s.id || s.prs().at(id).recent_active)),
    )
}

proof fn lemma_active<T: Storage>(s: RaftView<T>)
    requires
        s.prs().wf(),
    ensures
        s.prs().has_quorum(s.prs().active(s.id)) <==> has_active_majority(s),
{
    let active = Set::new(
        |id: u64| s.prs().has(id) && (id == s.id || s.prs().at(id).recent_active),
    );
    assert(active =~= s.prs().active(s.id));
    law_quorum_is_a_majority(s.prs(), active);
}

/// A node that is not the leader only counts a tick that comes before its election timeout, and so
/// does one that has no vote, whenever it comes. Nothing is to be done then.
pub proof fn law_tick_before_the_timeout_is_counted<T: Storage>(s: RaftView<T>, timeout: usize)
    requires
        s.tick_ok(timeout),
        s.state != StateRole::Leader,
        s.election_elapsed + 1 < timeout || !s.prs().voter_ids().contains(s.id),
    ensures
        s.tick(timeout) == (
            RaftView { election_elapsed: (s.election_elapsed + 1) as usize, ..s },
            false,
        ),
{
}

/// A voter that is not the leader starts its count anew when its election timeout is reached, and
/// does what it does when it is told to campaign.
pub proof fn law_tick_at_the_timeout_campaigns<T: Storage>(s: RaftView<T>, timeout: usize)
    requires
        s.tick_ok(timeout),
        s.state != StateRole::Leader,
        s.election_elapsed + 1 >= timeout,
        s.prs().voter_ids().contains(s.id),
    ensures
        s.tick(timeout) == (
            RaftView { election_elapsed: 0, ..s }.step(
                MessageView {
                    msg_type: MessageType::MsgHup,
                    from: s.id,
                    ..MessageView::empty()
                },
            ).0,
            true,
        ),
{
}

/// A leader counts each tick twice, for its heartbeats and for its election timeout. As long as
/// neither timeout is reached, nothing is to be done; when that of the heartbeats is, it counts
/// anew, and heartbeats are sent to all.
pub proof fn law_leader_tick_within_a_period<T: Storage>(s: RaftView<T>, timeout: usize)
    requires
        s.tick_ok(timeout),
        s.state == StateRole::Leader,
        s.election_elapsed + 1 < s.election_timeout,
    ensures
        ({
            let elapsed = (s.election_elapsed + 1) as usize;
            let beats = s.heartbeat_elapsed + 1 >= s.heartbeat_timeout;
            &&& !beats ==> s.tick(timeout) == (
                RaftView {
                    election_elapsed: elapsed,
                    heartbeat_elapsed: (s.heartbeat_elapsed + 1) as usize,
                    ..s
                },
                false,
            )
            &&& beats ==> s.tick(timeout) == (
                RaftView {
                    election_elapsed: elapsed,
                    heartbeat_elapsed: 0,
                    ..s
                }.bcast_heartbeat(),
                true,
            )
        }),
{
}

/// When the election timeout of a leader is reached, it counts anew. If it checks its quorum and
/// has not heard of a majority since, it steps down within its term and sends nothing. Otherwise it
/// stays the leader, gives up a transfer of the leadership, and sends heartbeats if they are due.
/// What it knows of its peers is then what a check of the quorum leaves.
pub proof fn law_leader_tick_at_the_end_of_a_period<T: Storage>(s: RaftView<T>, timeout: usize)
    requires
        s.wf(),
        s.tick_ok(timeout),
        s.state == StateRole::Leader,
        s.election_elapsed + 1 >= s.election_timeout,
    ensures
        ({
            let (r, ready) = s.tick(timeout);
            let stays = !s.check_quorum || has_active_majority(s);
            let beats = s.heartbeat_elapsed + 1 >= s.heartbeat_timeout;
            let t = RaftView {
                election_elapsed: 0,
                heartbeat_elapsed: if beats {
                    0
                } else {
                    (s.heartbeat_elapsed + 1) as usize
                },
                lead_transferee: None,
                progress: r.progress,
                ..s
            };
            &&& s.check_quorum ==> r.progress == s.step(
                MessageView {
                    msg_type: MessageType::MsgCheckQuorum,
                    from: s.id,
                    ..MessageView::empty()
                },
            ).0.progress
            &&& !stays ==> {
                &&& ready
                &&& r.state == StateRole::Follower
                &&& r.term == s.term
                &&& r.vote == s.vote
                &&& r.leader_id == INVALID_ID
                &&& r.lead_transferee is None
                &&& r.election_elapsed == 0
                &&& r.msgs == s.msgs
                &&& r.raft_log == s.raft_log
                &&& r == s.become_follower(s.term, 0)
            }
            &&& stays ==> {
                &&& !s.check_quorum ==> r.progress == s.progress
                &&& beats ==> r == t.bcast_heartbeat() && ready
                &&& !beats ==> r == t && ready == s.check_quorum
            }
        }),
{
    lemma_active(s);
    let z = s.led().restarted();
    assert(z.prs() == s.prs());
    assert(z.prs().active(z.id) == s.prs().active(s.id));
    lemma_step_down(s);
    lemma_step_down(z);
}

/// A check of the quorum leaves a leader that has heard of a majority the leader, and forgets of
/// whom it has heard: of every voter but itself, and of every learner. Nothing else changes. A
/// leader without a majority steps down within its term.
pub proof fn law_quorum_check_forgets_activity<T: Storage>(s: RaftView<T>, m: MessageView, k: int)
    requires
        s.wf(),
        s.state == StateRole::Leader,
        m.msg_type == MessageType::MsgCheckQuorum,
        m.term == 0 || m.term == s.term,
        0 <= k < s.prs().ids.len(),
    ensures
        ({
            let r = s.step(m).0;
            let id = s.prs().ids[k];
            let p = s.prs().progress[k];
            let forgotten = s.prs().is_learner(id) || (s.prs().is_voter(id) && id != s.id);
            &&& s.step(m).1 == Ok::<(), ErrorView>(())
            &&& has_active_majority(s) ==> {
                &&& r == (RaftView { progress: r.progress, ..s })
                &&& r.prs().ids == s.prs().ids
                &&& r.prs().configuration == s.prs().configuration
                &&& r.prs().next_configuration == s.prs().next_configuration
                &&& r.prs().progress[k] == (ProgressView {
                    recent_active: p.recent_active && !forgotten,
                    ..p
                })
            }
            &&& !has_active_majority(s) ==> r.state == StateRole::Follower && r.term == s.term
                && r.vote == s.vote && r.leader_id == INVALID_ID && r.msgs == s.msgs && r
                == s.become_follower(s.term, 0)
        }),
{
    lemma_active(s);
    lemma_step_down(s);
}

proof fn lemma_step_down<T: Storage>(s: RaftView<T>)
    requires
        s.progress is Some,
    ensures
        s.with_prs(s.prs().checked(s.id)).become_follower(s.term, INVALID_ID)
            == s.become_follower(s.term, INVALID_ID),
{
    let c = s.prs().checked(s.id);
    let last = s.raft_log.last_index();
    assert(c.reset(s.id, last) =~= s.prs().reset(s.id, last));
}

/// A leader that is told to send heartbeats sends them to all, with the context of the last read
/// that waits.
pub proof fn law_beat_sends_heartbeats<T: Storage>(s: RaftView<T>, m: MessageView)
    requires
        s.state == StateRole::Leader,
        m.msg_type == MessageType::MsgBeat,
        m.term == 0 || m.term == s.term,
    ensures
        s.read_only.queue.len() == 0 ==> s.step(m) == (
            s.bcast_heartbeat_with_ctx(None),
            Ok::<(), ErrorView>(()),
        ),
        s.read_only.queue.len() > 0 ==> s.step(m) == (
            s.bcast_heartbeat_with_ctx(Some(s.read_only.queue.last())),
            Ok::<(), ErrorView>(()),
        ),
{
}

} // verus!
