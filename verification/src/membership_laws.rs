//! How nodes join and leave the cluster.
use crate::codec::conf_change_bytes;
use crate::eraftpb::{ConfChangeType, ConfChangeView, ConfStateView, EntryType, EntryView};
use crate::errors::ErrorView;
use crate::progress::{InflightsView, ProgressState, ProgressView};
use crate::progress_set::{
    first_common, kept_ids, kept_progress, lemma_distinct, lemma_kept, lemma_without,
    ConfigurationView, ProgressSetView,
};
use crate::raft::{StateRole, INVALID_ID};
use crate::raft_log::RaftLogView;
use crate::raft_model::{change_entry, conf_changes, RaftView};
use crate::raw_node::RawNodeView;
use crate::replication_laws::{law_proposal_is_put_in, lemma_appended};
use crate::storage::Storage;
use vstd::prelude::*;

verus! {

// The nodes and their progress.
proof fn lemma_put_elsewhere(prs: ProgressSetView, id: u64, p: ProgressView, other: u64)
    requires
        prs.aligned(),
        !prs.has(id),
        prs.has(other),
    ensures
        prs.put(id, p).at(other) == prs.at(other),
        prs.put(id, p).has(other),
{
    let r = prs.put(id, p);
    prs.lemma_put(id, p);
    let k = prs.ids.index_of(other);
    assert(prs.ids[k] == other);
    assert(r.ids[k] == other);
    let j = r.ids.index_of(other);
    assert(r.ids[j] == other);
    assert(j == k);
}

/// A node that is put in because it is missing has the progress that was given; one that was there
/// keeps its own.
pub proof fn lemma_missing_at(prs: ProgressSetView, new: Seq<u64>, p: ProgressView, x: u64)
    requires
        prs.aligned(),
        prs.with_missing(new, p).has(x),
    ensures
        prs.with_missing(new, p).at(x) == (if prs.has(x) {
            prs.at(x)
        } else {
            p
        }),
    decreases new.len(),
{
    if new.len() > 0 {
        let rest = prs.with_missing(new.drop_last(), p);
        prs.lemma_with_missing(new.drop_last(), p);
        if rest.has(new.last()) {
            lemma_missing_at(prs, new.drop_last(), p, x);
        } else {
            rest.lemma_put(new.last(), p);
            if x != new.last() {
                assert(rest.put(new.last(), p).ids.contains(x) <==> rest.ids.contains(x) || x
                    == new.last());
                lemma_missing_at(prs, new.drop_last(), p, x);
                lemma_put_elsewhere(rest, new.last(), p, x);
            } else {
                assert(!prs.has(x)) by {
                    if prs.ids.contains(x) {
                        assert(rest.ids.contains(x));
                    }
                }
            }
        }
    }
}

proof fn lemma_kept_at(
    ids: Seq<u64>,
    progress: Seq<ProgressView>,
    c: ConfigurationView,
    x: u64,
)
    requires
        ids.len() <= progress.len(),
        ids.no_duplicates(),
        ids.contains(x),
        c.contains(x),
    ensures
        kept_progress(ids, progress, c)[kept_ids(ids, c).index_of(x)] == progress[ids.index_of(x)],
    decreases ids.len(),
{
    let rest = ids.drop_last();
    let kept = kept_ids(ids, c);
    let i = ids.index_of(x);
    assert(ids[i] == x);
    lemma_kept(ids, progress, c);
    lemma_kept(rest, progress, c);
    assert(kept.contains(x));
    let k = kept.index_of(x);
    assert(kept[k] == x);
    if x == ids.last() {
        assert(ids[ids.len() - 1] == x);
        assert(kept.last() == x);
        assert(k == kept.len() - 1);
    } else {
        assert(rest[i] == x);
        assert(rest.contains(x));
        assert(rest.index_of(x) == i) by {
            let j = rest.index_of(x);
            assert(rest[j] == x);
            assert(ids[j] == x);
        }
        lemma_kept_at(rest, progress, c, x);
        let before = kept_ids(rest, c);
        assert(before.contains(x));
        let j = before.index_of(x);
        assert(before[j] == x);
        assert(kept[j] == x);
        assert(k == j);
    }
}

/// A configuration that is read from a list has exactly the nodes of that list, each once.
pub proof fn law_configuration_is_the_list(c: ConfStateView, id: u64)
    ensures
        ({
            let conf = ConfigurationView::from_conf_state(c);
            &&& conf.voters.contains(id) <==> c.nodes.contains(id)
            &&& conf.learners.contains(id) <==> c.learners.contains(id)
            &&& conf.voters.no_duplicates()
            &&& conf.learners.no_duplicates()
        }),
{
    lemma_distinct(c.nodes);
    lemma_distinct(c.learners);
}

/// The list of a configuration in which nobody is listed twice gives back that configuration.
pub proof fn law_list_gives_back_the_configuration(c: ConfigurationView)
    requires
        c.wf(),
    ensures
        ConfigurationView::from_conf_state(c.to_conf_state()) == c,
{
    lemma_distinct_is_same(c.voters);
    lemma_distinct_is_same(c.learners);
}

proof fn lemma_distinct_is_same(ids: Seq<u64>)
    requires
        ids.no_duplicates(),
    ensures
        crate::progress_set::distinct(ids) == ids,
    decreases ids.len(),
{
    if ids.len() > 0 {
        let rest = ids.drop_last();
        lemma_distinct_is_same(rest);
        if rest.contains(ids.last()) {
            let k = rest.index_of(ids.last());
            assert(ids[k] == ids[ids.len() - 1]);
        }
        assert(rest.push(ids.last()) =~= ids);
    } else {
        assert(crate::progress_set::distinct(ids) =~= ids);
    }
}

proof fn lemma_first_common(ids: Seq<u64>, others: Seq<u64>)
    ensures
        first_common(ids, others) matches Some(id) ==> ids.contains(id) && others.contains(id),
        first_common(ids, others) is None ==> forall|id: u64| #[trigger]
            ids.contains(id) ==> !others.contains(id),
    decreases ids.len(),
{
    if ids.len() > 0 {
        let rest = ids.drop_last();
        lemma_first_common(rest, others);
        assert(ids[ids.len() - 1] == ids.last());
        if first_common(rest, others) is Some {
            let id = first_common(rest, others)->0;
            let k = rest.index_of(id);
            assert(ids[k] == id);
        } else {
            assert forall|id: u64| #[trigger] ids.contains(id) implies id == ids.last()
                || rest.contains(id) by {
                let k = ids.index_of(id);
                if k < rest.len() {
                    assert(rest[k] == id);
                }
            }
        }
    }
}

/// A configuration is valid if and only if it has a voter, and no voter is a learner as well. One
/// that is not is refused with such a node, or for want of voters.
pub proof fn law_when_a_configuration_is_valid(c: ConfigurationView)
    ensures
        c.validity() is Ok <==> c.voters.len() > 0 && forall|id: u64| #[trigger]
            c.voters.contains(id) ==> !c.learners.contains(id),
        c.validity() matches Err(e) ==> {
            ||| e is Exists && c.voters.contains(e->Exists_0) && c.learners.contains(e->Exists_0)
                && e->Exists_1 == "learners"@
            ||| c.voters.len() == 0 && e == ErrorView::ConfigInvalid(
                "There must be at least one voter."@,
            )
        },
{
    lemma_first_common(c.voters, c.learners);
}

/// A node counts as a voter of the cluster if it is one of a configuration in force, and as a
/// learner likewise.
pub proof fn law_who_votes_and_learns(prs: ProgressSetView, id: u64)
    ensures
        prs.voter_ids().contains(id) <==> prs.configuration.voters.contains(id) || (
        prs.next_configuration is Some && prs.next_configuration->0.voters.contains(id)),
        prs.learner_ids().contains(id) <==> prs.configuration.learners.contains(id) || (
        prs.next_configuration is Some && prs.next_configuration->0.learners.contains(id)),
        prs.is_voter(id) <==> prs.voter_ids().contains(id),
        prs.is_learner(id) <==> prs.learner_ids().contains(id),
{
    if let Some(next) = prs.next_configuration {
        lemma_in_both(prs.configuration.voters, next.voters, id);
        lemma_in_both(prs.configuration.learners, next.learners, id);
        lemma_distinct(prs.configuration.voters + next.voters);
        lemma_distinct(prs.configuration.learners + next.learners);
    }
}

proof fn lemma_in_both(a: Seq<u64>, b: Seq<u64>, id: u64)
    ensures
        (a + b).contains(id) <==> a.contains(id) || b.contains(id),
{
    if a.contains(id) {
        assert((a + b)[a.index_of(id)] == id);
    }
    if b.contains(id) {
        assert((a + b)[a.len() + b.index_of(id)] == id);
    }
    if (a + b).contains(id) {
        let k = (a + b).index_of(id);
        assert(k < a.len() ==> a[k] == id);
        assert(k >= a.len() ==> b[k - a.len()] == id);
    }
}

// One node at a time.
/// A node can be added if and only if it is not in the cluster, and no membership change is under
/// way. It is a voter or a learner then, behind the others, and nothing is known of it but that it
/// counts as active: the next entry behind the log is to be sent to it. All other nodes, and
/// everything else, stay as they are; a node that is added itself learns from that what it is.
pub proof fn law_added_node_starts_afresh<T: Storage>(
    s: RaftView<T>,
    id: u64,
    learner: bool,
    other: u64,
)
    requires
        s.wf(),
    ensures
        ({
            let (r, outcome) = s.add_voter_or_learner(id, learner);
            let conf = s.prs().configuration;
            let known = s.prs().is_voter(id) || s.prs().is_learner(id);
            &&& outcome is Ok <==> !known && s.prs().next_configuration is None
            &&& outcome is Err ==> r == s
            &&& !known && outcome is Err ==> outcome == Err::<(), ErrorView>(
                ErrorView::ViolatesContract("There is a pending membership change."@),
            )
            &&& outcome is Ok ==> {
                &&& r == (RaftView { progress: r.progress, is_learner: r.is_learner, ..s })
                &&& r.is_learner == (if id == s.id {
                    learner
                } else {
                    s.is_learner
                })
                &&& r.prs().next_configuration is None
                &&& learner ==> r.prs().configuration == (ConfigurationView {
                    learners: conf.learners.push(id),
                    ..conf
                })
                &&& !learner ==> r.prs().configuration == (ConfigurationView {
                    voters: conf.voters.push(id),
                    ..conf
                })
                &&& r.prs().has(other) <==> s.prs().has(other) || other == id
                &&& s.prs().has(other) && other != id ==> r.prs().at(other) == s.prs().at(other)
                &&& r.prs().at(id) == (ProgressView {
                    matched: 0,
                    next_idx: (s.raft_log.last() + 1) as u64,
                    state: ProgressState::Probe,
                    paused: false,
                    pending_snapshot: 0,
                    recent_active: true,
                    ins: InflightsView { buffer: Seq::empty(), cap: s.max_inflight },
                })
            }
        }),
{
    let (r, outcome) = s.add_voter_or_learner(id, learner);
    if outcome is Ok {
        let p = s.joining();
        let prs = s.prs();
        let put = prs.put(id, p);
        assert(prs.aligned());
        prs.lemma_put(id, p);
        assert(put.ids.contains(id));
        let k = put.ids.index_of(id);
        assert(put.ids[k] == id);
        assert(r.prs().ids == put.ids);
        assert(put.ids.contains(other) <==> prs.ids.contains(other) || other == id);
        if prs.has(other) && other != id {
            let j = put.ids.index_of(other);
            assert(put.ids[j] == other);
            if prs.has(id) {
                assert(put.ids == prs.ids);
            } else {
                lemma_put_elsewhere(prs, id, p, other);
            }
        }
    }
}

/// A node can be removed if and only if it is in the cluster, and no membership change is under
/// way. It is neither voter nor learner then, and has no progress; all other nodes stay what they
/// were. A transfer of the leadership to it is given up. With a smaller quorum more may be
/// committed, and is sent to all; the nodes of the rest are known to have what they had.
pub proof fn law_removed_node_leaves_the_others<T: Storage>(s: RaftView<T>, id: u64, other: u64)
    requires
        s.wf(),
        s.remove_node_ok(id),
        other != id,
    ensures
        ({
            let (r, outcome) = s.remove_node(id);
            let known = s.prs().is_voter(id) || s.prs().is_learner(id);
            let now = r.prs().configuration;
            let before = s.prs().configuration;
            &&& outcome is Ok <==> known && s.prs().next_configuration is None
            &&& outcome is Err ==> r == s
            &&& !known ==> outcome == Err::<(), ErrorView>(
                ErrorView::NotExists(id, "voters or learners"@),
            )
            &&& known && outcome is Err ==> outcome == Err::<(), ErrorView>(
                ErrorView::ViolatesContract("There is a pending membership change."@),
            )
            &&& outcome is Ok ==> {
                &&& !r.prs().has(id) && !now.voters.contains(id) && !now.learners.contains(id)
                &&& r.prs().has(other) <==> s.prs().has(other)
                &&& now.voters.contains(other) <==> before.voters.contains(other)
                &&& now.learners.contains(other) <==> before.learners.contains(other)
                &&& now.voters.no_duplicates() && now.learners.no_duplicates()
                &&& r.prs().next_configuration is None
                &&& s.prs().has(other) ==> r.prs().at(other).matched == s.prs().at(other).matched
                &&& s.prs().has(other) ==> r.prs().at(other).recent_active == s.prs().at(
                    other,
                ).recent_active
                &&& r.lead_transferee == (if s.state == StateRole::Leader && s.lead_transferee
                    == Some(id) && (now.voters.len() > 0 || now.learners.len() > 0) {
                    None
                } else {
                    s.lead_transferee
                })
                &&& r.raft_log == (RaftLogView { committed: r.raft_log.committed, ..s.raft_log })
                &&& r == (RaftView {
                    progress: r.progress,
                    raft_log: r.raft_log,
                    msgs: r.msgs,
                    lead_transferee: r.lead_transferee,
                    ..s
                })
            }
        }),
{
    let (r, outcome) = s.remove_node(id);
    if outcome is Ok {
        let prs = s.prs();
        let t = s.removed(id);
        assert(prs.configuration.contains(id));
        assert(prs.ids.contains(id));
        lemma_without(prs.configuration.voters, id);
        lemma_without(prs.configuration.learners, id);
        lemma_without(prs.ids, id);
        assert(t.prs().ids == crate::progress_set::without(prs.ids, id));
        assert(r.prs().ids == t.prs().ids);
        assert(r.prs().configuration == t.prs().configuration);
        assert(t.prs().ids.contains(other) <==> prs.ids.contains(other));
        let gone = prs.ids.index_of(id);
        assert(prs.ids[gone] == id);
        if prs.has(other) {
            let k = prs.ids.index_of(other);
            assert(prs.ids[k] == other);
            let j = t.prs().ids.index_of(other);
            assert(t.prs().ids[j] == other);
            let at = if k < gone {
                k
            } else {
                k - 1
            };
            assert(t.prs().ids[at] == other);
            assert(j == at);
            assert(t.prs().progress[j] == prs.progress[k]);
            assert(r.prs().progress[j].matched == t.prs().progress[j].matched);
            assert(r.prs().progress[j].recent_active == t.prs().progress[j].recent_active);
        }
    }
}

/// When a node is removed, what a quorum of those that are left has is committed, and everyone is
/// told. If that is nothing more, nothing is sent; the same holds if no node is left.
pub proof fn law_removal_may_commit<T: Storage>(s: RaftView<T>, id: u64)
    requires
        s.wf(),
        s.remove_node_ok(id),
        s.remove_node(id).1 is Ok,
    ensures
        ({
            let r = s.remove_node(id).0;
            let left = s.removed(id);
            let n = left.prs().maximal_committed_index();
            let nodes = left.prs().configuration.voters.len()
                + left.prs().configuration.learners.len();
            let more = nodes > 0 && n > s.raft_log.committed && s.raft_log.term(n) == s.term;
            let t = RaftView {
                raft_log: RaftLogView { committed: n, ..s.raft_log },
                ..left
            }.bcast_append();
            &&& more ==> r.raft_log.committed == n && r.msgs == t.msgs
            &&& !more ==> r.raft_log.committed == s.raft_log.committed && r.msgs == s.msgs
        }),
{
}

/// A learner is made a voter if and only if no membership change is under way, it learns, and it
/// does not vote. It votes then, and learns no more; the others stay what they are.
pub proof fn law_promoted_learner_votes(prs: ProgressSetView, id: u64, other: u64)
    requires
        prs.wf(),
    ensures
        ({
            let r = prs.promote(id);
            let now = r.configuration;
            let before = prs.configuration;
            &&& prs.promote_error(id) is None <==> prs.next_configuration is None
                && before.learners.contains(id) && !before.voters.contains(id)
            &&& prs.promote_error(id) is None ==> {
                &&& now.voters.contains(id) && !now.learners.contains(id)
                &&& other != id ==> (now.voters.contains(other) <==> before.voters.contains(
                    other,
                ))
                &&& other != id ==> (now.learners.contains(other) <==> before.learners.contains(
                    other,
                ))
                &&& r.ids == prs.ids && r.progress == prs.progress
            }
        }),
{
    let before = prs.configuration;
    let r = prs.promote(id);
    lemma_without(before.learners, id);
    assert(before.voters.push(id).last() == id);
    assert(before.voters.push(id).contains(id));
    if before.voters.contains(other) {
        assert(before.voters.push(id)[before.voters.index_of(other)] == other);
    }
    if before.voters.push(id).contains(other) && other != id {
        let k = before.voters.push(id).index_of(other);
        assert(before.voters[k] == other);
    }
}

// Membership changes.
/// A membership change begins only from a change of that kind, with a configuration and the index
/// at which it starts. Each node of the next configuration that is new has nothing then, counts as
/// active, and is sent the log from its start; the progress of the others stays. It is the change
/// that is under way, others wait for its index, and nothing else changes.
pub proof fn law_begun_change_adds_nodes<T: Storage>(s: RaftView<T>, c: ConfChangeView, id: u64)
    requires
        s.wf(),
        s.begin_membership_change(c).1 is Ok,
    ensures
        ({
            let r = s.begin_membership_change(c).0;
            let conf = c.configuration->0;
            let listed = conf.nodes.contains(id) || conf.learners.contains(id);
            &&& c.change_type == ConfChangeType::BeginMembershipChange
            &&& c.configuration is Some
            &&& c.start_index != 0
            &&& r == (RaftView {
                progress: r.progress,
                pending_membership_change: Some(c),
                pending_conf_index: if c.start_index > s.pending_conf_index {
                    c.start_index
                } else {
                    s.pending_conf_index
                },
                ..s
            })
            &&& r.prs().configuration == s.prs().configuration
            &&& r.prs().next_configuration == Some(ConfigurationView::from_conf_state(conf))
            &&& r.prs().has(id) <==> s.prs().has(id) || listed
            &&& s.prs().has(id) ==> r.prs().at(id) == s.prs().at(id)
            &&& !s.prs().has(id) && listed ==> r.prs().at(id) == (ProgressView {
                matched: 0,
                next_idx: 1,
                state: ProgressState::Probe,
                paused: false,
                pending_snapshot: 0,
                recent_active: true,
                ins: InflightsView { buffer: Seq::empty(), cap: s.max_inflight },
            })
        }),
{
    let conf = c.configuration->0;
    let next = ConfigurationView::from_conf_state(conf);
    let p = ProgressView {
        recent_active: true,
        paused: false,
        ..ProgressView::new(1, s.max_inflight)
    };
    let new = next.voters + next.learners;
    let prs = s.prs();
    let w = prs.with_missing(new, p);
    let r = s.begin_membership_change(c).0;
    law_configuration_is_the_list(conf, id);
    lemma_in_both(next.voters, next.learners, id);
    assert(prs.aligned());
    prs.lemma_with_missing(new, p);
    assert(r.prs().ids == w.ids && r.prs().progress == w.progress);
    assert(w.ids.contains(id) <==> prs.ids.contains(id) || new.contains(id));
    if w.has(id) {
        lemma_missing_at(prs, new, p, id);
    }
}

/// What is not the beginning of a membership change is refused, and nothing changes. The complaint
/// is that of the first of these that is missing: the kind, the configuration, the start index.
pub proof fn law_wrong_beginning_is_refused<T: Storage>(s: RaftView<T>, c: ConfChangeView)
    ensures
        c.change_type != ConfChangeType::BeginMembershipChange || c.configuration is None
            || c.start_index == 0 ==> s.begin_membership_change(c).0 == s
            && s.begin_membership_change(c).1 is Err && s.begin_membership_change(
            c,
        ).1->Err_0 is ViolatesContract,
        c.change_type == ConfChangeType::BeginMembershipChange && c.configuration is None
            ==> s.begin_membership_change(c).1 == Err::<(), ErrorView>(
            ErrorView::ViolatesContract("!ConfChange::has_configuration()"@),
        ),
        c.change_type == ConfChangeType::BeginMembershipChange && c.configuration is Some
            && c.start_index == 0 ==> s.begin_membership_change(c).1 == Err::<(), ErrorView>(
            ErrorView::ViolatesContract("!ConfChange::has_start_index()"@),
        ),
{
}

/// A well-formed beginning is carried out if and only if the configuration that it names has a
/// voter, and makes no node, or no voter of today, a learner that votes. Otherwise the cluster
/// stays as it is, and the error names such a node, or the want of voters.
pub proof fn law_when_a_change_begins<T: Storage>(s: RaftView<T>, c: ConfChangeView)
    requires
        c.change_type == ConfChangeType::BeginMembershipChange,
        c.configuration is Some,
        c.start_index != 0,
    ensures
        ({
            let conf = c.configuration->0;
            s.begin_membership_change(c).1 is Ok <==> {
                &&& conf.nodes.len() > 0
                &&& forall|id: u64| #[trigger]
                    conf.learners.contains(id) ==> !conf.nodes.contains(id)
                        && !s.prs().configuration.voters.contains(id)
            }
        }),
        s.begin_membership_change(c).1 matches Err(e) ==> {
            let conf = c.configuration->0;
            &&& s.begin_membership_change(c).0.progress == s.progress
            &&& {
                ||| conf.nodes.len() == 0 && e == ErrorView::ConfigInvalid(
                    "There must be at least one voter."@,
                )
                ||| e is Exists && e->Exists_1 == "learners"@ && conf.learners.contains(
                    e->Exists_0,
                ) && (conf.nodes.contains(e->Exists_0) || s.prs().configuration.voters.contains(
                    e->Exists_0,
                ))
            }
        },
{
    let conf = c.configuration->0;
    let next = ConfigurationView::from_conf_state(conf);
    let now = s.prs().configuration.voters;
    lemma_distinct(conf.nodes);
    lemma_distinct(conf.learners);
    law_when_a_configuration_is_valid(next);
    lemma_first_common(now, next.learners);
    assert(next.voters.len() > 0 <==> conf.nodes.len() > 0) by {
        if conf.nodes.len() > 0 {
            assert(conf.nodes.contains(conf.nodes[0]));
            assert(next.voters.contains(conf.nodes[0]));
        }
        if next.voters.len() > 0 {
            assert(next.voters.contains(next.voters[0]));
            assert(conf.nodes.contains(next.voters[0]));
        }
    }
    let ok = s.begin_membership_change(c).1 is Ok;
    assert(ok ==> next.validity() is Ok && first_common(now, next.learners) is None);
    if ok {
        assert forall|id: u64| #[trigger] conf.learners.contains(id) implies !conf.nodes.contains(
            id,
        ) && !now.contains(id) by {
            assert(next.learners.contains(id));
            if conf.nodes.contains(id) {
                assert(next.voters.contains(id));
            }
            if now.contains(id) {
                assert(!next.learners.contains(id));
            }
        }
    } else if conf.nodes.len() > 0 && (forall|id: u64| #[trigger]
        conf.learners.contains(id) ==> !conf.nodes.contains(id) && !now.contains(id)) {
        assert forall|id: u64| #[trigger] next.voters.contains(id) implies !next.learners.contains(
            id,
        ) by {
            if next.learners.contains(id) {
                assert(conf.learners.contains(id));
            }
        }
        assert(next.validity() is Ok);
        if first_common(now, next.learners) is Some {
            let id = first_common(now, next.learners)->0;
            assert(conf.learners.contains(id));
        }
        assert(false);
    }
}

/// What is not the end of a membership change is refused, and nothing changes. The complaint is
/// that of the first of these that is wrong: the kind, a configuration, a start index.
pub proof fn law_wrong_end_is_refused<T: Storage>(s: RaftView<T>, c: ConfChangeView)
    ensures
        c.change_type != ConfChangeType::FinalizeMembershipChange || c.configuration is Some
            || c.start_index != 0 ==> s.finalize_membership_change(c).0 == s
            && s.finalize_membership_change(c).1 is Err && s.finalize_membership_change(
            c,
        ).1->Err_0 is ViolatesContract,
        c.change_type == ConfChangeType::FinalizeMembershipChange && c.configuration is Some
            ==> s.finalize_membership_change(c).1 == Err::<(), ErrorView>(
            ErrorView::ViolatesContract("ConfChange::has_configuration()"@),
        ),
        c.change_type == ConfChangeType::FinalizeMembershipChange && c.configuration is None
            && c.start_index != 0 ==> s.finalize_membership_change(c).1 == Err::<(), ErrorView>(
            ErrorView::ViolatesContract("ConfChange::has_start_index()"@),
        ),
{
}

/// When a membership change ends, the nodes of the next configuration keep their progress, and no
/// other node has one; nothing else changes, unless the leader is not among them. A follower
/// forgets such a leader, and the leader itself steps down, in the term of the end of its log.
pub proof fn law_finalized_change_keeps_progress<T: Storage>(
    s: RaftView<T>,
    c: ConfChangeView,
    id: u64,
)
    requires
        s.wf(),
        c.change_type == ConfChangeType::FinalizeMembershipChange,
        c.configuration is None,
        c.start_index == 0,
    ensures
        ({
            let (r, outcome) = s.finalize_membership_change(c);
            let next = s.prs().next_configuration->0;
            let stays = next.contains(s.leader_id);
            &&& s.prs().next_configuration is None ==> r == s && outcome == Err::<(), ErrorView>(
                ErrorView::NoPendingMembershipChange,
            )
            &&& s.prs().next_configuration is Some ==> {
                &&& outcome is Ok
                &&& r.prs().configuration == next
                &&& r.prs().next_configuration is None
                &&& r.prs().has(id) <==> next.voters.contains(id) || next.learners.contains(id)
                &&& r.pending_membership_change is None
                &&& r.is_learner == (s.is_learner && !next.voters.contains(s.id))
                &&& r.raft_log == s.raft_log && r.msgs == s.msgs && r.vote == (if stays
                    || s.state != StateRole::Leader || r.term == s.term {
                    s.vote
                } else {
                    INVALID_ID
                })
                &&& stays || s.state != StateRole::Leader ==> {
                    &&& r.state == s.state
                    &&& r.term == s.term
                    &&& r.leader_id == (if stays {
                        s.leader_id
                    } else {
                        INVALID_ID
                    })
                    &&& r.prs().has(id) ==> r.prs().at(id) == s.prs().at(id)
                    &&& r == (RaftView {
                        progress: r.progress,
                        leader_id: r.leader_id,
                        is_learner: r.is_learner,
                        pending_membership_change: None,
                        ..s
                    })
                }
                &&& !stays && s.state == StateRole::Leader ==> r.state == StateRole::Follower
                    && r.leader_id == INVALID_ID && r.term == s.raft_log.term(
                    s.raft_log.last() as u64,
                ) && {
                    let f = s.become_follower(r.term, 0);
                    &&& r.prs().has(id) ==> r.prs().at(id) == f.prs().at(id)
                    &&& r == (RaftView {
                        progress: r.progress,
                        is_learner: r.is_learner,
                        pending_membership_change: None,
                        ..f
                    })
                }
            }
        }),
{
    if s.prs().next_configuration is Some {
        let next = s.prs().next_configuration->0;
        let t = s.without_old_leader(next);
        lemma_kept(t.prs().ids, t.prs().progress, next);
        let r = s.finalize_membership_change(c).0;
        assert(kept_ids(t.prs().ids, next).contains(id) <==> t.prs().ids.contains(id)
            && next.contains(id));
        assert(next.contains(id) ==> s.prs().ids.contains(id));
        if r.prs().has(id) {
            lemma_kept_at(t.prs().ids, t.prs().progress, next, id);
        }
    }
}

/// A leader proposes a membership change as one entry, which says that it starts at its own index
/// and leads to the configuration that was given. Only a leader does so, and only for a valid
/// configuration; otherwise nothing changes.
pub proof fn law_change_is_proposed<T: Storage>(s: RaftView<T>, c: ConfigurationView)
    requires
        s.wf(),
        s.propose_membership_change_ok(c),
    ensures
        ({
            let (r, outcome) = s.propose_membership_change(c);
            let at = (s.raft_log.last() + 1) as u64;
            &&& s.state != StateRole::Leader ==> r == s && outcome == Err::<(), ErrorView>(
                ErrorView::InvalidState(s.state),
            )
            &&& s.state == StateRole::Leader && c.validity() is Err ==> r == s && outcome
                == c.validity()
            &&& s.state == StateRole::Leader && c.validity() is Ok
                && s.prs().voter_ids().contains(s.id) && s.lead_transferee is None
                && s.raft_log.applied > s.pending_conf_index && s.pending_membership_change is None
                ==> outcome is Ok && r.raft_log.entry(at) == (EntryView {
                entry_type: EntryType::EntryConfChange,
                term: s.term,
                index: at,
                data: conf_change_bytes(
                    ConfChangeView {
                        change_type: ConfChangeType::BeginMembershipChange,
                        start_index: at,
                        configuration: Some(
                            ConfStateView { nodes: c.voters, learners: c.learners },
                        ),
                        ..ConfChangeView::empty()
                    },
                ),
                context: Seq::empty(),
            })
        }),
{
    if s.state == StateRole::Leader && c.validity() is Ok && s.prs().voter_ids().contains(s.id)
        && s.lead_transferee is None && s.raft_log.applied > s.pending_conf_index
        && s.pending_membership_change is None {
        let m = s.change_proposal(c.to_conf_state());
        assert(m.entries.take(0) =~= Seq::<EntryView>::empty());
        assert(conf_changes(m.entries.take(0)) == 0);
        law_proposal_is_put_in(s, m, 0);
    }
}

/// A leader that has applied the beginning of a membership change puts in its end, at the end of
/// its log, and nothing else follows from applying entries: they count as applied, up to the index
/// that was given.
pub proof fn law_applied_change_is_ended<T: Storage>(s: RaftView<T>, applied: u64)
    requires
        s.wf(),
        s.commit_apply_ok(applied),
        applied != 0,
    ensures
        ({
            let r = s.commit_apply(applied);
            let due = s.state == StateRole::Leader && s.pending_membership_change is Some
                && applied >= s.pending_membership_change->0.start_index;
            let at = (s.raft_log.last() + 1) as u64;
            &&& r.raft_log.applied == applied
            &&& !due ==> r == (RaftView {
                raft_log: RaftLogView { applied, ..s.raft_log },
                ..s
            })
            &&& due ==> r.raft_log.last() == at && r.raft_log.entry(at) == (EntryView {
                entry_type: EntryType::EntryConfChange,
                term: s.term,
                index: at,
                data: conf_change_bytes(
                    ConfChangeView {
                        change_type: ConfChangeType::FinalizeMembershipChange,
                        ..ConfChangeView::empty()
                    },
                ),
                context: Seq::empty(),
            })
        }),
{
    if s.is_change_due(applied) && s.state == StateRole::Leader {
        let t = s.with_applied(applied);
        let es = seq![change_entry(ConfChangeView::finalize())];
        lemma_appended(t, es, 0);
        t.lemma_append_entry(es);
    }
}

/// A configuration change that the application applies does what its kind says, to the node that it
/// names, and the outcome is the list of the configuration in force then, or the error. One that
/// should name a node and names none changes nothing.
pub proof fn law_change_is_applied_by_its_kind<T: Storage>(node: RawNodeView<T>, c: ConfChangeView)
    ensures
        ({
            let (r, outcome) = node.apply_conf_change(c);
            let kind = c.change_type;
            let add = kind == ConfChangeType::AddNode;
            let learn = kind == ConfChangeType::AddLearnerNode;
            let remove = kind == ConfChangeType::RemoveNode;
            let done = if add || learn {
                node.raft.add_voter_or_learner(c.node_id, learn)
            } else if remove {
                node.raft.remove_node(c.node_id)
            } else if kind == ConfChangeType::BeginMembershipChange {
                node.raft.begin_membership_change(c)
            } else {
                node.raft.finalize_membership_change(c)
            };
            &&& r.prev_ss == node.prev_ss && r.prev_hs == node.prev_hs
            &&& c.node_id == INVALID_ID && (add || learn || remove) ==> r.raft == node.raft
                && outcome == Ok::<ConfStateView, ErrorView>(
                ConfStateView {
                    nodes: node.raft.prs().voter_ids(),
                    learners: node.raft.prs().learner_ids(),
                },
            )
            &&& !(c.node_id == INVALID_ID && (add || learn || remove)) ==> {
                &&& r.raft == done.0
                &&& done.1 is Ok ==> outcome == Ok::<ConfStateView, ErrorView>(
                    ConfStateView {
                        nodes: done.0.prs().configuration.voters,
                        learners: done.0.prs().configuration.learners,
                    },
                )
                &&& done.1 is Err ==> outcome == Err::<ConfStateView, ErrorView>(done.1->Err_0)
            }
        }),
{
}

} // verus!
