//! The nodes of the cluster: who votes, who learns, and how far each has replicated.
use crate::collections::{votes_get, AckSet, VoteMap};
use crate::eraftpb::{clone_ids, ConfState, ConfStateView, SnapshotMetadata, SnapshotMetadataView};
use crate::errors::{unit_result, Error, ErrorView};
use crate::progress::{progress_seq, Progress, ProgressView};
use vstd::prelude::*;

verus! {

/// What the votes say of a candidate.
#[derive(Debug, PartialEq, Eq, Structural, Clone, Copy)]
pub enum CandidacyStatus {
    /// The candidate has won.
    Elected,
    /// The candidate can still win.
    Eligible,
    /// The candidate can no longer win.
    Ineligible,
}

/// `ids` without its repetitions: each number where it stands first.
pub open spec fn distinct(ids: Seq<u64>) -> Seq<u64>
    decreases ids.len(),
{
    if ids.len() == 0 {
        ids
    } else {
        let rest = distinct(ids.drop_last());
        if rest.contains(ids.last()) {
            rest
        } else {
            rest.push(ids.last())
        }
    }
}

/// `ids` without `id`.
pub open spec fn without(ids: Seq<u64>, id: u64) -> Seq<u64> {
    if ids.contains(id) {
        ids.remove(ids.index_of(id))
    } else {
        ids
    }
}

/// How many of `ids` are in `set`.
pub open spec fn count_in(ids: Seq<u64>, set: Set<u64>) -> nat
    decreases ids.len(),
{
    if ids.len() == 0 {
        0
    } else {
        count_in(ids.drop_last(), set) + (if set.contains(ids.last()) {
            1nat
        } else {
            0
        })
    }
}

/// The first of `ids` that is also among `others`.
pub open spec fn first_common(ids: Seq<u64>, others: Seq<u64>) -> Option<u64>
    decreases ids.len(),
{
    if ids.len() == 0 {
        None
    } else {
        match first_common(ids.drop_last(), others) {
            Some(id) => Some(id),
            None => if others.contains(ids.last()) {
                Some(ids.last())
            } else {
                None
            },
        }
    }
}

/// Returns the place of `id` among `ids`.
pub fn position(ids: &Vec<u64>, id: u64) -> (r: Option<usize>)
    ensures
        match r {
            Some(i) => i < ids.len() && ids@[i as int] == id && ids@.contains(id) && (
            ids@.no_duplicates() ==> i == ids@.index_of(id)),
            None => !ids@.contains(id),
        },
{
    let mut i: usize = 0;
    while i < ids.len()
        invariant
            i <= ids.len(),
            forall|j: int| 0 <= j < i ==> ids@[j] != id,
        decreases ids.len() - i,
    {
        if ids[i] == id {
            return Some(i);
        }
        i += 1;
    }
    None
}

/// Whether `id` is among `ids`.
pub fn contains(ids: &Vec<u64>, id: u64) -> (r: bool)
    ensures
        r == ids@.contains(id),
{
    position(ids, id).is_some()
}

proof fn lemma_distinct_step(ids: Seq<u64>, i: int)
    requires
        0 <= i < ids.len(),
    ensures
        distinct(ids.take(i + 1)) == (if distinct(ids.take(i)).contains(ids[i]) {
            distinct(ids.take(i))
        } else {
            distinct(ids.take(i)).push(ids[i])
        }),
{
    assert(ids.take(i + 1).drop_last() =~= ids.take(i));
}

/// Dropping repetitions leaves none, and loses no number.
pub proof fn lemma_distinct(ids: Seq<u64>)
    ensures
        distinct(ids).no_duplicates(),
        forall|x: u64| distinct(ids).contains(x) <==> ids.contains(x),
    decreases ids.len(),
{
    if ids.len() > 0 {
        let rest = distinct(ids.drop_last());
        lemma_distinct(ids.drop_last());
        assert forall|x: u64| distinct(ids).contains(x) <==> ids.contains(x) by {
            if ids.contains(x) {
                let j = ids.index_of(x);
                if j < ids.len() - 1 {
                    assert(ids.drop_last()[j] == x);
                    assert(ids.drop_last().contains(x));
                    assert(rest.contains(x));
                    let k = rest.index_of(x);
                    assert(distinct(ids)[k] == x);
                } else if !rest.contains(x) {
                    assert(distinct(ids).last() == x);
                }
            }
            if distinct(ids).contains(x) {
                let k = distinct(ids).index_of(x);
                if k < rest.len() {
                    assert(rest[k] == x);
                    assert(ids.drop_last().contains(x));
                    let j = ids.drop_last().index_of(x);
                    assert(ids[j] == x);
                } else {
                    assert(ids.last() == x);
                }
            }
        }
    } else {
        assert(distinct(ids) =~= ids);
    }
}

/// Returns `ids` without its repetitions.
pub fn dedup(ids: &Vec<u64>) -> (r: Vec<u64>)
    ensures
        r@ == distinct(ids@),
        r@.no_duplicates(),
{
    let mut r: Vec<u64> = Vec::new();
    let mut i: usize = 0;
    assert(ids@.take(0) =~= Seq::<u64>::empty());
    assert(r@ =~= distinct(ids@.take(0)));
    while i < ids.len()
        invariant
            i <= ids.len(),
            r@ == distinct(ids@.take(i as int)),
        decreases ids.len() - i,
    {
        proof {
            lemma_distinct_step(ids@, i as int);
        }
        if !contains(&r, ids[i]) {
            r.push(ids[i]);
        }
        i += 1;
    }
    assert(ids@.take(ids.len() as int) =~= ids@);
    proof {
        lemma_distinct(ids@);
    }
    r
}

/// Taking a number out of distinct numbers leaves the others, and them distinct.
pub proof fn lemma_without(ids: Seq<u64>, id: u64)
    requires
        ids.no_duplicates(),
    ensures
        without(ids, id).no_duplicates(),
        forall|x: u64| without(ids, id).contains(x) <==> ids.contains(x) && x != id,
{
    if ids.contains(id) {
        let i = ids.index_of(id);
        let r = ids.remove(i);
        assert forall|x: u64| r.contains(x) <==> ids.contains(x) && x != id by {
            if r.contains(x) {
                let k = r.index_of(x);
                if k < i {
                    assert(ids[k] == x);
                } else {
                    assert(ids[k + 1] == x);
                }
            }
            if ids.contains(x) && x != id {
                let j = ids.index_of(x);
                if j < i {
                    assert(r[j] == x);
                } else {
                    assert(r[j - 1] == x);
                }
            }
        }
    }
}

fn remove_id(ids: &mut Vec<u64>, id: u64)
    requires
        old(ids)@.no_duplicates(),
    ensures
        final(ids)@ == without(old(ids)@, id),
{
    match position(ids, id) {
        Some(i) => {
            ids.remove(i);
        },
        None => {},
    }
}

/// A set of voters and a set of learners.
#[derive(Debug)]
pub struct Configuration {
    /// The voters, in the order in which they were added.
    pub voters: Vec<u64>,
    /// The learners, in the order in which they were added.
    pub learners: Vec<u64>,
}

/// The view of a [`Configuration`].
#[verifier::ext_equal]
pub struct ConfigurationView {
    /// The voters, in the order in which they were added.
    pub voters: Seq<u64>,
    /// The learners, in the order in which they were added.
    pub learners: Seq<u64>,
}

impl View for Configuration {
    type V = ConfigurationView;

    open spec fn view(&self) -> ConfigurationView {
        ConfigurationView { voters: self.voters@, learners: self.learners@ }
    }
}

impl ConfigurationView {
    /// Nobody.
    pub open spec fn empty() -> ConfigurationView {
        ConfigurationView { voters: Seq::empty(), learners: Seq::empty() }
    }

    /// Nobody is listed twice.
    pub open spec fn wf(self) -> bool {
        self.voters.no_duplicates() && self.learners.no_duplicates()
    }

    /// The configuration that `c` lists.
    pub open spec fn from_conf_state(c: ConfStateView) -> ConfigurationView {
        ConfigurationView { voters: distinct(c.nodes), learners: distinct(c.learners) }
    }

    /// The list of this configuration.
    pub open spec fn to_conf_state(self) -> ConfStateView {
        ConfStateView { nodes: self.voters, learners: self.learners }
    }

    /// Whether `id` is a voter or a learner.
    pub open spec fn contains(self, id: u64) -> bool {
        self.voters.contains(id) || self.learners.contains(id)
    }

    /// Whether the nodes of `set` are more than half of the voters.
    pub open spec fn has_quorum(self, set: Set<u64>) -> bool {
        2 * count_in(self.voters, set) > self.voters.len()
    }

    /// What is wrong with the configuration, if anything: a voter that learns, or no
    /// voter at all.
    pub open spec fn validity(self) -> Result<(), ErrorView> {
        match first_common(self.voters, self.learners) {
            Some(id) => Err(ErrorView::Exists(id, "learners"@)),
            None => if self.voters.len() == 0 {
                Err(ErrorView::ConfigInvalid("There must be at least one voter."@))
            } else {
                Ok(())
            },
        }
    }
}

fn find_common(ids: &Vec<u64>, others: &Vec<u64>) -> (r: Option<u64>)
    ensures
        r == first_common(ids@, others@),
{
    let mut i: usize = 0;
    assert(ids@.take(0) =~= Seq::<u64>::empty());
    while i < ids.len()
        invariant
            i <= ids.len(),
            first_common(ids@.take(i as int), others@) is None,
        decreases ids.len() - i,
    {
        assert(ids@.take(i + 1).drop_last() =~= ids@.take(i as int));
        if contains(others, ids[i]) {
            proof {
                lemma_first_common_prefix(ids@, others@, i + 1);
            }
            return Some(ids[i]);
        }
        i += 1;
    }
    assert(ids@.take(ids.len() as int) =~= ids@);
    None
}

proof fn lemma_first_common_prefix(ids: Seq<u64>, others: Seq<u64>, n: int)
    requires
        0 <= n <= ids.len(),
        first_common(ids.take(n), others) is Some,
    ensures
        first_common(ids, others) == first_common(ids.take(n), others),
    decreases ids.len(),
{
    if n == ids.len() {
        assert(ids.take(n) =~= ids);
    } else {
        assert(ids.drop_last().take(n) =~= ids.take(n));
        lemma_first_common_prefix(ids.drop_last(), others, n);
    }
}

impl Configuration {
    /// Returns the configuration without nodes.
    pub fn new() -> (r: Configuration)
        ensures
            r@ == ConfigurationView::empty(),
    {
        Configuration { voters: Vec::new(), learners: Vec::new() }
    }

    /// Returns the configuration that `c` lists.
    pub fn from_conf_state(c: &ConfState) -> (r: Configuration)
        ensures
            r@ == ConfigurationView::from_conf_state(c@),
            r@.wf(),
    {
        Configuration { voters: dedup(&c.nodes), learners: dedup(&c.learners) }
    }

    /// Returns the list of this configuration.
    pub fn to_conf_state(&self) -> (r: ConfState)
        ensures
            r@ == self@.to_conf_state(),
    {
        ConfState { nodes: clone_ids(&self.voters), learners: clone_ids(&self.learners) }
    }

    /// Whether `id` is a voter or a learner.
    pub fn contains(&self, id: u64) -> (r: bool)
        ensures
            r == self@.contains(id),
    {
        contains(&self.voters, id) || contains(&self.learners, id)
    }

    /// Checks that nobody is both a voter and a learner, and that there is a voter.
    pub fn valid(&self) -> (r: Result<(), Error>)
        ensures
            unit_result(r) == self@.validity(),
    {
        match find_common(&self.voters, &self.learners) {
            Some(id) => Err(Error::Exists(id, "learners")),
            None => {
                if self.voters.len() == 0 {
                    Err(Error::ConfigInvalid("There must be at least one voter.".to_owned()))
                } else {
                    Ok(())
                }
            },
        }
    }

    /// Whether the nodes of `set` are more than half of the voters.
    pub fn has_quorum(&self, set: &AckSet) -> (r: bool)
        ensures
            r == self@.has_quorum(set@),
    {
        let mut n: usize = 0;
        let mut i: usize = 0;
        assert(self.voters@.take(0) =~= Seq::<u64>::empty());
        while i < self.voters.len()
            invariant
                n <= i <= self.voters.len(),
                n == count_in(self.voters@.take(i as int), set@),
            decreases self.voters.len() - i,
        {
            assert(self.voters@.take(i + 1).drop_last() =~= self.voters@.take(i as int));
            if set.contains(self.voters[i]) {
                n += 1;
            }
            i += 1;
        }
        assert(self.voters@.take(self.voters.len() as int) =~= self.voters@);
        n > self.voters.len() / 2
    }

    /// Whether those who voted `vote` are more than half of the voters.
    fn has_vote_quorum(&self, votes: &VoteMap, vote: bool) -> (r: bool)
        ensures
            r == self@.has_quorum(voted(votes@, vote)),
    {
        let mut n: usize = 0;
        let mut i: usize = 0;
        assert(self.voters@.take(0) =~= Seq::<u64>::empty());
        while i < self.voters.len()
            invariant
                n <= i <= self.voters.len(),
                n == count_in(self.voters@.take(i as int), voted(votes@, vote)),
            decreases self.voters.len() - i,
        {
            assert(self.voters@.take(i + 1).drop_last() =~= self.voters@.take(i as int));
            let v = votes_get(votes, self.voters[i]);
            match v {
                Some(b) => {
                    if b == vote {
                        n += 1;
                    }
                },
                None => {},
            }
            i += 1;
        }
        assert(self.voters@.take(self.voters.len() as int) =~= self.voters@);
        n > self.voters.len() / 2
    }
}

impl Clone for Configuration {
    fn clone(&self) -> (r: Self)
        ensures
            r@ == self@,
    {
        Configuration { voters: clone_ids(&self.voters), learners: clone_ids(&self.learners) }
    }
}

/// Those who voted `vote`.
pub open spec fn voted(votes: Map<u64, bool>, vote: bool) -> Set<u64> {
    Set::new(|id: u64| votes.contains_key(id) && votes[id] == vote)
}

/// The nodes of the cluster and how far each has replicated.
#[derive(Debug)]
pub struct ProgressSet {
    /// The nodes, in the order in which they were added.
    pub ids: Vec<u64>,
    /// The progress of each node, in the same order.
    pub progress: Vec<Progress>,
    /// The configuration in force.
    pub configuration: Configuration,
    /// The configuration that a membership change under way leads to.
    pub next_configuration: Option<Configuration>,
}

/// The view of a [`ProgressSet`].
#[verifier::ext_equal]
pub struct ProgressSetView {
    /// The nodes, in the order in which they were added.
    pub ids: Seq<u64>,
    /// The progress of each node, in the same order.
    pub progress: Seq<ProgressView>,
    /// The configuration in force.
    pub configuration: ConfigurationView,
    /// The configuration that a membership change under way leads to.
    pub next_configuration: Option<ConfigurationView>,
}

impl View for ProgressSet {
    type V = ProgressSetView;

    open spec fn view(&self) -> ProgressSetView {
        ProgressSetView {
            ids: self.ids@,
            progress: progress_seq(self.progress@),
            configuration: self.configuration@,
            next_configuration: match self.next_configuration {
                Some(c) => Some(c@),
                None => None,
            },
        }
    }
}

/// What is left of the progress of `ids` when only the nodes of `c` stay.
pub open spec fn kept_progress(ids: Seq<u64>, progress: Seq<ProgressView>, c: ConfigurationView) -> Seq<
    ProgressView,
>
    decreases ids.len(),
{
    if ids.len() == 0 {
        Seq::empty()
    } else {
        let rest = kept_progress(ids.drop_last(), progress, c);
        if c.contains(ids.last()) {
            rest.push(progress[ids.len() - 1])
        } else {
            rest
        }
    }
}

/// What is left of `ids` when only the nodes of `c` stay.
pub open spec fn kept_ids(ids: Seq<u64>, c: ConfigurationView) -> Seq<u64>
    decreases ids.len(),
{
    if ids.len() == 0 {
        Seq::empty()
    } else {
        let rest = kept_ids(ids.drop_last(), c);
        if c.contains(ids.last()) {
            rest.push(ids.last())
        } else {
            rest
        }
    }
}

/// The error while a membership change is under way.
pub open spec fn change_pending() -> ErrorView {
    ErrorView::ViolatesContract("There is a pending membership change."@)
}

impl ProgressSetView {
    /// No nodes.
    pub open spec fn empty() -> ProgressSetView {
        ProgressSetView {
            ids: Seq::empty(),
            progress: Seq::empty(),
            configuration: ConfigurationView::empty(),
            next_configuration: None,
        }
    }

    /// Nobody is listed twice, and each voter and learner has a progress.
    pub open spec fn wf(self) -> bool {
        &&& self.ids.len() == self.progress.len()
        &&& self.ids.no_duplicates()
        &&& self.configuration.wf()
        &&& forall|id: u64| #[trigger]
            self.configuration.contains(id) ==> self.ids.contains(id)
        &&& match self.next_configuration {
            Some(next) => next.wf() && (forall|id: u64| #[trigger]
                next.contains(id) ==> self.ids.contains(id)),
            None => true,
        }
    }

    /// Every progress is well-formed.
    pub open spec fn all_ok(self) -> bool {
        forall|i: int| 0 <= i < self.progress.len() ==> (#[trigger] self.progress[i]).wf()
    }

    /// Whether `id` has a progress.
    pub open spec fn has(self, id: u64) -> bool {
        self.ids.contains(id)
    }

    /// The progress of `id`.
    pub open spec fn at(self, id: u64) -> ProgressView {
        self.progress[self.ids.index_of(id)]
    }

    /// With the progress of `id` replaced.
    pub open spec fn set(self, id: u64, p: ProgressView) -> ProgressSetView {
        ProgressSetView { progress: self.progress.update(self.ids.index_of(id), p), ..self }
    }

    /// With the progress of `id` put in, whether or not it had one.
    pub open spec fn put(self, id: u64, p: ProgressView) -> ProgressSetView {
        if self.has(id) {
            self.set(id, p)
        } else {
            ProgressSetView { ids: self.ids.push(id), progress: self.progress.push(p), ..self }
        }
    }

    /// Whether `id` votes, now or after the change under way.
    pub open spec fn is_voter(self, id: u64) -> bool {
        self.configuration.voters.contains(id) || (self.next_configuration matches Some(next)
            && next.voters.contains(id))
    }

    /// Whether `id` learns, now or after the change under way.
    pub open spec fn is_learner(self, id: u64) -> bool {
        self.configuration.learners.contains(id) || (self.next_configuration matches Some(next)
            && next.learners.contains(id))
    }

    /// All voters: those of now, then those that the change under way adds.
    pub open spec fn voter_ids(self) -> Seq<u64> {
        match self.next_configuration {
            Some(next) => distinct(self.configuration.voters + next.voters),
            None => self.configuration.voters,
        }
    }

    /// All learners: those of now, then those that the change under way adds.
    pub open spec fn learner_ids(self) -> Seq<u64> {
        match self.next_configuration {
            Some(next) => distinct(self.configuration.learners + next.learners),
            None => self.configuration.learners,
        }
    }

    /// Whether a membership change is under way.
    pub open spec fn is_in_membership_change(self) -> bool {
        self.next_configuration is Some
    }

    /// Whether the nodes of `set` are a quorum: more than half of the voters, and of
    /// those after the change under way as well.
    pub open spec fn has_quorum(self, set: Set<u64>) -> bool {
        self.configuration.has_quorum(set) && (match self.next_configuration {
            Some(next) => next.has_quorum(set),
            None => true,
        })
    }

    /// What the votes say of a candidate: it has won with a quorum of votes for it, and
    /// lost when more than half of the voters, of now or of after the change under way,
    /// are against it.
    pub open spec fn candidacy_status(self, votes: Map<u64, bool>) -> CandidacyStatus {
        if self.has_quorum(voted(votes, true)) {
            CandidacyStatus::Elected
        } else if self.configuration.has_quorum(voted(votes, false)) || (
        self.next_configuration matches Some(next) && next.has_quorum(voted(votes, false))) {
            CandidacyStatus::Ineligible
        } else {
            CandidacyStatus::Eligible
        }
    }

    /// The nodes that have everything up to `n`.
    pub open spec fn replicated_on(self, n: u64) -> Set<u64> {
        Set::new(|id: u64| self.has(id) && self.at(id).matched >= n)
    }

    /// Whether `n` is the greatest index that a quorum has.
    pub open spec fn is_quorum_index(self, n: u64) -> bool {
        &&& self.has_quorum(self.replicated_on(n))
        &&& forall|m: u64| m > n ==> !self.has_quorum(#[trigger] self.replicated_on(m))
    }

    /// The greatest index that a quorum has.
    pub open spec fn maximal_committed_index(self) -> u64 {
        choose|n: u64| self.is_quorum_index(n)
    }

    /// Whether each configuration has a voter.
    pub open spec fn has_voters(self) -> bool {
        self.configuration.voters.len() > 0 && (self.next_configuration matches Some(next)
            ==> next.voters.len() > 0)
    }

    /// The nodes that were heard of since the last check, `from` among them.
    pub open spec fn active(self, from: u64) -> Set<u64> {
        Set::new(|id: u64| self.has(id) && (id == from || self.at(id).recent_active))
    }

    /// After a check of activity made by `from`: nobody was heard of, but `from` itself
    /// keeps its mark, unless it learns.
    pub open spec fn checked(self, from: u64) -> ProgressSetView {
        ProgressSetView {
            progress: Seq::new(
                self.progress.len(),
                |i: int|
                    {
                        let id = self.ids[i];
                        let p = self.progress[i];
                        if self.is_learner(id) || (self.is_voter(id) && id != from) {
                            ProgressView { recent_active: false, ..p }
                        } else {
                            p
                        }
                    },
            ),
            ..self
        }
    }

    /// As if nothing were known of any node, but that `self_id` itself ends at `last`.
    pub open spec fn reset(self, self_id: u64, last: u64) -> ProgressSetView {
        ProgressSetView {
            progress: Seq::new(
                self.progress.len(),
                |i: int|
                    {
                        let p = self.progress[i].reset((last + 1) as u64);
                        if self.ids[i] == self_id {
                            ProgressView { matched: last, ..p }
                        } else {
                            p
                        }
                    },
            ),
            ..self
        }
    }

    /// Why a new node cannot be added, if it cannot.
    pub open spec fn insert_error(self, id: u64) -> Option<ErrorView> {
        if self.is_learner(id) {
            Some(ErrorView::Exists(id, "learners"@))
        } else if self.is_voter(id) {
            Some(ErrorView::Exists(id, "voters"@))
        } else if self.is_in_membership_change() {
            Some(change_pending())
        } else {
            None
        }
    }

    /// With the new voter `id`.
    pub open spec fn insert_voter(self, id: u64, p: ProgressView) -> ProgressSetView {
        ProgressSetView {
            configuration: ConfigurationView {
                voters: self.configuration.voters.push(id),
                ..self.configuration
            },
            ..self.put(id, p)
        }
    }

    /// With the new learner `id`.
    pub open spec fn insert_learner(self, id: u64, p: ProgressView) -> ProgressSetView {
        ProgressSetView {
            configuration: ConfigurationView {
                learners: self.configuration.learners.push(id),
                ..self.configuration
            },
            ..self.put(id, p)
        }
    }

    /// Why `id` cannot be removed, if it cannot.
    pub open spec fn remove_error(self, id: u64) -> Option<ErrorView> {
        if !self.is_voter(id) && !self.is_learner(id) {
            Some(ErrorView::NotExists(id, "voters or learners"@))
        } else if self.is_in_membership_change() {
            Some(change_pending())
        } else {
            None
        }
    }

    /// Without `id`.
    pub open spec fn remove(self, id: u64) -> ProgressSetView {
        ProgressSetView {
            ids: self.ids.remove(self.ids.index_of(id)),
            progress: self.progress.remove(self.ids.index_of(id)),
            configuration: ConfigurationView {
                voters: without(self.configuration.voters, id),
                learners: without(self.configuration.learners, id),
            },
            ..self
        }
    }

    /// Why the learner `id` cannot be made a voter, if it cannot.
    pub open spec fn promote_error(self, id: u64) -> Option<ErrorView> {
        if self.is_in_membership_change() {
            Some(change_pending())
        } else if !self.configuration.learners.contains(id) {
            Some(ErrorView::NotExists(id, "learners"@))
        } else if self.configuration.voters.contains(id) {
            Some(ErrorView::Exists(id, "voters"@))
        } else {
            None
        }
    }

    /// After the learner `id` was to be made a voter. One that votes already only stops
    /// learning.
    pub open spec fn promote(self, id: u64) -> ProgressSetView {
        if self.is_in_membership_change() || !self.configuration.learners.contains(id) {
            self
        } else {
            ProgressSetView {
                configuration: ConfigurationView {
                    voters: if self.configuration.voters.contains(id) {
                        self.configuration.voters
                    } else {
                        self.configuration.voters.push(id)
                    },
                    learners: without(self.configuration.learners, id),
                },
                ..self
            }
        }
    }

    /// With progress `p` for each of `new` that has none.
    pub open spec fn with_missing(self, new: Seq<u64>, p: ProgressView) -> ProgressSetView
        decreases new.len(),
    {
        if new.len() == 0 {
            self
        } else {
            let rest = self.with_missing(new.drop_last(), p);
            if rest.has(new.last()) {
                rest
            } else {
                rest.put(new.last(), p)
            }
        }
    }

    /// Why the change to `next` cannot begin, if it cannot: `next` is not valid, or it
    /// makes a voter learn.
    pub open spec fn begin_error(self, next: ConfigurationView) -> Option<ErrorView> {
        match next.validity() {
            Err(e) => Some(e),
            Ok(_) => match first_common(self.configuration.voters, next.learners) {
                Some(id) => Some(ErrorView::Exists(id, "learners"@)),
                None => None,
            },
        }
    }

    /// With the change to `next` under way. A node that is new counts as active.
    pub open spec fn begin_change(self, next: ConfigurationView, p: ProgressView) -> ProgressSetView {
        ProgressSetView {
            next_configuration: Some(next),
            ..self.with_missing(
                next.voters + next.learners,
                ProgressView { recent_active: true, paused: false, ..p },
            )
        }
    }

    /// With the change under way finished: only its nodes are left.
    pub open spec fn finalize_change(self) -> ProgressSetView {
        let next = self.next_configuration->0;
        ProgressSetView {
            ids: kept_ids(self.ids, next),
            progress: kept_progress(self.ids, self.progress, next),
            configuration: next,
            next_configuration: None,
        }
    }

    /// The nodes that a snapshot lists, each to be sent `next_idx` first.
    pub open spec fn from_snapshot(
        meta: SnapshotMetadataView,
        next_idx: u64,
        max_inflight: usize,
    ) -> ProgressSetView {
        let p = ProgressView::new(next_idx, max_inflight);
        let current = ConfigurationView::from_conf_state(meta.conf_state);
        let base = ProgressSetView { configuration: current, ..ProgressSetView::empty() };
        let listed = base.with_missing(meta.conf_state.nodes, p).with_missing(
            meta.conf_state.learners,
            p,
        );
        if meta.pending_membership_change_index == 0 {
            listed
        } else {
            let next = meta.pending_membership_change;
            ProgressSetView {
                next_configuration: Some(ConfigurationView::from_conf_state(next)),
                ..listed.with_missing(next.nodes, p).with_missing(next.learners, p)
            }
        }
    }
}

/// Sets that agree on `ids` hold equally many of them.
pub proof fn lemma_count_agree(ids: Seq<u64>, a: Set<u64>, b: Set<u64>)
    requires
        forall|x: u64| #[trigger] ids.contains(x) ==> (a.contains(x) <==> b.contains(x)),
    ensures
        count_in(ids, a) == count_in(ids, b),
    decreases ids.len(),
{
    if ids.len() > 0 {
        assert(ids[ids.len() - 1] == ids.last());
        assert(ids.contains(ids.last()));
        assert forall|x: u64| #[trigger] ids.drop_last().contains(x) implies (a.contains(x)
            <==> b.contains(x)) by {
            let j = ids.drop_last().index_of(x);
            assert(ids[j] == x);
            assert(ids.contains(x));
        }
        lemma_count_agree(ids.drop_last(), a, b);
    }
}

/// If a set holds some of `ids`, it holds a certain one of them.
pub proof fn lemma_count_positive(ids: Seq<u64>, a: Set<u64>) -> (x: u64)
    requires
        count_in(ids, a) > 0,
    ensures
        ids.contains(x),
        a.contains(x),
    decreases ids.len(),
{
    if a.contains(ids.last()) {
        assert(ids[ids.len() - 1] == ids.last());
        ids.last()
    } else {
        let x = lemma_count_positive(ids.drop_last(), a);
        let j = ids.drop_last().index_of(x);
        assert(ids[j] == x);
        x
    }
}

/// A set that holds all of `ids` holds as many as there are.
pub proof fn lemma_count_all(ids: Seq<u64>, a: Set<u64>)
    requires
        forall|x: u64| ids.contains(x) ==> a.contains(x),
    ensures
        count_in(ids, a) == ids.len(),
    decreases ids.len(),
{
    if ids.len() > 0 {
        assert(ids[ids.len() - 1] == ids.last());
        assert forall|x: u64| ids.drop_last().contains(x) implies a.contains(x) by {
            let j = ids.drop_last().index_of(x);
            assert(ids[j] == x);
        }
        lemma_count_all(ids.drop_last(), a);
    }
}

impl ProgressSetView {
    /// Of the nodes `ids` that have everything up to `m`, one that has the least.
    proof fn lemma_least(self, ids: Seq<u64>, m: u64) -> (r: Option<u64>)
        ensures
            match r {
                Some(v) => ids.contains(v) && self.replicated_on(m).contains(v) && forall|u: u64|
                    ids.contains(u) && self.replicated_on(m).contains(u) ==> self.at(v).matched
                        <= self.at(u).matched,
                None => forall|u: u64|
                    ids.contains(u) ==> !self.replicated_on(m).contains(u),
            },
        decreases ids.len(),
    {
        if ids.len() == 0 {
            None
        } else {
            let last = ids.last();
            let rest = ids.drop_last();
            let best = self.lemma_least(rest, m);
            assert(ids[ids.len() - 1] == last);
            assert forall|u: u64| ids.contains(u) && u != last implies rest.contains(u) by {
                let j = ids.index_of(u);
                assert(rest[j] == u);
            }
            assert forall|u: u64| rest.contains(u) implies ids.contains(u) by {
                let j = rest.index_of(u);
                assert(ids[j] == u);
            }
            if self.replicated_on(m).contains(last) {
                match best {
                    Some(v) => if self.at(last).matched < self.at(v).matched {
                        Some(last)
                    } else {
                        Some(v)
                    },
                    None => Some(last),
                }
            } else {
                best
            }
        }
    }

    /// All voters, with repetitions.
    spec fn all_voters(self) -> Seq<u64> {
        match self.next_configuration {
            Some(next) => self.configuration.voters + next.voters,
            None => self.configuration.voters,
        }
    }

    /// The greatest matched index of a voter that a quorum has is the greatest index that
    /// a quorum has.
    proof fn lemma_quorum_index(self, best: u64)
        requires
            self.wf(),
            self.has_quorum(self.replicated_on(best)),
            forall|id: u64| #[trigger]
                self.all_voters().contains(id) && self.has_quorum(
                    self.replicated_on(self.at(id).matched),
                ) ==> self.at(id).matched <= best,
        ensures
            self.is_quorum_index(best),
            self.maximal_committed_index() == best,
    {
        assert forall|m: u64| m > best implies !self.has_quorum(
            #[trigger] self.replicated_on(m),
        ) by {
            if self.has_quorum(self.replicated_on(m)) {
                let all = self.all_voters();
                let x = lemma_count_positive(self.configuration.voters, self.replicated_on(m));
                let j = self.configuration.voters.index_of(x);
                assert(all[j] == x);
                assert(all.contains(x));
                let least = self.lemma_least(all, m);
                assert(least is Some);
                let v = least->0;
                let mv = self.at(v).matched;
                assert forall|u: u64| #[trigger] all.contains(u) implies (self.replicated_on(m).contains(u)
                    <==> self.replicated_on(mv).contains(u)) by {
                    if self.replicated_on(m).contains(u) {
                        assert(mv <= self.at(u).matched);
                    }
                }
                assert forall|u: u64| #[trigger]
                    self.configuration.voters.contains(u) implies all.contains(u) by {
                    let k = self.configuration.voters.index_of(u);
                    assert(all[k] == u);
                }
                lemma_count_agree(
                    self.configuration.voters,
                    self.replicated_on(m),
                    self.replicated_on(mv),
                );
                if let Some(next) = self.next_configuration {
                    assert forall|u: u64| #[trigger] next.voters.contains(u) implies all.contains(
                        u,
                    ) by {
                        let k = next.voters.index_of(u);
                        assert(all[self.configuration.voters.len() + k] == u);
                    }
                    lemma_count_agree(
                        next.voters,
                        self.replicated_on(m),
                        self.replicated_on(mv),
                    );
                }
                assert(self.has_quorum(self.replicated_on(mv)));
            }
        }
        assert(self.is_quorum_index(best));
        let chosen = self.maximal_committed_index();
        assert(self.is_quorum_index(chosen));
        if chosen > best {
            assert(!self.has_quorum(self.replicated_on(chosen)));
        }
        if best > chosen {
            assert(!self.has_quorum(self.replicated_on(best)));
        }
    }

    /// With a voter in each configuration there is a greatest index that a quorum has,
    /// and it is 0 or above.
    pub proof fn lemma_quorum_at_zero(self)
        requires
            self.wf(),
            self.has_voters(),
        ensures
            self.has_quorum(self.replicated_on(0)),
    {
        let all = self.replicated_on(0);
        assert forall|x: u64| self.configuration.voters.contains(x) implies all.contains(x) by {
            assert(self.configuration.contains(x));
        }
        lemma_count_all(self.configuration.voters, all);
        if let Some(next) = self.next_configuration {
            assert forall|x: u64| next.voters.contains(x) implies all.contains(x) by {
                assert(next.contains(x));
            }
            lemma_count_all(next.voters, all);
        }
    }

    /// The place of a node among the nodes.
    pub proof fn lemma_index(self, i: int)
        requires
            self.wf(),
            0 <= i < self.ids.len(),
        ensures
            self.has(self.ids[i]),
            self.ids.index_of(self.ids[i]) == i,
            self.at(self.ids[i]) == self.progress[i],
    {
    }
}

impl ProgressSet {
    /// Returns the set without nodes.
    pub fn new() -> (r: ProgressSet)
        ensures
            r@ == ProgressSetView::empty(),
            r@.wf(),
            r@.all_ok(),
    {
        let r = ProgressSet {
            ids: Vec::new(),
            progress: Vec::new(),
            configuration: Configuration::new(),
            next_configuration: None,
        };
        assert(r@ =~= ProgressSetView::empty());
        r
    }

    /// Returns the progress of `id`.
    pub fn get(&self, id: u64) -> (r: Option<&Progress>)
        requires
            self@.wf(),
        ensures
            match r {
                Some(p) => self@.has(id) && p@ == self@.at(id),
                None => !self@.has(id),
            },
    {
        match position(&self.ids, id) {
            Some(i) => Some(&self.progress[i]),
            None => None,
        }
    }

    /// Returns the progress of `id` for changing it.
    pub fn get_mut(&mut self, id: u64) -> (r: Option<&mut Progress>)
        requires
            old(self)@.wf(),
        ensures
            match r {
                Some(p) => old(self)@.has(id) && (*p)@ == old(self)@.at(id) && final(self)@
                    == old(self)@.set(id, (*final(p))@),
                None => !old(self)@.has(id) && final(self)@ == old(self)@,
            },
    {
        match position(&self.ids, id) {
            Some(i) => {
                let ghost ps = self.progress@;
                let p = &mut self.progress[i];
                proof {
                    assert(progress_seq(ps.update(i as int, *final(p))) =~= progress_seq(
                        ps,
                    ).update(i as int, (*final(p))@));
                }
                Some(p)
            },
            None => None,
        }
    }

    /// Whether `id` has a progress.
    pub fn has(&self, id: u64) -> (r: bool)
        ensures
            r == self@.has(id),
    {
        contains(&self.ids, id)
    }

    /// Whether `id` votes, now or after the change under way.
    pub fn is_voter(&self, id: u64) -> (r: bool)
        ensures
            r == self@.is_voter(id),
    {
        contains(&self.configuration.voters, id) || match &self.next_configuration {
            Some(next) => contains(&next.voters, id),
            None => false,
        }
    }

    /// Whether `id` learns, now or after the change under way.
    pub fn is_learner(&self, id: u64) -> (r: bool)
        ensures
            r == self@.is_learner(id),
    {
        contains(&self.configuration.learners, id) || match &self.next_configuration {
            Some(next) => contains(&next.learners, id),
            None => false,
        }
    }

    /// Returns all voters.
    pub fn voter_ids(&self) -> (r: Vec<u64>)
        ensures
            r@ == self@.voter_ids(),
    {
        let mut ids = clone_ids(&self.configuration.voters);
        match &self.next_configuration {
            Some(next) => {
                let mut more = clone_ids(&next.voters);
                ids.append(&mut more);
                dedup(&ids)
            },
            None => ids,
        }
    }

    /// Returns all learners.
    pub fn learner_ids(&self) -> (r: Vec<u64>)
        ensures
            r@ == self@.learner_ids(),
    {
        let mut ids = clone_ids(&self.configuration.learners);
        match &self.next_configuration {
            Some(next) => {
                let mut more = clone_ids(&next.learners);
                ids.append(&mut more);
                dedup(&ids)
            },
            None => ids,
        }
    }

    /// Whether a membership change is under way.
    pub fn is_in_membership_change(&self) -> (r: bool)
        ensures
            r == self@.is_in_membership_change(),
    {
        self.next_configuration.is_some()
    }

    /// Whether the nodes of `set` are a quorum.
    pub fn has_quorum(&self, set: &AckSet) -> (r: bool)
        ensures
            r == self@.has_quorum(set@),
    {
        self.configuration.has_quorum(set) && match &self.next_configuration {
            Some(next) => next.has_quorum(set),
            None => true,
        }
    }

    /// Returns what the votes say of a candidate.
    pub fn candidacy_status(&self, votes: &VoteMap) -> (r: CandidacyStatus)
        ensures
            r == self@.candidacy_status(votes@),
    {
        let won = self.configuration.has_vote_quorum(votes, true) && match &self.next_configuration {
            Some(next) => next.has_vote_quorum(votes, true),
            None => true,
        };
        if won {
            return CandidacyStatus::Elected;
        }
        let lost = self.configuration.has_vote_quorum(votes, false)
            || match &self.next_configuration {
            Some(next) => next.has_vote_quorum(votes, false),
            None => false,
        };
        if lost {
            CandidacyStatus::Ineligible
        } else {
            CandidacyStatus::Eligible
        }
    }

    fn count_matched(&self, voters: &Vec<u64>, n: u64) -> (r: usize)
        requires
            self@.wf(),
        ensures
            r == count_in(voters@, self@.replicated_on(n)),
            r <= voters.len(),
    {
        let mut c: usize = 0;
        let mut i: usize = 0;
        assert(voters@.take(0) =~= Seq::<u64>::empty());
        while i < voters.len()
            invariant
                self@.wf(),
                c <= i <= voters.len(),
                c == count_in(voters@.take(i as int), self@.replicated_on(n)),
            decreases voters.len() - i,
        {
            assert(voters@.take(i + 1).drop_last() =~= voters@.take(i as int));
            match self.get(voters[i]) {
                Some(p) => {
                    if p.matched >= n {
                        c += 1;
                    }
                },
                None => {},
            }
            i += 1;
        }
        assert(voters@.take(voters.len() as int) =~= voters@);
        c
    }

    fn quorum_has(&self, n: u64) -> (r: bool)
        requires
            self@.wf(),
        ensures
            r == self@.has_quorum(self@.replicated_on(n)),
    {
        self.count_matched(&self.configuration.voters, n) > self.configuration.voters.len() / 2
            && match &self.next_configuration {
            Some(next) => self.count_matched(&next.voters, n) > next.voters.len() / 2,
            None => true,
        }
    }

    /// Returns the greater of `best` and the greatest matched index of `voters` that a
    /// quorum has.
    fn improve(&self, voters: &Vec<u64>, best: u64) -> (r: u64)
        requires
            self@.wf(),
            self@.has_quorum(self@.replicated_on(best)),
            forall|id: u64| #[trigger] voters@.contains(id) ==> self@.has(id),
        ensures
            r >= best,
            self@.has_quorum(self@.replicated_on(r)),
            forall|id: u64| #[trigger]
                voters@.contains(id) && self@.has_quorum(
                    self@.replicated_on(self@.at(id).matched),
                ) ==> self@.at(id).matched <= r,
    {
        let mut r: u64 = best;
        let mut i: usize = 0;
        while i < voters.len()
            invariant
                self@.wf(),
                i <= voters.len(),
                r >= best,
                self@.has_quorum(self@.replicated_on(r)),
                forall|id: u64| #[trigger] voters@.contains(id) ==> self@.has(id),
                forall|j: int|
                    0 <= j < i && self@.has_quorum(
                        self@.replicated_on(self@.at(#[trigger] voters@[j]).matched),
                    ) ==> self@.at(voters@[j]).matched <= r,
            decreases voters.len() - i,
        {
            assert(voters@.contains(voters@[i as int]));
            match self.get(voters[i]) {
                Some(p) => {
                    let m: u64 = p.matched;
                    if m > r && self.quorum_has(m) {
                        r = m;
                    }
                },
                None => {},
            }
            i += 1;
        }
        r
    }

    /// Returns the greatest index that a quorum has.
    pub fn maximal_committed_index(&self) -> (r: u64)
        requires
            self@.wf(),
            self@.has_voters(),
        ensures
            r == self@.maximal_committed_index(),
            self@.is_quorum_index(r),
    {
        proof {
            self@.lemma_quorum_at_zero();
            assert forall|id: u64| #[trigger] self@.configuration.voters.contains(id) implies self@.has(
                id,
            ) by {
                assert(self@.configuration.contains(id));
            }
        }
        let mut best: u64 = self.improve(&self.configuration.voters, 0);
        match &self.next_configuration {
            Some(next) => {
                proof {
                    assert forall|id: u64| #[trigger] next@.voters.contains(id) implies self@.has(
                        id,
                    ) by {
                        assert(next@.contains(id));
                    }
                }
                best = self.improve(&next.voters, best);
            },
            None => {},
        }
        proof {
            let all = self@.all_voters();
            assert forall|id: u64| #[trigger]
                all.contains(id) && self@.has_quorum(
                    self@.replicated_on(self@.at(id).matched),
                ) implies self@.at(id).matched <= best by {
                let j = all.index_of(id);
                if j < self@.configuration.voters.len() {
                    assert(self@.configuration.voters[j] == id);
                    assert(self@.configuration.voters.contains(id));
                } else {
                    let next = self@.next_configuration->0;
                    assert(next.voters[j - self@.configuration.voters.len()] == id);
                    assert(next.voters.contains(id));
                }
            }
            self@.lemma_quorum_index(best);
        }
        best
    }
}

impl ProgressSetView {
    /// Each node stands once, beside its progress.
    pub open spec fn aligned(self) -> bool {
        self.ids.len() == self.progress.len() && self.ids.no_duplicates()
    }

    /// What putting a progress in does to the list of nodes.
    pub proof fn lemma_put(self, id: u64, p: ProgressView)
        requires
            self.aligned(),
        ensures
            self.put(id, p).aligned(),
            self.put(id, p).at(id) == p,
            forall|x: u64| #[trigger]
                self.put(id, p).ids.contains(x) <==> self.ids.contains(x) || x == id,
            self.all_ok() && p.wf() ==> self.put(id, p).all_ok(),
            self.put(id, p).configuration == self.configuration,
            self.put(id, p).next_configuration == self.next_configuration,
    {
        let r = self.put(id, p);
        if !self.has(id) {
            assert forall|x: u64| #[trigger] r.ids.contains(x) <==> self.ids.contains(x) || x
                == id by {
                if self.ids.contains(x) {
                    let j = self.ids.index_of(x);
                    assert(r.ids[j] == x);
                }
                assert(r.ids.last() == id);
            }
            let k = r.ids.index_of(id);
            assert(r.ids[self.ids.len() as int] == id);
            assert(k == self.ids.len());
        }
    }

    /// What adding the missing nodes does to the list of nodes.
    pub proof fn lemma_with_missing(self, new: Seq<u64>, p: ProgressView)
        requires
            self.aligned(),
        ensures
            self.with_missing(new, p).aligned(),
            forall|x: u64| #[trigger]
                self.with_missing(new, p).ids.contains(x) <==> self.ids.contains(x)
                    || new.contains(x),
            self.all_ok() && p.wf() ==> self.with_missing(new, p).all_ok(),
            self.with_missing(new, p).configuration == self.configuration,
            self.with_missing(new, p).next_configuration == self.next_configuration,
        decreases new.len(),
    {
        if new.len() > 0 {
            self.lemma_with_missing(new.drop_last(), p);
            let rest = self.with_missing(new.drop_last(), p);
            rest.lemma_put(new.last(), p);
            let r = self.with_missing(new, p);
            assert forall|x: u64| #[trigger] r.ids.contains(x) <==> self.ids.contains(x)
                || new.contains(x) by {
                if new.contains(x) && x != new.last() {
                    let j = new.index_of(x);
                    assert(new.drop_last()[j] == x);
                }
                if new.drop_last().contains(x) {
                    let j = new.drop_last().index_of(x);
                    assert(new[j] == x);
                }
                assert(new[new.len() - 1] == new.last());
                assert(rest.ids.contains(x) <==> self.ids.contains(x) || new.drop_last().contains(
                    x,
                ));
                if !rest.has(new.last()) {
                    assert(r.ids.contains(x) <==> rest.ids.contains(x) || x == new.last());
                }
            }
        }
    }

    /// Replacing a progress keeps the set well-formed.
    pub proof fn lemma_set(self, id: u64, p: ProgressView)
        requires
            self.wf(),
            self.has(id),
        ensures
            self.set(id, p).wf(),
            self.set(id, p).at(id) == p,
            self.all_ok() && p.wf() ==> self.set(id, p).all_ok(),
    {
    }
}

/// What keeping the nodes of `c` leaves.
pub proof fn lemma_kept(ids: Seq<u64>, progress: Seq<ProgressView>, c: ConfigurationView)
    requires
        ids.len() <= progress.len(),
        ids.no_duplicates(),
    ensures
        kept_ids(ids, c).len() == kept_progress(ids, progress, c).len(),
        kept_ids(ids, c).no_duplicates(),
        forall|x: u64| #[trigger]
            kept_ids(ids, c).contains(x) <==> ids.contains(x) && c.contains(x),
        (forall|i: int| 0 <= i < progress.len() ==> (#[trigger] progress[i]).wf()) ==> (forall|
            i: int,
        |
            0 <= i < kept_progress(ids, progress, c).len() ==> (#[trigger] kept_progress(
                ids,
                progress,
                c,
            )[i]).wf()),
    decreases ids.len(),
{
    if ids.len() > 0 {
        let last = ids.last();
        let shorter = ids.drop_last();
        lemma_kept(shorter, progress, c);
        let rest = kept_ids(shorter, c);
        let kept = kept_ids(ids, c);
        assert(!shorter.contains(last));
        assert forall|x: u64| #[trigger] kept.contains(x) <==> ids.contains(x) && c.contains(x) by {
            if ids.contains(x) && x != last {
                let j = ids.index_of(x);
                assert(shorter[j] == x);
            }
            if shorter.contains(x) {
                let j = shorter.index_of(x);
                assert(ids[j] == x);
            }
            assert(ids[ids.len() - 1] == last);
            assert(rest.contains(x) <==> shorter.contains(x) && c.contains(x));
            if rest.contains(x) {
                let j = rest.index_of(x);
                assert(kept[j] == x);
            }
            if c.contains(last) {
                assert(kept.last() == last);
                if kept.contains(x) && x != last {
                    let j = kept.index_of(x);
                    assert(rest[j] == x);
                }
            }
        }
        assert(!rest.contains(last));
    }
}

impl ProgressSet {
    /// Replaces the progress of `id`, or adds it.
    fn put(&mut self, id: u64, p: Progress)
        requires
            old(self)@.aligned(),
        ensures
            final(self)@ == old(self)@.put(id, p@),
    {
        let ghost ps = self.progress@;
        match position(&self.ids, id) {
            Some(i) => {
                self.progress.set(i, p);
                assert(progress_seq(ps.update(i as int, p)) =~= progress_seq(ps).update(
                    i as int,
                    p@,
                ));
            },
            None => {
                self.ids.push(id);
                self.progress.push(p);
                assert(progress_seq(ps.push(p)) =~= progress_seq(ps).push(p@));
            },
        }
    }

    /// Adds `p` for each of `new` that has no progress.
    fn add_missing(&mut self, new: &Vec<u64>, p: &Progress)
        requires
            old(self)@.aligned(),
        ensures
            final(self)@ == old(self)@.with_missing(new@, p@),
            final(self)@.aligned(),
    {
        let ghost before = self@;
        let mut i: usize = 0;
        assert(new@.take(0) =~= Seq::<u64>::empty());
        while i < new.len()
            invariant
                before.aligned(),
                i <= new.len(),
                self@ == before.with_missing(new@.take(i as int), p@),
            decreases new.len() - i,
        {
            proof {
                before.lemma_with_missing(new@.take(i as int), p@);
                assert(new@.take(i + 1).drop_last() =~= new@.take(i as int));
            }
            if !contains(&self.ids, new[i]) {
                self.put(new[i], p.clone());
            }
            i += 1;
        }
        assert(new@.take(new.len() as int) =~= new@);
        proof {
            before.lemma_with_missing(new@, p@);
        }
    }

    /// Forgets what is known of every node, but that `self_id` itself ends at `last`.
    pub fn reset(&mut self, self_id: u64, last: u64)
        requires
            old(self)@.wf(),
            last < u64::MAX,
        ensures
            final(self)@ == old(self)@.reset(self_id, last),
            final(self)@.wf(),
            final(self)@.all_ok(),
    {
        let ghost before = self@;
        let ghost after = before.reset(self_id, last);
        let mut i: usize = 0;
        while i < self.progress.len()
            invariant
                before.wf(),
                last < u64::MAX,
                after == before.reset(self_id, last),
                i <= self.progress.len(),
                self.progress.len() == before.progress.len(),
                self@ == (ProgressSetView { progress: self@.progress, ..before }),
                forall|j: int|
                    0 <= j < self.progress.len() ==> (#[trigger] self@.progress[j]) == (if j < i {
                        after.progress[j]
                    } else {
                        before.progress[j]
                    }),
            decreases self.progress.len() - i,
        {
            let ghost ps = self.progress@;
            assert(self@.progress[i as int] == before.progress[i as int]);
            let pr = &mut self.progress[i];
            pr.reset(last + 1);
            if self.ids[i] == self_id {
                pr.matched = last;
            }
            assert(progress_seq(self.progress@) =~= progress_seq(ps).update(
                i as int,
                after.progress[i as int],
            ));
            i += 1;
        }
        assert(self@.progress =~= after.progress);
    }

    /// Tells whether a quorum was heard of since the last call, from the view of
    /// `perspective_of`, and forgets who was.
    pub fn quorum_recently_active(&mut self, perspective_of: u64) -> (r: bool)
        requires
            old(self)@.wf(),
        ensures
            r == old(self)@.has_quorum(old(self)@.active(perspective_of)),
            final(self)@ == old(self)@.checked(perspective_of),
            final(self)@.wf(),
            old(self)@.all_ok() ==> final(self)@.all_ok(),
    {
        let ghost before = self@;
        let ghost after = before.checked(perspective_of);
        let mut active = crate::collections::acks_new();
        let mut i: usize = 0;
        while i < self.progress.len()
            invariant
                before.wf(),
                after == before.checked(perspective_of),
                i <= self.progress.len(),
                self.progress.len() == before.progress.len(),
                self@ == (ProgressSetView { progress: self@.progress, ..before }),
                forall|j: int|
                    0 <= j < self.progress.len() ==> (#[trigger] self@.progress[j]) == (if j < i {
                        after.progress[j]
                    } else {
                        before.progress[j]
                    }),
                forall|id: u64| #[trigger]
                    active@.contains(id) <==> before.active(perspective_of).contains(id)
                        && before.ids.index_of(id) < i,
            decreases self.progress.len() - i,
        {
            let ghost ps = self.progress@;
            let id: u64 = self.ids[i];
            proof {
                before.lemma_index(i as int);
            }
            let ghost seen = active@;
            assert(self@.progress[i as int] == before.progress[i as int]);
            let voter = self.is_voter(id);
            let learner = self.is_learner(id);
            if id == perspective_of || self.progress[i].recent_active {
                crate::collections::acks_insert(&mut active, id);
            }
            if learner || (voter && id != perspective_of) {
                self.progress[i].recent_active = false;
            }
            proof {
                assert(progress_seq(self.progress@) =~= progress_seq(ps).update(
                    i as int,
                    after.progress[i as int],
                ));
                assert forall|x: u64| #[trigger]
                    active@.contains(x) <==> before.active(perspective_of).contains(x)
                        && before.ids.index_of(x) < i + 1 by {
                    assert(seen.contains(x) <==> before.active(perspective_of).contains(x)
                        && before.ids.index_of(x) < i);
                    if before.has(x) && before.ids.index_of(x) == i {
                        assert(x == id);
                    }
                }
            }
            i += 1;
        }
        proof {
            assert(self@.progress =~= after.progress);
            assert(active@ =~= before.active(perspective_of));
        }
        self.has_quorum(&active)
    }

    /// Adds a voter.
    pub fn insert_voter(&mut self, id: u64, p: Progress) -> (r: Result<(), Error>)
        requires
            old(self)@.wf(),
        ensures
            match old(self)@.insert_error(id) {
                Some(e) => unit_result(r) == Err::<(), ErrorView>(e) && final(self)@ == old(self)@,
                None => r is Ok && final(self)@ == old(self)@.insert_voter(id, p@),
            },
            final(self)@.wf(),
            old(self)@.all_ok() && p@.wf() ==> final(self)@.all_ok(),
    {
        if self.is_learner(id) {
            return Err(Error::Exists(id, "learners"));
        }
        if self.is_voter(id) {
            return Err(Error::Exists(id, "voters"));
        }
        if self.is_in_membership_change() {
            return Err(
                Error::ViolatesContract("There is a pending membership change.".to_owned()),
            );
        }
        let ghost before = self@;
        proof {
            before.lemma_put(id, p@);
        }
        self.put(id, p);
        self.configuration.voters.push(id);
        proof {
            let voters = before.configuration.voters;
            assert forall|x: u64| #[trigger] self@.configuration.contains(x) implies self@.ids.contains(
                x,
            ) by {
                if self@.configuration.voters.contains(x) {
                    let j = self@.configuration.voters.index_of(x);
                    if j < voters.len() {
                        assert(voters[j] == x);
                        assert(before.configuration.contains(x));
                    }
                } else {
                    assert(before.configuration.contains(x));
                }
            }
        }
        Ok(())
    }

    /// Adds a learner.
    pub fn insert_learner(&mut self, id: u64, p: Progress) -> (r: Result<(), Error>)
        requires
            old(self)@.wf(),
        ensures
            match old(self)@.insert_error(id) {
                Some(e) => unit_result(r) == Err::<(), ErrorView>(e) && final(self)@ == old(self)@,
                None => r is Ok && final(self)@ == old(self)@.insert_learner(id, p@),
            },
            final(self)@.wf(),
            old(self)@.all_ok() && p@.wf() ==> final(self)@.all_ok(),
    {
        if self.is_learner(id) {
            return Err(Error::Exists(id, "learners"));
        }
        if self.is_voter(id) {
            return Err(Error::Exists(id, "voters"));
        }
        if self.is_in_membership_change() {
            return Err(
                Error::ViolatesContract("There is a pending membership change.".to_owned()),
            );
        }
        let ghost before = self@;
        proof {
            before.lemma_put(id, p@);
        }
        self.put(id, p);
        self.configuration.learners.push(id);
        proof {
            let learners = before.configuration.learners;
            assert forall|x: u64| #[trigger] self@.configuration.contains(x) implies self@.ids.contains(
                x,
            ) by {
                if self@.configuration.learners.contains(x) {
                    let j = self@.configuration.learners.index_of(x);
                    if j < learners.len() {
                        assert(learners[j] == x);
                        assert(before.configuration.contains(x));
                    }
                } else {
                    assert(before.configuration.contains(x));
                }
            }
        }
        Ok(())
    }

    /// Removes a node.
    pub fn remove(&mut self, id: u64) -> (r: Result<(), Error>)
        requires
            old(self)@.wf(),
        ensures
            match old(self)@.remove_error(id) {
                Some(e) => unit_result(r) == Err::<(), ErrorView>(e) && final(self)@ == old(self)@,
                None => r is Ok && final(self)@ == old(self)@.remove(id),
            },
            final(self)@.wf(),
            old(self)@.all_ok() ==> final(self)@.all_ok(),
    {
        if !self.is_voter(id) && !self.is_learner(id) {
            return Err(Error::NotExists(id, "voters or learners"));
        }
        if self.is_in_membership_change() {
            return Err(
                Error::ViolatesContract("There is a pending membership change.".to_owned()),
            );
        }
        let ghost before = self@;
        let ghost ps = self.progress@;
        assert(before.configuration.contains(id));
        assert(before.ids.contains(id));
        proof {
            lemma_without(before.configuration.voters, id);
            lemma_without(before.configuration.learners, id);
            lemma_without(before.ids, id);
        }
        remove_id(&mut self.configuration.voters, id);
        remove_id(&mut self.configuration.learners, id);
        match position(&self.ids, id) {
            Some(i) => {
                self.ids.remove(i);
                self.progress.remove(i);
                assert(progress_seq(ps.remove(i as int)) =~= progress_seq(ps).remove(i as int));
            },
            None => {},
        }
        proof {
            assert(self@ =~= before.remove(id));
            assert forall|x: u64| #[trigger] self@.configuration.contains(x) implies self@.ids.contains(
                x,
            ) by {
                assert(before.configuration.contains(x));
            }
        }
        Ok(())
    }

    /// Makes a learner a voter.
    pub fn promote_learner(&mut self, id: u64) -> (r: Result<(), Error>)
        requires
            old(self)@.wf(),
        ensures
            match old(self)@.promote_error(id) {
                Some(e) => unit_result(r) == Err::<(), ErrorView>(e),
                None => r is Ok,
            },
            final(self)@ == old(self)@.promote(id),
            final(self)@.wf(),
            old(self)@.all_ok() ==> final(self)@.all_ok(),
    {
        if self.is_in_membership_change() {
            return Err(
                Error::ViolatesContract("There is a pending membership change.".to_owned()),
            );
        }
        if !contains(&self.configuration.learners, id) {
            return Err(Error::NotExists(id, "learners"));
        }
        let ghost before = self@;
        assert(before.configuration.contains(id));
        proof {
            lemma_without(before.configuration.learners, id);
        }
        remove_id(&mut self.configuration.learners, id);
        if contains(&self.configuration.voters, id) {
            proof {
                assert forall|x: u64| #[trigger] self@.configuration.contains(x) implies self@.ids.contains(
                    x,
                ) by {
                    assert(before.configuration.contains(x));
                }
            }
            return Err(Error::Exists(id, "voters"));
        }
        self.configuration.voters.push(id);
        proof {
            let voters = before.configuration.voters;
            assert forall|x: u64| #[trigger] self@.configuration.contains(x) implies self@.ids.contains(
                x,
            ) by {
                if self@.configuration.voters.contains(x) {
                    let j = self@.configuration.voters.index_of(x);
                    if j < voters.len() {
                        assert(voters[j] == x);
                        assert(before.configuration.contains(x));
                    }
                } else {
                    assert(before.configuration.contains(x));
                }
            }
        }
        Ok(())
    }

    /// Begins the change to `next`; new nodes start with progress `p`.
    pub fn begin_membership_change(&mut self, next: Configuration, p: Progress) -> (r: Result<
        (),
        Error,
    >)
        requires
            old(self)@.wf(),
            next@.wf(),
        ensures
            match old(self)@.begin_error(next@) {
                Some(e) => unit_result(r) == Err::<(), ErrorView>(e) && final(self)@ == old(self)@,
                None => r is Ok && final(self)@ == old(self)@.begin_change(next@, p@),
            },
            final(self)@.wf(),
            old(self)@.all_ok() && p@.wf() ==> final(self)@.all_ok(),
    {
        match next.valid() {
            Err(e) => {
                return Err(e);
            },
            Ok(_) => {},
        }
        match find_common(&self.configuration.voters, &next.learners) {
            Some(id) => {
                return Err(Error::Exists(id, "learners"));
            },
            None => {},
        }
        let ghost before = self@;
        let mut p = p;
        p.recent_active = true;
        p.paused = false;
        let mut all = clone_ids(&next.voters);
        let mut more = clone_ids(&next.learners);
        all.append(&mut more);
        proof {
            before.lemma_with_missing(all@, p@);
        }
        self.add_missing(&all, &p);
        self.next_configuration = Some(next);
        proof {
            assert forall|x: u64| #[trigger] next@.contains(x) implies self@.ids.contains(x) by {
                if next@.voters.contains(x) {
                    let j = next@.voters.index_of(x);
                    assert(all@[j] == x);
                } else {
                    let j = next@.learners.index_of(x);
                    assert(all@[next@.voters.len() + j] == x);
                }
                assert(all@.contains(x));
            }
            assert forall|x: u64| #[trigger] self@.configuration.contains(x) implies self@.ids.contains(
                x,
            ) by {
                assert(before.configuration.contains(x));
            }
        }
        Ok(())
    }

    /// Finishes the change under way.
    pub fn finalize_membership_change(&mut self) -> (r: Result<(), Error>)
        requires
            old(self)@.wf(),
        ensures
            if old(self)@.is_in_membership_change() {
                r is Ok && final(self)@ == old(self)@.finalize_change()
            } else {
                unit_result(r) == Err::<(), ErrorView>(ErrorView::NoPendingMembershipChange)
                    && final(self)@ == old(self)@
            },
            final(self)@.wf(),
            old(self)@.all_ok() ==> final(self)@.all_ok(),
    {
        let ghost before = self@;
        match self.next_configuration.take() {
            None => Err(Error::NoPendingMembershipChange),
            Some(next) => {
                let mut ids: Vec<u64> = Vec::new();
                let mut progress: Vec<Progress> = Vec::new();
                let mut i: usize = 0;
                assert(before.ids.take(0) =~= Seq::<u64>::empty());
                assert(progress_seq(progress@) =~= Seq::<ProgressView>::empty());
                while i < self.ids.len()
                    invariant
                        before.wf(),
                        i <= self.ids.len(),
                        self.ids@ == before.ids,
                        progress_seq(self.progress@) == before.progress,
                        ids@ == kept_ids(before.ids.take(i as int), next@),
                        progress_seq(progress@) == kept_progress(
                            before.ids.take(i as int),
                            before.progress,
                            next@,
                        ),
                    decreases self.ids.len() - i,
                {
                    assert(before.ids.take(i + 1).drop_last() =~= before.ids.take(i as int));
                    if next.contains(self.ids[i]) {
                        ids.push(self.ids[i]);
                        let ghost ps = progress@;
                        progress.push(self.progress[i].clone());
                        assert(before.progress[i as int] == self.progress@[i as int]@);
                        assert(progress_seq(progress@) =~= progress_seq(ps).push(
                            before.progress[i as int],
                        ));
                    }
                    i += 1;
                }
                assert(before.ids.take(before.ids.len() as int) =~= before.ids);
                proof {
                    lemma_kept(before.ids, before.progress, next@);
                }
                self.ids = ids;
                self.progress = progress;
                self.configuration = next;
                proof {
                    assert(before.next_configuration == Some(next@));
                    assert forall|x: u64| #[trigger]
                        self@.configuration.contains(x) implies self@.ids.contains(x) by {
                        assert(next@.contains(x));
                        assert(before.ids.contains(x));
                    }
                    assert(self@ =~= before.finalize_change());
                }
                Ok(())
            },
        }
    }

    /// Returns the nodes that a snapshot lists, each to be sent `next_idx` first.
    pub fn restore_snapmeta(meta: &SnapshotMetadata, next_idx: u64, max_inflight: usize) -> (r:
        ProgressSet)
        ensures
            r@ == ProgressSetView::from_snapshot(meta@, next_idx, max_inflight),
            r@.wf(),
            next_idx >= 1 ==> r@.all_ok(),
    {
        let p = Progress::new(next_idx, max_inflight);
        let mut r = ProgressSet::new();
        r.configuration = Configuration::from_conf_state(&meta.conf_state);
        let ghost base = r@;
        proof {
            base.lemma_with_missing(meta@.conf_state.nodes, p@);
            lemma_distinct(meta@.conf_state.nodes);
            lemma_distinct(meta@.conf_state.learners);
        }
        r.add_missing(&meta.conf_state.nodes, &p);
        proof {
            r@.lemma_with_missing(meta@.conf_state.learners, p@);
        }
        r.add_missing(&meta.conf_state.learners, &p);
        let ghost listed = r@;
        assert forall|x: u64| #[trigger] listed.configuration.contains(x) implies listed.ids.contains(
            x,
        ) by {
            if meta@.conf_state.learners.contains(x) {
            } else {
                assert(meta@.conf_state.nodes.contains(x));
                assert(base.with_missing(meta@.conf_state.nodes, p@).ids.contains(x));
            }
        }
        if meta.pending_membership_change_index != 0 {
            let ghost next = meta@.pending_membership_change;
            proof {
                listed.lemma_with_missing(next.nodes, p@);
                lemma_distinct(next.nodes);
                lemma_distinct(next.learners);
            }
            r.add_missing(&meta.pending_membership_change.nodes, &p);
            let ghost middle = r@;
            proof {
                middle.lemma_with_missing(next.learners, p@);
            }
            r.add_missing(&meta.pending_membership_change.learners, &p);
            r.next_configuration =
            Some(Configuration::from_conf_state(&meta.pending_membership_change));
            proof {
                let conf = ConfigurationView::from_conf_state(next);
                assert forall|x: u64| #[trigger] conf.contains(x) implies r@.ids.contains(x) by {
                    if next.nodes.contains(x) {
                        assert(middle.ids.contains(x));
                    }
                }
                assert forall|x: u64| #[trigger]
                    r@.configuration.contains(x) implies r@.ids.contains(x) by {
                    assert(listed.configuration.contains(x));
                    assert(middle.ids.contains(x));
                }
            }
        }
        r
    }
}

impl Clone for ProgressSet {
    fn clone(&self) -> (r: Self)
        ensures
            r@ == self@,
    {
        let mut progress: Vec<Progress> = Vec::new();
        let mut i: usize = 0;
        while i < self.progress.len()
            invariant
                i <= self.progress.len(),
                progress.len() == i,
                forall|j: int| 0 <= j < i ==> (#[trigger] progress@[j])@ == self.progress@[j]@,
            decreases self.progress.len() - i,
        {
            progress.push(self.progress[i].clone());
            i += 1;
        }
        assert(progress_seq(progress@) =~= progress_seq(self.progress@));
        ProgressSet {
            ids: clone_ids(&self.ids),
            progress,
            configuration: self.configuration.clone(),
            next_configuration: match &self.next_configuration {
                Some(c) => Some(c.clone()),
                None => None,
            },
        }
    }
}

} // verus!
