//! The hash maps and hash sets that the library keeps, with their contents as
//! mathematical maps and sets.
//!
//! They are `hashbrown` collections, each held in the private field of a struct of
//! its own.
use crate::read_only::ReadIndexStatus;
use hashbrown::{HashMap, HashSet};
use vstd::prelude::*;

verus! {

/// The votes of an election: a hash map from node to vote.
#[verifier::external_body]
#[derive(Debug)]
pub struct VoteMap {
    map: HashMap<u64, bool>,
}

/// The contents of a [`VoteMap`].
pub uninterp spec fn votes_of(m: VoteMap) -> Map<u64, bool>;

impl View for VoteMap {
    type V = Map<u64, bool>;

    open spec fn view(&self) -> Map<u64, bool> {
        votes_of(*self)
    }
}

/// Calls `HashMap::default`: the map is empty.
#[verifier::external_body]
pub(crate) fn votes_new() -> (r: VoteMap)
    ensures
        votes_of(r) == (Map::<u64, bool>::empty()),
{
    VoteMap { map: HashMap::default() }
}

/// Calls `HashMap::clear`: nothing is left in the map.
#[verifier::external_body]
pub(crate) fn votes_clear(m: &mut VoteMap)
    ensures
        votes_of(*final(m)) == (Map::<u64, bool>::empty()),
{
    m.map.clear()
}

/// Calls `HashMap::insert`: the vote stands in the map for the node, in the place of an
/// earlier one if there was one.
#[verifier::external_body]
pub(crate) fn votes_insert(m: &mut VoteMap, id: u64, vote: bool)
    ensures
        votes_of(*final(m)) == votes_of(*old(m)).insert(id, vote),
{
    m.map.insert(id, vote);
}

/// Calls `HashMap::get`: the vote of the node, if the map has one.
#[verifier::external_body]
pub(crate) fn votes_get(m: &VoteMap, id: u64) -> (r: Option<bool>)
    ensures
        r == (if votes_of(*m).contains_key(id) {
            Some(votes_of(*m)[id])
        } else {
            None
        }),
{
    m.map.get(&id).cloned()
}

/// A hash set of nodes.
#[verifier::external_body]
#[derive(Debug)]
pub struct AckSet {
    set: HashSet<u64>,
}

/// The contents of an [`AckSet`].
pub uninterp spec fn acks_of(s: AckSet) -> Set<u64>;

impl View for AckSet {
    type V = Set<u64>;

    open spec fn view(&self) -> Set<u64> {
        acks_of(*self)
    }
}

/// Calls `HashSet::default`: the set is empty.
#[verifier::external_body]
pub(crate) fn acks_new() -> (r: AckSet)
    ensures
        acks_of(r) == Set::<u64>::empty(),
{
    AckSet { set: HashSet::default() }
}

/// Calls `HashSet::insert`: the node is in the set afterwards, with all that was there.
#[verifier::external_body]
pub(crate) fn acks_insert(s: &mut AckSet, id: u64)
    ensures
        acks_of(*final(s)) == acks_of(*old(s)).insert(id),
{
    s.set.insert(id);
}

/// Calls `HashSet::union` and collects what it yields: the nodes that are in one of
/// the two sets.
#[verifier::external_body]
pub(crate) fn acks_union(a: &AckSet, b: &AckSet) -> (r: AckSet)
    ensures
        acks_of(r) == acks_of(*a).union(acks_of(*b)),
{
    AckSet { set: a.set.union(&b.set).cloned().collect() }
}

/// Calls `HashSet::contains`: whether the node is in the set.
#[verifier::external_body]
fn acks_contains(s: &AckSet, id: u64) -> (r: bool)
    ensures
        r == acks_of(*s).contains(id),
{
    s.set.contains(&id)
}

impl Clone for AckSet {
    fn clone(&self) -> (r: Self)
        ensures
            r@ == self@,
    {
        let r = acks_union(self, &acks_new());
        assert(r@ =~= self@);
        r
    }
}

impl AckSet {
    /// Whether the node is in the set.
    pub fn contains(&self, id: u64) -> (r: bool)
        ensures
            r == self@.contains(id),
    {
        acks_contains(self, id)
    }

    /// Returns the set that holds `id` alone.
    pub fn singleton(id: u64) -> (r: AckSet)
        ensures
            r@ == Set::<u64>::empty().insert(id),
    {
        let mut s = acks_new();
        acks_insert(&mut s, id);
        s
    }
}

/// The read requests that wait for a quorum: a hash map from the context of a request
/// to its state.
#[verifier::external_body]
#[derive(Debug)]
pub struct PendingReads {
    map: HashMap<Vec<u8>, ReadIndexStatus>,
}

/// The contents of a [`PendingReads`], the contexts by their bytes.
pub uninterp spec fn reads_of(m: PendingReads) -> Map<Seq<u8>, ReadIndexStatus>;

impl View for PendingReads {
    type V = Map<Seq<u8>, ReadIndexStatus>;

    open spec fn view(&self) -> Map<Seq<u8>, ReadIndexStatus> {
        reads_of(*self)
    }
}

/// Calls `HashMap::default`: the map is empty.
#[verifier::external_body]
pub(crate) fn reads_new() -> (r: PendingReads)
    ensures
        reads_of(r) == (Map::<Seq<u8>, ReadIndexStatus>::empty()),
{
    PendingReads { map: HashMap::default() }
}

/// Calls `HashMap::contains_key`: whether the map has a request with this context.
#[verifier::external_body]
pub(crate) fn reads_contains(m: &PendingReads, ctx: &Vec<u8>) -> (r: bool)
    ensures
        r == reads_of(*m).contains_key(ctx@),
{
    m.map.contains_key(ctx)
}

/// Calls `HashMap::insert`: the request stands in the map under its context.
#[verifier::external_body]
pub(crate) fn reads_insert(m: &mut PendingReads, ctx: Vec<u8>, status: ReadIndexStatus)
    ensures
        reads_of(*final(m)) == reads_of(*old(m)).insert(ctx@, status),
{
    m.map.insert(ctx, status);
}

/// Calls `HashMap::get_mut`: a reference to the state of the request with this
/// context, if there is one. What is written through it is what the map holds under
/// that context afterwards; nothing else in the map changes.
#[verifier::external_body]
pub(crate) fn reads_get_mut<'a>(m: &'a mut PendingReads, ctx: &Vec<u8>) -> (r: Option<
    &'a mut ReadIndexStatus,
>)
    ensures
        match r {
            Some(s) => reads_of(*old(m)).contains_key(ctx@) && *s == reads_of(*old(m))[ctx@]
                && reads_of(*final(m)) == reads_of(*old(m)).insert(ctx@, *final(s)),
            None => !reads_of(*old(m)).contains_key(ctx@) && reads_of(*final(m)) == reads_of(
                *old(m),
            ),
        },
{
    m.map.get_mut(ctx)
}

/// Calls `HashMap::remove`: the request with this context is taken out of the map.
#[verifier::external_body]
pub(crate) fn reads_remove(m: &mut PendingReads, ctx: &Vec<u8>) -> (r: Option<ReadIndexStatus>)
    ensures
        r == (if reads_of(*old(m)).contains_key(ctx@) {
            Some(reads_of(*old(m))[ctx@])
        } else {
            None
        }),
        reads_of(*final(m)) == reads_of(*old(m)).remove(ctx@),
{
    m.map.remove(ctx)
}

} // verus!
