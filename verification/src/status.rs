//! The status of a node, to be looked at.
use crate::eraftpb::HardState;
use crate::progress_set::{ProgressSet, ProgressSetView};
use crate::raft::{Raft, SoftState, StateRole};
use crate::storage::Storage;
use vstd::prelude::*;

verus! {

/// The status of a node.
#[derive(Debug)]
pub struct Status {
    /// The id of the node.
    pub id: u64,
    /// The state that is to be saved.
    pub hs: HardState,
    /// The state that need not be saved.
    pub ss: SoftState,
    /// The index up to which the log is applied.
    pub applied: u64,
    /// The progress of the cluster, at a leader.
    pub progress: Option<ProgressSet>,
}

impl Status {
    /// The view of the progress.
    pub open spec fn progress_view(&self) -> Option<ProgressSetView> {
        match self.progress {
            Some(p) => Some(p@),
            None => None,
        }
    }

    /// Returns the status of a node.
    pub fn new<T: Storage>(raft: &Raft<T>) -> (r: Status)
        requires
            raft@.progress is Some,
        ensures
            r.id == raft@.id,
            r.hs == (HardState {
                term: raft@.term,
                vote: raft@.vote,
                commit: raft@.raft_log.committed,
            }),
            r.ss == (SoftState { leader_id: raft@.leader_id, raft_state: raft@.state }),
            r.applied == raft@.raft_log.applied,
            r.progress_view() == (if raft@.state == StateRole::Leader {
                Some(raft@.prs())
            } else {
                None
            }),
    {
        let progress = if raft.state == StateRole::Leader {
            Some(raft.prs().clone())
        } else {
            None
        };
        Status {
            id: raft.id,
            hs: raft.hard_state(),
            ss: raft.soft_state(),
            applied: raft.raft_log.applied,
            progress,
        }
    }
}

} // verus!
