//! The errors of the library.
use crate::raft::StateRole;
use vstd::prelude::*;

verus! {

/// An error of a store.
#[derive(Debug, PartialEq)]
pub enum StorageError {
    /// The entry was compacted away.
    Compacted,
    /// The entry is not there.
    Unavailable,
    /// The snapshot is older than the one that is held.
    SnapshotOutOfDate,
    /// A snapshot cannot be had at the moment.
    SnapshotTemporarilyUnavailable,
    /// Anything else, with a description.
    Other(String),
}

/// The view of a [`StorageError`].
pub enum StorageErrorView {
    /// The entry was compacted away.
    Compacted,
    /// The entry is not there.
    Unavailable,
    /// The snapshot is older than the one that is held.
    SnapshotOutOfDate,
    /// A snapshot cannot be had at the moment.
    SnapshotTemporarilyUnavailable,
    /// Anything else, with a description.
    Other(Seq<char>),
}

impl View for StorageError {
    type V = StorageErrorView;

    open spec fn view(&self) -> StorageErrorView {
        match self {
            StorageError::Compacted => StorageErrorView::Compacted,
            StorageError::Unavailable => StorageErrorView::Unavailable,
            StorageError::SnapshotOutOfDate => StorageErrorView::SnapshotOutOfDate,
            StorageError::SnapshotTemporarilyUnavailable =>
                StorageErrorView::SnapshotTemporarilyUnavailable,
            StorageError::Other(s) => StorageErrorView::Other(s@),
        }
    }
}

/// An error of the library.
#[derive(Debug, PartialEq)]
pub enum Error {
    /// The store answered with an error.
    Store(StorageError),
    /// A local message came over the network.
    StepLocalMsg,
    /// A response came from a node that is not known.
    StepPeerNotFound,
    /// A proposal was dropped.
    ProposalDropped,
    /// The configuration of the node is not valid.
    ConfigInvalid(String),
    /// The node is in the named set already.
    Exists(u64, &'static str),
    /// The node is not in the named set.
    NotExists(u64, &'static str),
    /// The call is not possible in this role.
    InvalidState(StateRole),
    /// No membership change is under way.
    NoPendingMembershipChange,
    /// The argument violates the contract of the call.
    ViolatesContract(String),
}

/// The view of an [`Error`].
pub enum ErrorView {
    /// The store answered with an error.
    Store(StorageErrorView),
    /// A local message came over the network.
    StepLocalMsg,
    /// A response came from a node that is not known.
    StepPeerNotFound,
    /// A proposal was dropped.
    ProposalDropped,
    /// The configuration of the node is not valid.
    ConfigInvalid(Seq<char>),
    /// The node is in the named set already.
    Exists(u64, Seq<char>),
    /// The node is not in the named set.
    NotExists(u64, Seq<char>),
    /// The call is not possible in this role.
    InvalidState(StateRole),
    /// No membership change is under way.
    NoPendingMembershipChange,
    /// The argument violates the contract of the call.
    ViolatesContract(Seq<char>),
}

impl View for Error {
    type V = ErrorView;

    open spec fn view(&self) -> ErrorView {
        match self {
            Error::Store(e) => ErrorView::Store(e@),
            Error::StepLocalMsg => ErrorView::StepLocalMsg,
            Error::StepPeerNotFound => ErrorView::StepPeerNotFound,
            Error::ProposalDropped => ErrorView::ProposalDropped,
            Error::ConfigInvalid(s) => ErrorView::ConfigInvalid(s@),
            Error::Exists(id, set) => ErrorView::Exists(*id, set@),
            Error::NotExists(id, set) => ErrorView::NotExists(*id, set@),
            Error::InvalidState(role) => ErrorView::InvalidState(*role),
            Error::NoPendingMembershipChange => ErrorView::NoPendingMembershipChange,
            Error::ViolatesContract(s) => ErrorView::ViolatesContract(s@),
        }
    }
}

/// The outcome of a call that returns nothing.
pub open spec fn unit_result(r: Result<(), Error>) -> Result<(), ErrorView> {
    match r {
        Ok(_) => Ok(()),
        Err(e) => Err(e@),
    }
}

} // verus!
