//! A node of the Raft consensus protocol.
//!
//! The application owns a [`RawNode`]. It hands in the messages of other nodes with
//! [`RawNode::step`], lets time pass with [`RawNode::tick`], and makes proposals. What is to be
//! saved, sent and applied it takes out with [`RawNode::ready`], and reports as done with
//! [`RawNode::advance`]. The log is kept in a [`Storage`] of the application.
//!
//! - [`raft`] is the consensus itself, [`raw_node`] the surface around it, and [`config`] what
//!   a node is started with.
//! - [`raft_log`], [`log_unstable`], [`storage`] and [`util`] are the log; [`progress`] and
//!   [`progress_set`] what a leader knows of the cluster; [`read_only`] the reads that wait.
//! - [`eraftpb`] holds the messages, [`codec`] the encoding of configuration changes, and
//!   [`errors`] the errors.
//! - [`raft_model`] says what each operation makes of a node, as functions on mathematical
//!   values, [`raft_facts`] what the operations leave as it is, and [`laws`] what holds of a
//!   node whatever it goes through.
//! - [`election_laws`], [`message_laws`], [`replication_laws`], [`read_laws`], [`snapshot_laws`],
//!   [`time_laws`], [`membership_laws`] and [`node_laws`] say what comes of each message, tick and
//!   request; [`codec_laws`] what can be read back from the encodings.
//! - [`collections`] holds the hash maps and sets of another crate, and [`text`] texts with
//!   numbers.
pub mod codec;
pub mod codec_laws;
pub mod collections;
pub mod config;
pub mod election_laws;
pub mod eraftpb;
pub mod errors;
pub mod laws;
pub mod log_unstable;
pub mod membership_laws;
pub mod message_laws;
pub mod node_laws;
pub mod progress;
pub mod progress_set;
pub mod raft;
pub mod raft_facts;
pub mod raft_log;
pub mod raft_model;
pub mod raw_node;
pub mod read_laws;
pub mod read_only;
pub mod replication_laws;
pub mod snapshot_laws;
pub mod status;
pub mod storage;
pub mod text;
pub mod time_laws;
pub mod util;

pub use crate::config::Config;
pub use crate::errors::{Error, StorageError};
pub use crate::raft::{
    vote_resp_msg_type, Raft, SoftState, StateRole, INVALID_ID, INVALID_INDEX,
};
pub use crate::raw_node::{is_empty_snap, Peer, RawNode, Ready, SnapshotStatus};
pub use crate::read_only::{ReadOnlyOption, ReadState};
pub use crate::status::Status;
pub use crate::storage::{RaftState, Storage};
