//! The parameters with which a node is started.
use crate::errors::{Error, ErrorView};
use crate::raft::INVALID_ID;
pub use crate::read_only::{ReadOnlyOption, ReadState};
use crate::text::{join_two_numbers, u64_to_string};
use vstd::prelude::*;

verus! {

/// Config contains the parameters to start a raft.
#[derive(Debug)]
pub struct Config {
    /// The identity of the local raft. It cannot be 0, and must be unique in the group.
    pub id: u64,
    /// The IDs of all nodes (including self) in the raft cluster. It should only be set
    /// when starting a new raft cluster.
    pub peers: Vec<u64>,
    /// The IDs of all learner nodes (maybe include self if the local node is a learner)
    /// in the raft cluster. Learners receive entries, but have no say in elections.
    pub learners: Vec<u64>,
    /// The number of ticks that must pass between elections.
    /// It must be greater than `heartbeat_tick`.
    pub election_tick: usize,
    /// The number of ticks that must pass between heartbeats.
    pub heartbeat_tick: usize,
    /// The last applied index. It should only be set when restarting.
    pub applied: u64,
    /// Limits the size of the entries of one append message;
    /// 0 for at most one entry per message.
    pub max_size_per_msg: u64,
    /// Limits the number of append messages in flight during replication.
    pub max_inflight_msgs: usize,
    /// Whether the leader steps down when a quorum is not active.
    pub check_quorum: bool,
    /// Whether an election is preceded by a round that changes no term.
    pub pre_vote: bool,
    /// The randomized election timeout lies in `[min_election_tick, max_election_tick)`.
    /// If it is 0, then `election_tick` is chosen.
    pub min_election_tick: usize,
    /// If it is 0, then `2 * election_tick` is chosen.
    pub max_election_tick: usize,
    /// How read requests are answered. `LeaseBased` requires `check_quorum`.
    pub read_only_option: ReadOnlyOption,
    /// Don't broadcast an empty append message to notify followers of a commit.
    pub skip_bcast_commit: bool,
    /// A human-friendly tag.
    pub tag: String,
}

impl Config {
    /// Whether `self` holds the default parameters, but for the id and the tag.
    pub open spec fn has_defaults(&self) -> bool {
        &&& self.peers@ == Seq::<u64>::empty()
        &&& self.learners@ == Seq::<u64>::empty()
        &&& self.election_tick == 20
        &&& self.heartbeat_tick == 2
        &&& self.applied == 0
        &&& self.max_size_per_msg == 0
        &&& self.max_inflight_msgs == 256
        &&& !self.check_quorum
        &&& !self.pre_vote
        &&& self.min_election_tick == 0
        &&& self.max_election_tick == 0
        &&& self.read_only_option == ReadOnlyOption::Safe
        &&& !self.skip_bcast_commit
    }

    /// The least randomized election timeout.
    pub open spec fn min_timeout(&self) -> int {
        if self.min_election_tick == 0 {
            self.election_tick as int
        } else {
            self.min_election_tick as int
        }
    }

    /// The first number above every randomized election timeout.
    pub open spec fn max_timeout(&self) -> int {
        if self.max_election_tick == 0 {
            2 * self.election_tick
        } else {
            self.max_election_tick as int
        }
    }

    /// What is wrong with the parameters, the first complaint only.
    pub open spec fn complaint(&self) -> Option<Seq<char>> {
        if self.id == INVALID_ID {
            Some("invalid node id"@)
        } else if self.heartbeat_tick == 0 {
            Some("heartbeat tick must greater than 0"@)
        } else if self.election_tick <= self.heartbeat_tick {
            Some("election tick must be greater than heartbeat tick"@)
        } else if self.min_timeout() < self.election_tick {
            Some(
                crate::text::two_numbers(
                    "min election tick "@,
                    self.min_timeout() as nat,
                    " must not be less than election_tick "@,
                    self.election_tick as nat,
                ),
            )
        } else if self.min_timeout() >= self.max_timeout() {
            Some(
                crate::text::two_numbers(
                    "min election tick "@,
                    self.min_timeout() as nat,
                    " should be less than max election tick "@,
                    self.max_timeout() as nat,
                ),
            )
        } else if self.max_inflight_msgs == 0 {
            Some("max inflight messages must be greater than 0"@)
        } else if self.read_only_option == ReadOnlyOption::LeaseBased && !self.check_quorum {
            Some("read_only_option == LeaseBased requires check_quorum == true"@)
        } else {
            None
        }
    }

    /// The outcome of [`Config::validate`].
    pub open spec fn validity(&self) -> Result<(), ErrorView> {
        match self.complaint() {
            Some(text) => Err(ErrorView::ConfigInvalid(text)),
            None => Ok(()),
        }
    }

    /// Creates a new config.
    pub fn new(id: u64) -> (c: Config)
        ensures
            c.id == id,
            c.tag@ == crate::text::decimal(id as nat),
            c.has_defaults(),
    {
        let mut c = Config::default();
        c.id = id;
        c.tag = u64_to_string(id);
        c
    }

    /// The minimum number of ticks before an election.
    pub fn min_election_tick(&self) -> (t: usize)
        ensures
            t == self.min_timeout(),
    {
        if self.min_election_tick == 0 {
            self.election_tick
        } else {
            self.min_election_tick
        }
    }

    /// The maximum number of ticks before an election.
    pub fn max_election_tick(&self) -> (t: usize)
        requires
            self.max_timeout() <= usize::MAX,
        ensures
            t == self.max_timeout(),
    {
        if self.max_election_tick == 0 {
            2 * self.election_tick
        } else {
            self.max_election_tick
        }
    }

    /// Whether the greatest timeout can be computed where [`Config::validate`] asks for it.
    pub open spec fn ticks_fit(&self) -> bool {
        self.id != INVALID_ID && 0 < self.heartbeat_tick < self.election_tick ==> self.max_timeout()
            <= usize::MAX
    }

    /// Runs validations against the config.
    pub fn validate(&self) -> (r: Result<(), Error>)
        requires
            self.ticks_fit(),
        ensures
            crate::errors::unit_result(r) == self.validity(),
    {
        if self.id == INVALID_ID {
            return Err(Error::ConfigInvalid("invalid node id".to_owned()));
        }
        if self.heartbeat_tick == 0 {
            return Err(Error::ConfigInvalid("heartbeat tick must greater than 0".to_owned()));
        }
        if self.election_tick <= self.heartbeat_tick {
            return Err(
                Error::ConfigInvalid(
                    "election tick must be greater than heartbeat tick".to_owned(),
                ),
            );
        }
        let min_timeout: usize = self.min_election_tick();
        let max_timeout: usize = self.max_election_tick();
        if min_timeout < self.election_tick {
            return Err(
                Error::ConfigInvalid(
                    join_two_numbers(
                        "min election tick ",
                        min_timeout,
                        " must not be less than election_tick ",
                        self.election_tick,
                    ),
                ),
            );
        }
        if min_timeout >= max_timeout {
            return Err(
                Error::ConfigInvalid(
                    join_two_numbers(
                        "min election tick ",
                        min_timeout,
                        " should be less than max election tick ",
                        max_timeout,
                    ),
                ),
            );
        }
        if self.max_inflight_msgs == 0 {
            return Err(
                Error::ConfigInvalid("max inflight messages must be greater than 0".to_owned()),
            );
        }
        if self.read_only_option == ReadOnlyOption::LeaseBased && !self.check_quorum {
            return Err(
                Error::ConfigInvalid(
                    "read_only_option == LeaseBased requires check_quorum == true".to_owned(),
                ),
            );
        }
        Ok(())
    }
}

impl Default for Config {
    fn default() -> (c: Config)
        ensures
            c.id == 0,
            c.tag@ == Seq::<char>::empty(),
            c.has_defaults(),
    {
        Config {
            id: 0,
            peers: Vec::new(),
            learners: Vec::new(),
            election_tick: 20,
            heartbeat_tick: 2,
            applied: 0,
            max_size_per_msg: 0,
            max_inflight_msgs: 256,
            check_quorum: false,
            pre_vote: false,
            min_election_tick: 0,
            max_election_tick: 0,
            read_only_option: ReadOnlyOption::Safe,
            skip_bcast_commit: false,
            tag: String::new(),
        }
    }
}

} // verus!
