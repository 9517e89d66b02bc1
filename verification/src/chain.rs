//! Epochs and the chain's configuration, as far as staking reads them.

use crate::penalty::Penalty;
use vstd::prelude::*;

verus! {

/// The largest voting power the consensus engine accepts.
pub const MAX_VOTING_POWER: u64 = 1_152_921_504_606_846_975;

/// A span of `duration` consecutive blocks: the epoch with index `index`
/// holds the heights from `index * duration` up to, but not including,
/// `(index + 1) * duration`.
#[derive(Clone, Copy, Debug, PartialEq, Eq, Structural)]
pub struct Epoch {
    pub index: u64,
    pub duration: u64,
}

impl Epoch {
    /// The first height of the epoch.
    pub open spec fn spec_start(self) -> int {
        self.index * self.duration
    }

    /// The last height of the epoch.
    pub open spec fn spec_end(self) -> int {
        self.index * self.duration + self.duration - 1
    }

    /// The epoch that holds `height`, where every epoch has `duration` blocks.
    pub open spec fn spec_from_height(height: u64, duration: u64) -> Epoch {
        Epoch { index: height / duration, duration }
    }

    /// The epoch that holds `height`, where every epoch has `duration`
    /// blocks.
    pub fn from_height(height: u64, duration: u64) -> (e: Epoch)
        requires
            duration > 0,
        ensures
            e == Epoch::spec_from_height(height, duration),
            e.spec_start() <= height < e.spec_start() + duration,
    {
        let e = Epoch { index: height / duration, duration };
        proof {
            let q = (height / duration) as int;
            let d = duration as int;
            assert(q * d <= height < q * d + d) by (nonlinear_arith)
                requires
                    d > 0,
                    q == (height as int) / d,
            ;
        }
        e
    }

    /// The first height of the epoch, if it fits 64 bits.
    pub fn start_height(&self) -> (r: Option<u64>)
        ensures
            r == if self.spec_start() <= u64::MAX {
                Some(self.spec_start() as u64)
            } else {
                None
            },
    {
        assert(0 <= self.index as int * self.duration as int) by (nonlinear_arith);
        self.index.checked_mul(self.duration)
    }

    /// The last height of the epoch, if the epoch has any block and the
    /// height fits 64 bits.
    pub fn end_height(&self) -> (r: Option<u64>)
        ensures
            r == if self.duration > 0 && self.spec_end() <= u64::MAX {
                Some(self.spec_end() as u64)
            } else {
                None
            },
    {
        assert(0 <= self.index as int * self.duration as int) by (nonlinear_arith);
        if self.duration == 0 {
            return None;
        }
        match self.index.checked_mul(self.duration) {
            Some(start) => start.checked_add(self.duration - 1),
            None => None,
        }
    }

    /// Whether `height` is the last height of the epoch.
    pub fn is_epoch_end(&self, height: u64) -> (r: bool)
        ensures
            r == (self.duration > 0 && height == self.spec_end()),
    {
        match self.end_height() {
            Some(end) => end == height,
            None => false,
        }
    }
}

/// The parameters of the chain that staking reads.
#[derive(Clone, Copy, Debug, PartialEq, Eq, Structural)]
pub struct ChainParameters {
    /// The number of blocks in an epoch.
    pub epoch_duration: u64,
    /// The number of epochs a delegation pool takes to unbond.
    pub unbonding_epochs: u64,
    /// The largest number of validators in the active set.
    pub active_validator_limit: u64,
    /// The reward rate of the staking token per epoch.
    pub base_reward_rate: u64,
    /// The penalty for misbehaviour.
    pub slashing_penalty_misbehavior: Penalty,
    /// The penalty for missing too many blocks.
    pub slashing_penalty_downtime: Penalty,
    /// The number of blocks in the window over which uptime is tracked.
    pub signed_blocks_window_len: u64,
    /// The number of missed blocks in the window at which a validator is
    /// jailed.
    pub missed_blocks_maximum: u64,
}

impl ChainParameters {
    /// Epochs have blocks, penalties take no more than everything, and the
    /// signing window has at least one block and fits in memory.
    pub open spec fn wf(self) -> bool {
        &&& self.epoch_duration > 0
        &&& self.slashing_penalty_misbehavior.wf()
        &&& self.slashing_penalty_downtime.wf()
        &&& 0 < self.signed_blocks_window_len <= usize::MAX
    }

    /// Decides whether the parameters are valid.
    pub fn is_valid(&self) -> (r: bool)
        ensures
            r == self.wf(),
    {
        self.epoch_duration > 0 && self.slashing_penalty_misbehavior.0 <= 100_000_000
            && self.slashing_penalty_downtime.0 <= 100_000_000 && self.signed_blocks_window_len > 0
            && self.signed_blocks_window_len <= usize::MAX as u64
    }
}

} // verus!
