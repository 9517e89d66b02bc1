//! Uptime tracking: who signed the last block, and who has missed too many.

use crate::address::{spec_validator_address, validator_address};
use crate::error::StakingError;
use crate::keys::{ConsensusAddress, IdentityKey, TableKey};
use crate::read::StateReadExt;
use crate::state::{StakeView, StakingState};
use crate::validator::State;
use crate::write::StateWriteExt;
use vstd::prelude::*;

verus! {

/// Whether the validator at an address signed the last block, as the
/// consensus engine reports it.
#[derive(Clone, Copy, Debug)]
pub struct VoteInfo {
    pub address: ConsensusAddress,
    pub signed_last_block: bool,
}

/// The votes of the last block commit.
#[derive(Debug)]
pub struct LastCommitInfo {
    pub votes: Vec<VoteInfo>,
}

/// What the votes say of an address: the last vote that names it decides.
pub open spec fn vote_of(votes: Seq<VoteInfo>, address: ConsensusAddress) -> Option<bool>
    decreases votes.len(),
{
    if votes.len() == 0 {
        None
    } else if votes.last().address == address {
        Some(votes.last().signed_last_block)
    } else {
        vote_of(votes.drop_last(), address)
    }
}

/// Whether a validator counts as having signed the block at `height`. There
/// are no votes for the first block, so everybody counts as having signed
/// it; later, a validator signed if the votes say so.
pub open spec fn counted_as_signed(
    votes: Seq<VoteInfo>,
    address: ConsensusAddress,
    height: u64,
) -> bool {
    height == 1 || vote_of(votes, address) == Some(true)
}

/// Looks up what the votes say of an address.
pub fn find_vote(votes: &Vec<VoteInfo>, address: &ConsensusAddress) -> (r: Option<bool>)
    ensures
        r == vote_of(votes@, *address),
{
    let mut i: usize = votes.len();
    assert(votes@.take(i as int) =~= votes@);
    while i > 0
        invariant
            i <= votes@.len(),
            vote_of(votes@, *address) == vote_of(votes@.take(i as int), *address),
        decreases i,
    {
        assert(votes@.take(i as int).drop_last() =~= votes@.take(i as int - 1));
        i = i - 1;
        if votes[i].address.same_as(address) {
            return Some(votes[i].signed_last_block);
        }
    }
    None
}

impl StakeView {
    /// The staking data after the vote on the last block was recorded for
    /// one validator. Only an active validator is tracked: its window
    /// records the block, and where it now holds as many missed blocks as
    /// the chain allows, the validator is jailed instead.
    pub open spec fn after_vote(self, id: IdentityKey, votes: Seq<VoteInfo>) -> Result<
        StakeView,
        StakingError,
    > {
        match self.info_of(id) {
            None => Err(StakingError::MissingInvariantRecord),
            Some(info) => if !(info.status.state is Active) {
                Ok(self)
            } else {
                let address = spec_validator_address(info.validator.consensus_key);
                let signed = counted_as_signed(votes, address, self.block_height);
                match self.uptimes.get(id) {
                    None => Err(StakingError::MissingInvariantRecord),
                    Some(uptime) => match uptime.marked(self.block_height, signed) {
                        Err(e) => Err(e),
                        Ok(marked) => if marked.num_missed_blocks()
                            >= self.chain_params.missed_blocks_maximum {
                            self.after_state_change(id, State::Jailed)
                        } else {
                            Ok(StakeView { uptimes: self.uptimes.insert(id, marked), ..self })
                        },
                    },
                }
            },
        }
    }

    /// The staking data after the votes were recorded for the validators
    /// `ids`, one after the other.
    pub open spec fn after_votes(self, ids: Seq<IdentityKey>, votes: Seq<VoteInfo>) -> Result<
        StakeView,
        StakingError,
    >
        decreases ids.len(),
    {
        if ids.len() == 0 {
            Ok(self)
        } else {
            match self.after_votes(ids.drop_last(), votes) {
                Ok(s) => s.after_vote(ids.last(), votes),
                Err(e) => Err(e),
            }
        }
    }

    /// Whether `stopped` is what recording the votes leaves behind where it
    /// fails at a validator: the votes are recorded for the validators before
    /// it in the roster.
    pub open spec fn stopped_tracking(self, votes: Seq<VoteInfo>, stopped: StakeView) -> bool {
        exists|n: int|
            0 <= n < self.roster().len() && #[trigger] self.after_votes(
                self.roster().take(n),
                votes,
            ) == Ok::<StakeView, StakingError>(stopped)
    }

    /// The staking data after the votes on the last block were recorded for
    /// every known validator, in the order of the roster.
    pub open spec fn after_uptime_tracking(self, votes: Seq<VoteInfo>) -> Result<
        StakeView,
        StakingError,
    > {
        self.after_votes(self.roster(), votes)
    }
}

/// Where recording the votes fails for a part of the roster, it fails in the
/// same way for the whole.
pub proof fn lemma_after_votes_fails(
    s: StakeView,
    ids: Seq<IdentityKey>,
    n: int,
    votes: Seq<VoteInfo>,
)
    requires
        0 <= n <= ids.len(),
        s.after_votes(ids.take(n), votes) is Err,
    ensures
        s.after_votes(ids, votes) == s.after_votes(ids.take(n), votes),
    decreases ids.len(),
{
    if n < ids.len() {
        assert(ids.drop_last().take(n) =~= ids.take(n));
        lemma_after_votes_fails(s, ids.drop_last(), n, votes);
    } else {
        assert(ids.take(n) =~= ids);
    }
}

impl StakingState {
    /// Records the vote on the last block for one validator. Fails, and
    /// changes nothing, where a record of the validator is missing, the
    /// block does not follow the last one its window saw, or it cannot be
    /// jailed.
    pub fn track_validator(&mut self, id: &IdentityKey, votes: &Vec<VoteInfo>) -> (r: Result<
        (),
        StakingError,
    >)
        requires
            old(self).wf(),
        ensures
            final(self).wf(),
            match r {
                Ok(()) => old(self)@.after_vote(*id, votes@) == Ok::<StakeView, StakingError>(
                    final(self)@,
                ),
                Err(e) => old(self)@.after_vote(*id, votes@) == Err::<StakeView, StakingError>(e)
                    && final(self)@ == old(self)@,
            },
    {
        let height = self.block_height();
        let missed_blocks_maximum = self.missed_blocks_maximum();
        let info = match self.validator_info(id) {
            Some(info) => info,
            None => { return Err(StakingError::MissingInvariantRecord); },
        };
        if info.status.state != State::Active {
            return Ok(());
        }
        // Votes name validators by the address of their consensus key.
        let address = validator_address(&info.validator.consensus_key);
        // The votes on the first block are those on genesis, which nobody
        // signed: everybody counts as having signed.
        let signed = height == 1 || match find_vote(votes, &address) {
            Some(signed) => signed,
            None => false,
        };
        let mut uptime = match self.validator_uptime(id) {
            Some(uptime) => uptime,
            None => { return Err(StakingError::MissingInvariantRecord); },
        };
        match uptime.mark_height_as_signed(height, signed) {
            Ok(()) => {},
            Err(e) => { return Err(e); },
        }
        if uptime.num_missed_blocks() as u64 >= missed_blocks_maximum {
            self.set_validator_state(id, State::Jailed)
        } else {
            self.set_validator_uptime(id, uptime);
            Ok(())
        }
    }

    /// Records for every active validator whether it signed the last block,
    /// and jails those that have missed too many blocks of their window.
    ///
    /// Where it fails, the validators before the failing one in the roster
    /// have been processed, and the staking data is to be abandoned.
    pub fn track_uptime(&mut self, last_commit_info: &LastCommitInfo) -> (r: Result<
        (),
        StakingError,
    >)
        requires
            old(self).wf(),
        ensures
            final(self).wf(),
            match r {
                Ok(()) => old(self)@.after_uptime_tracking(last_commit_info.votes@) == Ok::<
                    StakeView,
                    StakingError,
                >(final(self)@),
                Err(e) => old(self)@.after_uptime_tracking(last_commit_info.votes@) == Err::<
                    StakeView,
                    StakingError,
                >(e) && old(self)@.stopped_tracking(last_commit_info.votes@, final(self)@),
            },
    {
        let ghost before = self@;
        let ids = self.validator_identity_list();
        let mut i: usize = 0;
        while i < ids.len()
            invariant
                self.wf(),
                before == old(self)@,
                ids@ == before.roster(),
                i <= ids@.len(),
                before.after_votes(ids@.take(i as int), last_commit_info.votes@) == Ok::<
                    StakeView,
                    StakingError,
                >(self@),
            decreases ids@.len() - i,
        {
            assert(ids@.take(i as int + 1).drop_last() =~= ids@.take(i as int));
            let ghost reached = self@;
            match self.track_validator(&ids[i], &last_commit_info.votes) {
                Ok(()) => {},
                Err(e) => {
                    proof {
                        let part = ids@.take(i as int + 1);
                        assert(part.last() == ids@[i as int]);
                        assert(before.after_votes(part, last_commit_info.votes@) == Err::<
                            StakeView,
                            StakingError,
                        >(e));
                        lemma_after_votes_fails(
                            before,
                            ids@,
                            i as int + 1,
                            last_commit_info.votes@,
                        );
                        assert(self@ == reached);
                        assert(before.after_votes(
                            before.roster().take(i as int),
                            last_commit_info.votes@,
                        ) == Ok::<StakeView, StakingError>(self@));
                    }
                    return Err(e);
                },
            }
            i = i + 1;
        }
        assert(ids@.take(i as int) =~= ids@);
        Ok(())
    }
}

} // verus!
