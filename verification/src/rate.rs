//! Exchange rates between delegation tokens and the staking token.
//!
//! Rates are fixed-point numbers with eight decimal places: `RATE_SCALE`
//! stands for 1. Every result is the exact quotient rounded down; where it
//! does not fit its integer type the function returns `None`.

use crate::keys::IdentityKey;
use crate::penalty::Penalty;
use crate::validator::{commission_bps, total_commission_bps, FundingStream, State, BPS_WHOLE};
use vstd::prelude::*;

verus! {

/// The fixed-point representation of 1: eight decimal places.
pub const RATE_SCALE: u64 = 100_000_000;

/// An exchange rate after one epoch of rewards at `reward_rate`.
pub open spec fn grown(exchange_rate: int, reward_rate: int) -> int {
    (exchange_rate * (reward_rate + RATE_SCALE)) / (RATE_SCALE as int)
}

/// `amount * numerator / denominator`, rounded down.
pub open spec fn scaled(amount: int, numerator: int, denominator: int) -> int {
    (amount * numerator) / denominator
}

/// Rewards never lower an exchange rate.
pub proof fn lemma_grown_monotone(exchange_rate: int, reward_rate: int)
    requires
        0 <= exchange_rate,
        0 <= reward_rate,
    ensures
        grown(exchange_rate, reward_rate) >= exchange_rate,
{
    assert(exchange_rate * (reward_rate + 100_000_000) >= exchange_rate * 100_000_000)
        by (nonlinear_arith)
        requires
            0 <= exchange_rate,
            0 <= reward_rate,
    ;
}

/// `exchange_rate` grown by `reward_rate`, if it fits 64 bits.
fn grow(exchange_rate: u64, reward_rate: u64) -> (r: Option<u64>)
    ensures
        r == if grown(exchange_rate as int, reward_rate as int) <= u64::MAX {
            Some(grown(exchange_rate as int, reward_rate as int) as u64)
        } else {
            None
        },
{
    let factor: u128 = reward_rate as u128 + 100_000_000;
    assert(0 <= exchange_rate as int * factor as int) by (nonlinear_arith);
    match (exchange_rate as u128).checked_mul(factor) {
        Some(product) => {
            let quotient: u128 = product / 100_000_000;
            if quotient <= u64::MAX as u128 {
                Some(quotient as u64)
            } else {
                None
            }
        },
        None => None,
    }
}

/// `amount * numerator / denominator` rounded down, if it fits 64 bits.
fn scale(amount: u64, numerator: u64, denominator: u64) -> (r: Option<u64>)
    requires
        denominator > 0,
    ensures
        r == if scaled(amount as int, numerator as int, denominator as int) <= u64::MAX {
            Some(scaled(amount as int, numerator as int, denominator as int) as u64)
        } else {
            None
        },
{
    assert(0 <= amount as int * numerator as int <= u64::MAX * u64::MAX) by (nonlinear_arith);
    let product: u128 = amount as u128 * numerator as u128;
    let quotient: u128 = product / denominator as u128;
    assert(0 <= quotient);
    if quotient <= u64::MAX as u128 {
        Some(quotient as u64)
    } else {
        None
    }
}

/// The rates of the staking token itself in one epoch.
#[derive(Clone, Copy, Debug, PartialEq, Eq, Structural)]
pub struct BaseRateData {
    pub epoch_index: u64,
    pub base_reward_rate: u64,
    pub base_exchange_rate: u64,
}

impl BaseRateData {
    /// The base rates of the following epoch at the given reward rate.
    pub open spec fn spec_next(self, base_reward_rate: u64) -> Option<BaseRateData> {
        let rate = grown(self.base_exchange_rate as int, base_reward_rate as int);
        if self.epoch_index < u64::MAX && rate <= u64::MAX {
            Some(
                BaseRateData {
                    epoch_index: (self.epoch_index + 1) as u64,
                    base_reward_rate,
                    base_exchange_rate: rate as u64,
                },
            )
        } else {
            None
        }
    }

    /// Computes the base rates of the following epoch, given that epoch's
    /// base reward rate. `None` where the epoch index or the exchange rate
    /// would leave 64 bits.
    pub fn next(&self, base_reward_rate: u64) -> (r: Option<BaseRateData>)
        ensures
            r == self.spec_next(base_reward_rate),
    {
        if self.epoch_index == u64::MAX {
            return None;
        }
        match grow(self.base_exchange_rate, base_reward_rate) {
            Some(rate) => Some(
                BaseRateData {
                    epoch_index: self.epoch_index + 1,
                    base_reward_rate,
                    base_exchange_rate: rate,
                },
            ),
            None => None,
        }
    }
}

/// The rates of one validator's delegation token in one epoch.
#[derive(Clone, Copy, Debug)]
pub struct RateData {
    pub identity_key: IdentityKey,
    pub epoch_index: u64,
    pub validator_reward_rate: u64,
    pub validator_exchange_rate: u64,
}

/// The reward rate left to delegators after `commission` basis points.
pub open spec fn reward_after_commission(base_reward_rate: int, commission: int) -> int {
    ((BPS_WHOLE - commission) * base_reward_rate) / (BPS_WHOLE as int)
}

impl RateData {
    /// The rates of the following epoch. An active validator passes the base
    /// reward on, less its commission; any other keeps its rates.
    pub open spec fn spec_next(
        self,
        base_rate_data: BaseRateData,
        funding_streams: Seq<FundingStream>,
        state: State,
    ) -> Option<RateData> {
        if self.epoch_index == u64::MAX {
            None
        } else if state == State::Active {
            let reward = reward_after_commission(
                base_rate_data.base_reward_rate as int,
                commission_bps(funding_streams) as int,
            );
            let rate = grown(self.validator_exchange_rate as int, reward);
            if rate <= u64::MAX {
                Some(
                    RateData {
                        identity_key: self.identity_key,
                        epoch_index: (self.epoch_index + 1) as u64,
                        validator_reward_rate: reward as u64,
                        validator_exchange_rate: rate as u64,
                    },
                )
            } else {
                None
            }
        } else {
            Some(
                RateData {
                    identity_key: self.identity_key,
                    epoch_index: (self.epoch_index + 1) as u64,
                    validator_reward_rate: self.validator_reward_rate,
                    validator_exchange_rate: self.validator_exchange_rate,
                },
            )
        }
    }

    /// Computes the validator's rates for the epoch following this one.
    pub fn next(
        &self,
        base_rate_data: &BaseRateData,
        funding_streams: &Vec<FundingStream>,
        state: State,
    ) -> (r: Option<RateData>)
        requires
            commission_bps(funding_streams@) <= BPS_WHOLE,
        ensures
            r == self.spec_next(*base_rate_data, funding_streams@, state),
    {
        if self.epoch_index == u64::MAX {
            return None;
        }
        match state {
            State::Active => {
                let commission: u64 = total_commission_bps(funding_streams);
                let share: u64 = 10_000 - commission;
                let reward = scale(share, base_rate_data.base_reward_rate, 10_000);
                proof {
                    assert(share as int * base_rate_data.base_reward_rate as int <= 10_000
                        * base_rate_data.base_reward_rate as int) by (nonlinear_arith)
                        requires
                            0 <= share <= 10_000,
                            0 <= base_rate_data.base_reward_rate,
                    ;
                }
                match reward {
                    Some(reward) => {
                        match grow(self.validator_exchange_rate, reward) {
                            Some(rate) => Some(
                                RateData {
                                    identity_key: self.identity_key,
                                    epoch_index: self.epoch_index + 1,
                                    validator_reward_rate: reward,
                                    validator_exchange_rate: rate,
                                },
                            ),
                            None => None,
                        }
                    },
                    None => None,
                }
            },
            _ => Some(
                RateData {
                    identity_key: self.identity_key,
                    epoch_index: self.epoch_index + 1,
                    validator_reward_rate: self.validator_reward_rate,
                    validator_exchange_rate: self.validator_exchange_rate,
                },
            ),
        }
    }

    /// The rates after a penalty: the exchange rate loses the penalty's share
    /// of itself, rounded down.
    pub open spec fn spec_slash(self, penalty: Penalty) -> RateData {
        RateData {
            validator_exchange_rate: (self.validator_exchange_rate - scaled(
                self.validator_exchange_rate as int,
                penalty.0 as int,
                RATE_SCALE as int,
            )) as u64,
            ..self
        }
    }

    /// Applies a slashing penalty to the exchange rate. The rate never rises.
    pub fn slash(&self, penalty: Penalty) -> (r: RateData)
        requires
            penalty.wf(),
        ensures
            r == self.spec_slash(penalty),
            r.validator_exchange_rate <= self.validator_exchange_rate,
    {
        assert(0 <= self.validator_exchange_rate as int * penalty.0 as int
            <= self.validator_exchange_rate as int * 100_000_000) by (nonlinear_arith)
            requires
                0 <= self.validator_exchange_rate,
                0 <= penalty.0 <= 100_000_000,
        ;
        let product: u128 = self.validator_exchange_rate as u128 * penalty.0 as u128;
        let cut: u64 = (product / 100_000_000) as u64;
        RateData {
            identity_key: self.identity_key,
            epoch_index: self.epoch_index,
            validator_reward_rate: self.validator_reward_rate,
            validator_exchange_rate: self.validator_exchange_rate - cut,
        }
    }

    /// The staking tokens that `delegation_amount` delegation tokens are
    /// worth at this rate.
    pub open spec fn spec_unbonded_amount(self, delegation_amount: u64) -> Option<u64> {
        let amount = scaled(
            delegation_amount as int,
            self.validator_exchange_rate as int,
            RATE_SCALE as int,
        );
        if amount <= u64::MAX {
            Some(amount as u64)
        } else {
            None
        }
    }

    /// Computes the amount of unbonded stake corresponding to the given
    /// amount of delegation tokens.
    pub fn unbonded_amount(&self, delegation_amount: u64) -> (r: Option<u64>)
        ensures
            r == self.spec_unbonded_amount(delegation_amount),
    {
        scale(delegation_amount, self.validator_exchange_rate, 100_000_000)
    }

    /// The voting power that a supply of delegation tokens carries: its
    /// worth in staking tokens at this rate, measured at the base rate.
    pub open spec fn spec_voting_power(
        self,
        total_delegation_tokens: u64,
        base_rate_data: BaseRateData,
    ) -> Option<u64> {
        let power = scaled(
            total_delegation_tokens as int,
            self.validator_exchange_rate as int,
            base_rate_data.base_exchange_rate as int,
        );
        if base_rate_data.base_exchange_rate > 0 && power <= u64::MAX {
            Some(power as u64)
        } else {
            None
        }
    }

    /// Computes the validator's voting power at this epoch given the total
    /// supply of the validator's delegation tokens.
    pub fn voting_power(&self, total_delegation_tokens: u64, base_rate_data: &BaseRateData) -> (r:
        Option<u64>)
        ensures
            r == self.spec_voting_power(total_delegation_tokens, *base_rate_data),
    {
        if base_rate_data.base_exchange_rate == 0 {
            None
        } else {
            scale(
                total_delegation_tokens,
                self.validator_exchange_rate,
                base_rate_data.base_exchange_rate,
            )
        }
    }
}

/// The three stages of a commission payment, each rounded down: the stream's
/// share of the token supply, the reward on that share, and its worth at the
/// exchange rate of the epoch before.
pub open spec fn commission_stages(
    rate_bps: int,
    total_delegation_tokens: int,
    base_reward_rate: int,
    prev_exchange_rate: int,
) -> (int, int, int) {
    let share = (total_delegation_tokens * (rate_bps * BPS_WHOLE)) / (RATE_SCALE as int);
    let reward = (share * base_reward_rate) / (RATE_SCALE as int);
    let worth = (reward * prev_exchange_rate) / (RATE_SCALE as int);
    (share, reward, worth)
}

impl FundingStream {
    /// The commission paid to this stream for one epoch, present where every
    /// stage's product fits 128 bits and the payment fits 64 bits.
    pub open spec fn spec_reward_amount(
        self,
        total_delegation_tokens: u64,
        base_rate_data: BaseRateData,
        prev_epoch_rate_data: BaseRateData,
    ) -> Option<u64> {
        let (share, reward, worth) = commission_stages(
            self.rate_bps as int,
            total_delegation_tokens as int,
            base_rate_data.base_reward_rate as int,
            prev_epoch_rate_data.base_exchange_rate as int,
        );
        if share * base_rate_data.base_reward_rate <= u128::MAX && reward
            * prev_epoch_rate_data.base_exchange_rate <= u128::MAX && worth <= u64::MAX {
            Some(worth as u64)
        } else {
            None
        }
    }

    /// Computes the amount of reward at the epoch of `base_rate_data`, whose
    /// rates follow those of `prev_epoch_rate_data`.
    pub fn reward_amount(
        &self,
        total_delegation_tokens: u64,
        base_rate_data: &BaseRateData,
        prev_epoch_rate_data: &BaseRateData,
    ) -> (r: Option<u64>)
        requires
            prev_epoch_rate_data.epoch_index + 1 == base_rate_data.epoch_index,
        ensures
            r == self.spec_reward_amount(
                total_delegation_tokens,
                *base_rate_data,
                *prev_epoch_rate_data,
            ),
    {
        let weight: u128 = self.rate_bps as u128 * 10_000;
        assert(0 <= total_delegation_tokens as int * weight as int <= u64::MAX * 655_350_000)
            by (nonlinear_arith)
            requires
                0 <= weight <= 655_350_000,
                0 <= total_delegation_tokens <= u64::MAX,
        ;
        let share: u128 = (total_delegation_tokens as u128 * weight) / 100_000_000;
        assert(0 <= share as int * base_rate_data.base_reward_rate as int) by (nonlinear_arith);
        let reward: u128 = match share.checked_mul(base_rate_data.base_reward_rate as u128) {
            Some(product) => product / 100_000_000,
            None => { return None; },
        };
        assert(0 <= reward as int * prev_epoch_rate_data.base_exchange_rate as int)
            by (nonlinear_arith);
        let worth: u128 = match reward.checked_mul(prev_epoch_rate_data.base_exchange_rate as u128) {
            Some(product) => product / 100_000_000,
            None => { return None; },
        };
        if worth <= u64::MAX as u128 {
            Some(worth as u64)
        } else {
            None
        }
    }
}

} // verus!
