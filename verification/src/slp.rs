//! The plain records of the staking-liquidity side: the limits that a chain
//! sets for its delegators, and the cross-chain operations that a staking
//! agent can ask for.

use vstd::prelude::*;

verus! {

/// Different minimum and maximum requirements for different chains.
#[derive(Clone, Debug, PartialEq, Eq)]
pub struct MinimumsMaximums<Balance> {
    /// The minimum bonded amount for a delegator at any time.
    pub delegator_bonded_minimum: Balance,
    /// The minimum amount each time a delegator needs to bond for extra.
    pub bond_extra_minimum: Balance,
    /// The minimum unbond amount each time a delegator unbonds.
    pub unbond_minimum: Balance,
    /// The minimum amount each time a delegator needs to rebond.
    pub rebond_minimum: Balance,
    /// The maximum number of unbond records at the same time.
    pub unbond_record_maximum: u32,
    /// The maximum number of validators for a delegator to support at the
    /// same time.
    pub validators_back_maximum: u32,
    /// The maximum amount of active staking for a delegator.
    pub delegator_active_staking_maximum: Balance,
}

/// The cross-chain operations that a staking agent can ask for.
#[derive(Clone, Copy, Debug, PartialEq, Eq, Structural)]
pub enum XcmOperation {
    XtokensTransfer,
    Bond,
    WithdrawUnbonded,
    BondExtra,
    Unbond,
    Rebond,
    Delegate,
    Payout,
    Liquidize,
    TransferBack,
    TransferTo,
    Chill,
}

} // verus!
