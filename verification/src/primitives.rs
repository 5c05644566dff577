//! Identifiers, amounts and the plain records shared by every component.

use vstd::prelude::*;

verus! {

/// Identifies a currency with the ledger.
pub type CurrencyId = u32;

/// Identifies an account with the ledger.
pub type AccountId = u64;

/// An amount of a currency, of pool share or of time-weighted stake.
pub type Balance = u128;

/// A block height.
pub type BlockNumber = u32;

/// Identifies a farming pool, and likewise a gauge pool.
pub type PoolId = u32;

/// Where a farming pool stands in its life.
#[derive(Clone, Copy, Debug, PartialEq, Eq, Structural)]
pub enum PoolState {
    UnCharged,
    Charged,
    Ongoing,
    Dead,
    Retired,
}

/// Whether a gauge pool still takes part in reward accrual.
#[derive(Clone, Copy, Debug, PartialEq, Eq, Structural)]
pub enum GaugeState {
    Unbond,
    Bonded,
}

/// Why an operation was rejected. A rejected operation changes nothing.
#[derive(Clone, Copy, Debug, PartialEq, Eq, Structural)]
pub enum Error {
    /// A checked computation left the range of its type.
    CalculationOverflow,
    /// No farming pool has the given id.
    PoolDoesNotExist,
    /// The pool is in a state that forbids the operation.
    InvalidPoolState,
    /// The pool has no gauge pool, or no gauge pool has the given id.
    GaugePoolNotExist,
    /// The locked amount has not reached its maturity block yet.
    CanNotWithdraw,
    /// The currency ledger refused a transfer of the operation.
    NotEnoughBalance,
}

/// An instruction to the currency ledger: move `amount` of `currency` from
/// `from` to `to`.
#[derive(Clone, Copy, Debug, PartialEq, Eq, Structural)]
pub struct Transfer {
    pub currency: CurrencyId,
    pub from: AccountId,
    pub to: AccountId,
    pub amount: Balance,
}

} // verus!
