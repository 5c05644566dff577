//! The accounting core of a liquidity-farming reward engine.
//!
//! For many independent pools it tracks how much of each reward currency is
//! owed to each depositor, as deposits, withdrawals and time-locked boost
//! positions change the entitlements, in constant work for each operation.
//! Funds are not moved here: every operation returns the transfers that the
//! currency ledger is to make.
//!
//! * [`rewards`] and [`gauge`] hold the records and the arithmetic on them.
//! * [`pallet`] holds the store and the operations on it.
//! * [`laws`] proves what holds of the engine as a whole.
//! * [`totals`] sums shares, debts and locked amounts over accounts.
//! * [`wide`], [`permill`] and [`ordered`] are the arithmetic and map helpers.
//! * [`primitives`] holds identifiers, states, errors and transfers;
//!   [`slp`] the plain records of the staking-liquidity side.

pub mod gauge;
pub mod laws;
pub mod ordered;
pub mod pallet;
pub mod permill;
pub mod primitives;
pub mod rewards;
pub mod slp;
pub mod totals;
pub mod wide;

pub use crate::gauge::{GaugeInfo, GaugePoolInfo};
pub use crate::pallet::Pallet;
pub use crate::permill::Permill;
pub use crate::primitives::{
    AccountId, Balance, BlockNumber, CurrencyId, Error, GaugeState, PoolId, PoolState, Transfer,
};
pub use crate::rewards::{PoolInfo, ShareInfo};
pub use crate::slp::{MinimumsMaximums, XcmOperation};
