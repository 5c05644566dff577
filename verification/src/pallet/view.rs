//! The mathematical content of the store, and what makes a store valid.

use crate::gauge::{empty_gauge, GaugeInfoView, GaugePoolInfoView};
use crate::primitives::{AccountId, Balance, BlockNumber, CurrencyId, PoolId};
use crate::rewards::{empty_share, no_over_withdrawal, PoolInfoView, ShareInfoView};
use crate::totals::{sum_debts, sum_locked, sum_shares};
use vstd::prelude::*;

verus! {

/// The mathematical content of a [`Pallet`](crate::pallet::Pallet). Share
/// records and positions are keyed by pool and account.
pub struct PalletView {
    pub block_number: BlockNumber,
    pub pool_next_id: PoolId,
    pub gauge_pool_next_id: PoolId,
    pub pool_infos: Map<PoolId, PoolInfoView>,
    pub gauge_pool_infos: Map<PoolId, GaugePoolInfoView>,
    pub gauge_infos: Map<(PoolId, AccountId), GaugeInfoView>,
    pub shares: Map<(PoolId, AccountId), ShareInfoView>,
}

/// The share records of pool `pid`, by account.
pub open spec fn accounts_of(
    shares: Map<(PoolId, AccountId), ShareInfoView>,
    pid: PoolId,
) -> Map<AccountId, ShareInfoView> {
    Map::new(|a: AccountId| shares.contains_key((pid, a)), |a: AccountId| shares[(pid, a)])
}

/// The positions of gauge pool `gid`, by account.
pub open spec fn positions_of(
    gauges: Map<(PoolId, AccountId), GaugeInfoView>,
    gid: PoolId,
) -> Map<AccountId, GaugeInfoView> {
    Map::new(|a: AccountId| gauges.contains_key((gid, a)), |a: AccountId| gauges[(gid, a)])
}

/// The share record of `who` in pool `pid`; that of an account that holds
/// nothing where the store has none.
pub open spec fn share_record(v: PalletView, pid: PoolId, who: AccountId) -> ShareInfoView {
    if v.shares.contains_key((pid, who)) {
        v.shares[(pid, who)]
    } else {
        empty_share(who)
    }
}

/// The position of `who` in gauge pool `gid`; that of an account that has
/// locked nothing where the store has none.
pub open spec fn gauge_record(v: PalletView, gid: PoolId, who: AccountId) -> GaugeInfoView {
    if v.gauge_infos.contains_key((gid, who)) {
        v.gauge_infos[(gid, who)]
    } else {
        empty_gauge(who)
    }
}

/// In every pool the shares of the depositors add up to the pool's total.
pub open spec fn shares_conserved(v: PalletView) -> bool {
    forall|pid: PoolId| #[trigger]
        v.pool_infos.contains_key(pid) ==> sum_shares(accounts_of(v.shares, pid))
            == v.pool_infos[pid].total_shares
}

/// What `rewards` records as withdrawn of `c`, nothing where it has no
/// record of `c`.
pub open spec fn paid_out(rewards: Map<CurrencyId, (Balance, Balance)>, c: CurrencyId) -> Balance {
    if rewards.contains_key(c) {
        rewards[c].1
    } else {
        0
    }
}

/// In every pool and every currency the reward debts of the depositors add
/// up to what the pool records as withdrawn.
pub open spec fn debts_conserved(v: PalletView) -> bool {
    forall|pid: PoolId, c: CurrencyId|
        v.pool_infos.contains_key(pid) ==> #[trigger] sum_debts(accounts_of(v.shares, pid), c)
            == paid_out(v.pool_infos[pid].rewards, c)
}

/// In every gauge pool the amounts locked in the positions add up to the
/// gauge pool's amount.
pub open spec fn locked_conserved(v: PalletView) -> bool {
    forall|gid: PoolId| #[trigger]
        v.gauge_pool_infos.contains_key(gid) ==> sum_locked(positions_of(v.gauge_infos, gid))
            == v.gauge_pool_infos[gid].gauge_amount
}

/// In no pool and no gauge pool is more withdrawn of a currency than has
/// accrued.
pub open spec fn nothing_over_withdrawn(v: PalletView) -> bool {
    &&& forall|pid: PoolId| #[trigger]
        v.pool_infos.contains_key(pid) ==> no_over_withdrawal(v.pool_infos[pid].rewards)
    &&& forall|gid: PoolId| #[trigger]
        v.gauge_pool_infos.contains_key(gid) ==> no_over_withdrawal(
            v.gauge_pool_infos[gid].rewards,
        )
}

/// No pool has `keeper` as its keeper.
pub open spec fn keeper_free(v: PalletView, keeper: AccountId) -> bool {
    forall|pid: PoolId| #[trigger]
        v.pool_infos.contains_key(pid) ==> v.pool_infos[pid].keeper != keeper
}

/// No two pools share a keeper.
pub open spec fn keepers_exclusive(v: PalletView) -> bool {
    forall|p: PoolId, q: PoolId|
        #![trigger v.pool_infos[p], v.pool_infos[q]]
        v.pool_infos.contains_key(p) && v.pool_infos.contains_key(q) && p != q
            ==> v.pool_infos[p].keeper != v.pool_infos[q].keeper
}

/// What holds of the farming pools and share records of every store that
/// the operations can reach: shares and reward debts add up, nothing is
/// over-withdrawn, no two pools share a keeper, pool ids are below the
/// counter, and every share record belongs to its account, holds some share
/// and has its pool.
pub open spec fn valid_pools(v: PalletView) -> bool {
    &&& shares_conserved(v)
    &&& debts_conserved(v)
    &&& keepers_exclusive(v)
    &&& forall|pid: PoolId| #[trigger]
        v.pool_infos.contains_key(pid) ==> no_over_withdrawal(v.pool_infos[pid].rewards)
    &&& forall|pid: PoolId| #[trigger] v.pool_infos.contains_key(pid) ==> pid < v.pool_next_id
    &&& forall|pid: PoolId| #[trigger] accounts_of(v.shares, pid).dom().finite()
    &&& forall|k: (PoolId, AccountId)| #[trigger]
        v.shares.contains_key(k) ==> v.shares[k].who == k.1 && v.shares[k].share > 0
            && v.pool_infos.contains_key(k.0)
}

/// What holds of the gauge pools and positions of every store that the
/// operations can reach: locked amounts add up, nothing is over-withdrawn,
/// gauge pool ids are below the counter, no block on record is ahead of the
/// current one, and every position belongs to its account and has its gauge
/// pool.
pub open spec fn valid_gauges(v: PalletView) -> bool {
    &&& locked_conserved(v)
    &&& forall|gid: PoolId| #[trigger]
        v.gauge_pool_infos.contains_key(gid) ==> no_over_withdrawal(
            v.gauge_pool_infos[gid].rewards,
        )
    &&& forall|gid: PoolId| #[trigger]
        v.gauge_pool_infos.contains_key(gid) ==> gid < v.gauge_pool_next_id
            && v.gauge_pool_infos[gid].gauge_last_block <= v.block_number
    &&& forall|gid: PoolId| #[trigger] positions_of(v.gauge_infos, gid).dom().finite()
    &&& forall|k: (PoolId, AccountId)| #[trigger]
        v.gauge_infos.contains_key(k) ==> v.gauge_infos[k].who == k.1
            && v.gauge_pool_infos.contains_key(k.0) && v.gauge_infos[k].gauge_last_block
            <= v.block_number && v.gauge_infos[k].last_claim_block <= v.block_number
}

/// The gauge pool that `gauge` refers to, where it refers to one, is there
/// and belongs to farming pool `pid`.
pub open spec fn gauge_linked(v: PalletView, pid: PoolId, gauge: Option<PoolId>) -> bool {
    gauge matches Some(gid) ==> v.gauge_pool_infos.contains_key(gid)
        && v.gauge_pool_infos[gid].pid == pid
}

/// The gauge pool that a farming pool refers to is there and refers back to
/// it.
pub open spec fn gauges_linked(v: PalletView) -> bool {
    forall|pid: PoolId| #[trigger]
        v.pool_infos.contains_key(pid) ==> gauge_linked(v, pid, v.pool_infos[pid].gauge)
}

/// What holds of every store that the operations can reach.
pub open spec fn valid(v: PalletView) -> bool {
    valid_pools(v) && valid_gauges(v) && gauges_linked(v)
}

} // verus!
