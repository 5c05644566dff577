//! The pool lifecycle driver: the tick that the clock invokes, and the
//! administrative operations that create a pool and move it from state to
//! state.

use crate::gauge::GaugePoolInfoView;
use crate::ordered::{ascending_u32, ascending_u64, sorted_u64};
use crate::pallet::gauges::create_gauge_pool_spec;
use crate::pallet::shares::claim_rewards_spec;
use crate::pallet::{
    accounts_of, keeper_free, lemma_create_pool_valid, lemma_write_gauge_pool_valid,
    lemma_write_pool_valid, paid_out, positions_of, share_record, valid, Pallet, PalletView,
};
use crate::permill::Permill;
use crate::primitives::{
    AccountId, Balance, BlockNumber, CurrencyId, Error, GaugeState, PoolId, PoolState, Transfer,
};
use crate::rewards::{
    accrue_all, accrue_all_spec, collect_map, map_of, no_over_withdrawal, split_transfers,
    split_value, PoolInfo, PoolInfoView,
};
use crate::totals::{sum_debts, sum_locked, sum_shares};
use vstd::prelude::*;

verus! {

/// One farming pool after the tick of block `n`: an ongoing pool accrues its
/// basic rewards; a charged pool goes on once block `n` has reached its
/// start block or its shares have reached its minimum deposit.
pub open spec fn tick_pool(pool: PoolInfoView, n: BlockNumber) -> PoolInfoView {
    match pool.state {
        PoolState::Ongoing => PoolInfoView {
            rewards: accrue_all_spec(pool.rewards, pool.basic_rewards, None),
            ..pool
        },
        PoolState::Charged => if n >= pool.after_block_to_start || pool.total_shares
            >= pool.min_deposit_to_start {
            PoolInfoView { block_startup: Some(n), state: PoolState::Ongoing, ..pool }
        } else {
            pool
        },
        _ => pool,
    }
}

/// One gauge pool after a tick, `pools` being the farming pools after it: a
/// bonded gauge pool whose farming pool is ongoing accrues its coefficient's
/// part of each basic reward.
pub open spec fn tick_gauge_pool(
    gauge_pool: GaugePoolInfoView,
    pools: Map<PoolId, PoolInfoView>,
) -> GaugePoolInfoView {
    if gauge_pool.gauge_state == GaugeState::Bonded && pools.contains_key(gauge_pool.pid)
        && pools[gauge_pool.pid].state == PoolState::Ongoing {
        GaugePoolInfoView {
            rewards: accrue_all_spec(
                gauge_pool.rewards,
                pools[gauge_pool.pid].basic_rewards,
                Some(gauge_pool.coefficient),
            ),
            ..gauge_pool
        }
    } else {
        gauge_pool
    }
}

/// The farming pools after the tick of block `n`.
pub open spec fn ticked_pools(v: PalletView, n: BlockNumber) -> Map<PoolId, PoolInfoView> {
    Map::new(|p: PoolId| v.pool_infos.contains_key(p), |p: PoolId| tick_pool(v.pool_infos[p], n))
}

/// The store after the tick of block `n`.
pub open spec fn on_initialize_spec(v: PalletView, n: BlockNumber) -> PalletView {
    PalletView {
        block_number: n,
        pool_infos: ticked_pools(v, n),
        gauge_pool_infos: Map::new(
            |g: PoolId| v.gauge_pool_infos.contains_key(g),
            |g: PoolId| tick_gauge_pool(v.gauge_pool_infos[g], ticked_pools(v, n)),
        ),
        ..v
    }
}

/// A tick keeps the store valid.
pub proof fn lemma_on_initialize_valid(v: PalletView, n: BlockNumber)
    requires
        valid(v),
        n >= v.block_number,
    ensures
        valid(on_initialize_spec(v, n)),
{
    let w = on_initialize_spec(v, n);
    assert forall|p: PoolId| #[trigger] w.pool_infos.contains_key(p) implies sum_shares(
        accounts_of(w.shares, p),
    ) == w.pool_infos[p].total_shares && no_over_withdrawal(w.pool_infos[p].rewards) && p
        < w.pool_next_id by {
        assert(v.pool_infos.contains_key(p));
        lemma_accrue_all_keeps(v.pool_infos[p].rewards, v.pool_infos[p].basic_rewards, None);
    }
    assert forall|p: PoolId, c: CurrencyId| w.pool_infos.contains_key(p) implies
        #[trigger] sum_debts(
        accounts_of(w.shares, p),
        c,
    ) == paid_out(w.pool_infos[p].rewards, c) by {
        assert(v.pool_infos.contains_key(p));
        assert(sum_debts(accounts_of(v.shares, p), c) == paid_out(v.pool_infos[p].rewards, c));
    }
    assert forall|g: PoolId| #[trigger] w.gauge_pool_infos.contains_key(g) implies
        no_over_withdrawal(
        w.gauge_pool_infos[g].rewards,
    ) && g < w.gauge_pool_next_id && w.gauge_pool_infos[g].gauge_last_block <= w.block_number
        && sum_locked(positions_of(w.gauge_infos, g)) == w.gauge_pool_infos[g].gauge_amount by {
        assert(v.gauge_pool_infos.contains_key(g));
        let gp = v.gauge_pool_infos[g];
        if ticked_pools(v, n).contains_key(gp.pid) {
            lemma_accrue_all_keeps(
                gp.rewards,
                ticked_pools(v, n)[gp.pid].basic_rewards,
                Some(gp.coefficient),
            );
        }
    }
    assert forall|k: (PoolId, AccountId)| #[trigger] w.shares.contains_key(k) implies
        w.shares[k].who
        == k.1 && w.shares[k].share > 0 && w.pool_infos.contains_key(k.0) by {
        assert(v.pool_infos.contains_key(k.0));
    }
    assert forall|k: (PoolId, AccountId)| #[trigger]
        w.gauge_infos.contains_key(k) implies w.gauge_infos[k].who == k.1
        && w.gauge_pool_infos.contains_key(k.0) && w.gauge_infos[k].gauge_last_block
        <= w.block_number && w.gauge_infos[k].last_claim_block <= w.block_number by {
        assert(v.gauge_pool_infos.contains_key(k.0));
    }
}

/// A tick's accrual withdraws nothing.
pub proof fn lemma_accrue_all_keeps(
    rewards: Map<CurrencyId, (Balance, Balance)>,
    basic: Map<CurrencyId, Balance>,
    coefficient: Option<Permill>,
)
    requires
        no_over_withdrawal(rewards),
    ensures
        no_over_withdrawal(accrue_all_spec(rewards, basic, coefficient)),
{
    let after = accrue_all_spec(rewards, basic, coefficient);
    assert forall|c: CurrencyId| #[trigger] after.contains_key(c) implies after[c].1
        <= after[c].0 by {
        if rewards.contains_key(c) {
            assert(rewards[c].1 <= rewards[c].0);
        }
    }
}

/// The store after pool `pid` is closed.
pub open spec fn close_pool_spec(v: PalletView, pid: PoolId) -> Result<PalletView, Error> {
    if !v.pool_infos.contains_key(pid) {
        Err(Error::PoolDoesNotExist)
    } else if v.pool_infos[pid].state != PoolState::Ongoing {
        Err(Error::InvalidPoolState)
    } else {
        Ok(
            PalletView {
                pool_infos: v.pool_infos.insert(
                    pid,
                    PoolInfoView { state: PoolState::Dead, ..v.pool_infos[pid] },
                ),
                ..v
            },
        )
    }
}

/// The transfers that charge a pool: each listed reward, in the order of the
/// list, from `who` to the keeper.
pub open spec fn charge_transfers(
    rewards: Seq<(CurrencyId, Balance)>,
    who: AccountId,
    keeper: AccountId,
) -> Seq<Transfer> {
    Seq::new(
        rewards.len(),
        |i: int| Transfer { currency: rewards[i].0, from: who, to: keeper, amount: rewards[i].1 },
    )
}

/// The store after `who` has charged pool `pid` with `rewards`, and the
/// transfers of the charge.
pub open spec fn charge_spec(
    v: PalletView,
    who: AccountId,
    pid: PoolId,
    rewards: Seq<(CurrencyId, Balance)>,
) -> Result<(PalletView, Seq<Transfer>), Error> {
    if !v.pool_infos.contains_key(pid) {
        Err(Error::PoolDoesNotExist)
    } else if v.pool_infos[pid].state != PoolState::UnCharged {
        Err(Error::InvalidPoolState)
    } else {
        Ok(
            (
                PalletView {
                    pool_infos: v.pool_infos.insert(
                        pid,
                        PoolInfoView { state: PoolState::Charged, ..v.pool_infos[pid] },
                    ),
                    ..v
                },
                charge_transfers(rewards, who, v.pool_infos[pid].keeper),
            ),
        )
    }
}

/// The store after pool `pid` and all its share records are erased.
pub open spec fn kill_pool_spec(v: PalletView, pid: PoolId) -> Result<PalletView, Error> {
    if !v.pool_infos.contains_key(pid) {
        Err(Error::PoolDoesNotExist)
    } else if v.pool_infos[pid].state != PoolState::Retired {
        Err(Error::InvalidPoolState)
    } else {
        Ok(
            PalletView {
                pool_infos: v.pool_infos.remove(pid),
                shares: Map::new(
                    |k: (PoolId, AccountId)| v.shares.contains_key(k) && k.0 != pid,
                    |k: (PoolId, AccountId)| v.shares[k],
                ),
                ..v
            },
        )
    }
}

/// Erasing a pool with its share records keeps the store valid.
pub proof fn lemma_kill_pool_valid(v: PalletView, pid: PoolId)
    requires
        valid(v),
    ensures
        kill_pool_spec(v, pid) matches Ok(w) ==> valid(w),
{
    if let Ok(w) = kill_pool_spec(v, pid) {
        assert forall|p: PoolId| #[trigger] w.pool_infos.contains_key(p) implies sum_shares(
            accounts_of(w.shares, p),
        ) == w.pool_infos[p].total_shares && no_over_withdrawal(w.pool_infos[p].rewards) && p
            < w.pool_next_id by {
            assert(v.pool_infos.contains_key(p));
            assert(accounts_of(w.shares, p) =~= accounts_of(v.shares, p));
        }
        assert forall|p: PoolId, c: CurrencyId| w.pool_infos.contains_key(p) implies
            #[trigger] sum_debts(
            accounts_of(w.shares, p),
            c,
        ) == paid_out(w.pool_infos[p].rewards, c) by {
            assert(v.pool_infos.contains_key(p));
            assert(accounts_of(w.shares, p) =~= accounts_of(v.shares, p));
            assert(sum_debts(accounts_of(v.shares, p), c) == paid_out(
                v.pool_infos[p].rewards,
                c,
            ));
        }
        assert forall|p: PoolId| #[trigger] accounts_of(w.shares, p).dom().finite() by {
            assert(accounts_of(v.shares, p).dom().finite());
            if p == pid {
                assert(accounts_of(w.shares, p).dom() =~= Set::empty());
            } else {
                assert(accounts_of(w.shares, p).dom() =~= accounts_of(v.shares, p).dom());
            }
        }
        assert forall|k: (PoolId, AccountId)| #[trigger] w.shares.contains_key(k) implies
            w.shares[k].who
            == k.1 && w.shares[k].share > 0 && w.pool_infos.contains_key(k.0) by {
            assert(v.shares.contains_key(k));
        }
    }
}

/// A pool as it is created: uncharged, without shares or accrued rewards.
pub open spec fn fresh_pool(
    keeper: AccountId,
    tokens_proportion: Map<CurrencyId, Permill>,
    basic_rewards: Map<CurrencyId, Balance>,
    gauge: Option<PoolId>,
    min_deposit_to_start: Balance,
    after_block_to_start: BlockNumber,
    withdraw_limit_time: BlockNumber,
    claim_limit_time: BlockNumber,
    withdraw_limit_count: u8,
) -> PoolInfoView {
    PoolInfoView {
        tokens_proportion,
        basic_rewards,
        rewards: Map::empty(),
        total_shares: 0,
        state: PoolState::UnCharged,
        keeper,
        gauge,
        block_startup: None,
        min_deposit_to_start,
        after_block_to_start,
        withdraw_limit_time,
        claim_limit_time,
        withdraw_limit_count,
    }
}

/// The store after a gauge pool is created for farming pool `pid` where
/// `gauge_init` asks for one, and the id of that gauge pool.
pub open spec fn with_gauge_spec(
    v: PalletView,
    pid: PoolId,
    gauge_init: Option<(CurrencyId, Permill, BlockNumber)>,
) -> Result<(PalletView, Option<PoolId>), Error> {
    match gauge_init {
        Some(init) => match create_gauge_pool_spec(v, pid, init.0, init.1, init.2) {
            Ok(w) => Ok((w, Some(v.gauge_pool_next_id))),
            Err(e) => Err(e),
        },
        None => Ok((v, None)),
    }
}

/// The store after a farming pool is created, and the id that it got: the
/// next pool id. Of two listed entries for one currency the later counts.
pub open spec fn create_farming_pool_spec(
    v: PalletView,
    keeper: AccountId,
    tokens_proportion: Seq<(CurrencyId, Permill)>,
    basic_rewards: Seq<(CurrencyId, Balance)>,
    gauge_init: Option<(CurrencyId, Permill, BlockNumber)>,
    min_deposit_to_start: Balance,
    after_block_to_start: BlockNumber,
    withdraw_limit_time: BlockNumber,
    claim_limit_time: BlockNumber,
    withdraw_limit_count: u8,
) -> Result<(PalletView, PoolId), Error> {
    let pid = v.pool_next_id;
    match with_gauge_spec(v, pid, gauge_init) {
        Err(e) => Err(e),
        Ok(made) => if pid + 1 > u32::MAX {
            Err(Error::CalculationOverflow)
        } else {
            Ok(
                (
                    PalletView {
                        pool_infos: made.0.pool_infos.insert(
                            pid,
                            fresh_pool(
                                keeper,
                                map_of(tokens_proportion),
                                map_of(basic_rewards),
                                made.1,
                                min_deposit_to_start,
                                after_block_to_start,
                                withdraw_limit_time,
                                claim_limit_time,
                                withdraw_limit_count,
                            ),
                        ),
                        pool_next_id: (pid + 1) as u32,
                        ..made.0
                    },
                    pid,
                ),
            )
        },
    }
}

/// Every position in a gauge pool of farming pool `pid` has claimed in the
/// current block. A gauge claim pays the basic rewards of now for all the
/// blocks since the last claim, so basic rewards may only change where this
/// holds.
pub open spec fn gauge_claims_settled(v: PalletView, pid: PoolId) -> bool {
    forall|k: (PoolId, AccountId)| #[trigger]
        v.gauge_infos.contains_key(k) && v.gauge_pool_infos.contains_key(k.0)
            && v.gauge_pool_infos[k.0].pid == pid ==> v.gauge_infos[k].last_claim_block
            == v.block_number
}

/// The store after the retired pool `pid` is given new parameters, each
/// where one is given, and a new gauge pool where `gauge_init` asks for one.
pub open spec fn reset_pool_spec(
    v: PalletView,
    pid: PoolId,
    basic_rewards: Option<Seq<(CurrencyId, Balance)>>,
    min_deposit_to_start: Option<Balance>,
    after_block_to_start: Option<BlockNumber>,
    withdraw_limit_time: Option<BlockNumber>,
    claim_limit_time: Option<BlockNumber>,
    withdraw_limit_count: Option<u8>,
    gauge_init: Option<(CurrencyId, Permill, BlockNumber)>,
) -> Result<PalletView, Error> {
    if !v.pool_infos.contains_key(pid) {
        Err(Error::PoolDoesNotExist)
    } else if v.pool_infos[pid].state != PoolState::Retired {
        Err(Error::InvalidPoolState)
    } else {
        let pool = v.pool_infos[pid];
        match with_gauge_spec(v, pid, gauge_init) {
            Err(e) => Err(e),
            Ok(made) => Ok(
                PalletView {
                    pool_infos: made.0.pool_infos.insert(
                        pid,
                        PoolInfoView {
                            basic_rewards: match basic_rewards {
                                Some(list) => map_of(list),
                                None => pool.basic_rewards,
                            },
                            min_deposit_to_start: match min_deposit_to_start {
                                Some(x) => x,
                                None => pool.min_deposit_to_start,
                            },
                            after_block_to_start: match after_block_to_start {
                                Some(x) => x,
                                None => pool.after_block_to_start,
                            },
                            withdraw_limit_time: match withdraw_limit_time {
                                Some(x) => x,
                                None => pool.withdraw_limit_time,
                            },
                            claim_limit_time: match claim_limit_time {
                                Some(x) => x,
                                None => pool.claim_limit_time,
                            },
                            withdraw_limit_count: match withdraw_limit_count {
                                Some(x) => x,
                                None => pool.withdraw_limit_count,
                            },
                            gauge: match gauge_init {
                                Some(_) => made.1,
                                None => pool.gauge,
                            },
                            ..pool
                        },
                    ),
                    ..made.0
                },
            ),
        }
    }
}

/// The store after the retired pool `pid` is edited: basic rewards and the
/// two limit times where given, and the coefficient of its gauge pool where
/// one is given.
pub open spec fn edit_pool_spec(
    v: PalletView,
    pid: PoolId,
    basic_rewards: Option<Seq<(CurrencyId, Balance)>>,
    withdraw_limit_time: Option<BlockNumber>,
    claim_limit_time: Option<BlockNumber>,
    gauge_coefficient: Option<Permill>,
) -> Result<PalletView, Error> {
    if !v.pool_infos.contains_key(pid) {
        Err(Error::PoolDoesNotExist)
    } else if v.pool_infos[pid].state != PoolState::Retired {
        Err(Error::InvalidPoolState)
    } else {
        let pool = v.pool_infos[pid];
        let edited = PoolInfoView {
            basic_rewards: match basic_rewards {
                Some(list) => map_of(list),
                None => pool.basic_rewards,
            },
            withdraw_limit_time: match withdraw_limit_time {
                Some(x) => x,
                None => pool.withdraw_limit_time,
            },
            claim_limit_time: match claim_limit_time {
                Some(x) => x,
                None => pool.claim_limit_time,
            },
            ..pool
        };
        match gauge_coefficient {
            None => Ok(PalletView { pool_infos: v.pool_infos.insert(pid, edited), ..v }),
            Some(coefficient) => if pool.gauge is None || !v.gauge_pool_infos.contains_key(
                pool.gauge->0,
            ) {
                Err(Error::GaugePoolNotExist)
            } else {
                Ok(
                    PalletView {
                        pool_infos: v.pool_infos.insert(pid, edited),
                        gauge_pool_infos: v.gauge_pool_infos.insert(
                            pool.gauge->0,
                            GaugePoolInfoView {
                                coefficient,
                                ..v.gauge_pool_infos[pool.gauge->0]
                            },
                        ),
                        ..v
                    },
                )
            },
        }
    }
}

impl Pallet {
    /// Whether no pool has `keeper` as its keeper.
    pub fn keeper_is_free(&self, keeper: AccountId) -> (r: bool)
        ensures
            r == keeper_free(self@, keeper),
    {
        let pids = self.pool_ids();
        let mut i: usize = 0;
        while i < pids.len()
            invariant
                0 <= i <= pids.len(),
                ascending_u32(pids@, self@.pool_infos.dom()),
                forall|j: int|
                    #![trigger pids@[j]]
                    0 <= j < i ==> self@.pool_infos[pids@[j]].keeper != keeper,
            decreases pids.len() - i,
        {
            let pid = pids[i];
            proof {
                assert(pids@.contains(pid));
            }
            let taken = match self.pool_infos(pid) {
                Some(pool) => pool.keeper == keeper,
                None => false,
            };
            if taken {
                return false;
            }
            i += 1;
        }
        proof {
            assert forall|pid: PoolId| #[trigger] self@.pool_infos.contains_key(pid) implies
                self@.pool_infos[pid].keeper
                != keeper by {
                assert(pids@.contains(pid));
                let j = choose|j: int| 0 <= j < pids@.len() && pids@[j] == pid;
                assert(self@.pool_infos[pids@[j]].keeper != keeper);
            }
        }
        true
    }

    /// Creates a farming pool under the next pool id, with `keeper` as the
    /// account that holds its funds, and a gauge pool for it where
    /// `gauge_init` gives boost currency, coefficient and longest lock.
    /// The keeper is the pool's alone: no other pool may have it. Returns
    /// the id of the pool.
    pub fn create_farming_pool(
        &mut self,
        keeper: AccountId,
        tokens_proportion: Vec<(CurrencyId, Permill)>,
        basic_rewards: Vec<(CurrencyId, Balance)>,
        gauge_init: Option<(CurrencyId, Permill, BlockNumber)>,
        min_deposit_to_start: Balance,
        after_block_to_start: BlockNumber,
        withdraw_limit_time: BlockNumber,
        claim_limit_time: BlockNumber,
        withdraw_limit_count: u8,
    ) -> (r: Result<PoolId, Error>)
        requires
            old(self).wf(),
            keeper_free(old(self)@, keeper),
        ensures
            final(self).wf(),
            match create_farming_pool_spec(
                old(self)@,
                keeper,
                tokens_proportion@,
                basic_rewards@,
                gauge_init,
                min_deposit_to_start,
                after_block_to_start,
                withdraw_limit_time,
                claim_limit_time,
                withdraw_limit_count,
            ) {
                Ok(w) => r == Ok::<PoolId, Error>(w.1) && final(self)@ == w.0,
                Err(e) => r == Err::<PoolId, Error>(e) && final(self)@ == old(self)@,
            },
    {
        let pid = self.pool_next_id();
        let next = match pid.checked_add(1) {
            Some(v) => v,
            None => { return Err(Error::CalculationOverflow); },
        };
        let mut pool = PoolInfo::new(
            keeper,
            collect_map(&tokens_proportion),
            collect_map(&basic_rewards),
            None,
            min_deposit_to_start,
            after_block_to_start,
            withdraw_limit_time,
            claim_limit_time,
            withdraw_limit_count,
        );
        match gauge_init {
            Some(init) => {
                match self.create_gauge_pool(pid, &mut pool, init.0, init.1, init.2) {
                    Ok(()) => {},
                    Err(e) => { return Err(e); },
                }
            },
            None => {},
        }
        proof {
            lemma_create_pool_valid(self@, pool@);
        }
        self.put_pool(pid, pool);
        self.set_pool_next_id(next);
        Ok(pid)
    }

    /// Whether every position in a gauge pool of farming pool `pid` has
    /// claimed in the current block.
    pub fn gauge_claims_settled(&self, pid: PoolId) -> (r: bool)
        requires
            self.wf(),
        ensures
            r == gauge_claims_settled(self@, pid),
    {
        let now = self.block_number();
        let gids = self.gauge_pool_ids();
        let mut i: usize = 0;
        while i < gids.len()
            invariant
                0 <= i <= gids.len(),
                now == self@.block_number,
                ascending_u32(gids@, self@.gauge_pool_infos.dom()),
                forall|j: int, a: AccountId|
                    #![trigger self@.gauge_infos[(gids@[j], a)]]
                    0 <= j < i && self@.gauge_infos.contains_key((gids@[j], a))
                        && self@.gauge_pool_infos[gids@[j]].pid == pid ==> self@.gauge_infos[(
                        gids@[j],
                        a,
                    )].last_claim_block == now,
            decreases gids.len() - i,
        {
            let gid = gids[i];
            proof {
                assert(gids@.contains(gid));
            }
            let of_pool = match self.gauge_pool_infos(gid) {
                Some(gauge_pool) => gauge_pool.pid == pid,
                None => false,
            };
            if of_pool {
                let holders = self.gauge_holders(gid);
                let mut j: usize = 0;
                while j < holders.len()
                    invariant
                        0 <= j <= holders.len(),
                        now == self@.block_number,
                        self@.gauge_pool_infos.contains_key(gid),
                        self@.gauge_pool_infos[gid].pid == pid,
                        ascending_u64(holders@, positions_of(self@.gauge_infos, gid).dom()),
                        forall|x: int|
                            #![trigger holders@[x]]
                            0 <= x < j ==> self@.gauge_infos[(gid, holders@[x])].last_claim_block
                                == now,
                    decreases holders.len() - j,
                {
                    let who = holders[j];
                    proof {
                        assert(holders@.contains(who));
                        assert(positions_of(self@.gauge_infos, gid).dom().contains(who));
                        assert(self@.gauge_infos.contains_key((gid, who)));
                    }
                    let position = self.gauge_infos(gid, who);
                    if position.last_claim_block != now {
                        return false;
                    }
                    j += 1;
                }
                proof {
                    assert forall|a: AccountId|
                        self@.gauge_infos.contains_key(
                            (gid, a),
                        ) implies #[trigger] self@.gauge_infos[(gid, a)].last_claim_block
                        == now by {
                        assert(positions_of(self@.gauge_infos, gid).dom().contains(a));
                        assert(holders@.contains(a));
                        let x = choose|x: int| 0 <= x < holders@.len() && holders@[x] == a;
                        assert(self@.gauge_infos[(gid, holders@[x])].last_claim_block == now);
                    }
                }
            }
            i += 1;
        }
        proof {
            assert forall|k: (PoolId, AccountId)| #[trigger]
                self@.gauge_infos.contains_key(k) && self@.gauge_pool_infos.contains_key(k.0)
                    && self@.gauge_pool_infos[k.0].pid == pid implies
                        self@.gauge_infos[k].last_claim_block
                == self@.block_number by {
                assert(gids@.contains(k.0));
                let j = choose|j: int| 0 <= j < gids@.len() && gids@[j] == k.0;
                assert(self@.gauge_infos[(gids@[j], k.1)].last_claim_block == now);
            }
        }
        true
    }

    /// Gives the retired pool `pid` new parameters, each where one is given,
    /// and a new gauge pool where `gauge_init` asks for one. The pool stays
    /// retired. Basic rewards may only be given where every gauge claim of
    /// the pool is settled.
    pub fn reset_pool(
        &mut self,
        pid: PoolId,
        basic_rewards: Option<Vec<(CurrencyId, Balance)>>,
        min_deposit_to_start: Option<Balance>,
        after_block_to_start: Option<BlockNumber>,
        withdraw_limit_time: Option<BlockNumber>,
        claim_limit_time: Option<BlockNumber>,
        withdraw_limit_count: Option<u8>,
        gauge_init: Option<(CurrencyId, Permill, BlockNumber)>,
    ) -> (r: Result<(), Error>)
        requires
            old(self).wf(),
            basic_rewards is Some ==> gauge_claims_settled(old(self)@, pid),
        ensures
            final(self).wf(),
            match reset_pool_spec(
                old(self)@,
                pid,
                match basic_rewards {
                    Some(list) => Some(list@),
                    None => None,
                },
                min_deposit_to_start,
                after_block_to_start,
                withdraw_limit_time,
                claim_limit_time,
                withdraw_limit_count,
                gauge_init,
            ) {
                Ok(w) => r is Ok && final(self)@ == w,
                Err(e) => r == Err::<(), Error>(e) && final(self)@ == old(self)@,
            },
    {
        let mut pool = match self.pool_infos(pid) {
            Some(p) => p.duplicate(),
            None => { return Err(Error::PoolDoesNotExist); },
        };
        if pool.state != PoolState::Retired {
            return Err(Error::InvalidPoolState);
        }
        match basic_rewards {
            Some(list) => {
                pool.basic_rewards = collect_map(&list);
            },
            None => {},
        }
        match min_deposit_to_start {
            Some(x) => {
                pool.min_deposit_to_start = x;
            },
            None => {},
        }
        match after_block_to_start {
            Some(x) => {
                pool.after_block_to_start = x;
            },
            None => {},
        }
        match withdraw_limit_time {
            Some(x) => {
                pool.withdraw_limit_time = x;
            },
            None => {},
        }
        match claim_limit_time {
            Some(x) => {
                pool.claim_limit_time = x;
            },
            None => {},
        }
        match withdraw_limit_count {
            Some(x) => {
                pool.withdraw_limit_count = x;
            },
            None => {},
        }
        match gauge_init {
            Some(init) => {
                match self.create_gauge_pool(pid, &mut pool, init.0, init.1, init.2) {
                    Ok(()) => {},
                    Err(e) => { return Err(e); },
                }
            },
            None => {},
        }
        proof {
            lemma_write_pool_valid(self@, pid, pool@);
        }
        self.put_pool(pid, pool);
        Ok(())
    }

    /// Edits the retired pool `pid`: its basic rewards and its two limit
    /// times where given, and the coefficient of its gauge pool where one is
    /// given. Basic rewards may only be given where every gauge claim of the
    /// pool is settled.
    pub fn edit_pool(
        &mut self,
        pid: PoolId,
        basic_rewards: Option<Vec<(CurrencyId, Balance)>>,
        withdraw_limit_time: Option<BlockNumber>,
        claim_limit_time: Option<BlockNumber>,
        gauge_coefficient: Option<Permill>,
    ) -> (r: Result<(), Error>)
        requires
            old(self).wf(),
            basic_rewards is Some ==> gauge_claims_settled(old(self)@, pid),
        ensures
            final(self).wf(),
            match edit_pool_spec(
                old(self)@,
                pid,
                match basic_rewards {
                    Some(list) => Some(list@),
                    None => None,
                },
                withdraw_limit_time,
                claim_limit_time,
                gauge_coefficient,
            ) {
                Ok(w) => r is Ok && final(self)@ == w,
                Err(e) => r == Err::<(), Error>(e) && final(self)@ == old(self)@,
            },
    {
        let mut pool = match self.pool_infos(pid) {
            Some(p) => p.duplicate(),
            None => { return Err(Error::PoolDoesNotExist); },
        };
        if pool.state != PoolState::Retired {
            return Err(Error::InvalidPoolState);
        }
        match basic_rewards {
            Some(list) => {
                pool.basic_rewards = collect_map(&list);
            },
            None => {},
        }
        match withdraw_limit_time {
            Some(x) => {
                pool.withdraw_limit_time = x;
            },
            None => {},
        }
        match claim_limit_time {
            Some(x) => {
                pool.claim_limit_time = x;
            },
            None => {},
        }
        match gauge_coefficient {
            Some(coefficient) => {
                let gid = match pool.gauge {
                    Some(g) => g,
                    None => { return Err(Error::GaugePoolNotExist); },
                };
                let mut gauge_pool = match self.gauge_pool_infos(gid) {
                    Some(g) => g.duplicate(),
                    None => { return Err(Error::GaugePoolNotExist); },
                };
                gauge_pool.coefficient = coefficient;
                proof {
                    lemma_write_gauge_pool_valid(self@, gid, gauge_pool@);
                }
                self.put_gauge_pool(gid, gauge_pool);
            },
            None => {},
        }
        proof {
            lemma_write_pool_valid(self@, pid, pool@);
        }
        self.put_pool(pid, pool);
        Ok(())
    }
}

impl Pallet {
    /// The tick of block `n`. Every ongoing pool accrues its basic rewards,
    /// capped at the largest amount; every charged pool that is due goes on;
    /// every bonded gauge pool of an ongoing pool accrues its part of the
    /// basic rewards. No account is visited.
    pub fn on_initialize(&mut self, n: BlockNumber)
        requires
            old(self).wf(),
            n >= old(self)@.block_number,
        ensures
            final(self).wf(),
            final(self)@ == on_initialize_spec(old(self)@, n),
    {
        let ghost v0 = self@;
        let ghost want = on_initialize_spec(v0, n);
        self.set_block_number(n);
        let pids = self.pool_ids();
        let mut i: usize = 0;
        while i < pids.len()
            invariant
                0 <= i <= pids.len(),
                want == on_initialize_spec(v0, n),
                ascending_u32(pids@, v0.pool_infos.dom()),
                self@.block_number == n,
                self@.pool_next_id == v0.pool_next_id,
                self@.gauge_pool_next_id == v0.gauge_pool_next_id,
                self@.gauge_pool_infos == v0.gauge_pool_infos,
                self@.gauge_infos == v0.gauge_infos,
                self@.shares == v0.shares,
                self@.pool_infos.dom() == v0.pool_infos.dom(),
                forall|j: int|
                    #![trigger pids@[j]]
                    0 <= j < i ==> self@.pool_infos[pids@[j]] == want.pool_infos[pids@[j]],
                forall|j: int|
                    #![trigger pids@[j]]
                    i <= j < pids.len() ==> self@.pool_infos[pids@[j]] == v0.pool_infos[pids@[j]],
            decreases pids.len() - i,
        {
            let pid = pids[i];
            proof {
                assert(pids@.contains(pid));
                assert(v0.pool_infos.contains_key(pid));
                assert(self@.pool_infos.dom().contains(pid));
            }
            let updated = match self.pool_infos(pid) {
                Some(pool) => {
                    let mut next = pool.duplicate();
                    match pool.state {
                        PoolState::Ongoing => {
                            accrue_all(&mut next.rewards, &pool.basic_rewards, None);
                        },
                        PoolState::Charged => {
                            if n >= pool.after_block_to_start || pool.total_shares
                                >= pool.min_deposit_to_start {
                                next.block_startup = Some(n);
                                next.state = PoolState::Ongoing;
                            }
                        },
                        _ => {},
                    }
                    Some(next)
                },
                None => None,
            };
            match updated {
                Some(next) => {
                    self.put_pool(pid, next);
                },
                None => {},
            }
            proof {
                assert forall|j: int| 0 <= j < i implies pids@[j] != pid by {}
                assert forall|j: int| i < j < pids.len() implies pids@[j] != pid by {}
                assert(self@.pool_infos.dom() =~= v0.pool_infos.dom());
            }
            i += 1;
        }
        proof {
            assert forall|p: PoolId| #[trigger] v0.pool_infos.contains_key(p) implies
                self@.pool_infos[p]
                == want.pool_infos[p] by {
                assert(pids@.contains(p));
                let j = choose|j: int| 0 <= j < pids@.len() && pids@[j] == p;
                assert(self@.pool_infos[pids@[j]] == want.pool_infos[pids@[j]]);
            }
            assert(self@.pool_infos =~= want.pool_infos);
        }
        let gids = self.gauge_pool_ids();
        let mut k: usize = 0;
        while k < gids.len()
            invariant
                0 <= k <= gids.len(),
                want == on_initialize_spec(v0, n),
                ascending_u32(gids@, v0.gauge_pool_infos.dom()),
                self@.block_number == n,
                self@.pool_next_id == v0.pool_next_id,
                self@.gauge_pool_next_id == v0.gauge_pool_next_id,
                self@.pool_infos == want.pool_infos,
                self@.gauge_infos == v0.gauge_infos,
                self@.shares == v0.shares,
                self@.gauge_pool_infos.dom() == v0.gauge_pool_infos.dom(),
                forall|j: int|
                    #![trigger gids@[j]]
                    0 <= j < k ==> self@.gauge_pool_infos[gids@[j]]
                        == want.gauge_pool_infos[gids@[j]],
                forall|j: int|
                    #![trigger gids@[j]]
                    k <= j < gids.len() ==> self@.gauge_pool_infos[gids@[j]]
                        == v0.gauge_pool_infos[gids@[j]],
            decreases gids.len() - k,
        {
            let gid = gids[k];
            proof {
                assert(gids@.contains(gid));
                assert(v0.gauge_pool_infos.contains_key(gid));
                assert(self@.gauge_pool_infos.dom().contains(gid));
            }
            let updated = match self.gauge_pool_infos(gid) {
                Some(gauge_pool) => {
                    let mut next = gauge_pool.duplicate();
                    match gauge_pool.gauge_state {
                        GaugeState::Bonded => {
                            match self.pool_infos(gauge_pool.pid) {
                                Some(pool) => {
                                    match pool.state {
                                        PoolState::Ongoing => {
                                            accrue_all(
                                                &mut next.rewards,
                                                &pool.basic_rewards,
                                                Some(gauge_pool.coefficient),
                                            );
                                        },
                                        _ => {},
                                    }
                                },
                                None => {},
                            }
                        },
                        _ => {},
                    }
                    Some(next)
                },
                None => None,
            };
            match updated {
                Some(next) => {
                    self.put_gauge_pool(gid, next);
                },
                None => {},
            }
            proof {
                assert forall|j: int| 0 <= j < k implies gids@[j] != gid by {}
                assert forall|j: int| k < j < gids.len() implies gids@[j] != gid by {}
                assert(self@.gauge_pool_infos.dom() =~= v0.gauge_pool_infos.dom());
            }
            k += 1;
        }
        proof {
            assert forall|g: PoolId| #[trigger] v0.gauge_pool_infos.contains_key(g) implies
                self@.gauge_pool_infos[g]
                == want.gauge_pool_infos[g] by {
                assert(gids@.contains(g));
                let j = choose|j: int| 0 <= j < gids@.len() && gids@[j] == g;
                assert(self@.gauge_pool_infos[gids@[j]] == want.gauge_pool_infos[gids@[j]]);
            }
            assert(self@.gauge_pool_infos =~= want.gauge_pool_infos);
            lemma_on_initialize_valid(v0, n);
        }
    }

    /// Closes the ongoing pool `pid`: it accrues no more, and its depositors
    /// can still claim and withdraw.
    pub fn close_pool(&mut self, pid: PoolId) -> (r: Result<(), Error>)
        requires
            old(self).wf(),
        ensures
            final(self).wf(),
            match close_pool_spec(old(self)@, pid) {
                Ok(w) => r is Ok && final(self)@ == w,
                Err(e) => r == Err::<(), Error>(e) && final(self)@ == old(self)@,
            },
    {
        let mut pool = match self.pool_infos(pid) {
            Some(p) => p.duplicate(),
            None => { return Err(Error::PoolDoesNotExist); },
        };
        if pool.state != PoolState::Ongoing {
            return Err(Error::InvalidPoolState);
        }
        pool.state = PoolState::Dead;
        proof {
            lemma_write_pool_valid(self@, pid, pool@);
        }
        self.put_pool(pid, pool);
        Ok(())
    }

    /// Charges the uncharged pool `pid`. Returns the transfers of the listed
    /// rewards from `who` to the pool's keeper, in the order of the list.
    pub fn charge(
        &mut self,
        who: AccountId,
        pid: PoolId,
        rewards: Vec<(CurrencyId, Balance)>,
    ) -> (r: Result<Vec<Transfer>, Error>)
        requires
            old(self).wf(),
        ensures
            final(self).wf(),
            match charge_spec(old(self)@, who, pid, rewards@) {
                Ok(w) => r is Ok && r->Ok_0@ == w.1 && final(self)@ == w.0,
                Err(e) => r == Err::<Vec<Transfer>, Error>(e) && final(self)@ == old(self)@,
            },
    {
        let mut pool = match self.pool_infos(pid) {
            Some(p) => p.duplicate(),
            None => { return Err(Error::PoolDoesNotExist); },
        };
        if pool.state != PoolState::UnCharged {
            return Err(Error::InvalidPoolState);
        }
        let keeper = pool.keeper;
        let mut transfers: Vec<Transfer> = Vec::new();
        let mut i: usize = 0;
        while i < rewards.len()
            invariant
                0 <= i <= rewards.len(),
                transfers@.len() == i,
                forall|j: int|
                    0 <= j < i ==> transfers@[j] == (Transfer {
                        currency: rewards@[j].0,
                        from: who,
                        to: keeper,
                        amount: rewards@[j].1,
                    }),
            decreases rewards.len() - i,
        {
            transfers.push(
                Transfer { currency: rewards[i].0, from: who, to: keeper, amount: rewards[i].1 },
            );
            i += 1;
        }
        pool.state = PoolState::Charged;
        proof {
            lemma_write_pool_valid(self@, pid, pool@);
            assert(transfers@ =~= charge_transfers(rewards@, who, keeper));
        }
        self.put_pool(pid, pool);
        Ok(transfers)
    }

    /// Erases the retired pool `pid` and every share record of it.
    pub fn kill_pool(&mut self, pid: PoolId) -> (r: Result<(), Error>)
        requires
            old(self).wf(),
        ensures
            final(self).wf(),
            match kill_pool_spec(old(self)@, pid) {
                Ok(w) => r is Ok && final(self)@ == w,
                Err(e) => r == Err::<(), Error>(e) && final(self)@ == old(self)@,
            },
    {
        let state = match self.pool_infos(pid) {
            Some(p) => p.state,
            None => { return Err(Error::PoolDoesNotExist); },
        };
        if state != PoolState::Retired {
            return Err(Error::InvalidPoolState);
        }
        proof {
            lemma_kill_pool_valid(self@, pid);
        }
        self.drop_pool(pid);
        proof {
            assert(self@.shares =~= kill_pool_spec(old(self)@, pid)->Ok_0.shares);
        }
        Ok(())
    }
}

/// The store after the claims of `depositors` of pool `pid` are settled in
/// their order, and the transfers: for each depositor the payouts of the
/// claim, then the parts of the depositor's share that are more than nothing
/// from the keeper, by ascending deposit currency.
pub open spec fn retire_each(v: PalletView, pid: PoolId, depositors: Seq<AccountId>) -> (
    PalletView,
    Seq<Transfer>,
)
    decreases depositors.len(),
{
    if depositors.len() == 0 {
        (v, Seq::empty())
    } else {
        let done = retire_each(v, pid, depositors.drop_last());
        let who = depositors.last();
        let claimed = claim_rewards_spec(done.0, who, pid);
        let pool = v.pool_infos[pid];
        (
            claimed.0,
            done.1 + claimed.1 + split_transfers(
                pool.tokens_proportion,
                pool.keeper,
                who,
                share_record(v, pid, who).share,
                true,
            ),
        )
    }
}

/// The gauge pools after the gauge pool of `gauge`, where there is one, has
/// been unbonded.
pub open spec fn unbonded(
    gauge_pools: Map<PoolId, GaugePoolInfoView>,
    gauge: Option<PoolId>,
) -> Map<PoolId, GaugePoolInfoView> {
    match gauge {
        Some(gid) => if gauge_pools.contains_key(gid) {
            gauge_pools.insert(
                gid,
                GaugePoolInfoView { gauge_state: GaugeState::Unbond, ..gauge_pools[gid] },
            )
        } else {
            gauge_pools
        },
        None => gauge_pools,
    }
}

/// The store after the dead pool `pid` is retired, and the transfers that
/// settle every depositor, by ascending account. The pool's gauge pool is
/// unbonded and the pool no longer refers to it.
pub open spec fn force_retire_pool_spec(v: PalletView, pid: PoolId) -> Result<
    (PalletView, Seq<Transfer>),
    Error,
> {
    if !v.pool_infos.contains_key(pid) {
        Err(Error::PoolDoesNotExist)
    } else if v.pool_infos[pid].state != PoolState::Dead {
        Err(Error::InvalidPoolState)
    } else {
        let settled = retire_each(v, pid, sorted_u64(accounts_of(v.shares, pid).dom()));
        let v1 = settled.0;
        Ok(
            (
                PalletView {
                    pool_infos: v1.pool_infos.insert(
                        pid,
                        PoolInfoView {
                            state: PoolState::Retired,
                            gauge: None,
                            ..v1.pool_infos[pid]
                        },
                    ),
                    gauge_pool_infos: unbonded(v1.gauge_pool_infos, v.pool_infos[pid].gauge),
                    ..v1
                },
                settled.1,
            ),
        )
    }
}

/// A claim leaves everything of the store but the reward totals of the pool
/// and the reward debt of the claimant as it was.
pub proof fn lemma_claim_rewards_frame(v: PalletView, who: AccountId, pid: PoolId)
    ensures
        ({
            let w = claim_rewards_spec(v, who, pid).0;
            &&& w.block_number == v.block_number
            &&& w.pool_next_id == v.pool_next_id
            &&& w.gauge_pool_next_id == v.gauge_pool_next_id
            &&& w.gauge_pool_infos == v.gauge_pool_infos
            &&& w.gauge_infos == v.gauge_infos
            &&& w.pool_infos.dom() == v.pool_infos.dom()
            &&& w.shares.dom() == v.shares.dom()
            &&& forall|a: AccountId|
                #![trigger share_record(w, pid, a)]
                share_record(w, pid, a).share == share_record(v, pid, a).share
            &&& v.pool_infos.contains_key(pid) ==> {
                &&& w.pool_infos[pid].tokens_proportion == v.pool_infos[pid].tokens_proportion
                &&& w.pool_infos[pid].keeper == v.pool_infos[pid].keeper
                &&& w.pool_infos[pid].state == v.pool_infos[pid].state
                &&& w.pool_infos[pid].gauge == v.pool_infos[pid].gauge
            }
        }),
{
    let w = claim_rewards_spec(v, who, pid).0;
    assert(w.pool_infos.dom() =~= v.pool_infos.dom());
    assert(w.shares.dom() =~= v.shares.dom());
}

impl Pallet {
    /// Retires the dead pool `pid`: settles the claim of every depositor and
    /// pays every depositor's share out of the keeper's account, unbonds the
    /// pool's gauge pool, and leaves the pool retired. Returns the
    /// transfers, depositor by depositor in ascending order.
    pub fn force_retire_pool(&mut self, pid: PoolId) -> (r: Result<Vec<Transfer>, Error>)
        requires
            old(self).wf(),
        ensures
            final(self).wf(),
            match force_retire_pool_spec(old(self)@, pid) {
                Ok(w) => r is Ok && r->Ok_0@ == w.1 && final(self)@ == w.0,
                Err(e) => r == Err::<Vec<Transfer>, Error>(e) && final(self)@ == old(self)@,
            },
    {
        let state = match self.pool_infos(pid) {
            Some(p) => p.state,
            None => { return Err(Error::PoolDoesNotExist); },
        };
        if state != PoolState::Dead {
            return Err(Error::InvalidPoolState);
        }
        let ghost v0 = self@;
        let depositors = self.depositors(pid);
        let mut transfers: Vec<Transfer> = Vec::new();
        let mut i: usize = 0;
        while i < depositors.len()
            invariant
                0 <= i <= depositors.len(),
                self.wf(),
                v0.pool_infos.contains_key(pid),
                self@ == retire_each(v0, pid, depositors@.take(i as int)).0,
                transfers@ == retire_each(v0, pid, depositors@.take(i as int)).1,
                self@.gauge_pool_infos == v0.gauge_pool_infos,
                self@.pool_infos.dom() == v0.pool_infos.dom(),
                self@.pool_infos[pid].tokens_proportion == v0.pool_infos[pid].tokens_proportion,
                self@.pool_infos[pid].keeper == v0.pool_infos[pid].keeper,
                self@.pool_infos[pid].gauge == v0.pool_infos[pid].gauge,
                forall|a: AccountId|
                    #![trigger share_record(self@, pid, a)]
                    share_record(self@, pid, a).share == share_record(v0, pid, a).share,
            decreases depositors.len() - i,
        {
            let who = depositors[i];
            proof {
                assert(depositors@.take(i + 1).drop_last() =~= depositors@.take(i as int));
                assert(depositors@.take(i + 1).last() == who);
                lemma_claim_rewards_frame(self@, who, pid);
            }
            let share = self.shares_and_withdrawn_rewards(pid, who).share;
            let mut payouts = self.claim_rewards(who, pid);
            let mut refunds = match self.pool_infos(pid) {
                Some(pool) => split_value(&pool.tokens_proportion, pool.keeper, who, share, true),
                None => Vec::new(),
            };
            let ghost before = transfers@;
            let ghost paid = payouts@;
            let ghost back = refunds@;
            transfers.append(&mut payouts);
            transfers.append(&mut refunds);
            proof {
                assert(transfers@ =~= before + paid + back);
            }
            i += 1;
        }
        proof {
            assert(depositors@.take(depositors@.len() as int) =~= depositors@);
        }
        let (mut pool, gauge) = match self.pool_infos(pid) {
            Some(p) => (p.duplicate(), p.gauge),
            None => { return Ok(transfers); },
        };
        match gauge {
            Some(gid) => {
                let unbond = match self.gauge_pool_infos(gid) {
                    Some(g) => Some(g.duplicate()),
                    None => None,
                };
                match unbond {
                    Some(mut gauge_pool) => {
                        gauge_pool.gauge_state = GaugeState::Unbond;
                        proof {
                            lemma_write_gauge_pool_valid(self@, gid, gauge_pool@);
                        }
                        self.put_gauge_pool(gid, gauge_pool);
                    },
                    None => {},
                }
            },
            None => {},
        }
        pool.state = PoolState::Retired;
        pool.gauge = None;
        proof {
            lemma_write_pool_valid(self@, pid, pool@);
        }
        self.put_pool(pid, pool);
        Ok(transfers)
    }
}

} // verus!
