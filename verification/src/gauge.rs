//! The gauge booster: time-locked positions in a boost currency, the running
//! integral of locked amount over blocks that weighs them, and the claim
//! that turns elapsed blocks into boosted reward.
//!
//! Every function here works on records alone and returns new records; the
//! store that holds them is in `pallet`.

use crate::ordered::{ascending_u32, keys_u32, sorted_u32};
use crate::permill::{mul_round, rational_parts, Permill};
use crate::primitives::{AccountId, Balance, BlockNumber, CurrencyId, GaugeState, PoolId, Transfer};
use crate::rewards::{sat_sub, PoolInfo, PoolInfoView};
use std::collections::BTreeMap;
use vstd::prelude::*;

verus! {

/// One depositor's boost position in one gauge pool.
pub struct GaugeInfo {
    pub who: AccountId,
    /// The locked amount of the boost currency.
    pub gauge_amount: Balance,
    /// The integral of the locked amount over blocks, up to `gauge_last_block`.
    pub gauge_time_factor: Balance,
    pub gauge_start_block: BlockNumber,
    /// The block from which the locked amount may be taken back.
    pub gauge_stop_block: BlockNumber,
    /// The block of the last change of the locked amount.
    pub gauge_last_block: BlockNumber,
    pub last_claim_block: BlockNumber,
    /// By reward currency, the reward debt of this position.
    pub withdrawn_rewards: BTreeMap<CurrencyId, Balance>,
}

/// The mathematical content of a [`GaugeInfo`].
pub struct GaugeInfoView {
    pub who: AccountId,
    pub gauge_amount: Balance,
    pub gauge_time_factor: Balance,
    pub gauge_start_block: BlockNumber,
    pub gauge_stop_block: BlockNumber,
    pub gauge_last_block: BlockNumber,
    pub last_claim_block: BlockNumber,
    pub withdrawn_rewards: Map<CurrencyId, Balance>,
}

impl View for GaugeInfo {
    type V = GaugeInfoView;

    open spec fn view(&self) -> GaugeInfoView {
        GaugeInfoView {
            who: self.who,
            gauge_amount: self.gauge_amount,
            gauge_time_factor: self.gauge_time_factor,
            gauge_start_block: self.gauge_start_block,
            gauge_stop_block: self.gauge_stop_block,
            gauge_last_block: self.gauge_last_block,
            last_claim_block: self.last_claim_block,
            withdrawn_rewards: self.withdrawn_rewards@,
        }
    }
}

/// The boost side of one farming pool.
pub struct GaugePoolInfo {
    /// The farming pool that this gauge pool belongs to.
    pub pid: PoolId,
    /// The currency that is locked for boost.
    pub token: CurrencyId,
    /// By reward currency, the total accrued and the total withdrawn.
    pub rewards: BTreeMap<CurrencyId, (Balance, Balance)>,
    /// The part of each basic reward that a tick adds to `rewards`.
    pub coefficient: Permill,
    pub max_block: BlockNumber,
    /// The amount locked by all positions together.
    pub gauge_amount: Balance,
    /// The integral of `gauge_amount` over blocks, up to `gauge_last_block`.
    pub gauge_time_factor: Balance,
    pub gauge_state: GaugeState,
    pub gauge_start_block: BlockNumber,
    /// The block of the last change of `gauge_amount`.
    pub gauge_last_block: BlockNumber,
}

/// The mathematical content of a [`GaugePoolInfo`].
pub struct GaugePoolInfoView {
    pub pid: PoolId,
    pub token: CurrencyId,
    pub rewards: Map<CurrencyId, (Balance, Balance)>,
    pub coefficient: Permill,
    pub max_block: BlockNumber,
    pub gauge_amount: Balance,
    pub gauge_time_factor: Balance,
    pub gauge_state: GaugeState,
    pub gauge_start_block: BlockNumber,
    pub gauge_last_block: BlockNumber,
}

impl View for GaugePoolInfo {
    type V = GaugePoolInfoView;

    open spec fn view(&self) -> GaugePoolInfoView {
        GaugePoolInfoView {
            pid: self.pid,
            token: self.token,
            rewards: self.rewards@,
            coefficient: self.coefficient,
            max_block: self.max_block,
            gauge_amount: self.gauge_amount,
            gauge_time_factor: self.gauge_time_factor,
            gauge_state: self.gauge_state,
            gauge_start_block: self.gauge_start_block,
            gauge_last_block: self.gauge_last_block,
        }
    }
}

/// The position of an account that has locked nothing.
pub open spec fn empty_gauge(who: AccountId) -> GaugeInfoView {
    GaugeInfoView {
        who,
        gauge_amount: 0,
        gauge_time_factor: 0,
        gauge_start_block: 0,
        gauge_stop_block: 0,
        gauge_last_block: 0,
        last_claim_block: 0,
        withdrawn_rewards: Map::empty(),
    }
}

impl GaugeInfo {
    /// The position of an account that has locked nothing.
    pub fn new(who: AccountId) -> (r: GaugeInfo)
        ensures
            r@ == empty_gauge(who),
    {
        GaugeInfo {
            who,
            gauge_amount: 0,
            gauge_time_factor: 0,
            gauge_start_block: 0,
            gauge_stop_block: 0,
            gauge_last_block: 0,
            last_claim_block: 0,
            withdrawn_rewards: BTreeMap::new(),
        }
    }

    /// A copy of this record.
    pub fn duplicate(&self) -> (r: GaugeInfo)
        ensures
            r@ == self@,
    {
        GaugeInfo {
            who: self.who,
            gauge_amount: self.gauge_amount,
            gauge_time_factor: self.gauge_time_factor,
            gauge_start_block: self.gauge_start_block,
            gauge_stop_block: self.gauge_stop_block,
            gauge_last_block: self.gauge_last_block,
            last_claim_block: self.last_claim_block,
            withdrawn_rewards: self.withdrawn_rewards.clone(),
        }
    }
}

impl GaugePoolInfo {
    /// A bonded gauge pool with nothing locked, started at
    /// `current_block_number`.
    pub fn new(
        pid: PoolId,
        token: CurrencyId,
        coefficient: Permill,
        max_block: BlockNumber,
        current_block_number: BlockNumber,
    ) -> (r: GaugePoolInfo)
        ensures
            r@ == (GaugePoolInfoView {
                pid,
                token,
                rewards: Map::empty(),
                coefficient,
                max_block,
                gauge_amount: 0,
                gauge_time_factor: 0,
                gauge_state: GaugeState::Bonded,
                gauge_start_block: current_block_number,
                gauge_last_block: current_block_number,
            }),
    {
        GaugePoolInfo {
            pid,
            token,
            rewards: BTreeMap::new(),
            coefficient,
            max_block,
            gauge_amount: 0,
            gauge_time_factor: 0,
            gauge_state: GaugeState::Bonded,
            gauge_start_block: current_block_number,
            gauge_last_block: current_block_number,
        }
    }

    /// A copy of this record.
    pub fn duplicate(&self) -> (r: GaugePoolInfo)
        ensures
            r@ == self@,
    {
        GaugePoolInfo {
            pid: self.pid,
            token: self.token,
            rewards: self.rewards.clone(),
            coefficient: self.coefficient,
            max_block: self.max_block,
            gauge_amount: self.gauge_amount,
            gauge_time_factor: self.gauge_time_factor,
            gauge_state: self.gauge_state,
            gauge_start_block: self.gauge_start_block,
            gauge_last_block: self.gauge_last_block,
        }
    }
}

/// The time factor brought up to block `now`: the blocks since `last`, times
/// the amount held during them, are added.
pub open spec fn time_factor_at(
    factor: Balance,
    amount: Balance,
    last: BlockNumber,
    now: BlockNumber,
) -> nat {
    (factor + (now - last) * amount) as nat
}

/// Brings a time factor up to block `now`. `None` where it leaves its range.
pub fn advance_time_factor(
    factor: Balance,
    amount: Balance,
    last: BlockNumber,
    now: BlockNumber,
) -> (r: Option<Balance>)
    requires
        last <= now,
    ensures
        time_factor_at(factor, amount, last, now) <= u128::MAX ==> r == Some(
            time_factor_at(factor, amount, last, now) as u128,
        ),
        time_factor_at(factor, amount, last, now) > u128::MAX ==> r is None,
        r is Some ==> r->0 >= factor,
{
    let interval: u128 = (now - last) as u128;
    assert(0 <= interval * amount) by (nonlinear_arith)
        requires
            0 <= interval,
            0 <= amount,
    ;
    match interval.checked_mul(amount) {
        Some(grown) => factor.checked_add(grown),
        None => None,
    }
}

/// Locking `value` at block `now` leaves every amount of the gauge pool
/// within range.
pub open spec fn pool_lock_fits(gp: GaugePoolInfoView, now: BlockNumber, value: Balance) -> bool {
    &&& time_factor_at(gp.gauge_time_factor, gp.gauge_amount, gp.gauge_last_block, now)
        <= u128::MAX
    &&& gp.gauge_amount + value <= u128::MAX
}

/// The gauge pool after `value` is locked at block `now`: first the time
/// factor is brought up to `now` with the amount held until then, then the
/// amount grows.
pub open spec fn pool_lock(
    gp: GaugePoolInfoView,
    now: BlockNumber,
    value: Balance,
) -> GaugePoolInfoView {
    GaugePoolInfoView {
        gauge_time_factor: time_factor_at(
            gp.gauge_time_factor,
            gp.gauge_amount,
            gp.gauge_last_block,
            now,
        ) as u128,
        gauge_amount: (gp.gauge_amount + value) as u128,
        gauge_last_block: now,
        ..gp
    }
}

/// Locks `value` into the gauge pool at block `now`. `None` where an amount
/// would leave its range.
pub fn lock_into_pool(gp: &GaugePoolInfo, now: BlockNumber, value: Balance) -> (r: Option<
    GaugePoolInfo,
>)
    requires
        gp.gauge_last_block <= now,
    ensures
        pool_lock_fits(gp@, now, value) ==> (r matches Some(g) && g@ == pool_lock(
            gp@,
            now,
            value,
        )),
        !pool_lock_fits(gp@, now, value) ==> r is None,
{
    let factor = match advance_time_factor(
        gp.gauge_time_factor,
        gp.gauge_amount,
        gp.gauge_last_block,
        now,
    ) {
        Some(v) => v,
        None => { return None; },
    };
    let amount = match gp.gauge_amount.checked_add(value) {
        Some(v) => v,
        None => { return None; },
    };
    let mut next = gp.duplicate();
    next.gauge_time_factor = factor;
    next.gauge_amount = amount;
    next.gauge_last_block = now;
    Some(next)
}

/// Locking `value` for `lock` blocks at block `now` leaves every amount and
/// block of the position within range.
pub open spec fn account_lock_fits(
    gi: GaugeInfoView,
    now: BlockNumber,
    value: Balance,
    lock: BlockNumber,
) -> bool {
    &&& gi.gauge_start_block == 0 ==> now + lock <= u32::MAX
    &&& time_factor_at(gi.gauge_time_factor, gi.gauge_amount, gi.gauge_last_block, now)
        <= u128::MAX
    &&& gi.gauge_amount + value <= u128::MAX
}

/// The position after `value` is locked for `lock` blocks at block `now`. A
/// position that has not started yet starts and matures at `now + lock` and
/// counts its claims from `now`. Then the time factor is brought up to `now`
/// with the amount held until then, and the amount grows.
pub open spec fn account_lock(
    gi: GaugeInfoView,
    now: BlockNumber,
    value: Balance,
    lock: BlockNumber,
) -> GaugeInfoView {
    let fresh = gi.gauge_start_block == 0;
    GaugeInfoView {
        gauge_start_block: if fresh {
            (now + lock) as u32
        } else {
            gi.gauge_start_block
        },
        gauge_stop_block: if fresh {
            (now + lock) as u32
        } else {
            gi.gauge_stop_block
        },
        last_claim_block: if fresh {
            now
        } else {
            gi.last_claim_block
        },
        gauge_time_factor: time_factor_at(
            gi.gauge_time_factor,
            gi.gauge_amount,
            gi.gauge_last_block,
            now,
        ) as u128,
        gauge_amount: (gi.gauge_amount + value) as u128,
        gauge_last_block: now,
        ..gi
    }
}

/// Locks `value` for `lock` blocks into the position at block `now`. `None`
/// where an amount or a block would leave its range.
pub fn lock_into_account(
    gi: &GaugeInfo,
    now: BlockNumber,
    value: Balance,
    lock: BlockNumber,
) -> (r: Option<GaugeInfo>)
    requires
        gi.gauge_last_block <= now,
    ensures
        account_lock_fits(gi@, now, value, lock) ==> (r matches Some(g) && g@ == account_lock(
            gi@,
            now,
            value,
            lock,
        )),
        !account_lock_fits(gi@, now, value, lock) ==> r is None,
{
    let mut next = gi.duplicate();
    if gi.gauge_start_block == 0 {
        let matures = match now.checked_add(lock) {
            Some(v) => v,
            None => { return None; },
        };
        next.gauge_start_block = matures;
        next.gauge_stop_block = matures;
        next.last_claim_block = now;
    }
    let factor = match advance_time_factor(
        gi.gauge_time_factor,
        gi.gauge_amount,
        gi.gauge_last_block,
        now,
    ) {
        Some(v) => v,
        None => { return None; },
    };
    let amount = match gi.gauge_amount.checked_add(value) {
        Some(v) => v,
        None => { return None; },
    };
    next.gauge_time_factor = factor;
    next.gauge_amount = amount;
    next.gauge_last_block = now;
    Some(next)
}

/// The gauge pool can be brought up to block `now` within range.
pub open spec fn pool_unlock_fits(gp: GaugePoolInfoView, now: BlockNumber) -> bool {
    time_factor_at(gp.gauge_time_factor, gp.gauge_amount, gp.gauge_last_block, now) <= u128::MAX
}

/// The gauge pool after `value` is taken back at block `now`: first the time
/// factor is brought up to `now` with the amount held until then, then the
/// amount shrinks.
pub open spec fn pool_unlock(
    gp: GaugePoolInfoView,
    now: BlockNumber,
    value: Balance,
) -> GaugePoolInfoView {
    GaugePoolInfoView {
        gauge_time_factor: time_factor_at(
            gp.gauge_time_factor,
            gp.gauge_amount,
            gp.gauge_last_block,
            now,
        ) as u128,
        gauge_amount: sat_sub(gp.gauge_amount, value),
        gauge_last_block: now,
        ..gp
    }
}

/// Takes `value` back from the gauge pool at block `now`. `None` where the
/// time factor would leave its range.
pub fn unlock_from_pool(gp: &GaugePoolInfo, now: BlockNumber, value: Balance) -> (r: Option<
    GaugePoolInfo,
>)
    requires
        gp.gauge_last_block <= now,
    ensures
        pool_unlock_fits(gp@, now) ==> (r matches Some(g) && g@ == pool_unlock(gp@, now, value)),
        !pool_unlock_fits(gp@, now) ==> r is None,
{
    let factor = match advance_time_factor(
        gp.gauge_time_factor,
        gp.gauge_amount,
        gp.gauge_last_block,
        now,
    ) {
        Some(v) => v,
        None => { return None; },
    };
    let mut next = gp.duplicate();
    next.gauge_time_factor = factor;
    next.gauge_amount = gp.gauge_amount.saturating_sub(value);
    next.gauge_last_block = now;
    Some(next)
}

/// The weight of a position in its gauge pool, in parts per million: its
/// time factor over the pool's, rounded down and capped at one whole; zero
/// where the pool's time factor is zero.
pub open spec fn gauge_rate(gi: GaugeInfoView, gp: GaugePoolInfoView) -> nat {
    if gp.gauge_time_factor == 0 {
        0
    } else {
        rational_parts(gi.gauge_time_factor as nat, gp.gauge_time_factor as nat)
    }
}

/// The blocks since the position's last claim, weighed by its gauge rate and
/// rounded to the nearest block.
pub open spec fn claim_weight(gi: GaugeInfoView, gp: GaugePoolInfoView, now: BlockNumber) -> nat {
    mul_round(gauge_rate(gi, gp), (now - gi.last_claim_block) as nat)
}

/// The boosted reward that a claim at block `now` pays for a basic reward of
/// `basic` a block.
pub open spec fn gauge_reward(
    basic: Balance,
    gi: GaugeInfoView,
    gp: GaugePoolInfoView,
    now: BlockNumber,
) -> nat {
    (basic as nat) * claim_weight(gi, gp, now)
}

/// Every boosted reward of a claim at block `now` is within range.
pub open spec fn gauge_claim_fits(
    pool: PoolInfoView,
    gi: GaugeInfoView,
    gp: GaugePoolInfoView,
    now: BlockNumber,
) -> bool {
    forall|c: CurrencyId| #[trigger]
        pool.basic_rewards.contains_key(c) ==> gauge_reward(pool.basic_rewards[c], gi, gp, now)
            <= u128::MAX
}

/// The payouts of a gauge claim at block `now`: for every basic reward of
/// the farming pool, by ascending currency, its boosted reward from the
/// keeper to the owner of the position.
pub open spec fn gauge_claim_payouts(
    pool: PoolInfoView,
    gi: GaugeInfoView,
    gp: GaugePoolInfoView,
    now: BlockNumber,
) -> Seq<Transfer> {
    let keys = sorted_u32(pool.basic_rewards.dom());
    Seq::new(
        keys.len(),
        |i: int|
            Transfer {
                currency: keys[i],
                from: pool.keeper,
                to: gi.who,
                amount: gauge_reward(pool.basic_rewards[keys[i]], gi, gp, now) as u128,
            },
    )
}

/// The position after a claim at block `now`.
pub open spec fn gauge_claim_account(gi: GaugeInfoView, now: BlockNumber) -> GaugeInfoView {
    GaugeInfoView { last_claim_block: now, ..gi }
}

/// Settles the boosted reward of position `gi` of gauge pool `gp`, whose
/// farming pool is `pool`, at block `now`. Returns the position as it stands
/// afterwards and the payouts that the ledger is to make, or `None` where a
/// reward is out of range.
pub fn gauge_claim_for(
    gp: &GaugePoolInfo,
    pool: &PoolInfo,
    gi: &GaugeInfo,
    now: BlockNumber,
) -> (r: Option<(GaugeInfo, Vec<Transfer>)>)
    requires
        gi.last_claim_block <= now,
    ensures
        gauge_claim_fits(pool@, gi@, gp@, now) ==> (r matches Some(out) && out.0@
            == gauge_claim_account(gi@, now) && out.1@ == gauge_claim_payouts(
            pool@,
            gi@,
            gp@,
            now,
        )),
        !gauge_claim_fits(pool@, gi@, gp@, now) ==> r is None,
{
    let rate = if gp.gauge_time_factor == 0 {
        Permill::zero()
    } else {
        Permill::from_rational(gi.gauge_time_factor, gp.gauge_time_factor)
    };
    assert(rate.fraction() == gauge_rate(gi@, gp@));
    let elapsed: u128 = (now - gi.last_claim_block) as u128;
    let weight = rate.times(elapsed);
    assert(weight == claim_weight(gi@, gp@, now));
    let keys = keys_u32(&pool.basic_rewards);
    let mut transfers: Vec<Transfer> = Vec::new();
    let mut i: usize = 0;
    while i < keys.len()
        invariant
            0 <= i <= keys.len(),
            weight == claim_weight(gi@, gp@, now),
            ascending_u32(keys@, pool.basic_rewards@.dom()),
            transfers@.len() == i,
            forall|j: int|
                #![trigger keys@[j]]
                0 <= j < i ==> {
                    &&& gauge_reward(pool.basic_rewards@[keys@[j]], gi@, gp@, now) <= u128::MAX
                    &&& transfers@[j] == (Transfer {
                        currency: keys@[j],
                        from: pool.keeper,
                        to: gi.who,
                        amount: gauge_reward(pool.basic_rewards@[keys@[j]], gi@, gp@, now) as u128,
                    })
                },
        decreases keys.len() - i,
    {
        let c = keys[i];
        proof {
            assert(keys@.contains(c));
            assert(pool.basic_rewards@.contains_key(c));
        }
        let basic = match pool.basic_rewards.get(&c) {
            Some(b) => *b,
            None => 0,
        };
        assert(0 <= basic * weight) by (nonlinear_arith)
            requires
                0 <= basic,
                0 <= weight,
        ;
        assert(gauge_reward(pool.basic_rewards@[c], gi@, gp@, now) == basic * weight);
        let reward = match basic.checked_mul(weight) {
            Some(v) => v,
            None => {
                assert(pool@.basic_rewards.contains_key(c));
                assert(!gauge_claim_fits(pool@, gi@, gp@, now));
                return None;
            },
        };
        transfers.push(Transfer { currency: c, from: pool.keeper, to: gi.who, amount: reward });
        i += 1;
    }
    proof {
        assert forall|c: CurrencyId| #[trigger] pool.basic_rewards@.contains_key(c) implies
            gauge_reward(
            pool.basic_rewards@[c],
            gi@,
            gp@,
            now,
        ) <= u128::MAX by {
            assert(keys@.contains(c));
            let j = choose|j: int| 0 <= j < keys@.len() && keys@[j] == c;
            assert(gauge_reward(pool.basic_rewards@[keys@[j]], gi@, gp@, now) <= u128::MAX);
        }
        assert(transfers@ =~= gauge_claim_payouts(pool@, gi@, gp@, now));
    }
    let mut next = gi.duplicate();
    next.last_claim_block = now;
    Some((next, transfers))
}

} // verus!
