//! What holds of the engine as a whole, proved from the specifications of
//! its operations.

use crate::gauge::time_factor_at;
use crate::ordered::{lemma_sorted_lists_u64, lemma_sorted_within_u32, sorted_u32, sorted_u64};
use crate::pallet::depositor::{
    claim_spec, deposit_spec, force_gauge_claim_spec, gauge_claim_each, withdraw_spec,
};
use crate::pallet::gauges::{
    gauge_add_spec, gauge_claim_spec, gauge_remove_spec, lemma_gauge_add_valid,
    lemma_gauge_remove_valid,
};
use crate::pallet::lifecycle::{lemma_on_initialize_valid, on_initialize_spec, tick_pool};
use crate::pallet::shares::{
    accumulate_reward_spec, add_share_spec, claim_rewards_spec, lemma_add_share_valid,
    lemma_claim_rewards_valid, lemma_remove_share_valid, remove_share_spec, set_share_spec,
};
use crate::pallet::{
    debts_conserved, lemma_share_le_total, lemma_write_pool_valid, locked_conserved,
    nothing_over_withdrawn, positions_of, share_record, shares_conserved, valid, PalletView,
};
use crate::primitives::{AccountId, Balance, BlockNumber, CurrencyId, PoolId, PoolState, Transfer};
use crate::rewards::{
    accrue_spec, add_share_account, add_share_fits, add_share_pool, claim_transfers, empty_share,
    entitlement, held, inflation, no_over_withdrawal, payable, removed_share, split_over,
    PoolInfoView, ShareInfoView,
};
use crate::wide::mul_div_spec;
use vstd::prelude::*;

verus! {

/// Share conservation. After a deposit, a withdrawal or a setting of share
/// in a valid store, the shares of the depositors of every pool still add up
/// to the pool's total.
pub proof fn law_share_conservation(v: PalletView, who: AccountId, pid: PoolId, amount: Balance)
    requires
        valid(v),
    ensures
        add_share_spec(v, who, pid, amount) matches Ok(w) ==> shares_conserved(w),
        shares_conserved(remove_share_spec(v, who, pid, amount).0),
        set_share_spec(v, who, pid, amount) matches Ok(w) ==> shares_conserved(w.0),
{
    lemma_add_share_valid(v, who, pid, amount);
    lemma_remove_share_valid(v, who, pid, amount);
    let share = share_record(v, pid, who).share;
    if amount > share {
        lemma_add_share_valid(v, who, pid, (amount - share) as u128);
    } else {
        lemma_remove_share_valid(v, who, pid, (share - amount) as u128);
    }
}

/// Debt conservation. After a deposit, a claim or a withdrawal in a valid
/// store, the reward debts of the depositors of every pool still add up, in
/// every currency, to what the pool records as withdrawn: nothing is paid
/// twice and nothing is lost.
pub proof fn law_debt_conservation(v: PalletView, who: AccountId, pid: PoolId, amount: Balance)
    requires
        valid(v),
    ensures
        add_share_spec(v, who, pid, amount) matches Ok(w) ==> debts_conserved(w),
        debts_conserved(claim_rewards_spec(v, who, pid).0),
        debts_conserved(remove_share_spec(v, who, pid, amount).0),
{
    lemma_add_share_valid(v, who, pid, amount);
    lemma_claim_rewards_valid(v, who, pid);
    lemma_remove_share_valid(v, who, pid, amount);
}

/// Locked-amount conservation. After locking or taking back in a valid
/// store, the amounts locked in the positions of every gauge pool still add
/// up to the gauge pool's amount.
pub proof fn law_locked_conservation(
    v: PalletView,
    who: AccountId,
    pid: PoolId,
    gid: PoolId,
    value: Balance,
    lock: BlockNumber,
)
    requires
        valid(v),
    ensures
        gauge_add_spec(v, who, pid, gid, value, lock) matches Ok(w) ==> locked_conserved(w.0),
        gauge_remove_spec(v, who, pid, gid) matches Ok(w) ==> locked_conserved(w.0),
{
    lemma_gauge_add_valid(v, who, pid, gid, value, lock);
    lemma_gauge_remove_valid(v, who, pid, gid);
}

/// No over-withdrawal. After accrual, a deposit, a claim or a withdrawal in
/// a valid store, no pool has withdrawn more of a currency than has accrued.
pub proof fn law_no_over_withdrawal(
    v: PalletView,
    who: AccountId,
    pid: PoolId,
    amount: Balance,
    currency: CurrencyId,
)
    requires
        valid(v),
    ensures
        accumulate_reward_spec(v, pid, currency, amount) matches Ok(w)
            ==> nothing_over_withdrawn(w),
        add_share_spec(v, who, pid, amount) matches Ok(w) ==> nothing_over_withdrawn(w),
        nothing_over_withdrawn(claim_rewards_spec(v, who, pid).0),
        nothing_over_withdrawn(remove_share_spec(v, who, pid, amount).0),
{
    lemma_add_share_valid(v, who, pid, amount);
    lemma_claim_rewards_valid(v, who, pid);
    lemma_remove_share_valid(v, who, pid, amount);
    if let Ok(w) = accumulate_reward_spec(v, pid, currency, amount) {
        if amount != 0 {
            let pool = v.pool_infos[pid];
            let after = PoolInfoView {
                rewards: accrue_spec(pool.rewards, currency, amount),
                ..pool
            };
            assert(no_over_withdrawal(after.rewards)) by {
                assert forall|c: CurrencyId| #[trigger] after.rewards.contains_key(c) implies
                    after.rewards[c].1
                    <= after.rewards[c].0 by {
                    if pool.rewards.contains_key(c) {
                        assert(pool.rewards[c].1 <= pool.rewards[c].0);
                    }
                }
            }
            lemma_write_pool_valid(v, pid, after);
        }
    }
}

/// No over-withdrawal, across a tick. The tick of a block that is not before
/// the current one leaves a valid store valid: nothing is over-withdrawn and
/// shares are conserved.
pub proof fn law_tick_keeps_valid(v: PalletView, n: BlockNumber)
    requires
        valid(v),
        n >= v.block_number,
    ensures
        nothing_over_withdrawn(on_initialize_spec(v, n)),
        shares_conserved(on_initialize_spec(v, n)),
{
    lemma_on_initialize_valid(v, n);
}

/// The time factor of every gauge pool of `v` that `w` still has is in `w`
/// no less than in `v`.
pub open spec fn time_factors_grow(v: PalletView, w: PalletView) -> bool {
    forall|gid: PoolId|
        #![trigger w.gauge_pool_infos[gid]]
        v.gauge_pool_infos.contains_key(gid) && w.gauge_pool_infos.contains_key(gid)
            ==> w.gauge_pool_infos[gid].gauge_time_factor
            >= v.gauge_pool_infos[gid].gauge_time_factor
}

/// Gauge time-factor monotonicity. Locking, claiming, taking back, the tick,
/// and a depositor's deposit, withdrawal and claim never lower the time
/// factor of a gauge pool; locking and taking back raise it by the amount
/// held times the blocks since its last change.
pub proof fn law_gauge_time_factor_monotone(
    v: PalletView,
    who: AccountId,
    pid: PoolId,
    gid: PoolId,
    value: Balance,
    lock: BlockNumber,
    n: BlockNumber,
    deposited: Balance,
)
    requires
        valid(v),
        n >= v.block_number,
    ensures
        gauge_add_spec(v, who, pid, gid, value, lock) matches Ok(w) ==> time_factors_grow(v, w.0)
            && w.0.gauge_pool_infos[gid].gauge_time_factor == time_factor_at(
            v.gauge_pool_infos[gid].gauge_time_factor,
            v.gauge_pool_infos[gid].gauge_amount,
            v.gauge_pool_infos[gid].gauge_last_block,
            v.block_number,
        ),
        gauge_remove_spec(v, who, pid, gid) matches Ok(w) ==> time_factors_grow(v, w.0)
            && w.0.gauge_pool_infos[gid].gauge_time_factor == time_factor_at(
            v.gauge_pool_infos[gid].gauge_time_factor,
            v.gauge_pool_infos[gid].gauge_amount,
            v.gauge_pool_infos[gid].gauge_last_block,
            v.block_number,
        ),
        gauge_claim_spec(v, who, gid) matches Ok(w) ==> time_factors_grow(v, w.0),
        time_factors_grow(v, on_initialize_spec(v, n)),
        deposit_spec(v, who, pid, deposited, Some((value, lock))) matches Ok(w)
            ==> time_factors_grow(v, w.0),
        deposit_spec(v, who, pid, deposited, None) matches Ok(w) ==> time_factors_grow(v, w.0),
        withdraw_spec(v, who, pid, Some(deposited)) matches Ok(w) ==> time_factors_grow(v, w.0),
        withdraw_spec(v, who, pid, None) matches Ok(w) ==> time_factors_grow(v, w.0),
        claim_spec(v, who, pid) matches Ok(w) ==> time_factors_grow(v, w.0),
{
    if v.gauge_pool_infos.contains_key(gid) {
        let gp = v.gauge_pool_infos[gid];
        assert(gp.gauge_last_block <= v.block_number);
        assert(0 <= (v.block_number - gp.gauge_last_block) * gp.gauge_amount)
            by (nonlinear_arith)
            requires
                gp.gauge_last_block <= v.block_number,
                0 <= gp.gauge_amount,
        ;
    }
}

/// The share `delta` of a pool whose totals were inflated for it earns no
/// more than the inflation.
pub proof fn lemma_fair_baseline(delta: nat, reward: nat, shares: nat)
    requires
        shares > 0,
    ensures
        mul_div_spec(delta, reward + mul_div_spec(delta, reward, shares), shares + delta)
            <= mul_div_spec(delta, reward, shares),
{
    let n = delta * reward;
    let q = n / shares;
    assert(n < shares * q + shares) by (nonlinear_arith)
        requires
            q == n / shares,
            shares > 0,
    ;
    let m = delta * (reward + q);
    assert(m == n + delta * q) by (nonlinear_arith)
        requires
            m == delta * (reward + q),
            n == delta * reward,
    ;
    let d = shares + delta;
    assert(m < (q + 1) * d) by (nonlinear_arith)
        requires
            m == n + delta * q,
            n < shares * q + shares,
            d == shares + delta,
    ;
    assert(m / d <= q) by (nonlinear_arith)
        requires
            m < (q + 1) * d,
            d > 0,
    ;
}

/// Where no currency pays, a claim makes no transfer.
pub proof fn lemma_nothing_payable(
    keys: Seq<CurrencyId>,
    pool: PoolInfoView,
    account: ShareInfoView,
)
    requires
        forall|i: int| 0 <= i < keys.len() ==> payable(pool, account, #[trigger] keys[i]) == 0,
    ensures
        claim_transfers(keys, pool, account) == Seq::<Transfer>::empty(),
    decreases keys.len(),
{
    if keys.len() > 0 {
        assert forall|i: int| 0 <= i < keys.drop_last().len() implies payable(
            pool,
            account,
            #[trigger] keys.drop_last()[i],
        ) == 0 by {
            assert(keys.drop_last()[i] == keys[i]);
        }
        lemma_nothing_payable(keys.drop_last(), pool, account);
        assert(payable(pool, account, keys[keys.len() - 1]) == 0);
    }
}

/// New-depositor fairness. An account without share that deposits into a
/// pool that has shares, and claims at once, is paid nothing in any
/// currency: what accrued before the deposit is not the newcomer's.
pub proof fn law_new_depositor_fairness(v: PalletView, who: AccountId, pid: PoolId, delta: Balance)
    requires
        valid(v),
        v.pool_infos.contains_key(pid),
        v.pool_infos[pid].total_shares > 0,
        !v.shares.contains_key((pid, who)),
        delta > 0,
        add_share_spec(v, who, pid, delta) is Ok,
    ensures
        ({
            let w = add_share_spec(v, who, pid, delta)->Ok_0;
            &&& forall|c: CurrencyId| #[trigger]
                w.pool_infos[pid].rewards.contains_key(c) ==> payable(
                    w.pool_infos[pid],
                    w.shares[(pid, who)],
                    c,
                ) == 0
            &&& claim_rewards_spec(w, who, pid).1 == Seq::<Transfer>::empty()
        }),
{
    let w = add_share_spec(v, who, pid, delta)->Ok_0;
    let pool = v.pool_infos[pid];
    let after = w.pool_infos[pid];
    let account = w.shares[(pid, who)];
    assert(after == add_share_pool(pool, delta));
    assert(account == add_share_account(pool, empty_share(who), delta));
    assert forall|c: CurrencyId| #[trigger] after.rewards.contains_key(c) implies payable(
        after,
        account,
        c,
    ) == 0 by {
        assert(pool.rewards.contains_key(c));
        lemma_fair_baseline(delta as nat, pool.rewards[c].0 as nat, pool.total_shares as nat);
        assert(after.rewards[c].0 == pool.rewards[c].0 + inflation(pool, c, delta));
        assert(account.withdrawn_rewards[c] == inflation(pool, c, delta));
        assert(entitlement(after, account.share, c) <= inflation(pool, c, delta));
    }
    let keys = sorted_u32(after.rewards.dom());
    lemma_sorted_within_u32(after.rewards.dom());
    assert forall|i: int| 0 <= i < keys.len() implies payable(after, account, #[trigger] keys[i])
        == 0 by {
        assert(after.rewards.contains_key(keys[i]));
    }
    lemma_nothing_payable(keys, after, account);
}

/// Late-claim correctness. An account deposits into an ongoing pool that
/// has neither shares nor anything accrued in `c`; the next tick accrues the
/// basic reward of `c`; then the account's claim pays exactly that reward,
/// and the account's reward debt in `c` is that reward afterwards.
pub proof fn law_late_claim(
    v: PalletView,
    who: AccountId,
    pid: PoolId,
    delta: Balance,
    c: CurrencyId,
    n: BlockNumber,
)
    requires
        valid(v),
        n >= v.block_number,
        v.pool_infos.contains_key(pid),
        v.pool_infos[pid].state == PoolState::Ongoing,
        v.pool_infos[pid].total_shares == 0,
        v.pool_infos[pid].basic_rewards.contains_key(c),
        v.pool_infos[pid].rewards.contains_key(c) ==> v.pool_infos[pid].rewards[c].0 == 0,
        delta > 0,
    ensures
        add_share_spec(v, who, pid, delta) is Ok,
        ({
            let deposited = add_share_spec(v, who, pid, delta)->Ok_0;
            let ticked = on_initialize_spec(deposited, n);
            let pool = ticked.pool_infos[pid];
            let account = ticked.shares[(pid, who)];
            &&& payable(pool, account, c) == v.pool_infos[pid].basic_rewards[c]
            &&& claim_rewards_spec(ticked, who, pid).0.shares[(pid, who)].share == delta
            &&& payable(pool, account, c) > 0 ==> claim_rewards_spec(
                ticked,
                who,
                pid,
            ).0.shares[(pid, who)].withdrawn_rewards[c] == v.pool_infos[pid].basic_rewards[c]
        }),
{
    let before = v.pool_infos[pid];
    lemma_share_le_total(v, pid, who);
    let fresh = share_record(v, pid, who);
    assert(fresh.share == 0);
    assert forall|k: CurrencyId| #[trigger] before.rewards.contains_key(k) implies inflation(
        before,
        k,
        delta,
    ) == 0 by {}
    assert(no_over_withdrawal(before.rewards));
    assert forall|k: CurrencyId| #[trigger] before.rewards.contains_key(k) implies
        before.rewards[k].1
        + 0 <= u128::MAX && before.rewards[k].0 + 0 <= u128::MAX by {}
    assert(add_share_fits(before, fresh, delta));
    let deposited = add_share_spec(v, who, pid, delta)->Ok_0;
    let ticked = on_initialize_spec(deposited, n);
    let pool = ticked.pool_infos[pid];
    let account = ticked.shares[(pid, who)];
    let r = before.basic_rewards[c];
    assert(pool == tick_pool(deposited.pool_infos[pid], n));
    assert(deposited.pool_infos[pid] == add_share_pool(before, delta));
    assert(pool.total_shares == delta);
    assert(account.share == delta);
    assert(pool.rewards[c].0 == r);
    if before.rewards.contains_key(c) {
        assert(before.rewards[c].1 <= before.rewards[c].0);
    }
    assert(pool.rewards[c].1 == 0);
    assert(held(account.withdrawn_rewards, c) == 0);
    assert(entitlement(pool, account.share, c) == r) by {
        assert((delta as nat) * (r as nat) / (delta as nat) == r as nat) by (nonlinear_arith)
            requires
                delta > 0,
        ;
    }
}

/// A transfer back: the same currency and amount, from receiver to sender.
pub open spec fn reversed(t: Transfer) -> Transfer {
    Transfer { currency: t.currency, from: t.to, to: t.from, amount: t.amount }
}

/// Splitting a value from one account to another and the other way round
/// gives the same transfers, each reversed.
pub proof fn lemma_split_reversed(
    keys: Seq<CurrencyId>,
    tokens: Map<CurrencyId, crate::permill::Permill>,
    from: AccountId,
    to: AccountId,
    value: Balance,
    skip_zero: bool,
)
    ensures
        split_over(keys, tokens, to, from, value, skip_zero) == split_over(
            keys,
            tokens,
            from,
            to,
            value,
            skip_zero,
        ).map_values(|t: Transfer| reversed(t)),
    decreases keys.len(),
{
    let there = split_over(keys, tokens, from, to, value, skip_zero);
    let back = split_over(keys, tokens, to, from, value, skip_zero);
    if keys.len() == 0 {
        assert(back =~= there.map_values(|t: Transfer| reversed(t)));
    } else {
        lemma_split_reversed(keys.drop_last(), tokens, from, to, value, skip_zero);
        assert(back =~= there.map_values(|t: Transfer| reversed(t)));
    }
}

/// Deposit-then-withdraw. A deposit of `delta` into a pool and, at once, a
/// withdrawal of `delta` from it leave the pool's total of shares and the
/// depositor's share as they were, and the withdrawal pays back, after the
/// payouts of its claim, exactly the transfers of the deposit, each reversed.
/// For an account without share in a pool that has shares the claim pays
/// nothing, so that the withdrawal is those reversed transfers alone.
pub proof fn law_deposit_then_withdraw(v: PalletView, who: AccountId, pid: PoolId, delta: Balance)
    requires
        valid(v),
        deposit_spec(v, who, pid, delta, None) is Ok,
    ensures
        ({
            let deposited = deposit_spec(v, who, pid, delta, None)->Ok_0;
            let withdrawn = withdraw_spec(deposited.0, who, pid, Some(delta));
            &&& withdrawn is Ok
            &&& withdrawn->Ok_0.0.pool_infos[pid].total_shares == v.pool_infos[pid].total_shares
            &&& share_record(withdrawn->Ok_0.0, pid, who).share == share_record(v, pid, who).share
            &&& withdrawn->Ok_0.1 == remove_share_spec(deposited.0, who, pid, delta).1
                + deposited.1.map_values(|t: Transfer| reversed(t))
            &&& (delta > 0 && v.pool_infos[pid].total_shares > 0 && !v.shares.contains_key(
                (pid, who),
            )) ==> withdrawn->Ok_0.1 == deposited.1.map_values(|t: Transfer| reversed(t))
        }),
{
    let pool = v.pool_infos[pid];
    let deposited = deposit_spec(v, who, pid, delta, None)->Ok_0;
    let v1 = deposited.0;
    assert(v1 == add_share_spec(v, who, pid, delta)->Ok_0);
    lemma_add_share_valid(v, who, pid, delta);
    lemma_share_le_total(v, pid, who);
    lemma_share_le_total(v1, pid, who);
    let withdrawn = withdraw_spec(v1, who, pid, Some(delta));
    assert(v1.pool_infos[pid].state == pool.state);
    assert(v1.pool_infos[pid].tokens_proportion == pool.tokens_proportion);
    assert(v1.pool_infos[pid].keeper == pool.keeper);
    assert(share_record(v1, pid, who).share == share_record(v, pid, who).share + delta);
    assert(removed_share(share_record(v1, pid, who), delta) == delta);
    lemma_split_reversed(
        sorted_u32(pool.tokens_proportion.dom()),
        pool.tokens_proportion,
        who,
        pool.keeper,
        delta,
        false,
    );
    if delta > 0 {
        let claimed = claim_rewards_spec(v1, who, pid);
        assert(v1.shares.contains_key((pid, who)));
        assert(claimed.0.shares[(pid, who)].share == share_record(v1, pid, who).share);
        assert(claimed.0.pool_infos[pid].total_shares == v1.pool_infos[pid].total_shares);
        if v.pool_infos[pid].total_shares > 0 && !v.shares.contains_key((pid, who)) {
            law_new_depositor_fairness(v, who, pid, delta);
            assert(withdrawn->Ok_0.1 =~= deposited.1.map_values(|t: Transfer| reversed(t)));
        }
    }
}

/// Gauge claims that are settled one after the other leave every claimant's
/// position claimed in the current block, and everything else of the store
/// as it was.
pub proof fn lemma_gauge_claim_each_settles(v: PalletView, gid: PoolId, holders: Seq<AccountId>)
    requires
        gauge_claim_each(v, gid, holders) is Ok,
    ensures
        ({
            let w = gauge_claim_each(v, gid, holders)->Ok_0.0;
            &&& w.block_number == v.block_number
            &&& w.gauge_pool_infos == v.gauge_pool_infos
            &&& w.pool_infos == v.pool_infos
            &&& w.shares == v.shares
            &&& forall|i: int|
                0 <= i < holders.len() ==> w.gauge_infos.contains_key((gid, #[trigger] holders[i]))
                    && w.gauge_infos[(gid, holders[i])].last_claim_block == v.block_number
            &&& forall|k: (PoolId, AccountId)| #[trigger]
                w.gauge_infos.contains_key(k) && !(k.0 == gid && holders.contains(k.1))
                    ==> v.gauge_infos.contains_key(k) && w.gauge_infos[k] == v.gauge_infos[k]
        }),
    decreases holders.len(),
{
    if holders.len() > 0 {
        let front = holders.drop_last();
        let who = holders.last();
        lemma_gauge_claim_each_settles(v, gid, front);
        let done = gauge_claim_each(v, gid, front)->Ok_0.0;
        let w = gauge_claim_each(v, gid, holders)->Ok_0.0;
        assert(w == gauge_claim_spec(done, who, gid)->Ok_0.0);
        assert forall|i: int| 0 <= i < holders.len() implies w.gauge_infos.contains_key(
            (gid, #[trigger] holders[i]),
        ) && w.gauge_infos[(gid, holders[i])].last_claim_block == v.block_number by {
            if i < front.len() {
                assert(front[i] == holders[i]);
            }
        }
        assert forall|k: (PoolId, AccountId)| #[trigger]
            w.gauge_infos.contains_key(k) && !(k.0 == gid && holders.contains(
                k.1,
            )) implies v.gauge_infos.contains_key(k) && w.gauge_infos[k] == v.gauge_infos[k] by {
            if k.0 == gid {
                assert(holders[holders.len() - 1] == who);
                assert(k.1 != who);
                if front.contains(k.1) {
                    let i = choose|i: int| 0 <= i < front.len() && front[i] == k.1;
                    assert(holders[i] == k.1);
                }
            }
            assert(done.gauge_infos.contains_key(k));
        }
    }
}

/// After every position of a gauge pool has been paid its boosted reward,
/// each of them has claimed in the current block: the basic rewards of the
/// farming pool can change without a claim paying the new rewards for blocks
/// that went by under the old.
pub proof fn law_force_gauge_claim_settles(v: PalletView, gid: PoolId)
    requires
        valid(v),
        force_gauge_claim_spec(v, gid) is Ok,
    ensures
        ({
            let w = force_gauge_claim_spec(v, gid)->Ok_0.0;
            forall|a: AccountId| #[trigger]
                w.gauge_infos.contains_key((gid, a)) ==> w.gauge_infos[(gid, a)].last_claim_block
                    == w.block_number
        }),
{
    let positions = positions_of(v.gauge_infos, gid);
    let holders = sorted_u64(positions.dom());
    assert(positions.dom().finite());
    lemma_sorted_lists_u64(positions.dom());
    lemma_gauge_claim_each_settles(v, gid, holders);
    let w = force_gauge_claim_spec(v, gid)->Ok_0.0;
    assert forall|a: AccountId| #[trigger] w.gauge_infos.contains_key((gid, a)) implies
        w.gauge_infos[(
        gid,
        a,
    )].last_claim_block == w.block_number by {
        if holders.contains(a) {
            let i = choose|i: int| 0 <= i < holders.len() && holders[i] == a;
            assert(w.gauge_infos[(gid, holders[i])].last_claim_block == v.block_number);
        } else {
            assert(v.gauge_infos.contains_key((gid, a)));
            assert(positions.dom().contains(a));
        }
    }
}

} // verus!
