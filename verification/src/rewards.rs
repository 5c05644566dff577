//! The reward accumulator: the records of a pool and of a depositor, and the
//! proportional accounting that add-share, remove-share and claim perform on
//! them.
//!
//! Every function here works on records alone and returns new records; the
//! store that holds them is in `pallet`.

use crate::ordered::{ascending_u32, keys_u32, sorted_u32};
use crate::permill::{mul_round, Permill};
use crate::primitives::{AccountId, Balance, BlockNumber, CurrencyId, PoolId, PoolState, Transfer};
use crate::wide::{mul_div, mul_div_spec};
use std::collections::BTreeMap;
use vstd::prelude::*;

verus! {

/// One farming pool.
pub struct PoolInfo {
    /// How one deposited value is split over the deposit currencies.
    pub tokens_proportion: BTreeMap<CurrencyId, Permill>,
    /// The reward that each tick adds, by reward currency.
    pub basic_rewards: BTreeMap<CurrencyId, Balance>,
    /// By reward currency, the total accrued and the total withdrawn.
    pub rewards: BTreeMap<CurrencyId, (Balance, Balance)>,
    /// The sum of all depositors' shares.
    pub total_shares: Balance,
    pub state: PoolState,
    /// The account that holds this pool's deposits and reward funds.
    pub keeper: AccountId,
    /// The gauge pool of this pool, if it has one.
    pub gauge: Option<PoolId>,
    /// The block at which the pool went from charged to ongoing.
    pub block_startup: Option<BlockNumber>,
    pub min_deposit_to_start: Balance,
    pub after_block_to_start: BlockNumber,
    pub withdraw_limit_time: BlockNumber,
    pub claim_limit_time: BlockNumber,
    pub withdraw_limit_count: u8,
}

/// The mathematical content of a [`PoolInfo`].
pub struct PoolInfoView {
    pub tokens_proportion: Map<CurrencyId, Permill>,
    pub basic_rewards: Map<CurrencyId, Balance>,
    pub rewards: Map<CurrencyId, (Balance, Balance)>,
    pub total_shares: Balance,
    pub state: PoolState,
    pub keeper: AccountId,
    pub gauge: Option<PoolId>,
    pub block_startup: Option<BlockNumber>,
    pub min_deposit_to_start: Balance,
    pub after_block_to_start: BlockNumber,
    pub withdraw_limit_time: BlockNumber,
    pub claim_limit_time: BlockNumber,
    pub withdraw_limit_count: u8,
}

impl View for PoolInfo {
    type V = PoolInfoView;

    open spec fn view(&self) -> PoolInfoView {
        PoolInfoView {
            tokens_proportion: self.tokens_proportion@,
            basic_rewards: self.basic_rewards@,
            rewards: self.rewards@,
            total_shares: self.total_shares,
            state: self.state,
            keeper: self.keeper,
            gauge: self.gauge,
            block_startup: self.block_startup,
            min_deposit_to_start: self.min_deposit_to_start,
            after_block_to_start: self.after_block_to_start,
            withdraw_limit_time: self.withdraw_limit_time,
            claim_limit_time: self.claim_limit_time,
            withdraw_limit_count: self.withdraw_limit_count,
        }
    }
}

/// One depositor's position in one pool.
pub struct ShareInfo {
    pub who: AccountId,
    /// The pool share held.
    pub share: Balance,
    /// By reward currency, what has already been credited against the share.
    pub withdrawn_rewards: BTreeMap<CurrencyId, Balance>,
}

/// The mathematical content of a [`ShareInfo`].
pub struct ShareInfoView {
    pub who: AccountId,
    pub share: Balance,
    pub withdrawn_rewards: Map<CurrencyId, Balance>,
}

impl View for ShareInfo {
    type V = ShareInfoView;

    open spec fn view(&self) -> ShareInfoView {
        ShareInfoView {
            who: self.who,
            share: self.share,
            withdrawn_rewards: self.withdrawn_rewards@,
        }
    }
}

/// The position of an account that holds nothing.
pub open spec fn empty_share(who: AccountId) -> ShareInfoView {
    ShareInfoView { who, share: 0, withdrawn_rewards: Map::empty() }
}

/// The amount that `m` records for `c`, zero where it records none.
pub open spec fn held(m: Map<CurrencyId, Balance>, c: CurrencyId) -> Balance {
    if m.contains_key(c) {
        m[c]
    } else {
        0
    }
}

/// `a + b`, capped at the largest amount.
pub open spec fn sat_add(a: Balance, b: Balance) -> Balance {
    if a + b > u128::MAX {
        u128::MAX
    } else {
        (a + b) as u128
    }
}

/// `a - b`, and zero where `b` is the larger.
pub open spec fn sat_sub(a: Balance, b: Balance) -> Balance {
    if a >= b {
        (a - b) as u128
    } else {
        0
    }
}

/// In every currency no more is withdrawn than has accrued.
pub open spec fn no_over_withdrawal(rewards: Map<CurrencyId, (Balance, Balance)>) -> bool {
    forall|c: CurrencyId| #[trigger] rewards.contains_key(c) ==> rewards[c].1 <= rewards[c].0
}

impl PoolInfo {
    /// A pool without shares and without accrued rewards, not yet charged.
    pub fn new(
        keeper: AccountId,
        tokens_proportion: BTreeMap<CurrencyId, Permill>,
        basic_rewards: BTreeMap<CurrencyId, Balance>,
        gauge: Option<PoolId>,
        min_deposit_to_start: Balance,
        after_block_to_start: BlockNumber,
        withdraw_limit_time: BlockNumber,
        claim_limit_time: BlockNumber,
        withdraw_limit_count: u8,
    ) -> (r: PoolInfo)
        ensures
            r@ == (PoolInfoView {
                tokens_proportion: tokens_proportion@,
                basic_rewards: basic_rewards@,
                rewards: Map::empty(),
                total_shares: 0,
                state: PoolState::UnCharged,
                keeper,
                gauge,
                block_startup: None,
                min_deposit_to_start,
                after_block_to_start,
                withdraw_limit_time,
                claim_limit_time,
                withdraw_limit_count,
            }),
    {
        PoolInfo {
            tokens_proportion,
            basic_rewards,
            rewards: BTreeMap::new(),
            total_shares: 0,
            state: PoolState::UnCharged,
            keeper,
            gauge,
            block_startup: None,
            min_deposit_to_start,
            after_block_to_start,
            withdraw_limit_time,
            claim_limit_time,
            withdraw_limit_count,
        }
    }

    /// A copy of this record.
    pub fn duplicate(&self) -> (r: PoolInfo)
        ensures
            r@ == self@,
    {
        PoolInfo {
            tokens_proportion: self.tokens_proportion.clone(),
            basic_rewards: self.basic_rewards.clone(),
            rewards: self.rewards.clone(),
            total_shares: self.total_shares,
            state: self.state,
            keeper: self.keeper,
            gauge: self.gauge,
            block_startup: self.block_startup,
            min_deposit_to_start: self.min_deposit_to_start,
            after_block_to_start: self.after_block_to_start,
            withdraw_limit_time: self.withdraw_limit_time,
            claim_limit_time: self.claim_limit_time,
            withdraw_limit_count: self.withdraw_limit_count,
        }
    }
}

impl ShareInfo {
    /// The position of an account that holds nothing.
    pub fn new(who: AccountId) -> (r: ShareInfo)
        ensures
            r@ == empty_share(who),
    {
        ShareInfo { who, share: 0, withdrawn_rewards: BTreeMap::new() }
    }

    /// A copy of this record.
    pub fn duplicate(&self) -> (r: ShareInfo)
        ensures
            r@ == self@,
    {
        ShareInfo {
            who: self.who,
            share: self.share,
            withdrawn_rewards: self.withdrawn_rewards.clone(),
        }
    }
}

/// The reward totals after `increment` of `currency` has accrued: the accrued
/// total grows, capped at the largest amount, and a currency seen for the
/// first time starts with nothing withdrawn.
pub open spec fn accrue_spec(
    rewards: Map<CurrencyId, (Balance, Balance)>,
    currency: CurrencyId,
    increment: Balance,
) -> Map<CurrencyId, (Balance, Balance)> {
    if rewards.contains_key(currency) {
        rewards.insert(currency, (sat_add(rewards[currency].0, increment), rewards[currency].1))
    } else {
        rewards.insert(currency, (increment, 0))
    }
}

/// Adds `increment` to the accrued total of `currency`, saturating.
pub fn accrue(
    rewards: &mut BTreeMap<CurrencyId, (Balance, Balance)>,
    currency: CurrencyId,
    increment: Balance,
)
    ensures
        final(rewards)@ == accrue_spec(old(rewards)@, currency, increment),
        no_over_withdrawal(old(rewards)@) ==> no_over_withdrawal(final(rewards)@),
{
    let entry = match rewards.get(&currency) {
        Some(totals) => (totals.0.saturating_add(increment), totals.1),
        None => (increment, 0),
    };
    rewards.insert(currency, entry);
}

/// What a deposit of `delta` share adds to the totals of `c`: the accrued
/// reward that `delta` share would already have earned beside the shares that
/// the pool holds, and nothing where it holds none.
pub open spec fn inflation(pool: PoolInfoView, c: CurrencyId, delta: Balance) -> nat {
    mul_div_spec(delta as nat, pool.rewards[c].0 as nat, pool.total_shares as nat)
}

/// A deposit of `delta` share leaves every amount within range.
pub open spec fn add_share_fits(
    pool: PoolInfoView,
    account: ShareInfoView,
    delta: Balance,
) -> bool {
    &&& pool.total_shares + delta <= u128::MAX
    &&& account.share + delta <= u128::MAX
    &&& forall|c: CurrencyId| #[trigger]
        pool.rewards.contains_key(c) ==> {
            &&& pool.rewards[c].0 + inflation(pool, c, delta) <= u128::MAX
            &&& pool.rewards[c].1 + inflation(pool, c, delta) <= u128::MAX
            &&& held(account.withdrawn_rewards, c) + inflation(pool, c, delta) <= u128::MAX
        }
}

/// The pool after a deposit of `delta` share: in every reward currency both
/// totals grow by the inflation, then the shares grow by `delta`.
pub open spec fn add_share_pool(pool: PoolInfoView, delta: Balance) -> PoolInfoView {
    PoolInfoView {
        total_shares: (pool.total_shares + delta) as u128,
        rewards: Map::new(
            |c: CurrencyId| pool.rewards.contains_key(c),
            |c: CurrencyId|
                (
                    (pool.rewards[c].0 + inflation(pool, c, delta)) as u128,
                    (pool.rewards[c].1 + inflation(pool, c, delta)) as u128,
                ),
        ),
        ..pool
    }
}

/// The depositor after a deposit of `delta` share: the reward debt grows by
/// the inflation in every reward currency of the pool, the share by `delta`.
pub open spec fn add_share_account(
    pool: PoolInfoView,
    account: ShareInfoView,
    delta: Balance,
) -> ShareInfoView {
    ShareInfoView {
        share: (account.share + delta) as u128,
        withdrawn_rewards: Map::new(
            |c: CurrencyId|
                account.withdrawn_rewards.contains_key(c) || pool.rewards.contains_key(c),
            |c: CurrencyId|
                if pool.rewards.contains_key(c) {
                    (held(account.withdrawn_rewards, c) + inflation(pool, c, delta)) as u128
                } else {
                    account.withdrawn_rewards[c]
                },
        ),
        ..account
    }
}

/// Deposits `add_amount` share for `account` into `pool`. Returns the two
/// records as they stand afterwards, or `None` where an amount would leave
/// its range.
pub fn add_share_to(pool: &PoolInfo, account: &ShareInfo, add_amount: Balance) -> (r: Option<
    (PoolInfo, ShareInfo),
>)
    ensures
        add_share_fits(pool@, account@, add_amount) ==> (r matches Some(pa) && pa.0@
            == add_share_pool(pool@, add_amount) && pa.1@ == add_share_account(
            pool@,
            account@,
            add_amount,
        )),
        !add_share_fits(pool@, account@, add_amount) ==> r is None,
{
    let total_shares = match pool.total_shares.checked_add(add_amount) {
        Some(v) => v,
        None => { return None; },
    };
    let share = match account.share.checked_add(add_amount) {
        Some(v) => v,
        None => { return None; },
    };
    let keys = keys_u32(&pool.rewards);
    let mut rewards = pool.rewards.clone();
    let mut withdrawn = account.withdrawn_rewards.clone();
    let mut i: usize = 0;
    while i < keys.len()
        invariant
            0 <= i <= keys.len(),
            ascending_u32(keys@, pool.rewards@.dom()),
            rewards@.dom() == pool.rewards@.dom(),
            forall|j: int|
                #![trigger keys@[j]]
                0 <= j < i ==> {
                    &&& pool.rewards@[keys@[j]].0 + inflation(pool@, keys@[j], add_amount)
                        <= u128::MAX
                    &&& pool.rewards@[keys@[j]].1 + inflation(pool@, keys@[j], add_amount)
                        <= u128::MAX
                    &&& held(account.withdrawn_rewards@, keys@[j]) + inflation(
                        pool@,
                        keys@[j],
                        add_amount,
                    ) <= u128::MAX
                    &&& rewards@[keys@[j]] == add_share_pool(
                        pool@,
                        add_amount,
                    ).rewards[keys@[j]]
                    &&& withdrawn@.contains_key(keys@[j])
                    &&& withdrawn@[keys@[j]] == add_share_account(
                        pool@,
                        account@,
                        add_amount,
                    ).withdrawn_rewards[keys@[j]]
                },
            forall|j: int|
                #![trigger keys@[j]]
                i <= j < keys.len() ==> {
                    &&& rewards@[keys@[j]] == pool.rewards@[keys@[j]]
                    &&& withdrawn@.contains_key(keys@[j])
                        == account.withdrawn_rewards@.contains_key(keys@[j])
                    &&& held(withdrawn@, keys@[j]) == held(account.withdrawn_rewards@, keys@[j])
                },
            forall|c: CurrencyId|
                !pool.rewards@.contains_key(c) ==> {
                    &&& #[trigger] withdrawn@.contains_key(c)
                        == account.withdrawn_rewards@.contains_key(c)
                    &&& withdrawn@.contains_key(c) ==> withdrawn@[c]
                        == account.withdrawn_rewards@[c]
                },
        decreases keys.len() - i,
    {
        let c = keys[i];
        proof {
            assert(keys@.contains(c));
            assert(pool.rewards@.contains_key(c));
            assert(rewards@[keys@[i as int]] == pool.rewards@[keys@[i as int]]);
        }
        let totals = match rewards.get(&c) {
            Some(t) => *t,
            None => (0, 0),
        };
        let debt = match withdrawn.get(&c) {
            Some(w) => *w,
            None => 0,
        };
        let grown = match mul_div(add_amount, totals.0, pool.total_shares) {
            Some(v) => v,
            None => { return None; },
        };
        let accrued = match totals.0.checked_add(grown) {
            Some(v) => v,
            None => { return None; },
        };
        let paid = match totals.1.checked_add(grown) {
            Some(v) => v,
            None => { return None; },
        };
        let owed = match debt.checked_add(grown) {
            Some(v) => v,
            None => { return None; },
        };
        rewards.insert(c, (accrued, paid));
        withdrawn.insert(c, owed);
        proof {
            assert forall|j: int| 0 <= j < i implies keys@[j] != c by {}
            assert forall|j: int| i < j < keys.len() implies keys@[j] != c by {}
        }
        i += 1;
    }
    proof {
        let want_pool = add_share_pool(pool@, add_amount);
        let want_account = add_share_account(pool@, account@, add_amount);
        assert forall|c: CurrencyId| #[trigger] pool.rewards@.contains_key(c) implies rewards@[c]
            == want_pool.rewards[c] && withdrawn@.contains_key(c) && withdrawn@[c]
            == want_account.withdrawn_rewards[c] && pool.rewards@[c].0 + inflation(
            pool@,
            c,
            add_amount,
        ) <= u128::MAX && pool.rewards@[c].1 + inflation(pool@, c, add_amount) <= u128::MAX
            && held(account.withdrawn_rewards@, c) + inflation(pool@, c, add_amount)
            <= u128::MAX by {
            assert(keys@.contains(c));
            let j = choose|j: int| 0 <= j < keys@.len() && keys@[j] == c;
            assert(rewards@[keys@[j]] == want_pool.rewards[keys@[j]]);
        }
        assert(rewards@ =~= want_pool.rewards);
        assert(withdrawn@ =~= want_account.withdrawn_rewards);
    }
    let new_pool = PoolInfo {
        tokens_proportion: pool.tokens_proportion.clone(),
        basic_rewards: pool.basic_rewards.clone(),
        rewards,
        total_shares,
        state: pool.state,
        keeper: pool.keeper,
        gauge: pool.gauge,
        block_startup: pool.block_startup,
        min_deposit_to_start: pool.min_deposit_to_start,
        after_block_to_start: pool.after_block_to_start,
        withdraw_limit_time: pool.withdraw_limit_time,
        claim_limit_time: pool.claim_limit_time,
        withdraw_limit_count: pool.withdraw_limit_count,
    };
    let new_account = ShareInfo { who: account.who, share, withdrawn_rewards: withdrawn };
    Some((new_pool, new_account))
}

/// The part of the accrued total of `c` that falls to `share` of the pool's
/// shares, rounded down.
pub open spec fn entitlement(pool: PoolInfoView, share: Balance, c: CurrencyId) -> nat {
    mul_div_spec(share as nat, pool.rewards[c].0 as nat, pool.total_shares as nat)
}

/// What a claim pays the depositor in `c`: the entitlement beyond what is
/// already credited, and never more than the pool has left to withdraw.
pub open spec fn payable(pool: PoolInfoView, account: ShareInfoView, c: CurrencyId) -> Balance {
    let due = sat_sub(
        entitlement(pool, account.share, c) as u128,
        held(account.withdrawn_rewards, c),
    );
    let left = sat_sub(pool.rewards[c].0, pool.rewards[c].1);
    if due <= left {
        due
    } else {
        left
    }
}

/// Every entitlement of the depositor is within range. This holds of every
/// depositor whose share is no more than the pool's shares.
pub open spec fn claim_fits(pool: PoolInfoView, account: ShareInfoView) -> bool {
    account.share == 0 || forall|c: CurrencyId| #[trigger]
        pool.rewards.contains_key(c) ==> entitlement(pool, account.share, c) <= u128::MAX
}

/// The pool after the depositor's claim: what is paid counts as withdrawn.
pub open spec fn claim_pool(pool: PoolInfoView, account: ShareInfoView) -> PoolInfoView {
    if account.share == 0 {
        pool
    } else {
        PoolInfoView {
            rewards: Map::new(
                |c: CurrencyId| pool.rewards.contains_key(c),
                |c: CurrencyId|
                    (pool.rewards[c].0, (pool.rewards[c].1 + payable(pool, account, c)) as u128),
            ),
            ..pool
        }
    }
}

/// The depositor after the claim: what is paid is added to the reward debt.
pub open spec fn claim_account(pool: PoolInfoView, account: ShareInfoView) -> ShareInfoView {
    if account.share == 0 {
        account
    } else {
        ShareInfoView {
            withdrawn_rewards: Map::new(
                |c: CurrencyId|
                    account.withdrawn_rewards.contains_key(c) || (pool.rewards.contains_key(c)
                        && payable(pool, account, c) > 0),
                |c: CurrencyId|
                    if pool.rewards.contains_key(c) && payable(pool, account, c) > 0 {
                        (held(account.withdrawn_rewards, c) + payable(pool, account, c)) as u128
                    } else {
                        account.withdrawn_rewards[c]
                    },
            ),
            ..account
        }
    }
}

/// The payouts of a claim over the currencies `keys`, in their order: one
/// transfer from the keeper to the depositor for each currency that pays
/// more than nothing.
pub open spec fn claim_transfers(
    keys: Seq<CurrencyId>,
    pool: PoolInfoView,
    account: ShareInfoView,
) -> Seq<Transfer>
    decreases keys.len(),
{
    if keys.len() == 0 {
        Seq::empty()
    } else {
        let before = claim_transfers(keys.drop_last(), pool, account);
        let c = keys.last();
        if payable(pool, account, c) > 0 {
            before.push(
                Transfer {
                    currency: c,
                    from: pool.keeper,
                    to: account.who,
                    amount: payable(pool, account, c),
                },
            )
        } else {
            before
        }
    }
}

/// The payouts of the depositor's claim, by ascending currency.
pub open spec fn claim_payouts(pool: PoolInfoView, account: ShareInfoView) -> Seq<Transfer> {
    if account.share == 0 {
        Seq::empty()
    } else {
        claim_transfers(sorted_u32(pool.rewards.dom()), pool, account)
    }
}

/// Settles what `pool` owes `account`. Returns the two records as they stand
/// afterwards and the payouts that the ledger is to make, or `None` where an
/// entitlement is out of range.
pub fn claim_from(pool: &PoolInfo, account: &ShareInfo) -> (r: Option<
    (PoolInfo, ShareInfo, Vec<Transfer>),
>)
    ensures
        claim_fits(pool@, account@) ==> (r matches Some(out) && out.0@ == claim_pool(
            pool@,
            account@,
        ) && out.1@ == claim_account(pool@, account@) && out.2@ == claim_payouts(
            pool@,
            account@,
        )),
        !claim_fits(pool@, account@) ==> r is None,
{
    let mut transfers: Vec<Transfer> = Vec::new();
    if account.share == 0 {
        return Some((pool.duplicate(), account.duplicate(), transfers));
    }
    let keys = keys_u32(&pool.rewards);
    let mut rewards = pool.rewards.clone();
    let mut withdrawn = account.withdrawn_rewards.clone();
    let mut i: usize = 0;
    while i < keys.len()
        invariant
            0 <= i <= keys.len(),
            account.share != 0,
            ascending_u32(keys@, pool.rewards@.dom()),
            rewards@.dom() == pool.rewards@.dom(),
            transfers@ == claim_transfers(keys@.take(i as int), pool@, account@),
            forall|j: int|
                #![trigger keys@[j]]
                0 <= j < i ==> {
                    &&& entitlement(pool@, account.share, keys@[j]) <= u128::MAX
                    &&& rewards@[keys@[j]] == claim_pool(pool@, account@).rewards[keys@[j]]
                    &&& withdrawn@.contains_key(keys@[j]) == claim_account(
                        pool@,
                        account@,
                    ).withdrawn_rewards.contains_key(keys@[j])
                    &&& withdrawn@.contains_key(keys@[j]) ==> withdrawn@[keys@[j]]
                        == claim_account(pool@, account@).withdrawn_rewards[keys@[j]]
                },
            forall|j: int|
                #![trigger keys@[j]]
                i <= j < keys.len() ==> {
                    &&& rewards@[keys@[j]] == pool.rewards@[keys@[j]]
                    &&& withdrawn@.contains_key(keys@[j])
                        == account.withdrawn_rewards@.contains_key(keys@[j])
                    &&& held(withdrawn@, keys@[j]) == held(account.withdrawn_rewards@, keys@[j])
                },
            forall|c: CurrencyId|
                !pool.rewards@.contains_key(c) ==> {
                    &&& #[trigger] withdrawn@.contains_key(c)
                        == account.withdrawn_rewards@.contains_key(c)
                    &&& withdrawn@.contains_key(c) ==> withdrawn@[c]
                        == account.withdrawn_rewards@[c]
                },
        decreases keys.len() - i,
    {
        let c = keys[i];
        proof {
            assert(keys@.contains(c));
            assert(pool.rewards@.contains_key(c));
            assert(rewards@[keys@[i as int]] == pool.rewards@[keys@[i as int]]);
            assert(keys@.take(i + 1).drop_last() =~= keys@.take(i as int));
            assert(keys@.take(i + 1).last() == c);
        }
        let totals = match rewards.get(&c) {
            Some(t) => *t,
            None => (0, 0),
        };
        let debt = match withdrawn.get(&c) {
            Some(w) => *w,
            None => 0,
        };
        let proportion = match mul_div(account.share, totals.0, pool.total_shares) {
            Some(v) => v,
            None => { return None; },
        };
        let due = proportion.saturating_sub(debt);
        let left = totals.0.saturating_sub(totals.1);
        let pay = if due <= left {
            due
        } else {
            left
        };
        assert(pay == payable(pool@, account@, c));
        if pay > 0 {
            rewards.insert(c, (totals.0, totals.1 + pay));
            withdrawn.insert(c, debt + pay);
            transfers.push(
                Transfer { currency: c, from: pool.keeper, to: account.who, amount: pay },
            );
        }
        proof {
            assert forall|j: int| 0 <= j < i implies keys@[j] != c by {}
            assert forall|j: int| i < j < keys.len() implies keys@[j] != c by {}
        }
        i += 1;
    }
    proof {
        let want_pool = claim_pool(pool@, account@);
        let want_account = claim_account(pool@, account@);
        assert(keys@.take(keys@.len() as int) =~= keys@);
        assert forall|c: CurrencyId| #[trigger] pool.rewards@.contains_key(c) implies rewards@[c]
            == want_pool.rewards[c] && withdrawn@.contains_key(c)
            == want_account.withdrawn_rewards.contains_key(c) && (withdrawn@.contains_key(c)
            ==> withdrawn@[c] == want_account.withdrawn_rewards[c]) && entitlement(
            pool@,
            account.share,
            c,
        ) <= u128::MAX by {
            assert(keys@.contains(c));
            let j = choose|j: int| 0 <= j < keys@.len() && keys@[j] == c;
            assert(rewards@[keys@[j]] == want_pool.rewards[keys@[j]]);
        }
        assert(rewards@ =~= want_pool.rewards);
        assert(withdrawn@ =~= want_account.withdrawn_rewards);
    }
    let new_pool = PoolInfo {
        tokens_proportion: pool.tokens_proportion.clone(),
        basic_rewards: pool.basic_rewards.clone(),
        rewards,
        total_shares: pool.total_shares,
        state: pool.state,
        keeper: pool.keeper,
        gauge: pool.gauge,
        block_startup: pool.block_startup,
        min_deposit_to_start: pool.min_deposit_to_start,
        after_block_to_start: pool.after_block_to_start,
        withdraw_limit_time: pool.withdraw_limit_time,
        claim_limit_time: pool.claim_limit_time,
        withdraw_limit_count: pool.withdraw_limit_count,
    };
    let new_account = ShareInfo {
        who: account.who,
        share: account.share,
        withdrawn_rewards: withdrawn,
    };
    Some((new_pool, new_account, transfers))
}

/// The share that a withdrawal of `amount` takes from the depositor: no more
/// than is held.
pub open spec fn removed_share(account: ShareInfoView, amount: Balance) -> Balance {
    if amount <= account.share {
        amount
    } else {
        account.share
    }
}

/// The part of the depositor's reward debt in `c` that leaves with `remove`
/// of the share, rounded down.
pub open spec fn removing(account: ShareInfoView, remove: Balance, c: CurrencyId) -> nat {
    mul_div_spec(remove as nat, account.withdrawn_rewards[c] as nat, account.share as nat)
}

/// The pool after `amount` share of the depositor is withdrawn: for every
/// currency of the depositor's reward debt both totals shrink by the part of
/// the debt that leaves, a currency whose accrued total reaches zero is
/// dropped, and the shares shrink by what is removed.
pub open spec fn remove_share_pool(
    pool: PoolInfoView,
    account: ShareInfoView,
    amount: Balance,
) -> PoolInfoView {
    let remove = removed_share(account, amount);
    if remove == 0 {
        pool
    } else {
        PoolInfoView {
            total_shares: sat_sub(pool.total_shares, remove),
            rewards: Map::new(
                |c: CurrencyId|
                    pool.rewards.contains_key(c) && !(account.withdrawn_rewards.contains_key(c)
                        && pool.rewards[c].0 <= removing(account, remove, c)),
                |c: CurrencyId|
                    if account.withdrawn_rewards.contains_key(c) {
                        (
                            sat_sub(pool.rewards[c].0, removing(account, remove, c) as u128),
                            sat_sub(pool.rewards[c].1, removing(account, remove, c) as u128),
                        )
                    } else {
                        pool.rewards[c]
                    },
            ),
            ..pool
        }
    }
}

/// The depositor after `amount` share is withdrawn: the share shrinks by what
/// is removed, the reward debt in every currency by the part that leaves.
pub open spec fn remove_share_account(account: ShareInfoView, amount: Balance) -> ShareInfoView {
    let remove = removed_share(account, amount);
    if remove == 0 {
        account
    } else {
        ShareInfoView {
            share: (account.share - remove) as u128,
            withdrawn_rewards: Map::new(
                |c: CurrencyId| account.withdrawn_rewards.contains_key(c),
                |c: CurrencyId|
                    (account.withdrawn_rewards[c] - removing(account, remove, c)) as u128,
            ),
            ..account
        }
    }
}

/// A part of a share takes no more than that part of a debt.
pub proof fn lemma_removing_le(remove: nat, debt: nat, share: nat)
    requires
        remove <= share,
    ensures
        mul_div_spec(remove, debt, share) <= debt,
{
    if share > 0 {
        assert(remove * debt <= share * debt) by (nonlinear_arith)
            requires
                remove <= share,
        ;
        assert((remove * debt) / share <= debt) by (nonlinear_arith)
            requires
                remove * debt <= share * debt,
                share > 0,
        ;
    }
}

/// Withdraws `amount` share of `account` from `pool`, or all of it where
/// less is held. Returns the two records as they stand afterwards.
pub fn remove_share_from(pool: &PoolInfo, account: &ShareInfo, amount: Balance) -> (r: (
    PoolInfo,
    ShareInfo,
))
    ensures
        r.0@ == remove_share_pool(pool@, account@, amount),
        r.1@ == remove_share_account(account@, amount),
{
    let remove = if amount <= account.share {
        amount
    } else {
        account.share
    };
    if remove == 0 {
        return (pool.duplicate(), account.duplicate());
    }
    let keys = keys_u32(&account.withdrawn_rewards);
    let mut rewards = pool.rewards.clone();
    let mut withdrawn = account.withdrawn_rewards.clone();
    let ghost want_pool = remove_share_pool(pool@, account@, amount);
    let ghost want_account = remove_share_account(account@, amount);
    let mut i: usize = 0;
    while i < keys.len()
        invariant
            0 <= i <= keys.len(),
            remove == removed_share(account@, amount),
            0 < remove <= account.share,
            want_pool == remove_share_pool(pool@, account@, amount),
            want_account == remove_share_account(account@, amount),
            ascending_u32(keys@, account.withdrawn_rewards@.dom()),
            withdrawn@.dom() == account.withdrawn_rewards@.dom(),
            forall|j: int|
                #![trigger keys@[j]]
                0 <= j < i ==> {
                    &&& rewards@.contains_key(keys@[j]) == want_pool.rewards.contains_key(
                        keys@[j],
                    )
                    &&& rewards@.contains_key(keys@[j]) ==> rewards@[keys@[j]]
                        == want_pool.rewards[keys@[j]]
                    &&& withdrawn@[keys@[j]] == want_account.withdrawn_rewards[keys@[j]]
                },
            forall|j: int|
                #![trigger keys@[j]]
                i <= j < keys.len() ==> {
                    &&& rewards@.contains_key(keys@[j]) == pool.rewards@.contains_key(keys@[j])
                    &&& rewards@.contains_key(keys@[j]) ==> rewards@[keys@[j]]
                        == pool.rewards@[keys@[j]]
                    &&& withdrawn@[keys@[j]] == account.withdrawn_rewards@[keys@[j]]
                },
            forall|c: CurrencyId|
                !account.withdrawn_rewards@.contains_key(c) ==> {
                    &&& #[trigger] rewards@.contains_key(c) == pool.rewards@.contains_key(c)
                    &&& rewards@.contains_key(c) ==> rewards@[c] == pool.rewards@[c]
                },
        decreases keys.len() - i,
    {
        let c = keys[i];
        proof {
            assert(keys@.contains(c));
            assert(account.withdrawn_rewards@.contains_key(c));
            assert(withdrawn@[keys@[i as int]] == account.withdrawn_rewards@[keys@[i as int]]);
            lemma_removing_le(
                remove as nat,
                account.withdrawn_rewards@[c] as nat,
                account.share as nat,
            );
        }
        let debt = match withdrawn.get(&c) {
            Some(w) => *w,
            None => 0,
        };
        let leaving = match mul_div(remove, debt, account.share) {
            Some(v) => v,
            None => 0,
        };
        assert(leaving == removing(account@, remove, c));
        let totals = match rewards.get(&c) {
            Some(t) => Some(*t),
            None => None,
        };
        match totals {
            Some(t) => {
                let accrued = t.0.saturating_sub(leaving);
                let paid = t.1.saturating_sub(leaving);
                if accrued == 0 {
                    rewards.remove(&c);
                } else {
                    rewards.insert(c, (accrued, paid));
                }
            },
            None => {},
        }
        withdrawn.insert(c, debt - leaving);
        proof {
            assert forall|j: int| 0 <= j < i implies keys@[j] != c by {}
            assert forall|j: int| i < j < keys.len() implies keys@[j] != c by {}
        }
        i += 1;
    }
    proof {
        assert forall|c: CurrencyId| #[trigger]
            account.withdrawn_rewards@.contains_key(c) implies rewards@.contains_key(c)
            == want_pool.rewards.contains_key(c) && (rewards@.contains_key(c) ==> rewards@[c]
            == want_pool.rewards[c]) && withdrawn@[c] == want_account.withdrawn_rewards[c] by {
            assert(keys@.contains(c));
            let j = choose|j: int| 0 <= j < keys@.len() && keys@[j] == c;
            assert(withdrawn@[keys@[j]] == want_account.withdrawn_rewards[keys@[j]]);
        }
        assert(rewards@ =~= want_pool.rewards);
        assert(withdrawn@ =~= want_account.withdrawn_rewards);
    }
    let new_pool = PoolInfo {
        tokens_proportion: pool.tokens_proportion.clone(),
        basic_rewards: pool.basic_rewards.clone(),
        rewards,
        total_shares: pool.total_shares.saturating_sub(remove),
        state: pool.state,
        keeper: pool.keeper,
        gauge: pool.gauge,
        block_startup: pool.block_startup,
        min_deposit_to_start: pool.min_deposit_to_start,
        after_block_to_start: pool.after_block_to_start,
        withdraw_limit_time: pool.withdraw_limit_time,
        claim_limit_time: pool.claim_limit_time,
        withdraw_limit_count: pool.withdraw_limit_count,
    };
    let new_account = ShareInfo {
        who: account.who,
        share: account.share - remove,
        withdrawn_rewards: withdrawn,
    };
    (new_pool, new_account)
}

/// What one tick adds for a basic reward of `basic`: all of it, or the part
/// `coefficient` of it, rounded to the nearest unit.
pub open spec fn tick_increment(basic: Balance, coefficient: Option<Permill>) -> Balance {
    match coefficient {
        Some(part) => mul_round(part.fraction(), basic as nat) as u128,
        None => basic,
    }
}

/// The reward totals after one tick: for every basic reward, its increment
/// has accrued.
pub open spec fn accrue_all_spec(
    rewards: Map<CurrencyId, (Balance, Balance)>,
    basic: Map<CurrencyId, Balance>,
    coefficient: Option<Permill>,
) -> Map<CurrencyId, (Balance, Balance)> {
    Map::new(
        |c: CurrencyId| rewards.contains_key(c) || basic.contains_key(c),
        |c: CurrencyId|
            if basic.contains_key(c) {
                accrue_spec(rewards, c, tick_increment(basic[c], coefficient))[c]
            } else {
                rewards[c]
            },
    )
}

/// Accrues one tick of every basic reward, saturating.
pub fn accrue_all(
    rewards: &mut BTreeMap<CurrencyId, (Balance, Balance)>,
    basic: &BTreeMap<CurrencyId, Balance>,
    coefficient: Option<Permill>,
)
    ensures
        final(rewards)@ == accrue_all_spec(old(rewards)@, basic@, coefficient),
        no_over_withdrawal(old(rewards)@) ==> no_over_withdrawal(final(rewards)@),
{
    let keys = keys_u32(basic);
    let ghost before = rewards@;
    let ghost want = accrue_all_spec(before, basic@, coefficient);
    let mut i: usize = 0;
    while i < keys.len()
        invariant
            0 <= i <= keys.len(),
            before == old(rewards)@,
            want == accrue_all_spec(before, basic@, coefficient),
            ascending_u32(keys@, basic@.dom()),
            no_over_withdrawal(before) ==> no_over_withdrawal(rewards@),
            forall|j: int|
                #![trigger keys@[j]]
                0 <= j < i ==> rewards@.contains_key(keys@[j]) && rewards@[keys@[j]]
                    == want[keys@[j]],
            forall|j: int|
                #![trigger keys@[j]]
                i <= j < keys.len() ==> rewards@.contains_key(keys@[j]) == before.contains_key(
                    keys@[j],
                ) && (rewards@.contains_key(keys@[j]) ==> rewards@[keys@[j]]
                    == before[keys@[j]]),
            forall|c: CurrencyId|
                !basic@.contains_key(c) ==> #[trigger] rewards@.contains_key(c)
                    == before.contains_key(c) && (rewards@.contains_key(c) ==> rewards@[c]
                    == before[c]),
        decreases keys.len() - i,
    {
        let c = keys[i];
        proof {
            assert(keys@.contains(c));
            assert(basic@.contains_key(c));
            assert(rewards@.contains_key(keys@[i as int]) == before.contains_key(keys@[i as int]));
        }
        let amount = match basic.get(&c) {
            Some(b) => *b,
            None => 0,
        };
        let increment = match coefficient {
            Some(part) => part.times(amount),
            None => amount,
        };
        accrue(rewards, c, increment);
        proof {
            assert forall|j: int| 0 <= j < i implies keys@[j] != c by {}
            assert forall|j: int| i < j < keys.len() implies keys@[j] != c by {}
        }
        i += 1;
    }
    proof {
        assert forall|c: CurrencyId| #[trigger] basic@.contains_key(c) implies
            rewards@.contains_key(
            c,
        ) && rewards@[c] == want[c] by {
            assert(keys@.contains(c));
            let j = choose|j: int| 0 <= j < keys@.len() && keys@[j] == c;
            assert(rewards@[keys@[j]] == want[keys@[j]]);
        }
        assert(rewards@ =~= want);
    }
}

/// The map that a list of entries builds up: each entry is written in turn,
/// so that of two entries with one key the later stays.
pub open spec fn map_of<V>(entries: Seq<(CurrencyId, V)>) -> Map<CurrencyId, V>
    decreases entries.len(),
{
    if entries.len() == 0 {
        Map::empty()
    } else {
        map_of(entries.drop_last()).insert(entries.last().0, entries.last().1)
    }
}

/// Collects a list of entries into a map.
pub fn collect_map<V: Copy>(entries: &Vec<(CurrencyId, V)>) -> (r: BTreeMap<CurrencyId, V>)
    ensures
        r@ == map_of(entries@),
{
    let mut out: BTreeMap<CurrencyId, V> = BTreeMap::new();
    let mut i: usize = 0;
    while i < entries.len()
        invariant
            0 <= i <= entries.len(),
            out@ == map_of(entries@.take(i as int)),
        decreases entries.len() - i,
    {
        proof {
            assert(entries@.take(i + 1).drop_last() =~= entries@.take(i as int));
        }
        let entry = entries[i];
        out.insert(entry.0, entry.1);
        i += 1;
    }
    proof {
        assert(entries@.take(entries@.len() as int) =~= entries@);
    }
    out
}

/// The transfers that split `value` over the currencies `keys`, in their
/// order: for each currency its proportion of `value`, rounded to the nearest
/// unit, from `from` to `to`. With `skip_zero`, a currency whose part is zero
/// gets no transfer.
pub open spec fn split_over(
    keys: Seq<CurrencyId>,
    tokens: Map<CurrencyId, Permill>,
    from: AccountId,
    to: AccountId,
    value: Balance,
    skip_zero: bool,
) -> Seq<Transfer>
    decreases keys.len(),
{
    if keys.len() == 0 {
        Seq::empty()
    } else {
        let before = split_over(keys.drop_last(), tokens, from, to, value, skip_zero);
        let c = keys.last();
        let amount = mul_round(tokens[c].fraction(), value as nat) as u128;
        if skip_zero && amount == 0 {
            before
        } else {
            before.push(Transfer { currency: c, from, to, amount })
        }
    }
}

/// The transfers that split `value` over the deposit currencies of a pool,
/// by ascending currency.
pub open spec fn split_transfers(
    tokens: Map<CurrencyId, Permill>,
    from: AccountId,
    to: AccountId,
    value: Balance,
    skip_zero: bool,
) -> Seq<Transfer> {
    split_over(sorted_u32(tokens.dom()), tokens, from, to, value, skip_zero)
}

/// Splits `value` over the deposit currencies `tokens` and returns the
/// transfers of the parts from `from` to `to`, by ascending currency.
pub fn split_value(
    tokens: &BTreeMap<CurrencyId, Permill>,
    from: AccountId,
    to: AccountId,
    value: Balance,
    skip_zero: bool,
) -> (r: Vec<Transfer>)
    ensures
        r@ == split_transfers(tokens@, from, to, value, skip_zero),
{
    let keys = keys_u32(tokens);
    let mut transfers: Vec<Transfer> = Vec::new();
    let mut i: usize = 0;
    while i < keys.len()
        invariant
            0 <= i <= keys.len(),
            ascending_u32(keys@, tokens@.dom()),
            transfers@ == split_over(keys@.take(i as int), tokens@, from, to, value, skip_zero),
        decreases keys.len() - i,
    {
        let c = keys[i];
        proof {
            assert(keys@.contains(c));
            assert(tokens@.contains_key(c));
            assert(keys@.take(i + 1).drop_last() =~= keys@.take(i as int));
            assert(keys@.take(i + 1).last() == c);
        }
        let amount = match tokens.get(&c) {
            Some(proportion) => proportion.times(value),
            None => 0,
        };
        if !(skip_zero && amount == 0) {
            transfers.push(Transfer { currency: c, from, to, amount });
        }
        i += 1;
    }
    proof {
        assert(keys@.take(keys@.len() as int) =~= keys@);
    }
    transfers
}

} // verus!
