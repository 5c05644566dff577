//! The reward accumulator on the store: accrual, add-share, remove-share,
//! set-share and claim for one depositor of one pool.

use crate::pallet::{
    lemma_drop_share_valid, lemma_share_le_total, lemma_write_pool_valid, lemma_write_share_valid,
    paid_out, share_record, valid, Pallet, PalletView,
};
use crate::primitives::{AccountId, Balance, CurrencyId, Error, PoolId, Transfer};
use crate::rewards::{
    accrue, accrue_spec, add_share_account, add_share_fits, add_share_pool, add_share_to,
    claim_account, claim_fits, claim_from, claim_payouts, claim_pool, entitlement, held,
    lemma_removing_le, no_over_withdrawal, remove_share_account, remove_share_from,
    remove_share_pool, removed_share, PoolInfoView, ShareInfoView,
};
use vstd::prelude::*;

verus! {

/// The store after `increment` of `currency` has accrued to pool `pid`.
pub open spec fn accumulate_reward_spec(
    v: PalletView,
    pid: PoolId,
    currency: CurrencyId,
    increment: Balance,
) -> Result<PalletView, Error> {
    if increment == 0 {
        Ok(v)
    } else if !v.pool_infos.contains_key(pid) {
        Err(Error::PoolDoesNotExist)
    } else {
        let pool = v.pool_infos[pid];
        Ok(
            PalletView {
                pool_infos: v.pool_infos.insert(
                    pid,
                    PoolInfoView {
                        rewards: accrue_spec(pool.rewards, currency, increment),
                        ..pool
                    },
                ),
                ..v
            },
        )
    }
}

/// The store after `who` has deposited `amount` share into pool `pid`.
pub open spec fn add_share_spec(
    v: PalletView,
    who: AccountId,
    pid: PoolId,
    amount: Balance,
) -> Result<PalletView, Error> {
    if amount == 0 {
        Ok(v)
    } else if !v.pool_infos.contains_key(pid) {
        Err(Error::PoolDoesNotExist)
    } else {
        let pool = v.pool_infos[pid];
        let account = share_record(v, pid, who);
        if !add_share_fits(pool, account, amount) {
            Err(Error::CalculationOverflow)
        } else {
            Ok(
                PalletView {
                    pool_infos: v.pool_infos.insert(pid, add_share_pool(pool, amount)),
                    shares: v.shares.insert((pid, who), add_share_account(pool, account, amount)),
                    ..v
                },
            )
        }
    }
}

/// The store after `who` has claimed from pool `pid`, and the payouts of the
/// claim. An account without a share record claims nothing.
pub open spec fn claim_rewards_spec(v: PalletView, who: AccountId, pid: PoolId) -> (
    PalletView,
    Seq<Transfer>,
) {
    if !v.shares.contains_key((pid, who)) || !v.pool_infos.contains_key(pid) {
        (v, Seq::empty())
    } else {
        let pool = v.pool_infos[pid];
        let account = v.shares[(pid, who)];
        (
            PalletView {
                pool_infos: v.pool_infos.insert(pid, claim_pool(pool, account)),
                shares: v.shares.insert((pid, who), claim_account(pool, account)),
                ..v
            },
            claim_payouts(pool, account),
        )
    }
}

/// The store after `who` has withdrawn `amount` share from pool `pid`, and
/// the payouts of the claim that comes first. A record whose share reaches
/// zero is dropped.
pub open spec fn remove_share_spec(v: PalletView, who: AccountId, pid: PoolId, amount: Balance) -> (
    PalletView,
    Seq<Transfer>,
) {
    if amount == 0 {
        (v, Seq::empty())
    } else {
        let claimed = claim_rewards_spec(v, who, pid);
        let v1 = claimed.0;
        if !v1.shares.contains_key((pid, who)) || !v1.pool_infos.contains_key(pid) {
            claimed
        } else {
            let pool = v1.pool_infos[pid];
            let account = v1.shares[(pid, who)];
            let left = remove_share_account(account, amount);
            (
                PalletView {
                    pool_infos: v1.pool_infos.insert(pid, remove_share_pool(pool, account, amount)),
                    shares: if left.share == 0 {
                        v1.shares.remove((pid, who))
                    } else {
                        v1.shares.insert((pid, who), left)
                    },
                    ..v1
                },
                claimed.1,
            )
        }
    }
}

/// The store after the share of `who` in pool `pid` is set to `new_share`,
/// and the payouts where that withdraws.
pub open spec fn set_share_spec(
    v: PalletView,
    who: AccountId,
    pid: PoolId,
    new_share: Balance,
) -> Result<(PalletView, Seq<Transfer>), Error> {
    let share = share_record(v, pid, who).share;
    if new_share > share {
        match add_share_spec(v, who, pid, (new_share - share) as u128) {
            Ok(w) => Ok((w, Seq::empty())),
            Err(e) => Err(e),
        }
    } else {
        Ok(remove_share_spec(v, who, pid, (share - new_share) as u128))
    }
}

/// In a valid store every claim is within range.
pub proof fn lemma_claim_fits(v: PalletView, who: AccountId, pid: PoolId)
    requires
        valid(v),
        v.pool_infos.contains_key(pid),
    ensures
        claim_fits(v.pool_infos[pid], share_record(v, pid, who)),
{
    let pool = v.pool_infos[pid];
    let account = share_record(v, pid, who);
    lemma_share_le_total(v, pid, who);
    assert forall|c: CurrencyId| #[trigger] pool.rewards.contains_key(c) implies entitlement(
        pool,
        account.share,
        c,
    ) <= u128::MAX by {
        lemma_removing_le(
            account.share as nat,
            pool.rewards[c].0 as nat,
            pool.total_shares as nat,
        );
    }
}

/// A deposit keeps the store valid.
pub proof fn lemma_add_share_valid(v: PalletView, who: AccountId, pid: PoolId, amount: Balance)
    requires
        valid(v),
    ensures
        add_share_spec(v, who, pid, amount) matches Ok(w) ==> valid(w),
{
    if amount != 0 && v.pool_infos.contains_key(pid) {
        let pool = v.pool_infos[pid];
        let account = share_record(v, pid, who);
        if add_share_fits(pool, account, amount) {
            lemma_share_le_total(v, pid, who);
            lemma_write_share_valid(
                v,
                pid,
                who,
                add_share_pool(pool, amount),
                add_share_account(pool, account, amount),
            );
        }
    }
}

/// A claim keeps the store valid.
pub proof fn lemma_claim_rewards_valid(v: PalletView, who: AccountId, pid: PoolId)
    requires
        valid(v),
    ensures
        valid(claim_rewards_spec(v, who, pid).0),
{
    if v.shares.contains_key((pid, who)) && v.pool_infos.contains_key(pid) {
        let pool = v.pool_infos[pid];
        let account = v.shares[(pid, who)];
        lemma_share_le_total(v, pid, who);
        lemma_write_share_valid(
            v,
            pid,
            who,
            claim_pool(pool, account),
            claim_account(pool, account),
        );
    }
}

/// How a withdrawal moves the debts: in every currency, what the pool
/// records as withdrawn shrinks by as much as the depositor's debt, and a
/// depositor whose share is gone owes nothing any more.
pub proof fn lemma_remove_share_debts(
    pool: PoolInfoView,
    account: ShareInfoView,
    amount: Balance,
    c: CurrencyId,
)
    requires
        no_over_withdrawal(pool.rewards),
        account.share > 0,
        amount > 0,
        held(account.withdrawn_rewards, c) <= paid_out(pool.rewards, c),
    ensures
        ({
            let next = remove_share_pool(pool, account, amount);
            let left = remove_share_account(account, amount);
            &&& paid_out(next.rewards, c) + held(account.withdrawn_rewards, c) == paid_out(
                pool.rewards,
                c,
            ) + held(left.withdrawn_rewards, c)
            &&& left.share == 0 ==> held(left.withdrawn_rewards, c) == 0
            &&& next.rewards.contains_key(c) ==> next.rewards[c].1 <= next.rewards[c].0
        }),
{
    let remove = removed_share(account, amount);
    if account.withdrawn_rewards.contains_key(c) {
        let debt = account.withdrawn_rewards[c];
        lemma_removing_le(remove as nat, debt as nat, account.share as nat);
        if remove == account.share {
            assert((remove as nat) * (debt as nat) / (account.share as nat) == debt as nat)
                by (nonlinear_arith)
                requires
                    remove == account.share,
                    account.share > 0,
            ;
        }
        if pool.rewards.contains_key(c) {
            assert(pool.rewards[c].1 <= pool.rewards[c].0);
        }
    } else if pool.rewards.contains_key(c) {
        assert(pool.rewards[c].1 <= pool.rewards[c].0);
    }
}

/// A withdrawal keeps the store valid.
pub proof fn lemma_remove_share_valid(v: PalletView, who: AccountId, pid: PoolId, amount: Balance)
    requires
        valid(v),
    ensures
        valid(remove_share_spec(v, who, pid, amount).0),
{
    if amount != 0 {
        lemma_claim_rewards_valid(v, who, pid);
        let v1 = claim_rewards_spec(v, who, pid).0;
        if v1.shares.contains_key((pid, who)) && v1.pool_infos.contains_key(pid) {
            let pool = v1.pool_infos[pid];
            let account = v1.shares[(pid, who)];
            let left = remove_share_account(account, amount);
            let next = remove_share_pool(pool, account, amount);
            lemma_share_le_total(v1, pid, who);
            assert forall|c: CurrencyId|
                #![trigger paid_out(next.rewards, c)]
                paid_out(next.rewards, c) + held(account.withdrawn_rewards, c) == paid_out(
                    pool.rewards,
                    c,
                ) + held(left.withdrawn_rewards, c) && (left.share == 0 ==> held(
                    left.withdrawn_rewards,
                    c,
                ) == 0) by {
                assert(held(account.withdrawn_rewards, c) <= paid_out(pool.rewards, c));
                lemma_remove_share_debts(pool, account, amount, c);
            }
            assert(no_over_withdrawal(next.rewards)) by {
                assert forall|c: CurrencyId| #[trigger] next.rewards.contains_key(c) implies
                    next.rewards[c].1
                    <= next.rewards[c].0 by {
                    assert(held(account.withdrawn_rewards, c) <= paid_out(pool.rewards, c));
                    lemma_remove_share_debts(pool, account, amount, c);
                }
            }
            if left.share == 0 {
                lemma_drop_share_valid(v1, pid, who, next);
            } else {
                lemma_write_share_valid(v1, pid, who, next, left);
            }
        }
    }
}

impl Pallet {
    /// Adds `reward_increment` to what pool `pool` has accrued in
    /// `reward_currency`, capped at the largest amount. A zero increment
    /// changes nothing.
    pub fn accumulate_reward(
        &mut self,
        pool: PoolId,
        reward_currency: CurrencyId,
        reward_increment: Balance,
    ) -> (r: Result<(), Error>)
        requires
            old(self).wf(),
        ensures
            final(self).wf(),
            match accumulate_reward_spec(old(self)@, pool, reward_currency, reward_increment) {
                Ok(w) => r is Ok && final(self)@ == w,
                Err(e) => r == Err::<(), Error>(e) && final(self)@ == old(self)@,
            },
    {
        if reward_increment == 0 {
            return Ok(());
        }
        let mut pool_info = match self.pool_infos(pool) {
            Some(p) => p.duplicate(),
            None => { return Err(Error::PoolDoesNotExist); },
        };
        accrue(&mut pool_info.rewards, reward_currency, reward_increment);
        proof {
            lemma_write_pool_valid(self@, pool, pool_info@);
        }
        self.put_pool(pool, pool_info);
        Ok(())
    }

    /// Deposits `add_amount` share of pool `pool` for `who`. In every reward
    /// currency the pool's two totals and the depositor's reward debt grow by
    /// what the new share would already have earned, so that the depositor
    /// cannot claim what accrued before. A zero amount changes nothing.
    pub fn add_share(&mut self, who: AccountId, pool: PoolId, add_amount: Balance) -> (r: Result<
        (),
        Error,
    >)
        requires
            old(self).wf(),
        ensures
            final(self).wf(),
            match add_share_spec(old(self)@, who, pool, add_amount) {
                Ok(w) => r is Ok && final(self)@ == w,
                Err(e) => r == Err::<(), Error>(e) && final(self)@ == old(self)@,
            },
    {
        if add_amount == 0 {
            return Ok(());
        }
        let account = self.shares_and_withdrawn_rewards(pool, who);
        let updated = match self.pool_infos(pool) {
            Some(pool_info) => add_share_to(pool_info, &account, add_amount),
            None => { return Err(Error::PoolDoesNotExist); },
        };
        match updated {
            Some((new_pool, new_account)) => {
                proof {
                    lemma_add_share_valid(self@, who, pool, add_amount);
                }
                self.put_pool(pool, new_pool);
                self.put_share(pool, who, new_account);
                Ok(())
            },
            None => Err(Error::CalculationOverflow),
        }
    }

    /// Settles what pool `pool` owes `who` and returns the payouts, one
    /// transfer from the pool's keeper for each reward currency that pays
    /// more than nothing, by ascending currency. An account without a share
    /// record claims nothing.
    pub fn claim_rewards(&mut self, who: AccountId, pool: PoolId) -> (r: Vec<Transfer>)
        requires
            old(self).wf(),
        ensures
            final(self).wf(),
            final(self)@ == claim_rewards_spec(old(self)@, who, pool).0,
            r@ == claim_rewards_spec(old(self)@, who, pool).1,
    {
        let account = self.shares_and_withdrawn_rewards(pool, who);
        if account.share == 0 {
            return Vec::new();
        }
        proof {
            lemma_claim_fits(self@, who, pool);
            lemma_claim_rewards_valid(self@, who, pool);
        }
        let settled = match self.pool_infos(pool) {
            Some(pool_info) => claim_from(pool_info, &account),
            None => None,
        };
        match settled {
            Some((new_pool, new_account, payouts)) => {
                self.put_pool(pool, new_pool);
                self.put_share(pool, who, new_account);
                payouts
            },
            None => Vec::new(),
        }
    }

    /// Withdraws `remove_amount` share of pool `pool` from `who`, or all of
    /// it where less is held, after settling the claim. The reward debt that
    /// belongs to the share leaves both totals of the pool. Returns the
    /// payouts of the claim. A zero amount changes nothing.
    pub fn remove_share(&mut self, who: AccountId, pool: PoolId, remove_amount: Balance) -> (r: Vec<
        Transfer,
    >)
        requires
            old(self).wf(),
        ensures
            final(self).wf(),
            final(self)@ == remove_share_spec(old(self)@, who, pool, remove_amount).0,
            r@ == remove_share_spec(old(self)@, who, pool, remove_amount).1,
    {
        if remove_amount == 0 {
            return Vec::new();
        }
        proof {
            lemma_remove_share_valid(self@, who, pool, remove_amount);
        }
        let payouts = self.claim_rewards(who, pool);
        let account = self.shares_and_withdrawn_rewards(pool, who);
        if account.share == 0 {
            return payouts;
        }
        let updated = match self.pool_infos(pool) {
            Some(pool_info) => Some(remove_share_from(pool_info, &account, remove_amount)),
            None => None,
        };
        match updated {
            Some((new_pool, new_account)) => {
                self.put_pool(pool, new_pool);
                if new_account.share == 0 {
                    self.drop_share(pool, who);
                } else {
                    self.put_share(pool, who, new_account);
                }
            },
            None => {},
        }
        payouts
    }

    /// Sets the share of `who` in pool `pool` to `new_share`, by a deposit or
    /// by a withdrawal of the difference. Returns the payouts of a
    /// withdrawal's claim.
    pub fn set_share(&mut self, who: AccountId, pool: PoolId, new_share: Balance) -> (r: Result<
        Vec<Transfer>,
        Error,
    >)
        requires
            old(self).wf(),
        ensures
            final(self).wf(),
            match set_share_spec(old(self)@, who, pool, new_share) {
                Ok(w) => r is Ok && final(self)@ == w.0 && r->Ok_0@ == w.1,
                Err(e) => r == Err::<Vec<Transfer>, Error>(e) && final(self)@ == old(self)@,
            },
    {
        let share = self.shares_and_withdrawn_rewards(pool, who).share;
        if new_share > share {
            match self.add_share(who, pool, new_share - share) {
                Ok(()) => Ok(Vec::new()),
                Err(e) => Err(e),
            }
        } else {
            Ok(self.remove_share(who, pool, share - new_share))
        }
    }
}

} // verus!
