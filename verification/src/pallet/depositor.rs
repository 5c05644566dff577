//! What a depositor asks of a pool: deposit, withdraw and claim, with the
//! state of the pool deciding what is admitted.

use crate::gauge::{gauge_claim_fits, gauge_claim_payouts, GaugeInfo};
use crate::ordered::{ascending_u64, sorted_u64};
use crate::pallet::gauges::{gauge_add_spec, gauge_claim_spec};
use crate::pallet::shares::{
    add_share_spec, claim_rewards_spec, lemma_add_share_valid, remove_share_spec,
};
use crate::pallet::{gauge_record, positions_of, share_record, valid, Pallet, PalletView};
use crate::primitives::{AccountId, Balance, BlockNumber, Error, PoolId, PoolState, Transfer};
use crate::rewards::{add_share_to, removed_share, split_transfers, split_value};
use vstd::prelude::*;

verus! {

/// The store after `who` has deposited `add_value` into pool `pid`, with a
/// lock of `gauge_info.0` for `gauge_info.1` blocks where one is given, and
/// the transfers of the deposit: the parts of `add_value` to the keeper by
/// ascending deposit currency, then what is locked.
pub open spec fn deposit_spec(
    v: PalletView,
    who: AccountId,
    pid: PoolId,
    add_value: Balance,
    gauge_info: Option<(Balance, BlockNumber)>,
) -> Result<(PalletView, Seq<Transfer>), Error> {
    if !v.pool_infos.contains_key(pid) {
        Err(Error::PoolDoesNotExist)
    } else {
        let pool = v.pool_infos[pid];
        if pool.state != PoolState::Ongoing && pool.state != PoolState::Charged {
            Err(Error::InvalidPoolState)
        } else {
            let paid_in = split_transfers(
                pool.tokens_proportion,
                who,
                pool.keeper,
                add_value,
                false,
            );
            match add_share_spec(v, who, pid, add_value) {
                Err(e) => Err(e),
                Ok(v1) => match gauge_info {
                    None => Ok((v1, paid_in)),
                    Some(lock) => match pool.gauge {
                        None => Err(Error::GaugePoolNotExist),
                        Some(gid) => match gauge_add_spec(v1, who, pid, gid, lock.0, lock.1) {
                            Err(e) => Err(e),
                            Ok(w) => Ok((w.0, paid_in.push(w.1))),
                        },
                    },
                },
            }
        }
    }
}

/// The share that a withdrawal of `remove_value` asks for: the value given,
/// or all that `who` holds where none is given.
pub open spec fn asked_share(
    v: PalletView,
    who: AccountId,
    pid: PoolId,
    remove_value: Option<Balance>,
) -> Balance {
    match remove_value {
        Some(amount) => amount,
        None => share_record(v, pid, who).share,
    }
}

/// The store after `who` has withdrawn from pool `pid`, and the transfers of
/// the withdrawal: the payouts of the claim that comes first, then the parts
/// of the removed share from the keeper by ascending deposit currency.
pub open spec fn withdraw_spec(
    v: PalletView,
    who: AccountId,
    pid: PoolId,
    remove_value: Option<Balance>,
) -> Result<(PalletView, Seq<Transfer>), Error> {
    if !v.pool_infos.contains_key(pid) {
        Err(Error::PoolDoesNotExist)
    } else {
        let pool = v.pool_infos[pid];
        if pool.state != PoolState::Ongoing && pool.state != PoolState::Charged && pool.state
            != PoolState::Dead {
            Err(Error::InvalidPoolState)
        } else {
            let amount = asked_share(v, who, pid, remove_value);
            let removed = removed_share(share_record(v, pid, who), amount);
            let out = remove_share_spec(v, who, pid, amount);
            Ok(
                (
                    out.0,
                    out.1 + split_transfers(
                        pool.tokens_proportion,
                        pool.keeper,
                        who,
                        removed,
                        false,
                    ),
                ),
            )
        }
    }
}

/// The store after `who` has claimed from pool `pid` and, where the pool has
/// a gauge pool, from the position in it; and the payouts, those of the pool
/// first.
pub open spec fn claim_spec(v: PalletView, who: AccountId, pid: PoolId) -> Result<
    (PalletView, Seq<Transfer>),
    Error,
> {
    if !v.pool_infos.contains_key(pid) {
        Err(Error::PoolDoesNotExist)
    } else {
        let pool = v.pool_infos[pid];
        if pool.state != PoolState::Ongoing && pool.state != PoolState::Dead {
            Err(Error::InvalidPoolState)
        } else {
            let claimed = claim_rewards_spec(v, who, pid);
            match pool.gauge {
                None => Ok(claimed),
                Some(gid) => match gauge_claim_spec(claimed.0, who, gid) {
                    Err(e) => Err(e),
                    Ok(w) => Ok((w.0, claimed.1 + w.1)),
                },
            }
        }
    }
}

impl Pallet {
    /// Deposits `add_value` into pool `pid` for `who`, which gives `who` as
    /// much share; with `gauge_info`, also locks its amount of the boost
    /// currency for its number of blocks. Admitted while the pool is charged
    /// or ongoing. Returns the transfers that pay the deposit in.
    pub fn deposit(
        &mut self,
        who: AccountId,
        pid: PoolId,
        add_value: Balance,
        gauge_info: Option<(Balance, BlockNumber)>,
    ) -> (r: Result<Vec<Transfer>, Error>)
        requires
            old(self).wf(),
        ensures
            final(self).wf(),
            match deposit_spec(old(self)@, who, pid, add_value, gauge_info) {
                Ok(w) => r is Ok && r->Ok_0@ == w.1 && final(self)@ == w.0,
                Err(e) => r == Err::<Vec<Transfer>, Error>(e) && final(self)@ == old(self)@,
            },
    {
        let account = self.shares_and_withdrawn_rewards(pid, who);
        let (gauge, mut transfers, updated) = match self.pool_infos(pid) {
            Some(pool) => {
                if pool.state != PoolState::Ongoing && pool.state != PoolState::Charged {
                    return Err(Error::InvalidPoolState);
                }
                let paid_in = split_value(
                    &pool.tokens_proportion,
                    who,
                    pool.keeper,
                    add_value,
                    false,
                );
                if add_value == 0 {
                    (pool.gauge, paid_in, None)
                } else {
                    match add_share_to(pool, &account, add_value) {
                        Some(records) => (pool.gauge, paid_in, Some(records)),
                        None => { return Err(Error::CalculationOverflow); },
                    }
                }
            },
            None => { return Err(Error::PoolDoesNotExist); },
        };
        match gauge_info {
            Some(lock) => {
                let gid = match gauge {
                    Some(g) => g,
                    None => { return Err(Error::GaugePoolNotExist); },
                };
                match self.gauge_add(who, pid, gid, lock.0, lock.1) {
                    Ok(locked) => {
                        transfers.push(locked);
                    },
                    Err(e) => { return Err(e); },
                }
            },
            None => {},
        }
        proof {
            lemma_add_share_valid(self@, who, pid, add_value);
        }
        match updated {
            Some((new_pool, new_account)) => {
                self.put_pool(pid, new_pool);
                self.put_share(pid, who, new_account);
            },
            None => {},
        }
        Ok(transfers)
    }

    /// Withdraws `remove_value` share of pool `pid` from `who`, or the whole
    /// position where no value is given, after settling the claim. Admitted
    /// while the pool is charged, ongoing or dead. Returns the payouts of the
    /// claim and the transfers that pay the deposit out.
    pub fn withdraw(&mut self, who: AccountId, pid: PoolId, remove_value: Option<Balance>) -> (r:
        Result<Vec<Transfer>, Error>)
        requires
            old(self).wf(),
        ensures
            final(self).wf(),
            match withdraw_spec(old(self)@, who, pid, remove_value) {
                Ok(w) => r is Ok && r->Ok_0@ == w.1 && final(self)@ == w.0,
                Err(e) => r == Err::<Vec<Transfer>, Error>(e) && final(self)@ == old(self)@,
            },
    {
        let held = self.shares_and_withdrawn_rewards(pid, who).share;
        let amount = match remove_value {
            Some(a) => a,
            None => held,
        };
        let removed = if amount <= held {
            amount
        } else {
            held
        };
        let mut paid_out = match self.pool_infos(pid) {
            Some(pool) => {
                if pool.state != PoolState::Ongoing && pool.state != PoolState::Charged
                    && pool.state != PoolState::Dead {
                    return Err(Error::InvalidPoolState);
                }
                split_value(&pool.tokens_proportion, pool.keeper, who, removed, false)
            },
            None => { return Err(Error::PoolDoesNotExist); },
        };
        let mut transfers = self.remove_share(who, pid, amount);
        let ghost payouts = transfers@;
        let ghost refunds = paid_out@;
        transfers.append(&mut paid_out);
        proof {
            assert(transfers@ =~= payouts + refunds);
        }
        Ok(transfers)
    }

    /// Settles what pool `pid` owes `who`, and what the position of `who` in
    /// the pool's gauge pool has earned. Admitted while the pool is ongoing
    /// or dead. Returns the payouts.
    pub fn claim(&mut self, who: AccountId, pid: PoolId) -> (r: Result<Vec<Transfer>, Error>)
        requires
            old(self).wf(),
        ensures
            final(self).wf(),
            match claim_spec(old(self)@, who, pid) {
                Ok(w) => r is Ok && r->Ok_0@ == w.1 && final(self)@ == w.0,
                Err(e) => r == Err::<Vec<Transfer>, Error>(e) && final(self)@ == old(self)@,
            },
    {
        let gauge = match self.pool_infos(pid) {
            Some(pool) => {
                if pool.state != PoolState::Ongoing && pool.state != PoolState::Dead {
                    return Err(Error::InvalidPoolState);
                }
                pool.gauge
            },
            None => { return Err(Error::PoolDoesNotExist); },
        };
        let ghost v0 = self@;
        let ghost claimed = claim_rewards_spec(v0, who, pid);
        let mut boosted = match gauge {
            Some(gid) => {
                proof {
                    lemma_claim_then_gauge(v0, who, pid, gid);
                }
                match self.gauge_claim(who, gid) {
                    Ok(t) => t,
                    Err(e) => { return Err(e); },
                }
            },
            None => Vec::new(),
        };
        let mut transfers = self.claim_rewards(who, pid);
        let ghost payouts = transfers@;
        let ghost extra = boosted@;
        transfers.append(&mut boosted);
        proof {
            assert(transfers@ =~= payouts + extra);
            if gauge is None {
                assert(payouts + extra =~= payouts);
            }
        }
        Ok(transfers)
    }

    /// Pays `who` the boosted reward of the position in gauge pool `gid`.
    /// Returns the payouts.
    pub fn gauge_withdraw(&mut self, who: AccountId, gid: PoolId) -> (r: Result<
        Vec<Transfer>,
        Error,
    >)
        requires
            old(self).wf(),
        ensures
            final(self).wf(),
            match gauge_claim_spec(old(self)@, who, gid) {
                Ok(w) => r is Ok && r->Ok_0@ == w.1 && final(self)@ == w.0,
                Err(e) => r == Err::<Vec<Transfer>, Error>(e) && final(self)@ == old(self)@,
            },
    {
        self.gauge_claim(who, gid)
    }
}

/// A claim from a pool and a claim from a gauge pool do not depend on each
/// other: either order leaves the same store and pays the same.
pub proof fn lemma_claim_then_gauge(v: PalletView, who: AccountId, pid: PoolId, gid: PoolId)
    ensures
        match gauge_claim_spec(v, who, gid) {
            Ok(w) => gauge_claim_spec(claim_rewards_spec(v, who, pid).0, who, gid) matches Ok(x)
                && x.1 == w.1 && x.0 == claim_rewards_spec(w.0, who, pid).0
                && claim_rewards_spec(w.0, who, pid).1 == claim_rewards_spec(v, who, pid).1,
            Err(e) => gauge_claim_spec(claim_rewards_spec(v, who, pid).0, who, gid) == Err::<
                (PalletView, Seq<Transfer>),
                Error,
            >(e),
        },
{
    let v1 = claim_rewards_spec(v, who, pid).0;
    if v.gauge_pool_infos.contains_key(gid) && v.pool_infos.contains_key(
        v.gauge_pool_infos[gid].pid,
    ) {
        let gauge_pool = v.gauge_pool_infos[gid];
        let position = gauge_record(v, gid, who);
        let pool = v.pool_infos[gauge_pool.pid];
        let pool1 = v1.pool_infos[gauge_pool.pid];
        assert(pool1.basic_rewards == pool.basic_rewards);
        assert(pool1.keeper == pool.keeper);
        assert(gauge_claim_fits(pool1, position, gauge_pool, v.block_number) == gauge_claim_fits(
            pool,
            position,
            gauge_pool,
            v.block_number,
        ));
        assert(gauge_claim_payouts(pool1, position, gauge_pool, v.block_number)
            =~= gauge_claim_payouts(pool, position, gauge_pool, v.block_number));
    }
}

/// The store after the gauge claims of `holders` of gauge pool `gid` are
/// settled in their order, and the payouts. The first claim that is rejected
/// rejects them all.
pub open spec fn gauge_claim_each(v: PalletView, gid: PoolId, holders: Seq<AccountId>) -> Result<
    (PalletView, Seq<Transfer>),
    Error,
>
    decreases holders.len(),
{
    if holders.len() == 0 {
        Ok((v, Seq::empty()))
    } else {
        match gauge_claim_each(v, gid, holders.drop_last()) {
            Err(e) => Err(e),
            Ok(done) => match gauge_claim_spec(done.0, holders.last(), gid) {
                Err(e) => Err(e),
                Ok(one) => Ok((one.0, done.1 + one.1)),
            },
        }
    }
}

/// The store after the gauge claim of every position of gauge pool `gid` is
/// settled, by ascending account, and the payouts.
pub open spec fn force_gauge_claim_spec(v: PalletView, gid: PoolId) -> Result<
    (PalletView, Seq<Transfer>),
    Error,
> {
    gauge_claim_each(v, gid, sorted_u64(positions_of(v.gauge_infos, gid).dom()))
}

/// A rejection among the first `k` claims rejects the whole list.
pub proof fn lemma_gauge_claim_each_rejected(
    v: PalletView,
    gid: PoolId,
    holders: Seq<AccountId>,
    k: int,
)
    requires
        0 <= k <= holders.len(),
        gauge_claim_each(v, gid, holders.take(k)) is Err,
    ensures
        gauge_claim_each(v, gid, holders) == gauge_claim_each(v, gid, holders.take(k)),
    decreases holders.len(),
{
    if k == holders.len() {
        assert(holders.take(k) =~= holders);
    } else {
        assert(holders.drop_last().take(k) =~= holders.take(k));
        lemma_gauge_claim_each_rejected(v, gid, holders.drop_last(), k);
    }
}

impl Pallet {
    /// Pays every position of gauge pool `gid` its boosted reward, by
    /// ascending account. Where one claim is rejected, nothing is changed.
    /// Returns the payouts.
    pub fn force_gauge_claim(&mut self, gid: PoolId) -> (r: Result<Vec<Transfer>, Error>)
        requires
            old(self).wf(),
        ensures
            final(self).wf(),
            match force_gauge_claim_spec(old(self)@, gid) {
                Ok(w) => r is Ok && r->Ok_0@ == w.1 && final(self)@ == w.0,
                Err(e) => r == Err::<Vec<Transfer>, Error>(e) && final(self)@ == old(self)@,
            },
    {
        let ghost v0 = self@;
        let holders = self.gauge_holders(gid);
        let mut saved: Vec<GaugeInfo> = Vec::new();
        let mut transfers: Vec<Transfer> = Vec::new();
        let mut failed: Option<Error> = None;
        let mut i: usize = 0;
        while i < holders.len() && failed.is_none()
            invariant
                0 <= i <= holders.len(),
                self.wf(),
                valid(v0),
                ascending_u64(holders@, positions_of(v0.gauge_infos, gid).dom()),
                saved@.len() == i,
                self@ == (PalletView { gauge_infos: self@.gauge_infos, ..v0 }),
                self@.gauge_infos.dom() == v0.gauge_infos.dom(),
                forall|k: (PoolId, AccountId)|
                    k.0 != gid && #[trigger] v0.gauge_infos.contains_key(k)
                        ==> self@.gauge_infos[k] == v0.gauge_infos[k],
                forall|j: int|
                    #![trigger holders@[j]]
                    0 <= j < i ==> saved@[j]@ == v0.gauge_infos[(gid, holders@[j])],
                forall|j: int|
                    #![trigger holders@[j]]
                    i <= j < holders.len() ==> self@.gauge_infos[(gid, holders@[j])]
                        == v0.gauge_infos[(gid, holders@[j])],
                failed is None ==> gauge_claim_each(v0, gid, holders@.take(i as int)) == Ok::<
                    (PalletView, Seq<Transfer>),
                    Error,
                >((self@, transfers@)),
                failed is Some ==> gauge_claim_each(v0, gid, holders@) == Err::<
                    (PalletView, Seq<Transfer>),
                    Error,
                >(failed->0),
            decreases holders.len() - i + (if failed is None { 1int } else { 0int }),
        {
            let who = holders[i];
            proof {
                assert(holders@.take(i + 1).drop_last() =~= holders@.take(i as int));
                assert(holders@.take(i + 1).last() == who);
                assert(holders@.contains(who));
                assert(positions_of(v0.gauge_infos, gid).dom().contains(who));
                assert(v0.gauge_infos.contains_key((gid, who)));
                assert(self@.gauge_infos.dom().contains((gid, who)));
            }
            let before = self.gauge_infos(gid, who);
            let ghost pre = self@;
            match self.gauge_claim(who, gid) {
                Ok(mut payouts) => {
                    let ghost so_far = transfers@;
                    let ghost paid = payouts@;
                    transfers.append(&mut payouts);
                    saved.push(before);
                    proof {
                        assert(transfers@ =~= so_far + paid);
                        assert(self@.gauge_infos.dom() =~= v0.gauge_infos.dom());
                        assert forall|j: int| 0 <= j < i implies holders@[j] != who by {}
                        assert forall|j: int| i < j < holders.len() implies holders@[j] != who by {}
                    }
                    i += 1;
                },
                Err(e) => {
                    proof {
                        lemma_gauge_claim_each_rejected(v0, gid, holders@, i + 1);
                    }
                    failed = Some(e);
                },
            }
        }
        match failed {
            None => {
                proof {
                    assert(holders@.take(holders@.len() as int) =~= holders@);
                }
                Ok(transfers)
            },
            Some(e) => {
                let mut j: usize = 0;
                while j < i
                    invariant
                        0 <= j <= i <= holders.len(),
                        saved@.len() == i,
                        ascending_u64(holders@, positions_of(v0.gauge_infos, gid).dom()),
                        self@ == (PalletView { gauge_infos: self@.gauge_infos, ..v0 }),
                        self@.gauge_infos.dom() == v0.gauge_infos.dom(),
                        forall|k: (PoolId, AccountId)|
                            k.0 != gid && #[trigger] v0.gauge_infos.contains_key(k)
                                ==> self@.gauge_infos[k] == v0.gauge_infos[k],
                        forall|x: int|
                            #![trigger holders@[x]]
                            0 <= x < i ==> saved@[x]@ == v0.gauge_infos[(gid, holders@[x])],
                        forall|x: int|
                            #![trigger holders@[x]]
                            (0 <= x < j || i <= x < holders.len())
                                ==> self@.gauge_infos[(gid, holders@[x])]
                                == v0.gauge_infos[(gid, holders@[x])],
                    decreases i - j,
                {
                    let who = holders[j];
                    proof {
                        assert(holders@.contains(who));
                        assert(positions_of(v0.gauge_infos, gid).dom().contains(who));
                        assert(v0.gauge_infos.contains_key((gid, who)));
                    }
                    let record = saved[j].duplicate();
                    self.put_gauge(gid, who, record);
                    proof {
                        assert(self@.gauge_infos.dom() =~= v0.gauge_infos.dom());
                        assert forall|x: int| 0 <= x < j implies holders@[x] != who by {}
                        assert forall|x: int| j < x < holders.len() implies holders@[x] != who by {}
                    }
                    j += 1;
                }
                proof {
                    assert forall|k: (PoolId, AccountId)| #[trigger]
                        v0.gauge_infos.contains_key(k) implies self@.gauge_infos[k]
                        == v0.gauge_infos[k] by {
                        if k.0 == gid {
                            assert(positions_of(v0.gauge_infos, gid).dom().contains(k.1));
                            assert(holders@.contains(k.1));
                            let x = choose|x: int| 0 <= x < holders@.len() && holders@[x] == k.1;
                            assert(self@.gauge_infos[(gid, holders@[x])] == v0.gauge_infos[(
                                gid,
                                holders@[x],
                            )]);
                        }
                    }
                    assert(self@.gauge_infos =~= v0.gauge_infos);
                }
                Err(e)
            },
        }
    }
}

} // verus!
