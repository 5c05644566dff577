//! The gauge booster on the store: creating a gauge pool, locking into it,
//! claiming boosted reward and taking the locked amount back.

use crate::gauge::{
    account_lock, account_lock_fits, gauge_claim_account, gauge_claim_fits, gauge_claim_for,
    gauge_claim_payouts, lock_into_account, lock_into_pool, pool_lock, pool_lock_fits, pool_unlock,
    pool_unlock_fits, unlock_from_pool, GaugePoolInfo, GaugePoolInfoView,
};
use crate::pallet::{
    gauge_record, lemma_create_gauge_valid, lemma_drop_gauge_valid, lemma_locked_le_total,
    lemma_write_gauge_valid, valid, Pallet, PalletView,
};
use crate::permill::Permill;
use crate::primitives::{
    AccountId, Balance, BlockNumber, CurrencyId, Error, GaugeState, PoolId, Transfer,
};
use crate::rewards::{PoolInfo, PoolInfoView};
use vstd::prelude::*;

verus! {

/// The gauge pool that is created at block `now` for farming pool `pid`.
pub open spec fn fresh_gauge_pool(
    pid: PoolId,
    token: CurrencyId,
    coefficient: Permill,
    max_block: BlockNumber,
    now: BlockNumber,
) -> GaugePoolInfoView {
    GaugePoolInfoView {
        pid,
        token,
        rewards: Map::empty(),
        coefficient,
        max_block,
        gauge_amount: 0,
        gauge_time_factor: 0,
        gauge_state: GaugeState::Bonded,
        gauge_start_block: now,
        gauge_last_block: now,
    }
}

/// The store after a gauge pool is created for farming pool `pid`: it gets
/// the next gauge pool id, and the counter moves on.
pub open spec fn create_gauge_pool_spec(
    v: PalletView,
    pid: PoolId,
    token: CurrencyId,
    coefficient: Permill,
    max_block: BlockNumber,
) -> Result<PalletView, Error> {
    if v.gauge_pool_next_id + 1 > u32::MAX {
        Err(Error::CalculationOverflow)
    } else {
        Ok(
            PalletView {
                gauge_pool_infos: v.gauge_pool_infos.insert(
                    v.gauge_pool_next_id,
                    fresh_gauge_pool(pid, token, coefficient, max_block, v.block_number),
                ),
                gauge_pool_next_id: (v.gauge_pool_next_id + 1) as u32,
                ..v
            },
        )
    }
}

/// The store after `who` has locked `value` of the boost currency for `lock`
/// blocks into gauge pool `gid` of farming pool `pid`, and the transfer of
/// `value` to the keeper.
pub open spec fn gauge_add_spec(
    v: PalletView,
    who: AccountId,
    pid: PoolId,
    gid: PoolId,
    value: Balance,
    lock: BlockNumber,
) -> Result<(PalletView, Transfer), Error> {
    if !v.gauge_pool_infos.contains_key(gid) {
        Err(Error::GaugePoolNotExist)
    } else {
        let gauge_pool = v.gauge_pool_infos[gid];
        let position = gauge_record(v, gid, who);
        if !pool_lock_fits(gauge_pool, v.block_number, value) || !account_lock_fits(
            position,
            v.block_number,
            value,
            lock,
        ) {
            Err(Error::CalculationOverflow)
        } else if !v.pool_infos.contains_key(pid) {
            Err(Error::PoolDoesNotExist)
        } else {
            Ok(
                (
                    PalletView {
                        gauge_pool_infos: v.gauge_pool_infos.insert(
                            gid,
                            pool_lock(gauge_pool, v.block_number, value),
                        ),
                        gauge_infos: v.gauge_infos.insert(
                            (gid, who),
                            account_lock(position, v.block_number, value, lock),
                        ),
                        ..v
                    },
                    Transfer {
                        currency: gauge_pool.token,
                        from: who,
                        to: v.pool_infos[pid].keeper,
                        amount: value,
                    },
                ),
            )
        }
    }
}

/// The store after `who` has claimed the boosted reward of the position in
/// gauge pool `gid`, and the payouts of the claim.
pub open spec fn gauge_claim_spec(v: PalletView, who: AccountId, gid: PoolId) -> Result<
    (PalletView, Seq<Transfer>),
    Error,
> {
    if !v.gauge_pool_infos.contains_key(gid) {
        Err(Error::GaugePoolNotExist)
    } else if !v.pool_infos.contains_key(v.gauge_pool_infos[gid].pid) {
        Err(Error::PoolDoesNotExist)
    } else {
        let gauge_pool = v.gauge_pool_infos[gid];
        let pool = v.pool_infos[gauge_pool.pid];
        let position = gauge_record(v, gid, who);
        if !gauge_claim_fits(pool, position, gauge_pool, v.block_number) {
            Err(Error::CalculationOverflow)
        } else {
            Ok(
                (
                    PalletView {
                        gauge_infos: v.gauge_infos.insert(
                            (gid, who),
                            gauge_claim_account(position, v.block_number),
                        ),
                        ..v
                    },
                    gauge_claim_payouts(pool, position, gauge_pool, v.block_number),
                ),
            )
        }
    }
}

/// The store after `who` has taken back what is locked in gauge pool `gid`
/// of farming pool `pid`, and the transfer of it from the keeper. The
/// position is dropped.
pub open spec fn gauge_remove_spec(
    v: PalletView,
    who: AccountId,
    pid: PoolId,
    gid: PoolId,
) -> Result<(PalletView, Transfer), Error> {
    if !v.gauge_pool_infos.contains_key(gid) {
        Err(Error::GaugePoolNotExist)
    } else if !v.pool_infos.contains_key(pid) {
        Err(Error::PoolDoesNotExist)
    } else {
        let gauge_pool = v.gauge_pool_infos[gid];
        let position = gauge_record(v, gid, who);
        if v.block_number < position.gauge_stop_block {
            Err(Error::CanNotWithdraw)
        } else if !pool_unlock_fits(gauge_pool, v.block_number) {
            Err(Error::CalculationOverflow)
        } else {
            Ok(
                (
                    PalletView {
                        gauge_pool_infos: v.gauge_pool_infos.insert(
                            gid,
                            pool_unlock(gauge_pool, v.block_number, position.gauge_amount),
                        ),
                        gauge_infos: v.gauge_infos.remove((gid, who)),
                        ..v
                    },
                    Transfer {
                        currency: gauge_pool.token,
                        from: v.pool_infos[pid].keeper,
                        to: who,
                        amount: position.gauge_amount,
                    },
                ),
            )
        }
    }
}

/// Creating a gauge pool keeps the store valid.
pub proof fn lemma_create_gauge_pool_valid(
    v: PalletView,
    pid: PoolId,
    token: CurrencyId,
    coefficient: Permill,
    max_block: BlockNumber,
)
    requires
        valid(v),
    ensures
        create_gauge_pool_spec(v, pid, token, coefficient, max_block) matches Ok(w) ==> valid(w),
{
    if create_gauge_pool_spec(v, pid, token, coefficient, max_block) is Ok {
        lemma_create_gauge_valid(
            v,
            fresh_gauge_pool(pid, token, coefficient, max_block, v.block_number),
        );
    }
}

/// Locking keeps the store valid.
pub proof fn lemma_gauge_add_valid(
    v: PalletView,
    who: AccountId,
    pid: PoolId,
    gid: PoolId,
    value: Balance,
    lock: BlockNumber,
)
    requires
        valid(v),
    ensures
        gauge_add_spec(v, who, pid, gid, value, lock) matches Ok(w) ==> valid(w.0),
{
    if gauge_add_spec(v, who, pid, gid, value, lock) is Ok {
        let gauge_pool = v.gauge_pool_infos[gid];
        let position = gauge_record(v, gid, who);
        lemma_write_gauge_valid(
            v,
            gid,
            who,
            pool_lock(gauge_pool, v.block_number, value),
            account_lock(position, v.block_number, value, lock),
        );
    }
}

/// A gauge claim keeps the store valid.
pub proof fn lemma_gauge_claim_valid(v: PalletView, who: AccountId, gid: PoolId)
    requires
        valid(v),
    ensures
        gauge_claim_spec(v, who, gid) matches Ok(w) ==> valid(w.0),
{
    if gauge_claim_spec(v, who, gid) is Ok {
        let gauge_pool = v.gauge_pool_infos[gid];
        let position = gauge_record(v, gid, who);
        lemma_write_gauge_valid(
            v,
            gid,
            who,
            gauge_pool,
            gauge_claim_account(position, v.block_number),
        );
        assert(v.gauge_pool_infos.insert(gid, gauge_pool) =~= v.gauge_pool_infos);
    }
}

/// Taking the locked amount back keeps the store valid.
pub proof fn lemma_gauge_remove_valid(v: PalletView, who: AccountId, pid: PoolId, gid: PoolId)
    requires
        valid(v),
    ensures
        gauge_remove_spec(v, who, pid, gid) matches Ok(w) ==> valid(w.0),
{
    if gauge_remove_spec(v, who, pid, gid) is Ok {
        let gauge_pool = v.gauge_pool_infos[gid];
        let position = gauge_record(v, gid, who);
        lemma_locked_le_total(v, gid, who);
        lemma_drop_gauge_valid(
            v,
            gid,
            who,
            pool_unlock(gauge_pool, v.block_number, position.gauge_amount),
        );
    }
}

impl Pallet {
    /// Creates a bonded gauge pool for farming pool `pid` under the next
    /// gauge pool id, and notes that id in `pool_info`.
    pub fn create_gauge_pool(
        &mut self,
        pid: PoolId,
        pool_info: &mut PoolInfo,
        gauge_token: CurrencyId,
        coefficient: Permill,
        max_block: BlockNumber,
    ) -> (r: Result<(), Error>)
        requires
            old(self).wf(),
        ensures
            final(self).wf(),
            match create_gauge_pool_spec(old(self)@, pid, gauge_token, coefficient, max_block) {
                Ok(w) => r is Ok && final(self)@ == w && final(pool_info)@ == (PoolInfoView {
                    gauge: Some(old(self)@.gauge_pool_next_id),
                    ..old(pool_info)@
                }),
                Err(e) => r == Err::<(), Error>(e) && final(self)@ == old(self)@
                    && final(pool_info)@ == old(pool_info)@,
            },
    {
        let gid = self.gauge_pool_next_id();
        let next = match gid.checked_add(1) {
            Some(v) => v,
            None => { return Err(Error::CalculationOverflow); },
        };
        proof {
            lemma_create_gauge_pool_valid(self@, pid, gauge_token, coefficient, max_block);
        }
        pool_info.gauge = Some(gid);
        let gauge_pool = GaugePoolInfo::new(
            pid,
            gauge_token,
            coefficient,
            max_block,
            self.block_number(),
        );
        self.put_gauge_pool(gid, gauge_pool);
        self.set_gauge_pool_next_id(next);
        Ok(())
    }

    /// Locks `gauge_value` of the boost currency for `gauge_block` blocks
    /// into the position of `who` in gauge pool `gid`. The time factors of
    /// the gauge pool and of the position are first brought up to the
    /// current block. Returns the transfer of `gauge_value` from `who` to the
    /// keeper of farming pool `pid`.
    pub fn gauge_add(
        &mut self,
        who: AccountId,
        pid: PoolId,
        gid: PoolId,
        gauge_value: Balance,
        gauge_block: BlockNumber,
    ) -> (r: Result<Transfer, Error>)
        requires
            old(self).wf(),
        ensures
            final(self).wf(),
            match gauge_add_spec(old(self)@, who, pid, gid, gauge_value, gauge_block) {
                Ok(w) => r == Ok::<Transfer, Error>(w.1) && final(self)@ == w.0,
                Err(e) => r == Err::<Transfer, Error>(e) && final(self)@ == old(self)@,
            },
    {
        let now = self.block_number();
        let position = self.gauge_infos(gid, who);
        let (new_pool, token) = match self.gauge_pool_infos(gid) {
            Some(gauge_pool) => (lock_into_pool(gauge_pool, now, gauge_value), gauge_pool.token),
            None => { return Err(Error::GaugePoolNotExist); },
        };
        let new_pool = match new_pool {
            Some(g) => g,
            None => { return Err(Error::CalculationOverflow); },
        };
        let new_position = match lock_into_account(&position, now, gauge_value, gauge_block) {
            Some(g) => g,
            None => { return Err(Error::CalculationOverflow); },
        };
        let keeper = match self.pool_infos(pid) {
            Some(pool) => pool.keeper,
            None => { return Err(Error::PoolDoesNotExist); },
        };
        proof {
            lemma_gauge_add_valid(self@, who, pid, gid, gauge_value, gauge_block);
        }
        self.put_gauge_pool(gid, new_pool);
        self.put_gauge(gid, who, new_position);
        Ok(Transfer { currency: token, from: who, to: keeper, amount: gauge_value })
    }

    /// Pays `who` the boosted reward of the position in gauge pool `gid`:
    /// for every basic reward of the farming pool, the reward a block times
    /// the blocks since the last claim, weighed by the position's part of the
    /// gauge pool's time factor. Returns the payouts by ascending currency.
    pub fn gauge_claim(&mut self, who: AccountId, gid: PoolId) -> (r: Result<Vec<Transfer>, Error>)
        requires
            old(self).wf(),
        ensures
            final(self).wf(),
            match gauge_claim_spec(old(self)@, who, gid) {
                Ok(w) => r is Ok && r->Ok_0@ == w.1 && final(self)@ == w.0,
                Err(e) => r == Err::<Vec<Transfer>, Error>(e) && final(self)@ == old(self)@,
            },
    {
        let now = self.block_number();
        let position = self.gauge_infos(gid, who);
        let settled = match self.gauge_pool_infos(gid) {
            Some(gauge_pool) => match self.pool_infos(gauge_pool.pid) {
                Some(pool) => gauge_claim_for(gauge_pool, pool, &position, now),
                None => { return Err(Error::PoolDoesNotExist); },
            },
            None => { return Err(Error::GaugePoolNotExist); },
        };
        match settled {
            Some((new_position, payouts)) => {
                proof {
                    lemma_gauge_claim_valid(self@, who, gid);
                }
                self.put_gauge(gid, who, new_position);
                Ok(payouts)
            },
            None => Err(Error::CalculationOverflow),
        }
    }

    /// Takes back what `who` has locked in gauge pool `gauge`, once the
    /// position has matured, and drops the position. The time factor of the
    /// gauge pool is first brought up to the current block. Returns the
    /// transfer of the locked amount from the keeper of farming pool `pool`
    /// to `who`.
    pub fn gauge_remove(&mut self, who: AccountId, pool: PoolId, gauge: PoolId) -> (r: Result<
        Transfer,
        Error,
    >)
        requires
            old(self).wf(),
        ensures
            final(self).wf(),
            match gauge_remove_spec(old(self)@, who, pool, gauge) {
                Ok(w) => r == Ok::<Transfer, Error>(w.1) && final(self)@ == w.0,
                Err(e) => r == Err::<Transfer, Error>(e) && final(self)@ == old(self)@,
            },
    {
        let now = self.block_number();
        let position = self.gauge_infos(gauge, who);
        let gauge_token = match self.gauge_pool_infos(gauge) {
            Some(gauge_pool) => gauge_pool.token,
            None => { return Err(Error::GaugePoolNotExist); },
        };
        let keeper = match self.pool_infos(pool) {
            Some(p) => p.keeper,
            None => { return Err(Error::PoolDoesNotExist); },
        };
        if now < position.gauge_stop_block {
            return Err(Error::CanNotWithdraw);
        }
        let new_pool = match self.gauge_pool_infos(gauge) {
            Some(gauge_pool) => unlock_from_pool(gauge_pool, now, position.gauge_amount),
            None => None,
        };
        match new_pool {
            Some(g) => {
                proof {
                    lemma_gauge_remove_valid(self@, who, pool, gauge);
                }
                self.put_gauge_pool(gauge, g);
                self.drop_gauge(gauge, who);
                Ok(
                    Transfer {
                        currency: gauge_token,
                        from: keeper,
                        to: who,
                        amount: position.gauge_amount,
                    },
                )
            },
            None => Err(Error::CalculationOverflow),
        }
    }
}

} // verus!
