//! The store of all pools and positions, and the operations on it.
//!
//! A [`Pallet`] holds every record; its view, a [`PalletView`], is what the
//! contracts speak of. Each operation either succeeds and leaves the store as
//! its specification function says, or is rejected and leaves it untouched.
//! Money is never moved here: an operation returns the transfers that the
//! currency ledger is to make, in order.
//!
//! * [`view`] defines the view and what makes a store valid.
//! * [`shares`] is the reward accumulator, [`gauges`] the gauge booster.
//! * [`lifecycle`] is the tick and the administration of pools.
//! * [`depositor`] is what a depositor asks of a pool.
//! * [`validity`] proves that the writes of the operations keep a store valid.

use crate::gauge::{GaugeInfo, GaugeInfoView, GaugePoolInfo};
use crate::ordered::{ascending_u32, ascending_u64, keys_u32, keys_u64, sorted_u32, sorted_u64};
use crate::primitives::{AccountId, BlockNumber, Error, PoolId};
use crate::rewards::{PoolInfo, ShareInfo, ShareInfoView};
use std::collections::BTreeMap;
use vstd::prelude::*;

pub mod depositor;
pub mod gauges;
pub mod lifecycle;
pub mod shares;
pub mod validity;
pub mod view;

pub use crate::pallet::validity::{
    lemma_create_gauge_valid, lemma_create_pool_valid, lemma_drop_gauge_valid,
    lemma_drop_share_valid, lemma_locked_le_total, lemma_share_le_total,
    lemma_write_gauge_pool_valid, lemma_write_gauge_valid, lemma_write_pool_valid,
    lemma_write_share_valid,
};
pub use crate::pallet::view::{
    accounts_of, debts_conserved, gauge_linked, gauge_record, gauges_linked, keeper_free,
    keepers_exclusive, locked_conserved, nothing_over_withdrawn, paid_out, positions_of,
    share_record, shares_conserved, valid, valid_gauges, valid_pools, PalletView,
};

verus! {

/// The store: every farming pool, gauge pool and position, the two id
/// counters and the current block.
pub struct Pallet {
    block_number: BlockNumber,
    pool_next_id: PoolId,
    gauge_pool_next_id: PoolId,
    pool_infos: BTreeMap<PoolId, PoolInfo>,
    gauge_pool_infos: BTreeMap<PoolId, GaugePoolInfo>,
    gauge_infos: BTreeMap<PoolId, BTreeMap<AccountId, GaugeInfo>>,
    shares_and_withdrawn_rewards: BTreeMap<PoolId, BTreeMap<AccountId, ShareInfo>>,
}

spec fn flat_shares(m: Map<PoolId, BTreeMap<AccountId, ShareInfo>>) -> Map<
    (PoolId, AccountId),
    ShareInfoView,
> {
    Map::new(
        |k: (PoolId, AccountId)| m.contains_key(k.0) && m[k.0]@.contains_key(k.1),
        |k: (PoolId, AccountId)| m[k.0]@[k.1]@,
    )
}

spec fn flat_gauges(m: Map<PoolId, BTreeMap<AccountId, GaugeInfo>>) -> Map<
    (PoolId, AccountId),
    GaugeInfoView,
> {
    Map::new(
        |k: (PoolId, AccountId)| m.contains_key(k.0) && m[k.0]@.contains_key(k.1),
        |k: (PoolId, AccountId)| m[k.0]@[k.1]@,
    )
}

spec fn same_shares(
    a: BTreeMap<AccountId, ShareInfo>,
    b: BTreeMap<AccountId, ShareInfo>,
) -> bool {
    &&& a@.dom() == b@.dom()
    &&& forall|who: AccountId| #[trigger] a@.contains_key(who) ==> a@[who]@ == b@[who]@
}

spec fn same_gauges(
    a: BTreeMap<AccountId, GaugeInfo>,
    b: BTreeMap<AccountId, GaugeInfo>,
) -> bool {
    &&& a@.dom() == b@.dom()
    &&& forall|who: AccountId| #[trigger] a@.contains_key(who) ==> a@[who]@ == b@[who]@
}

fn copy_shares(accounts: &BTreeMap<AccountId, ShareInfo>) -> (r: BTreeMap<AccountId, ShareInfo>)
    ensures
        same_shares(r, *accounts),
{
    let mut out: BTreeMap<AccountId, ShareInfo> = BTreeMap::new();
    let keys = keys_u64(accounts);
    let mut i: usize = 0;
    while i < keys.len()
        invariant
            0 <= i <= keys.len(),
            ascending_u64(keys@, accounts@.dom()),
            forall|who: AccountId| #[trigger]
                out@.contains_key(who) ==> accounts@.contains_key(who) && out@[who]@
                    == accounts@[who]@,
            forall|j: int| #![trigger keys@[j]] 0 <= j < i ==> out@.contains_key(keys@[j]),
        decreases keys.len() - i,
    {
        let who = keys[i];
        proof {
            assert(keys@.contains(who));
        }
        match accounts.get(&who) {
            Some(record) => {
                out.insert(who, record.duplicate());
            },
            None => {},
        }
        i += 1;
    }
    proof {
        assert forall|who: AccountId| accounts@.contains_key(who) implies out@.contains_key(
            who,
        ) by {
            assert(keys@.contains(who));
            let j = choose|j: int| 0 <= j < keys@.len() && keys@[j] == who;
            assert(out@.contains_key(keys@[j]));
        }
        assert(out@.dom() =~= accounts@.dom());
    }
    out
}

fn copy_gauges(positions: &BTreeMap<AccountId, GaugeInfo>) -> (r: BTreeMap<AccountId, GaugeInfo>)
    ensures
        same_gauges(r, *positions),
{
    let mut out: BTreeMap<AccountId, GaugeInfo> = BTreeMap::new();
    let keys = keys_u64(positions);
    let mut i: usize = 0;
    while i < keys.len()
        invariant
            0 <= i <= keys.len(),
            ascending_u64(keys@, positions@.dom()),
            forall|who: AccountId| #[trigger]
                out@.contains_key(who) ==> positions@.contains_key(who) && out@[who]@
                    == positions@[who]@,
            forall|j: int| #![trigger keys@[j]] 0 <= j < i ==> out@.contains_key(keys@[j]),
        decreases keys.len() - i,
    {
        let who = keys[i];
        proof {
            assert(keys@.contains(who));
        }
        match positions.get(&who) {
            Some(record) => {
                out.insert(who, record.duplicate());
            },
            None => {},
        }
        i += 1;
    }
    proof {
        assert forall|who: AccountId| positions@.contains_key(who) implies out@.contains_key(
            who,
        ) by {
            assert(keys@.contains(who));
            let j = choose|j: int| 0 <= j < keys@.len() && keys@[j] == who;
            assert(out@.contains_key(keys@[j]));
        }
        assert(out@.dom() =~= positions@.dom());
    }
    out
}

impl View for Pallet {
    type V = PalletView;

    closed spec fn view(&self) -> PalletView {
        PalletView {
            block_number: self.block_number,
            pool_next_id: self.pool_next_id,
            gauge_pool_next_id: self.gauge_pool_next_id,
            pool_infos: self.pool_infos@.map_values(|p: PoolInfo| p@),
            gauge_pool_infos: self.gauge_pool_infos@.map_values(|g: GaugePoolInfo| g@),
            gauge_infos: flat_gauges(self.gauge_infos@),
            shares: flat_shares(self.shares_and_withdrawn_rewards@),
        }
    }
}

impl Pallet {
    /// The store is one that the operations can reach.
    pub open spec fn wf(&self) -> bool {
        valid(self@)
    }

    /// An empty store at block zero.
    pub fn new() -> (r: Pallet)
        ensures
            r.wf(),
            r@ == (PalletView {
                block_number: 0,
                pool_next_id: 0,
                gauge_pool_next_id: 0,
                pool_infos: Map::empty(),
                gauge_pool_infos: Map::empty(),
                gauge_infos: Map::empty(),
                shares: Map::empty(),
            }),
    {
        let r = Pallet {
            block_number: 0,
            pool_next_id: 0,
            gauge_pool_next_id: 0,
            pool_infos: BTreeMap::new(),
            gauge_pool_infos: BTreeMap::new(),
            gauge_infos: BTreeMap::new(),
            shares_and_withdrawn_rewards: BTreeMap::new(),
        };
        proof {
            assert(r@.pool_infos =~= Map::empty());
            assert(r@.gauge_pool_infos =~= Map::empty());
            assert(r@.gauge_infos =~= Map::empty());
            assert(r@.shares =~= Map::empty());
            assert forall|pid: PoolId| #[trigger]
                accounts_of(r@.shares, pid).dom().finite() by {
                assert(accounts_of(r@.shares, pid).dom() =~= Set::empty());
            }
            assert forall|gid: PoolId| #[trigger]
                positions_of(r@.gauge_infos, gid).dom().finite() by {
                assert(positions_of(r@.gauge_infos, gid).dom() =~= Set::empty());
            }
        }
        r
    }

    /// The current block.
    pub fn block_number(&self) -> (r: BlockNumber)
        ensures
            r == self@.block_number,
    {
        self.block_number
    }

    /// The id that the next farming pool gets.
    pub fn pool_next_id(&self) -> (r: PoolId)
        ensures
            r == self@.pool_next_id,
    {
        self.pool_next_id
    }

    /// The id that the next gauge pool gets.
    pub fn gauge_pool_next_id(&self) -> (r: PoolId)
        ensures
            r == self@.gauge_pool_next_id,
    {
        self.gauge_pool_next_id
    }

    /// The farming pool `pid`, if there is one.
    pub fn pool_infos(&self, pid: PoolId) -> (r: Option<&PoolInfo>)
        ensures
            r is Some == self@.pool_infos.contains_key(pid),
            r is Some ==> r->0@ == self@.pool_infos[pid],
    {
        self.pool_infos.get(&pid)
    }

    /// The gauge pool `gid`, if there is one.
    pub fn gauge_pool_infos(&self, gid: PoolId) -> (r: Option<&GaugePoolInfo>)
        ensures
            r is Some == self@.gauge_pool_infos.contains_key(gid),
            r is Some ==> r->0@ == self@.gauge_pool_infos[gid],
    {
        self.gauge_pool_infos.get(&gid)
    }

    /// The share record of `who` in pool `pid`; that of an account that
    /// holds nothing where the store has none.
    pub fn shares_and_withdrawn_rewards(&self, pid: PoolId, who: AccountId) -> (r: ShareInfo)
        ensures
            r@ == share_record(self@, pid, who),
    {
        match self.shares_and_withdrawn_rewards.get(&pid) {
            Some(accounts) => match accounts.get(&who) {
                Some(record) => record.duplicate(),
                None => ShareInfo::new(who),
            },
            None => ShareInfo::new(who),
        }
    }

    /// The position of `who` in gauge pool `gid`; that of an account that
    /// has locked nothing where the store has none.
    pub fn gauge_infos(&self, gid: PoolId, who: AccountId) -> (r: GaugeInfo)
        ensures
            r@ == gauge_record(self@, gid, who),
    {
        match self.gauge_infos.get(&gid) {
            Some(positions) => match positions.get(&who) {
                Some(record) => record.duplicate(),
                None => GaugeInfo::new(who),
            },
            None => GaugeInfo::new(who),
        }
    }

    /// The ids of all farming pools, ascending.
    pub fn pool_ids(&self) -> (r: Vec<PoolId>)
        ensures
            ascending_u32(r@, self@.pool_infos.dom()),
            r@ == sorted_u32(self@.pool_infos.dom()),
    {
        proof {
            assert(self@.pool_infos.dom() =~= self.pool_infos@.dom());
        }
        keys_u32(&self.pool_infos)
    }

    /// The ids of all gauge pools, ascending.
    pub fn gauge_pool_ids(&self) -> (r: Vec<PoolId>)
        ensures
            ascending_u32(r@, self@.gauge_pool_infos.dom()),
            r@ == sorted_u32(self@.gauge_pool_infos.dom()),
    {
        proof {
            assert(self@.gauge_pool_infos.dom() =~= self.gauge_pool_infos@.dom());
        }
        keys_u32(&self.gauge_pool_infos)
    }

    /// The accounts that have a share record in pool `pid`, ascending.
    pub fn depositors(&self, pid: PoolId) -> (r: Vec<AccountId>)
        ensures
            ascending_u64(r@, accounts_of(self@.shares, pid).dom()),
            r@ == sorted_u64(accounts_of(self@.shares, pid).dom()),
    {
        match self.shares_and_withdrawn_rewards.get(&pid) {
            Some(accounts) => {
                proof {
                    assert(accounts_of(self@.shares, pid).dom() =~= accounts@.dom());
                }
                keys_u64(accounts)
            },
            None => {
                let none: BTreeMap<AccountId, ShareInfo> = BTreeMap::new();
                proof {
                    assert(accounts_of(self@.shares, pid).dom() =~= none@.dom());
                }
                keys_u64(&none)
            },
        }
    }

    /// The accounts that have a position in gauge pool `gid`, ascending.
    pub fn gauge_holders(&self, gid: PoolId) -> (r: Vec<AccountId>)
        ensures
            ascending_u64(r@, positions_of(self@.gauge_infos, gid).dom()),
            r@ == sorted_u64(positions_of(self@.gauge_infos, gid).dom()),
    {
        match self.gauge_infos.get(&gid) {
            Some(positions) => {
                proof {
                    assert(positions_of(self@.gauge_infos, gid).dom() =~= positions@.dom());
                }
                keys_u64(positions)
            },
            None => {
                let none: BTreeMap<AccountId, GaugeInfo> = BTreeMap::new();
                proof {
                    assert(positions_of(self@.gauge_infos, gid).dom() =~= none@.dom());
                }
                keys_u64(&none)
            },
        }
    }

    /// A copy of the whole store, for a caller that has to restore it: where
    /// the ledger refuses a transfer of an operation, the store as it was
    /// before the operation stands.
    pub fn duplicate(&self) -> (r: Pallet)
        ensures
            r@ == self@,
    {
        let mut pool_infos: BTreeMap<PoolId, PoolInfo> = BTreeMap::new();
        let pids = keys_u32(&self.pool_infos);
        let mut i: usize = 0;
        while i < pids.len()
            invariant
                0 <= i <= pids.len(),
                ascending_u32(pids@, self.pool_infos@.dom()),
                forall|p: PoolId| #[trigger]
                    pool_infos@.contains_key(p) ==> self.pool_infos@.contains_key(p)
                        && pool_infos@[p]@ == self.pool_infos@[p]@,
                forall|j: int|
                    #![trigger pids@[j]]
                    0 <= j < i ==> pool_infos@.contains_key(pids@[j]),
            decreases pids.len() - i,
        {
            let pid = pids[i];
            proof {
                assert(pids@.contains(pid));
            }
            match self.pool_infos.get(&pid) {
                Some(pool) => {
                    pool_infos.insert(pid, pool.duplicate());
                },
                None => {},
            }
            i += 1;
        }
        let mut gauge_pool_infos: BTreeMap<PoolId, GaugePoolInfo> = BTreeMap::new();
        let gids = keys_u32(&self.gauge_pool_infos);
        let mut i: usize = 0;
        while i < gids.len()
            invariant
                0 <= i <= gids.len(),
                ascending_u32(gids@, self.gauge_pool_infos@.dom()),
                forall|g: PoolId| #[trigger]
                    gauge_pool_infos@.contains_key(g) ==> self.gauge_pool_infos@.contains_key(g)
                        && gauge_pool_infos@[g]@ == self.gauge_pool_infos@[g]@,
                forall|j: int|
                    #![trigger gids@[j]]
                    0 <= j < i ==> gauge_pool_infos@.contains_key(gids@[j]),
            decreases gids.len() - i,
        {
            let gid = gids[i];
            proof {
                assert(gids@.contains(gid));
            }
            match self.gauge_pool_infos.get(&gid) {
                Some(gauge_pool) => {
                    gauge_pool_infos.insert(gid, gauge_pool.duplicate());
                },
                None => {},
            }
            i += 1;
        }
        let mut shares: BTreeMap<PoolId, BTreeMap<AccountId, ShareInfo>> = BTreeMap::new();
        let owners = keys_u32(&self.shares_and_withdrawn_rewards);
        let mut i: usize = 0;
        while i < owners.len()
            invariant
                0 <= i <= owners.len(),
                ascending_u32(owners@, self.shares_and_withdrawn_rewards@.dom()),
                forall|p: PoolId| #[trigger]
                    shares@.contains_key(p) ==> self.shares_and_withdrawn_rewards@.contains_key(p)
                        && same_shares(shares@[p], self.shares_and_withdrawn_rewards@[p]),
                forall|j: int|
                    #![trigger owners@[j]]
                    0 <= j < i ==> shares@.contains_key(owners@[j]),
            decreases owners.len() - i,
        {
            let pid = owners[i];
            proof {
                assert(owners@.contains(pid));
            }
            match self.shares_and_withdrawn_rewards.get(&pid) {
                Some(accounts) => {
                    shares.insert(pid, copy_shares(accounts));
                },
                None => {},
            }
            i += 1;
        }
        let mut gauge_infos: BTreeMap<PoolId, BTreeMap<AccountId, GaugeInfo>> = BTreeMap::new();
        let gauges = keys_u32(&self.gauge_infos);
        let mut i: usize = 0;
        while i < gauges.len()
            invariant
                0 <= i <= gauges.len(),
                ascending_u32(gauges@, self.gauge_infos@.dom()),
                forall|g: PoolId| #[trigger]
                    gauge_infos@.contains_key(g) ==> self.gauge_infos@.contains_key(g)
                        && same_gauges(gauge_infos@[g], self.gauge_infos@[g]),
                forall|j: int|
                    #![trigger gauges@[j]]
                    0 <= j < i ==> gauge_infos@.contains_key(gauges@[j]),
            decreases gauges.len() - i,
        {
            let gid = gauges[i];
            proof {
                assert(gauges@.contains(gid));
            }
            match self.gauge_infos.get(&gid) {
                Some(positions) => {
                    gauge_infos.insert(gid, copy_gauges(positions));
                },
                None => {},
            }
            i += 1;
        }
        let r = Pallet {
            block_number: self.block_number,
            pool_next_id: self.pool_next_id,
            gauge_pool_next_id: self.gauge_pool_next_id,
            pool_infos,
            gauge_pool_infos,
            gauge_infos,
            shares_and_withdrawn_rewards: shares,
        };
        proof {
            assert forall|p: PoolId| self.pool_infos@.contains_key(p) implies
                r.pool_infos@.contains_key(
                p,
            ) by {
                assert(pids@.contains(p));
                let j = choose|j: int| 0 <= j < pids@.len() && pids@[j] == p;
                assert(r.pool_infos@.contains_key(pids@[j]));
            }
            assert(r@.pool_infos =~= self@.pool_infos);
            assert forall|g: PoolId|
                self.gauge_pool_infos@.contains_key(g) implies r.gauge_pool_infos@.contains_key(
                g,
            ) by {
                assert(gids@.contains(g));
                let j = choose|j: int| 0 <= j < gids@.len() && gids@[j] == g;
                assert(r.gauge_pool_infos@.contains_key(gids@[j]));
            }
            assert(r@.gauge_pool_infos =~= self@.gauge_pool_infos);
            assert forall|p: PoolId|
                self.shares_and_withdrawn_rewards@.contains_key(
                    p,
                ) implies r.shares_and_withdrawn_rewards@.contains_key(p) by {
                assert(owners@.contains(p));
                let j = choose|j: int| 0 <= j < owners@.len() && owners@[j] == p;
                assert(r.shares_and_withdrawn_rewards@.contains_key(owners@[j]));
            }
            assert(r@.shares =~= self@.shares);
            assert forall|g: PoolId| self.gauge_infos@.contains_key(g) implies
                r.gauge_infos@.contains_key(
                g,
            ) by {
                assert(gauges@.contains(g));
                let j = choose|j: int| 0 <= j < gauges@.len() && gauges@[j] == g;
                assert(r.gauge_infos@.contains_key(gauges@[j]));
            }
            assert(r@.gauge_infos =~= self@.gauge_infos);
        }
        r
    }

    /// Ends an operation once the currency ledger has answered for its
    /// transfers. Where the ledger made them all, the store stays as the
    /// operation left it. Where the ledger refused, the store is put back to
    /// `before`, the copy taken before the operation, and the refusal is
    /// reported.
    pub fn conclude(&mut self, before: Pallet, accepted: bool) -> (r: Result<(), Error>)
        requires
            old(self).wf(),
            before.wf(),
        ensures
            final(self).wf(),
            accepted ==> r is Ok && final(self)@ == old(self)@,
            !accepted ==> r == Err::<(), Error>(Error::NotEnoughBalance) && final(self)@
                == before@,
    {
        if accepted {
            Ok(())
        } else {
            *self = before;
            Err(Error::NotEnoughBalance)
        }
    }

    fn set_block_number(&mut self, n: BlockNumber)
        ensures
            final(self)@ == (PalletView { block_number: n, ..old(self)@ }),
    {
        self.block_number = n;
    }

    fn set_pool_next_id(&mut self, id: PoolId)
        ensures
            final(self)@ == (PalletView { pool_next_id: id, ..old(self)@ }),
    {
        self.pool_next_id = id;
    }

    fn set_gauge_pool_next_id(&mut self, id: PoolId)
        ensures
            final(self)@ == (PalletView { gauge_pool_next_id: id, ..old(self)@ }),
    {
        self.gauge_pool_next_id = id;
    }

    fn drop_pool(&mut self, pid: PoolId)
        ensures
            final(self)@ == (PalletView {
                pool_infos: old(self)@.pool_infos.remove(pid),
                shares: Map::new(
                    |k: (PoolId, AccountId)| old(self)@.shares.contains_key(k) && k.0 != pid,
                    |k: (PoolId, AccountId)| old(self)@.shares[k],
                ),
                ..old(self)@
            }),
    {
        self.pool_infos.remove(&pid);
        self.shares_and_withdrawn_rewards.remove(&pid);
        proof {
            assert(final(self)@.pool_infos =~= old(self)@.pool_infos.remove(pid));
            assert(final(self)@.shares =~= Map::new(
                |k: (PoolId, AccountId)| old(self)@.shares.contains_key(k) && k.0 != pid,
                |k: (PoolId, AccountId)| old(self)@.shares[k],
            ));
        }
    }

    fn put_pool(&mut self, pid: PoolId, pool: PoolInfo)
        ensures
            final(self)@ == (PalletView {
                pool_infos: old(self)@.pool_infos.insert(pid, pool@),
                ..old(self)@
            }),
    {
        self.pool_infos.insert(pid, pool);
        proof {
            assert(final(self)@.pool_infos =~= old(self)@.pool_infos.insert(pid, pool@));
        }
    }

    fn put_gauge_pool(&mut self, gid: PoolId, gauge_pool: GaugePoolInfo)
        ensures
            final(self)@ == (PalletView {
                gauge_pool_infos: old(self)@.gauge_pool_infos.insert(gid, gauge_pool@),
                ..old(self)@
            }),
    {
        self.gauge_pool_infos.insert(gid, gauge_pool);
        proof {
            assert(final(self)@.gauge_pool_infos =~= old(self)@.gauge_pool_infos.insert(
                gid,
                gauge_pool@,
            ));
        }
    }

    fn put_share(&mut self, pid: PoolId, who: AccountId, record: ShareInfo)
        ensures
            final(self)@ == (PalletView {
                shares: old(self)@.shares.insert((pid, who), record@),
                ..old(self)@
            }),
    {
        let mut accounts = match self.shares_and_withdrawn_rewards.remove(&pid) {
            Some(m) => m,
            None => BTreeMap::new(),
        };
        accounts.insert(who, record);
        self.shares_and_withdrawn_rewards.insert(pid, accounts);
        proof {
            assert(final(self)@.shares =~= old(self)@.shares.insert((pid, who), record@));
        }
    }

    fn drop_share(&mut self, pid: PoolId, who: AccountId)
        ensures
            final(self)@ == (PalletView {
                shares: old(self)@.shares.remove((pid, who)),
                ..old(self)@
            }),
    {
        match self.shares_and_withdrawn_rewards.remove(&pid) {
            Some(mut accounts) => {
                accounts.remove(&who);
                self.shares_and_withdrawn_rewards.insert(pid, accounts);
            },
            None => {},
        }
        proof {
            assert(final(self)@.shares =~= old(self)@.shares.remove((pid, who)));
        }
    }

    fn put_gauge(&mut self, gid: PoolId, who: AccountId, record: GaugeInfo)
        ensures
            final(self)@ == (PalletView {
                gauge_infos: old(self)@.gauge_infos.insert((gid, who), record@),
                ..old(self)@
            }),
    {
        let mut positions = match self.gauge_infos.remove(&gid) {
            Some(m) => m,
            None => BTreeMap::new(),
        };
        positions.insert(who, record);
        self.gauge_infos.insert(gid, positions);
        proof {
            assert(final(self)@.gauge_infos =~= old(self)@.gauge_infos.insert(
                (gid, who),
                record@,
            ));
        }
    }

    fn drop_gauge(&mut self, gid: PoolId, who: AccountId)
        ensures
            final(self)@ == (PalletView {
                gauge_infos: old(self)@.gauge_infos.remove((gid, who)),
                ..old(self)@
            }),
    {
        match self.gauge_infos.remove(&gid) {
            Some(mut positions) => {
                positions.remove(&who);
                self.gauge_infos.insert(gid, positions);
            },
            None => {},
        }
        proof {
            assert(final(self)@.gauge_infos =~= old(self)@.gauge_infos.remove((gid, who)));
        }
    }
}

} // verus!
