//! How the writes that the operations make keep a store valid.

use crate::gauge::{GaugeInfoView, GaugePoolInfoView};
use crate::pallet::view::{
    accounts_of, gauge_linked, gauge_record, keeper_free, paid_out, positions_of, share_record,
    valid, PalletView,
};
use crate::primitives::{AccountId, CurrencyId, PoolId};
use crate::rewards::{held, no_over_withdrawal, PoolInfoView, ShareInfoView};
use crate::totals::{
    lemma_locked_le_sum, lemma_share_le_sum, lemma_sum_locked_drop, lemma_sum_locked_empty,
    lemma_sum_locked_insert, lemma_sum_shares_drop, lemma_sum_shares_empty, lemma_sum_shares_insert,
    sum_debts, sum_locked, sum_shares,
};
use vstd::prelude::*;

verus! {

/// Writing a pool and one of its share records keeps the store valid, where
/// the pool's total of shares moves by as much as the depositor's share, and
/// what the pool records as withdrawn of each currency by as much as the
/// depositor's debt in it.
pub proof fn lemma_write_share_valid(
    v: PalletView,
    pid: PoolId,
    who: AccountId,
    pool: PoolInfoView,
    account: ShareInfoView,
)
    requires
        valid(v),
        v.pool_infos.contains_key(pid),
        no_over_withdrawal(pool.rewards),
        pool.keeper == v.pool_infos[pid].keeper,
        gauge_linked(v, pid, pool.gauge),
        account.who == who,
        account.share > 0,
        pool.total_shares + share_record(v, pid, who).share == v.pool_infos[pid].total_shares
            + account.share,
        forall|c: CurrencyId|
            #![trigger paid_out(pool.rewards, c)]
            paid_out(pool.rewards, c) + held(share_record(v, pid, who).withdrawn_rewards, c)
                == paid_out(v.pool_infos[pid].rewards, c) + held(account.withdrawn_rewards, c),
    ensures
        valid(
            PalletView {
                pool_infos: v.pool_infos.insert(pid, pool),
                shares: v.shares.insert((pid, who), account),
                ..v
            },
        ),
{
    let w = PalletView {
        pool_infos: v.pool_infos.insert(pid, pool),
        shares: v.shares.insert((pid, who), account),
        ..v
    };
    assert forall|p: PoolId| #[trigger] w.pool_infos.contains_key(p) implies gauge_linked(
        w,
        p,
        w.pool_infos[p].gauge,
    ) by {
        if v.pool_infos.contains_key(p) {
            assert(gauge_linked(v, p, v.pool_infos[p].gauge));
        }
    }
    assert forall|p: PoolId, q: PoolId|
        #![trigger w.pool_infos[p], w.pool_infos[q]]
        w.pool_infos.contains_key(p) && w.pool_infos.contains_key(q) && p
            != q implies w.pool_infos[p].keeper != w.pool_infos[q].keeper by {
        if p != pid {
            assert(v.pool_infos.contains_key(p));
        }
        if q != pid {
            assert(v.pool_infos.contains_key(q));
        }
        if p != pid && q != pid {
            assert(v.pool_infos[p].keeper != v.pool_infos[q].keeper);
        }
    }
    assert(accounts_of(v.shares, pid).dom().finite());
    lemma_sum_shares_insert(accounts_of(v.shares, pid), who, account);
    assert(accounts_of(w.shares, pid) =~= accounts_of(v.shares, pid).insert(who, account));
    assert forall|p: PoolId| #[trigger] w.pool_infos.contains_key(p) implies sum_shares(
        accounts_of(w.shares, p),
    ) == w.pool_infos[p].total_shares by {
        if p != pid {
            assert(accounts_of(w.shares, p) =~= accounts_of(v.shares, p));
            assert(v.pool_infos.contains_key(p));
        }
    }
    assert forall|p: PoolId, c: CurrencyId| w.pool_infos.contains_key(p) implies
        #[trigger] sum_debts(
        accounts_of(w.shares, p),
        c,
    ) == paid_out(w.pool_infos[p].rewards, c) by {
        if p == pid {
            assert(sum_debts(accounts_of(v.shares, pid), c) == paid_out(
                v.pool_infos[pid].rewards,
                c,
            ));
            assert(paid_out(pool.rewards, c) + held(
                share_record(v, pid, who).withdrawn_rewards,
                c,
            ) == paid_out(v.pool_infos[pid].rewards, c) + held(account.withdrawn_rewards, c));
        } else {
            assert(accounts_of(w.shares, p) =~= accounts_of(v.shares, p));
            assert(v.pool_infos.contains_key(p));
            assert(sum_debts(accounts_of(v.shares, p), c) == paid_out(
                v.pool_infos[p].rewards,
                c,
            ));
        }
    }
    assert forall|p: PoolId| #[trigger] accounts_of(w.shares, p).dom().finite() by {
        assert(accounts_of(v.shares, p).dom().finite());
        if p == pid {
            assert(accounts_of(w.shares, pid).dom() =~= accounts_of(v.shares, pid).dom().insert(
                who,
            ));
        } else {
            assert(accounts_of(w.shares, p).dom() =~= accounts_of(v.shares, p).dom());
        }
    }
    assert forall|p: PoolId| #[trigger] w.pool_infos.contains_key(p) implies no_over_withdrawal(
        w.pool_infos[p].rewards,
    ) && p < w.pool_next_id by {
        if p != pid {
            assert(v.pool_infos.contains_key(p));
        }
    }
    assert forall|k: (PoolId, AccountId)| #[trigger] w.shares.contains_key(k) implies
        w.shares[k].who
        == k.1 && w.shares[k].share > 0 && w.pool_infos.contains_key(k.0) by {
        if k != (pid, who) {
            assert(v.shares.contains_key(k));
        }
    }
}

/// Writing a pool and dropping one of its share records keeps the store
/// valid, where the pool's total of shares shrinks by the share that is
/// dropped, and what the pool records as withdrawn of each currency by the
/// debt that is dropped.
pub proof fn lemma_drop_share_valid(v: PalletView, pid: PoolId, who: AccountId, pool: PoolInfoView)
    requires
        valid(v),
        v.pool_infos.contains_key(pid),
        no_over_withdrawal(pool.rewards),
        pool.keeper == v.pool_infos[pid].keeper,
        gauge_linked(v, pid, pool.gauge),
        pool.total_shares + share_record(v, pid, who).share == v.pool_infos[pid].total_shares,
        forall|c: CurrencyId|
            #![trigger paid_out(pool.rewards, c)]
            paid_out(pool.rewards, c) + held(share_record(v, pid, who).withdrawn_rewards, c)
                == paid_out(v.pool_infos[pid].rewards, c),
    ensures
        valid(
            PalletView {
                pool_infos: v.pool_infos.insert(pid, pool),
                shares: v.shares.remove((pid, who)),
                ..v
            },
        ),
{
    let w = PalletView {
        pool_infos: v.pool_infos.insert(pid, pool),
        shares: v.shares.remove((pid, who)),
        ..v
    };
    assert forall|p: PoolId| #[trigger] w.pool_infos.contains_key(p) implies gauge_linked(
        w,
        p,
        w.pool_infos[p].gauge,
    ) by {
        if v.pool_infos.contains_key(p) {
            assert(gauge_linked(v, p, v.pool_infos[p].gauge));
        }
    }
    assert forall|p: PoolId, q: PoolId|
        #![trigger w.pool_infos[p], w.pool_infos[q]]
        w.pool_infos.contains_key(p) && w.pool_infos.contains_key(q) && p
            != q implies w.pool_infos[p].keeper != w.pool_infos[q].keeper by {
        if p != pid {
            assert(v.pool_infos.contains_key(p));
        }
        if q != pid {
            assert(v.pool_infos.contains_key(q));
        }
        if p != pid && q != pid {
            assert(v.pool_infos[p].keeper != v.pool_infos[q].keeper);
        }
    }
    assert(accounts_of(v.shares, pid).dom().finite());
    lemma_sum_shares_drop(accounts_of(v.shares, pid), who);
    assert(accounts_of(w.shares, pid) =~= accounts_of(v.shares, pid).remove(who));
    assert forall|p: PoolId| #[trigger] w.pool_infos.contains_key(p) implies sum_shares(
        accounts_of(w.shares, p),
    ) == w.pool_infos[p].total_shares by {
        if p != pid {
            assert(accounts_of(w.shares, p) =~= accounts_of(v.shares, p));
            assert(v.pool_infos.contains_key(p));
        }
    }
    assert forall|p: PoolId, c: CurrencyId| w.pool_infos.contains_key(p) implies
        #[trigger] sum_debts(
        accounts_of(w.shares, p),
        c,
    ) == paid_out(w.pool_infos[p].rewards, c) by {
        if p == pid {
            assert(sum_debts(accounts_of(v.shares, pid), c) == paid_out(
                v.pool_infos[pid].rewards,
                c,
            ));
            assert(paid_out(pool.rewards, c) + held(
                share_record(v, pid, who).withdrawn_rewards,
                c,
            ) == paid_out(v.pool_infos[pid].rewards, c));
        } else {
            assert(accounts_of(w.shares, p) =~= accounts_of(v.shares, p));
            assert(v.pool_infos.contains_key(p));
            assert(sum_debts(accounts_of(v.shares, p), c) == paid_out(
                v.pool_infos[p].rewards,
                c,
            ));
        }
    }
    assert forall|p: PoolId| #[trigger] accounts_of(w.shares, p).dom().finite() by {
        assert(accounts_of(v.shares, p).dom().finite());
        if p == pid {
            assert(accounts_of(w.shares, pid).dom() =~= accounts_of(v.shares, pid).dom().remove(
                who,
            ));
        } else {
            assert(accounts_of(w.shares, p).dom() =~= accounts_of(v.shares, p).dom());
        }
    }
    assert forall|p: PoolId| #[trigger] w.pool_infos.contains_key(p) implies no_over_withdrawal(
        w.pool_infos[p].rewards,
    ) && p < w.pool_next_id by {
        if p != pid {
            assert(v.pool_infos.contains_key(p));
        }
    }
    assert forall|k: (PoolId, AccountId)| #[trigger] w.shares.contains_key(k) implies
        w.shares[k].who
        == k.1 && w.shares[k].share > 0 && w.pool_infos.contains_key(k.0) by {
        assert(v.shares.contains_key(k));
    }
}

/// In a valid store no depositor holds more than the pool's total of shares,
/// nor owes more in a currency than the pool records as withdrawn of it.
pub proof fn lemma_share_le_total(v: PalletView, pid: PoolId, who: AccountId)
    requires
        valid(v),
        v.pool_infos.contains_key(pid),
    ensures
        share_record(v, pid, who).share <= v.pool_infos[pid].total_shares,
        share_record(v, pid, who).who == who,
        forall|c: CurrencyId|
            held(share_record(v, pid, who).withdrawn_rewards, c) <= #[trigger] paid_out(
                v.pool_infos[pid].rewards,
                c,
            ),
{
    assert(accounts_of(v.shares, pid).dom().finite());
    lemma_share_le_sum(accounts_of(v.shares, pid), who);
    if v.shares.contains_key((pid, who)) {
        assert(accounts_of(v.shares, pid).contains_key(who));
    }
    assert forall|c: CurrencyId|
        held(share_record(v, pid, who).withdrawn_rewards, c) <= #[trigger] paid_out(
            v.pool_infos[pid].rewards,
            c,
        ) by {
        assert(sum_debts(accounts_of(v.shares, pid), c) == paid_out(v.pool_infos[pid].rewards, c));
    }
}

/// Writing a pool keeps the store valid, where its keeper, its total of
/// shares and what it records as withdrawn stay as they were, and the gauge
/// pool that it refers to is its own.
pub proof fn lemma_write_pool_valid(v: PalletView, pid: PoolId, pool: PoolInfoView)
    requires
        valid(v),
        v.pool_infos.contains_key(pid),
        no_over_withdrawal(pool.rewards),
        pool.keeper == v.pool_infos[pid].keeper,
        gauge_linked(v, pid, pool.gauge),
        pool.total_shares == v.pool_infos[pid].total_shares,
        forall|c: CurrencyId|
            #![trigger paid_out(pool.rewards, c)]
            paid_out(pool.rewards, c) == paid_out(v.pool_infos[pid].rewards, c),
    ensures
        valid(PalletView { pool_infos: v.pool_infos.insert(pid, pool), ..v }),
{
    let w = PalletView { pool_infos: v.pool_infos.insert(pid, pool), ..v };
    assert forall|p: PoolId| #[trigger] w.pool_infos.contains_key(p) implies gauge_linked(
        w,
        p,
        w.pool_infos[p].gauge,
    ) by {
        if v.pool_infos.contains_key(p) {
            assert(gauge_linked(v, p, v.pool_infos[p].gauge));
        }
    }
    assert forall|p: PoolId, q: PoolId|
        #![trigger w.pool_infos[p], w.pool_infos[q]]
        w.pool_infos.contains_key(p) && w.pool_infos.contains_key(q) && p
            != q implies w.pool_infos[p].keeper != w.pool_infos[q].keeper by {
        if p != pid {
            assert(v.pool_infos.contains_key(p));
        }
        if q != pid {
            assert(v.pool_infos.contains_key(q));
        }
        if p != pid && q != pid {
            assert(v.pool_infos[p].keeper != v.pool_infos[q].keeper);
        }
    }
    assert forall|p: PoolId| #[trigger] w.pool_infos.contains_key(p) implies sum_shares(
        accounts_of(w.shares, p),
    ) == w.pool_infos[p].total_shares && no_over_withdrawal(w.pool_infos[p].rewards) && p
        < w.pool_next_id by {
        assert(v.pool_infos.contains_key(p));
    }
    assert forall|p: PoolId, c: CurrencyId| w.pool_infos.contains_key(p) implies
        #[trigger] sum_debts(
        accounts_of(w.shares, p),
        c,
    ) == paid_out(w.pool_infos[p].rewards, c) by {
        assert(v.pool_infos.contains_key(p));
        assert(sum_debts(accounts_of(v.shares, p), c) == paid_out(v.pool_infos[p].rewards, c));
        if p == pid {
            assert(paid_out(pool.rewards, c) == paid_out(v.pool_infos[pid].rewards, c));
        }
    }
}

/// Writing a gauge pool and one of its positions keeps the store valid,
/// where neither is ahead of the current block and the gauge pool's amount
/// moves by as much as the position's.
pub proof fn lemma_write_gauge_valid(
    v: PalletView,
    gid: PoolId,
    who: AccountId,
    gauge_pool: GaugePoolInfoView,
    position: GaugeInfoView,
)
    requires
        valid(v),
        v.gauge_pool_infos.contains_key(gid),
        gauge_pool.pid == v.gauge_pool_infos[gid].pid,
        no_over_withdrawal(gauge_pool.rewards),
        gauge_pool.gauge_last_block <= v.block_number,
        position.who == who,
        position.gauge_last_block <= v.block_number,
        position.last_claim_block <= v.block_number,
        gauge_pool.gauge_amount + gauge_record(v, gid, who).gauge_amount
            == v.gauge_pool_infos[gid].gauge_amount + position.gauge_amount,
    ensures
        valid(
            PalletView {
                gauge_pool_infos: v.gauge_pool_infos.insert(gid, gauge_pool),
                gauge_infos: v.gauge_infos.insert((gid, who), position),
                ..v
            },
        ),
{
    let w = PalletView {
        gauge_pool_infos: v.gauge_pool_infos.insert(gid, gauge_pool),
        gauge_infos: v.gauge_infos.insert((gid, who), position),
        ..v
    };
    assert forall|p: PoolId| #[trigger] w.pool_infos.contains_key(p) implies gauge_linked(
        w,
        p,
        w.pool_infos[p].gauge,
    ) by {
        if v.pool_infos.contains_key(p) {
            assert(gauge_linked(v, p, v.pool_infos[p].gauge));
        }
    }
    assert(positions_of(v.gauge_infos, gid).dom().finite());
    lemma_sum_locked_insert(positions_of(v.gauge_infos, gid), who, position);
    assert(positions_of(w.gauge_infos, gid) =~= positions_of(v.gauge_infos, gid).insert(
        who,
        position,
    ));
    assert forall|g: PoolId| #[trigger] w.gauge_pool_infos.contains_key(g) implies sum_locked(
        positions_of(w.gauge_infos, g),
    ) == w.gauge_pool_infos[g].gauge_amount by {
        if g != gid {
            assert(positions_of(w.gauge_infos, g) =~= positions_of(v.gauge_infos, g));
            assert(v.gauge_pool_infos.contains_key(g));
        }
    }
    assert forall|g: PoolId| #[trigger] w.gauge_pool_infos.contains_key(g) implies
        no_over_withdrawal(
        w.gauge_pool_infos[g].rewards,
    ) && g < w.gauge_pool_next_id && w.gauge_pool_infos[g].gauge_last_block
        <= w.block_number by {
        if g != gid {
            assert(v.gauge_pool_infos.contains_key(g));
        }
    }
    assert forall|g: PoolId| #[trigger] positions_of(w.gauge_infos, g).dom().finite() by {
        assert(positions_of(v.gauge_infos, g).dom().finite());
        if g == gid {
            assert(positions_of(w.gauge_infos, g).dom() =~= positions_of(
                v.gauge_infos,
                g,
            ).dom().insert(who));
        } else {
            assert(positions_of(w.gauge_infos, g).dom() =~= positions_of(v.gauge_infos, g).dom());
        }
    }
    assert forall|k: (PoolId, AccountId)| #[trigger]
        w.gauge_infos.contains_key(k) implies w.gauge_infos[k].who == k.1
        && w.gauge_pool_infos.contains_key(k.0) && w.gauge_infos[k].gauge_last_block
        <= w.block_number && w.gauge_infos[k].last_claim_block <= w.block_number by {
        if k != (gid, who) {
            assert(v.gauge_infos.contains_key(k));
        }
    }
}

/// Writing a gauge pool and dropping one of its positions keeps the store
/// valid, where the gauge pool's amount shrinks by the amount that is
/// dropped.
pub proof fn lemma_drop_gauge_valid(
    v: PalletView,
    gid: PoolId,
    who: AccountId,
    gauge_pool: GaugePoolInfoView,
)
    requires
        valid(v),
        v.gauge_pool_infos.contains_key(gid),
        gauge_pool.pid == v.gauge_pool_infos[gid].pid,
        no_over_withdrawal(gauge_pool.rewards),
        gauge_pool.gauge_last_block <= v.block_number,
        gauge_pool.gauge_amount + gauge_record(v, gid, who).gauge_amount
            == v.gauge_pool_infos[gid].gauge_amount,
    ensures
        valid(
            PalletView {
                gauge_pool_infos: v.gauge_pool_infos.insert(gid, gauge_pool),
                gauge_infos: v.gauge_infos.remove((gid, who)),
                ..v
            },
        ),
{
    let w = PalletView {
        gauge_pool_infos: v.gauge_pool_infos.insert(gid, gauge_pool),
        gauge_infos: v.gauge_infos.remove((gid, who)),
        ..v
    };
    assert forall|p: PoolId| #[trigger] w.pool_infos.contains_key(p) implies gauge_linked(
        w,
        p,
        w.pool_infos[p].gauge,
    ) by {
        if v.pool_infos.contains_key(p) {
            assert(gauge_linked(v, p, v.pool_infos[p].gauge));
        }
    }
    assert(positions_of(v.gauge_infos, gid).dom().finite());
    lemma_sum_locked_drop(positions_of(v.gauge_infos, gid), who);
    assert(positions_of(w.gauge_infos, gid) =~= positions_of(v.gauge_infos, gid).remove(who));
    assert forall|g: PoolId| #[trigger] w.gauge_pool_infos.contains_key(g) implies sum_locked(
        positions_of(w.gauge_infos, g),
    ) == w.gauge_pool_infos[g].gauge_amount by {
        if g != gid {
            assert(positions_of(w.gauge_infos, g) =~= positions_of(v.gauge_infos, g));
            assert(v.gauge_pool_infos.contains_key(g));
        }
    }
    assert forall|g: PoolId| #[trigger] w.gauge_pool_infos.contains_key(g) implies
        no_over_withdrawal(
        w.gauge_pool_infos[g].rewards,
    ) && g < w.gauge_pool_next_id && w.gauge_pool_infos[g].gauge_last_block
        <= w.block_number by {
        if g != gid {
            assert(v.gauge_pool_infos.contains_key(g));
        }
    }
    assert forall|g: PoolId| #[trigger] positions_of(w.gauge_infos, g).dom().finite() by {
        assert(positions_of(v.gauge_infos, g).dom().finite());
        if g == gid {
            assert(positions_of(w.gauge_infos, g).dom() =~= positions_of(
                v.gauge_infos,
                g,
            ).dom().remove(who));
        } else {
            assert(positions_of(w.gauge_infos, g).dom() =~= positions_of(v.gauge_infos, g).dom());
        }
    }
    assert forall|k: (PoolId, AccountId)| #[trigger]
        w.gauge_infos.contains_key(k) implies w.gauge_infos[k].who == k.1
        && w.gauge_pool_infos.contains_key(k.0) && w.gauge_infos[k].gauge_last_block
        <= w.block_number && w.gauge_infos[k].last_claim_block <= w.block_number by {
        assert(v.gauge_infos.contains_key(k));
    }
}

/// In a valid store no position has more locked than its gauge pool's
/// amount.
pub proof fn lemma_locked_le_total(v: PalletView, gid: PoolId, who: AccountId)
    requires
        valid(v),
        v.gauge_pool_infos.contains_key(gid),
    ensures
        gauge_record(v, gid, who).gauge_amount <= v.gauge_pool_infos[gid].gauge_amount,
{
    assert(positions_of(v.gauge_infos, gid).dom().finite());
    lemma_locked_le_sum(positions_of(v.gauge_infos, gid), who);
    if v.gauge_infos.contains_key((gid, who)) {
        assert(positions_of(v.gauge_infos, gid).contains_key(who));
    }
}

/// Writing a gauge pool keeps the store valid, where it is not ahead of the
/// current block and its amount stays as it was.
pub proof fn lemma_write_gauge_pool_valid(v: PalletView, gid: PoolId, gauge_pool: GaugePoolInfoView)
    requires
        valid(v),
        v.gauge_pool_infos.contains_key(gid),
        gauge_pool.pid == v.gauge_pool_infos[gid].pid,
        no_over_withdrawal(gauge_pool.rewards),
        gauge_pool.gauge_last_block <= v.block_number,
        gauge_pool.gauge_amount == v.gauge_pool_infos[gid].gauge_amount,
    ensures
        valid(PalletView { gauge_pool_infos: v.gauge_pool_infos.insert(gid, gauge_pool), ..v }),
{
    let w = PalletView { gauge_pool_infos: v.gauge_pool_infos.insert(gid, gauge_pool), ..v };
    assert forall|p: PoolId| #[trigger] w.pool_infos.contains_key(p) implies gauge_linked(
        w,
        p,
        w.pool_infos[p].gauge,
    ) by {
        if v.pool_infos.contains_key(p) {
            assert(gauge_linked(v, p, v.pool_infos[p].gauge));
        }
    }
    assert forall|g: PoolId| #[trigger] w.gauge_pool_infos.contains_key(g) implies
        no_over_withdrawal(
        w.gauge_pool_infos[g].rewards,
    ) && g < w.gauge_pool_next_id && w.gauge_pool_infos[g].gauge_last_block <= w.block_number
        && sum_locked(positions_of(w.gauge_infos, g)) == w.gauge_pool_infos[g].gauge_amount by {
        assert(v.gauge_pool_infos.contains_key(g));
    }
}

/// Writing a pool without shares or withdrawals, whose keeper no pool has,
/// under the next pool id, and moving the counter on, keeps the store valid.
pub proof fn lemma_create_pool_valid(v: PalletView, pool: PoolInfoView)
    requires
        valid(v),
        v.pool_next_id < u32::MAX,
        keeper_free(v, pool.keeper),
        gauge_linked(v, v.pool_next_id, pool.gauge),
        no_over_withdrawal(pool.rewards),
        pool.total_shares == 0,
        forall|c: CurrencyId| #[trigger] paid_out(pool.rewards, c) == 0,
    ensures
        valid(
            PalletView {
                pool_infos: v.pool_infos.insert(v.pool_next_id, pool),
                pool_next_id: (v.pool_next_id + 1) as u32,
                ..v
            },
        ),
{
    let pid = v.pool_next_id;
    let w = PalletView {
        pool_infos: v.pool_infos.insert(pid, pool),
        pool_next_id: (pid + 1) as u32,
        ..v
    };
    assert forall|p: PoolId| #[trigger] w.pool_infos.contains_key(p) implies gauge_linked(
        w,
        p,
        w.pool_infos[p].gauge,
    ) by {
        if v.pool_infos.contains_key(p) {
            assert(gauge_linked(v, p, v.pool_infos[p].gauge));
        }
    }
    assert forall|p: PoolId, q: PoolId|
        #![trigger w.pool_infos[p], w.pool_infos[q]]
        w.pool_infos.contains_key(p) && w.pool_infos.contains_key(q) && p
            != q implies w.pool_infos[p].keeper != w.pool_infos[q].keeper by {
        if p != pid {
            assert(v.pool_infos.contains_key(p));
        }
        if q != pid {
            assert(v.pool_infos.contains_key(q));
        }
        if p != pid && q != pid {
            assert(v.pool_infos[p].keeper != v.pool_infos[q].keeper);
        }
    }
    assert forall|a: AccountId| !accounts_of(v.shares, pid).dom().contains(a) by {
        if v.shares.contains_key((pid, a)) {
            assert(v.pool_infos.contains_key(pid));
        }
    }
    lemma_sum_shares_empty(accounts_of(v.shares, pid));
    assert forall|p: PoolId| #[trigger] w.pool_infos.contains_key(p) implies sum_shares(
        accounts_of(w.shares, p),
    ) == w.pool_infos[p].total_shares && no_over_withdrawal(w.pool_infos[p].rewards) && p
        < w.pool_next_id by {
        if p != pid {
            assert(v.pool_infos.contains_key(p));
        }
    }
    assert forall|p: PoolId, c: CurrencyId| w.pool_infos.contains_key(p) implies
        #[trigger] sum_debts(
        accounts_of(w.shares, p),
        c,
    ) == paid_out(w.pool_infos[p].rewards, c) by {
        if p != pid {
            assert(v.pool_infos.contains_key(p));
            assert(sum_debts(accounts_of(v.shares, p), c) == paid_out(
                v.pool_infos[p].rewards,
                c,
            ));
        } else {
            assert(paid_out(pool.rewards, c) == 0);
        }
    }
    assert forall|k: (PoolId, AccountId)| #[trigger] w.shares.contains_key(k) implies
        w.shares[k].who
        == k.1 && w.shares[k].share > 0 && w.pool_infos.contains_key(k.0) by {
        assert(v.shares.contains_key(k));
    }
}

/// Writing a gauge pool with nothing locked under the next gauge pool id,
/// and moving the counter on, keeps the store valid.
pub proof fn lemma_create_gauge_valid(v: PalletView, gauge_pool: GaugePoolInfoView)
    requires
        valid(v),
        v.gauge_pool_next_id < u32::MAX,
        no_over_withdrawal(gauge_pool.rewards),
        gauge_pool.gauge_amount == 0,
        gauge_pool.gauge_last_block <= v.block_number,
    ensures
        valid(
            PalletView {
                gauge_pool_infos: v.gauge_pool_infos.insert(v.gauge_pool_next_id, gauge_pool),
                gauge_pool_next_id: (v.gauge_pool_next_id + 1) as u32,
                ..v
            },
        ),
{
    let gid = v.gauge_pool_next_id;
    let w = PalletView {
        gauge_pool_infos: v.gauge_pool_infos.insert(gid, gauge_pool),
        gauge_pool_next_id: (gid + 1) as u32,
        ..v
    };
    assert forall|p: PoolId| #[trigger] w.pool_infos.contains_key(p) implies gauge_linked(
        w,
        p,
        w.pool_infos[p].gauge,
    ) by {
        if v.pool_infos.contains_key(p) {
            assert(gauge_linked(v, p, v.pool_infos[p].gauge));
        }
    }
    assert forall|a: AccountId| !positions_of(v.gauge_infos, gid).dom().contains(a) by {
        if v.gauge_infos.contains_key((gid, a)) {
            assert(v.gauge_pool_infos.contains_key(gid));
        }
    }
    lemma_sum_locked_empty(positions_of(v.gauge_infos, gid));
    assert forall|g: PoolId| #[trigger] w.gauge_pool_infos.contains_key(g) implies
        no_over_withdrawal(
        w.gauge_pool_infos[g].rewards,
    ) && g < w.gauge_pool_next_id && w.gauge_pool_infos[g].gauge_last_block <= w.block_number
        && sum_locked(positions_of(w.gauge_infos, g)) == w.gauge_pool_infos[g].gauge_amount by {
        if g != gid {
            assert(v.gauge_pool_infos.contains_key(g));
        }
    }
    assert forall|k: (PoolId, AccountId)| #[trigger]
        w.gauge_infos.contains_key(k) implies w.gauge_infos[k].who == k.1
        && w.gauge_pool_infos.contains_key(k.0) && w.gauge_infos[k].gauge_last_block
        <= w.block_number && w.gauge_infos[k].last_claim_block <= w.block_number by {
        assert(v.gauge_infos.contains_key(k));
    }
}

} // verus!
