//! Sums over the accounts of one pool: of the shares that the depositors
//! hold, of their reward debts in one currency, and of the amounts locked in
//! the positions of a gauge pool; and how each sum moves when one account's
//! record is written or dropped.

use crate::gauge::GaugeInfoView;
use crate::primitives::{AccountId, CurrencyId};
use crate::rewards::{held, ShareInfoView};
use vstd::prelude::*;

verus! {

/// The sum of all amounts in `amounts`.
pub open spec fn sum_amounts(amounts: Map<AccountId, nat>) -> nat
    decreases amounts.dom().len(),
    when amounts.dom().finite()
{
    if amounts.dom().len() == 0 {
        0
    } else {
        let a = amounts.dom().choose();
        amounts[a] + sum_amounts(amounts.remove(a))
    }
}

/// The amount that `amounts` records for `who`, zero where it records none.
pub open spec fn amount_of(amounts: Map<AccountId, nat>, who: AccountId) -> nat {
    if amounts.contains_key(who) {
        amounts[who]
    } else {
        0
    }
}

/// The sum is the amount of any one account plus the sum of the others'.
pub proof fn lemma_sum_amounts_remove(amounts: Map<AccountId, nat>, who: AccountId)
    requires
        amounts.dom().finite(),
        amounts.contains_key(who),
    ensures
        sum_amounts(amounts) == amounts[who] + sum_amounts(amounts.remove(who)),
    decreases amounts.dom().len(),
{
    let a = amounts.dom().choose();
    if amounts.dom().len() == 0 {
        assert(false);
    } else if a != who {
        let rest = amounts.remove(a);
        lemma_sum_amounts_remove(rest, who);
        let others = amounts.remove(who);
        assert(others.contains_key(a));
        lemma_sum_amounts_remove(others, a);
        assert(rest.remove(who) =~= others.remove(a));
    }
}

/// Writing one account's amount changes the sum by the change of that
/// amount.
pub proof fn lemma_sum_amounts_insert(amounts: Map<AccountId, nat>, who: AccountId, amount: nat)
    requires
        amounts.dom().finite(),
    ensures
        sum_amounts(amounts.insert(who, amount)) + amount_of(amounts, who) == sum_amounts(
            amounts,
        ) + amount,
{
    let after = amounts.insert(who, amount);
    lemma_sum_amounts_remove(after, who);
    assert(after.remove(who) =~= amounts.remove(who));
    if amounts.contains_key(who) {
        lemma_sum_amounts_remove(amounts, who);
    } else {
        assert(amounts.remove(who) =~= amounts);
    }
}

/// Dropping one account takes that account's amount from the sum.
pub proof fn lemma_sum_amounts_drop(amounts: Map<AccountId, nat>, who: AccountId)
    requires
        amounts.dom().finite(),
    ensures
        sum_amounts(amounts.remove(who)) + amount_of(amounts, who) == sum_amounts(amounts),
{
    if amounts.contains_key(who) {
        lemma_sum_amounts_remove(amounts, who);
    } else {
        assert(amounts.remove(who) =~= amounts);
    }
}

/// No account's amount is more than the sum.
pub proof fn lemma_amount_le_sum(amounts: Map<AccountId, nat>, who: AccountId)
    requires
        amounts.dom().finite(),
    ensures
        amount_of(amounts, who) <= sum_amounts(amounts),
{
    if amounts.contains_key(who) {
        lemma_sum_amounts_remove(amounts, who);
    }
}

/// The shares of the records in `accounts`.
pub open spec fn shares_of(accounts: Map<AccountId, ShareInfoView>) -> Map<AccountId, nat> {
    Map::new(
        |who: AccountId| accounts.contains_key(who),
        |who: AccountId| accounts[who].share as nat,
    )
}

/// The reward debts in `c` of the records in `accounts`.
pub open spec fn debts_of(accounts: Map<AccountId, ShareInfoView>, c: CurrencyId) -> Map<
    AccountId,
    nat,
> {
    Map::new(
        |who: AccountId| accounts.contains_key(who),
        |who: AccountId| held(accounts[who].withdrawn_rewards, c) as nat,
    )
}

/// The amounts locked in `positions`.
pub open spec fn locked_of(positions: Map<AccountId, GaugeInfoView>) -> Map<AccountId, nat> {
    Map::new(
        |who: AccountId| positions.contains_key(who),
        |who: AccountId| positions[who].gauge_amount as nat,
    )
}

/// The sum of the shares of all records in `accounts`.
pub open spec fn sum_shares(accounts: Map<AccountId, ShareInfoView>) -> nat {
    sum_amounts(shares_of(accounts))
}

/// The sum of the reward debts in `c` of all records in `accounts`.
pub open spec fn sum_debts(accounts: Map<AccountId, ShareInfoView>, c: CurrencyId) -> nat {
    sum_amounts(debts_of(accounts, c))
}

/// The sum of the amounts locked in all of `positions`.
pub open spec fn sum_locked(positions: Map<AccountId, GaugeInfoView>) -> nat {
    sum_amounts(locked_of(positions))
}

/// The share that `accounts` records for `who`, zero where it records none.
pub open spec fn share_held(accounts: Map<AccountId, ShareInfoView>, who: AccountId) -> nat {
    if accounts.contains_key(who) {
        accounts[who].share as nat
    } else {
        0
    }
}

/// The reward debt in `c` that `accounts` records for `who`, zero where it
/// records none.
pub open spec fn debt_held(
    accounts: Map<AccountId, ShareInfoView>,
    who: AccountId,
    c: CurrencyId,
) -> nat {
    if accounts.contains_key(who) {
        held(accounts[who].withdrawn_rewards, c) as nat
    } else {
        0
    }
}

/// The amount that `positions` records as locked by `who`, zero where it
/// records none.
pub open spec fn locked_held(positions: Map<AccountId, GaugeInfoView>, who: AccountId) -> nat {
    if positions.contains_key(who) {
        positions[who].gauge_amount as nat
    } else {
        0
    }
}

/// No depositor holds more than the sum of all shares, nor owes more in a
/// currency than the sum of all debts in it.
pub proof fn lemma_share_le_sum(accounts: Map<AccountId, ShareInfoView>, who: AccountId)
    requires
        accounts.dom().finite(),
    ensures
        share_held(accounts, who) <= sum_shares(accounts),
        forall|c: CurrencyId| debt_held(accounts, who, c) <= #[trigger] sum_debts(accounts, c),
{
    assert(shares_of(accounts).dom() =~= accounts.dom());
    lemma_amount_le_sum(shares_of(accounts), who);
    assert forall|c: CurrencyId| debt_held(accounts, who, c) <= #[trigger] sum_debts(
        accounts,
        c,
    ) by {
        assert(debts_of(accounts, c).dom() =~= accounts.dom());
        lemma_amount_le_sum(debts_of(accounts, c), who);
    }
}

/// Writing one depositor's record changes the sum of shares by the change of
/// that depositor's share, and the sum of debts in every currency by the
/// change of that depositor's debt in it.
pub proof fn lemma_sum_shares_insert(
    accounts: Map<AccountId, ShareInfoView>,
    who: AccountId,
    record: ShareInfoView,
)
    requires
        accounts.dom().finite(),
    ensures
        sum_shares(accounts.insert(who, record)) + share_held(accounts, who) == sum_shares(
            accounts,
        ) + record.share,
        forall|c: CurrencyId|
            #[trigger] sum_debts(accounts.insert(who, record), c) + debt_held(accounts, who, c)
                == sum_debts(accounts, c) + held(record.withdrawn_rewards, c),
{
    assert(shares_of(accounts).dom() =~= accounts.dom());
    lemma_sum_amounts_insert(shares_of(accounts), who, record.share as nat);
    assert(shares_of(accounts.insert(who, record)) =~= shares_of(accounts).insert(
        who,
        record.share as nat,
    ));
    assert forall|c: CurrencyId|
        #[trigger] sum_debts(accounts.insert(who, record), c) + debt_held(accounts, who, c)
            == sum_debts(accounts, c) + held(record.withdrawn_rewards, c) by {
        assert(debts_of(accounts, c).dom() =~= accounts.dom());
        lemma_sum_amounts_insert(
            debts_of(accounts, c),
            who,
            held(record.withdrawn_rewards, c) as nat,
        );
        assert(debts_of(accounts.insert(who, record), c) =~= debts_of(accounts, c).insert(
            who,
            held(record.withdrawn_rewards, c) as nat,
        ));
    }
}

/// Dropping one depositor's record takes that depositor's share from the sum
/// of shares, and that depositor's debt in every currency from the sum of
/// debts in it.
pub proof fn lemma_sum_shares_drop(accounts: Map<AccountId, ShareInfoView>, who: AccountId)
    requires
        accounts.dom().finite(),
    ensures
        sum_shares(accounts.remove(who)) + share_held(accounts, who) == sum_shares(accounts),
        forall|c: CurrencyId|
            #[trigger] sum_debts(accounts.remove(who), c) + debt_held(accounts, who, c)
                == sum_debts(accounts, c),
{
    assert(shares_of(accounts).dom() =~= accounts.dom());
    lemma_sum_amounts_drop(shares_of(accounts), who);
    assert(shares_of(accounts.remove(who)) =~= shares_of(accounts).remove(who));
    assert forall|c: CurrencyId|
        #[trigger] sum_debts(accounts.remove(who), c) + debt_held(accounts, who, c) == sum_debts(
            accounts,
            c,
        ) by {
        assert(debts_of(accounts, c).dom() =~= accounts.dom());
        lemma_sum_amounts_drop(debts_of(accounts, c), who);
        assert(debts_of(accounts.remove(who), c) =~= debts_of(accounts, c).remove(who));
    }
}

/// Without records the sums are zero.
pub proof fn lemma_sum_shares_empty(accounts: Map<AccountId, ShareInfoView>)
    requires
        accounts.dom() =~= Set::empty(),
    ensures
        sum_shares(accounts) == 0,
        forall|c: CurrencyId| #[trigger] sum_debts(accounts, c) == 0,
{
    assert(shares_of(accounts).dom() =~= Set::empty());
    assert forall|c: CurrencyId| #[trigger] sum_debts(accounts, c) == 0 by {
        assert(debts_of(accounts, c).dom() =~= Set::empty());
    }
}

/// No position has more locked than the sum of all locked amounts.
pub proof fn lemma_locked_le_sum(positions: Map<AccountId, GaugeInfoView>, who: AccountId)
    requires
        positions.dom().finite(),
    ensures
        locked_held(positions, who) <= sum_locked(positions),
{
    assert(locked_of(positions).dom() =~= positions.dom());
    lemma_amount_le_sum(locked_of(positions), who);
}

/// Writing one position changes the sum of locked amounts by the change of
/// that position's amount.
pub proof fn lemma_sum_locked_insert(
    positions: Map<AccountId, GaugeInfoView>,
    who: AccountId,
    record: GaugeInfoView,
)
    requires
        positions.dom().finite(),
    ensures
        sum_locked(positions.insert(who, record)) + locked_held(positions, who) == sum_locked(
            positions,
        ) + record.gauge_amount,
{
    assert(locked_of(positions).dom() =~= positions.dom());
    lemma_sum_amounts_insert(locked_of(positions), who, record.gauge_amount as nat);
    assert(locked_of(positions.insert(who, record)) =~= locked_of(positions).insert(
        who,
        record.gauge_amount as nat,
    ));
}

/// Dropping one position takes that position's amount from the sum of locked
/// amounts.
pub proof fn lemma_sum_locked_drop(positions: Map<AccountId, GaugeInfoView>, who: AccountId)
    requires
        positions.dom().finite(),
    ensures
        sum_locked(positions.remove(who)) + locked_held(positions, who) == sum_locked(positions),
{
    assert(locked_of(positions).dom() =~= positions.dom());
    lemma_sum_amounts_drop(locked_of(positions), who);
    assert(locked_of(positions.remove(who)) =~= locked_of(positions).remove(who));
}

/// Without positions nothing is locked.
pub proof fn lemma_sum_locked_empty(positions: Map<AccountId, GaugeInfoView>)
    requires
        positions.dom() =~= Set::empty(),
    ensures
        sum_locked(positions) == 0,
{
    assert(locked_of(positions).dom() =~= Set::empty());
}

} // verus!
