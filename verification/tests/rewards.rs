use farming::{Error, Pallet, Permill, PoolState, Transfer};

const KEEPER: u64 = 1_000;
const LP: u32 = 1;
const X: u32 = 7;
const Y: u32 = 8;
const ALICE: u64 = 1;
const BOB: u64 = 2;
const CAROL: u64 = 3;

fn new_pool(store: &mut Pallet, basic: Vec<(u32, u128)>) -> u32 {
    store
        .create_farming_pool(
            KEEPER,
            vec![(LP, Permill::from_percent(100))],
            basic,
            None,
            0,
            0,
            0,
            0,
            0,
        )
        .unwrap()
}

fn sum_of_shares(store: &Pallet, pid: u32) -> u128 {
    let mut sum = 0u128;
    for who in store.depositors(pid) {
        sum += store.shares_and_withdrawn_rewards(pid, who).share;
    }
    sum
}

fn totals(store: &Pallet, pid: u32, currency: u32) -> Option<(u128, u128)> {
    store.pool_infos(pid).unwrap().rewards.get(&currency).copied()
}

fn debt(store: &Pallet, pid: u32, who: u64, currency: u32) -> Option<u128> {
    store
        .shares_and_withdrawn_rewards(pid, who)
        .withdrawn_rewards
        .get(&currency)
        .copied()
}

#[test]
fn a_new_store_is_empty() {
    let store = Pallet::new();
    assert_eq!(store.block_number(), 0);
    assert_eq!(store.pool_next_id(), 0);
    assert_eq!(store.gauge_pool_next_id(), 0);
    assert!(store.pool_infos(0).is_none());
    assert!(store.gauge_pool_infos(0).is_none());
    assert!(store.pool_ids().is_empty());
    assert_eq!(store.shares_and_withdrawn_rewards(0, ALICE).share, 0);
}

#[test]
fn accumulate_reward_adds_to_the_accrued_total() {
    let mut store = Pallet::new();
    let pid = new_pool(&mut store, vec![]);
    assert_eq!(store.accumulate_reward(pid, X, 40), Ok(()));
    assert_eq!(totals(&store, pid, X), Some((40, 0)));
    assert_eq!(store.accumulate_reward(pid, X, 2), Ok(()));
    assert_eq!(totals(&store, pid, X), Some((42, 0)));
    assert_eq!(totals(&store, pid, Y), None);
}

#[test]
fn accumulate_reward_of_zero_changes_nothing() {
    let mut store = Pallet::new();
    let pid = new_pool(&mut store, vec![]);
    assert_eq!(store.accumulate_reward(pid, X, 0), Ok(()));
    assert_eq!(totals(&store, pid, X), None);
    assert_eq!(store.accumulate_reward(99, X, 0), Ok(()));
}

#[test]
fn accumulate_reward_saturates() {
    let mut store = Pallet::new();
    let pid = new_pool(&mut store, vec![]);
    store.accumulate_reward(pid, X, u128::MAX - 1).unwrap();
    store.accumulate_reward(pid, X, 5).unwrap();
    assert_eq!(totals(&store, pid, X), Some((u128::MAX, 0)));
}

#[test]
fn accumulate_reward_needs_the_pool() {
    let mut store = Pallet::new();
    assert_eq!(store.accumulate_reward(3, X, 1), Err(Error::PoolDoesNotExist));
}

#[test]
fn add_share_to_an_empty_pool_inflates_nothing() {
    let mut store = Pallet::new();
    let pid = new_pool(&mut store, vec![]);
    store.accumulate_reward(pid, X, 100).unwrap();
    assert_eq!(store.add_share(ALICE, pid, 50), Ok(()));
    assert_eq!(store.pool_infos(pid).unwrap().total_shares, 50);
    assert_eq!(totals(&store, pid, X), Some((100, 0)));
    assert_eq!(store.shares_and_withdrawn_rewards(pid, ALICE).share, 50);
    assert_eq!(debt(&store, pid, ALICE, X), Some(0));
}

#[test]
fn add_share_inflates_totals_and_debt_alike() {
    let mut store = Pallet::new();
    let pid = new_pool(&mut store, vec![]);
    store.add_share(ALICE, pid, 100).unwrap();
    store.accumulate_reward(pid, X, 50).unwrap();
    store.accumulate_reward(pid, Y, 7).unwrap();
    assert_eq!(store.add_share(BOB, pid, 50), Ok(()));
    assert_eq!(store.pool_infos(pid).unwrap().total_shares, 150);
    assert_eq!(totals(&store, pid, X), Some((75, 25)));
    assert_eq!(totals(&store, pid, Y), Some((10, 3)));
    assert_eq!(debt(&store, pid, BOB, X), Some(25));
    assert_eq!(debt(&store, pid, BOB, Y), Some(3));
    assert_eq!(debt(&store, pid, ALICE, X), None);
}

#[test]
fn add_share_of_zero_changes_nothing() {
    let mut store = Pallet::new();
    let pid = new_pool(&mut store, vec![]);
    assert_eq!(store.add_share(ALICE, pid, 0), Ok(()));
    assert_eq!(store.pool_infos(pid).unwrap().total_shares, 0);
    assert!(store.depositors(pid).is_empty());
    assert_eq!(store.add_share(ALICE, 42, 0), Ok(()));
}

#[test]
fn add_share_needs_the_pool() {
    let mut store = Pallet::new();
    assert_eq!(store.add_share(ALICE, 0, 1), Err(Error::PoolDoesNotExist));
}

#[test]
fn add_share_rejects_a_total_beyond_range() {
    let mut store = Pallet::new();
    let pid = new_pool(&mut store, vec![]);
    store.add_share(ALICE, pid, u128::MAX).unwrap();
    assert_eq!(store.add_share(BOB, pid, 1), Err(Error::CalculationOverflow));
    assert_eq!(store.pool_infos(pid).unwrap().total_shares, u128::MAX);
    assert_eq!(store.shares_and_withdrawn_rewards(pid, BOB).share, 0);
    assert_eq!(store.depositors(pid), vec![ALICE]);
}

#[test]
fn add_share_rejects_an_inflation_beyond_range() {
    let mut store = Pallet::new();
    let pid = new_pool(&mut store, vec![]);
    store.add_share(ALICE, pid, 1).unwrap();
    store.accumulate_reward(pid, X, u128::MAX / 2).unwrap();
    assert_eq!(store.add_share(BOB, pid, 3), Err(Error::CalculationOverflow));
    assert_eq!(totals(&store, pid, X), Some((u128::MAX / 2, 0)));
    assert_eq!(store.pool_infos(pid).unwrap().total_shares, 1);
}

#[test]
fn claim_rewards_pays_in_proportion_to_share() {
    let mut store = Pallet::new();
    let pid = new_pool(&mut store, vec![]);
    store.add_share(ALICE, pid, 30).unwrap();
    store.add_share(BOB, pid, 70).unwrap();
    store.accumulate_reward(pid, X, 100).unwrap();
    assert_eq!(
        store.claim_rewards(ALICE, pid),
        vec![Transfer { currency: X, from: KEEPER, to: ALICE, amount: 30 }]
    );
    assert_eq!(totals(&store, pid, X), Some((100, 30)));
    assert_eq!(debt(&store, pid, ALICE, X), Some(30));
    assert_eq!(
        store.claim_rewards(BOB, pid),
        vec![Transfer { currency: X, from: KEEPER, to: BOB, amount: 70 }]
    );
    assert_eq!(totals(&store, pid, X), Some((100, 100)));
}

#[test]
fn claim_rewards_rounds_the_entitlement_down() {
    let mut store = Pallet::new();
    let pid = new_pool(&mut store, vec![]);
    store.add_share(ALICE, pid, 1).unwrap();
    store.add_share(BOB, pid, 2).unwrap();
    store.accumulate_reward(pid, X, 100).unwrap();
    assert_eq!(
        store.claim_rewards(ALICE, pid),
        vec![Transfer { currency: X, from: KEEPER, to: ALICE, amount: 33 }]
    );
    assert_eq!(
        store.claim_rewards(BOB, pid),
        vec![Transfer { currency: X, from: KEEPER, to: BOB, amount: 66 }]
    );
    assert_eq!(totals(&store, pid, X), Some((100, 99)));
}

#[test]
fn claim_rewards_lists_currencies_in_ascending_order_and_skips_zero() {
    let mut store = Pallet::new();
    let pid = new_pool(&mut store, vec![]);
    store.add_share(ALICE, pid, 10).unwrap();
    store.accumulate_reward(pid, Y, 5).unwrap();
    store.accumulate_reward(pid, X, 9).unwrap();
    store.claim_rewards(ALICE, pid);
    store.accumulate_reward(pid, Y, 1).unwrap();
    store.accumulate_reward(4, X, 1).unwrap_err();
    let mut other = Pallet::new();
    let second = new_pool(&mut other, vec![]);
    other.add_share(ALICE, second, 10).unwrap();
    other.accumulate_reward(second, Y, 5).unwrap();
    other.accumulate_reward(second, X, 9).unwrap();
    assert_eq!(
        other.claim_rewards(ALICE, second),
        vec![
            Transfer { currency: X, from: KEEPER, to: ALICE, amount: 9 },
            Transfer { currency: Y, from: KEEPER, to: ALICE, amount: 5 },
        ]
    );
    assert_eq!(
        store.claim_rewards(ALICE, pid),
        vec![Transfer { currency: Y, from: KEEPER, to: ALICE, amount: 1 }]
    );
}

#[test]
fn claim_rewards_without_share_pays_nothing() {
    let mut store = Pallet::new();
    let pid = new_pool(&mut store, vec![]);
    store.accumulate_reward(pid, X, 100).unwrap();
    assert_eq!(store.claim_rewards(ALICE, pid), vec![]);
    assert_eq!(totals(&store, pid, X), Some((100, 0)));
    assert_eq!(store.claim_rewards(ALICE, 77), vec![]);
}

#[test]
fn claim_rewards_never_pays_more_than_is_left() {
    let mut store = Pallet::new();
    let pid = new_pool(&mut store, vec![]);
    store.add_share(ALICE, pid, 1).unwrap();
    store.add_share(BOB, pid, 1).unwrap();
    store.accumulate_reward(pid, X, 10).unwrap();
    store.claim_rewards(ALICE, pid);
    store.claim_rewards(BOB, pid);
    let (accrued, paid) = totals(&store, pid, X).unwrap();
    assert!(paid <= accrued);
    assert_eq!((accrued, paid), (10, 10));
    assert_eq!(store.claim_rewards(ALICE, pid), vec![]);
}

#[test]
fn remove_share_claims_first_and_scales_the_debt() {
    let mut store = Pallet::new();
    let pid = new_pool(&mut store, vec![]);
    store.add_share(ALICE, pid, 100).unwrap();
    store.add_share(BOB, pid, 100).unwrap();
    store.accumulate_reward(pid, X, 200).unwrap();
    let payouts = store.remove_share(ALICE, pid, 25);
    assert_eq!(payouts, vec![Transfer { currency: X, from: KEEPER, to: ALICE, amount: 100 }]);
    assert_eq!(store.shares_and_withdrawn_rewards(pid, ALICE).share, 75);
    assert_eq!(debt(&store, pid, ALICE, X), Some(75));
    assert_eq!(totals(&store, pid, X), Some((175, 75)));
    assert_eq!(store.pool_infos(pid).unwrap().total_shares, 175);
    assert_eq!(store.claim_rewards(ALICE, pid), vec![]);
    assert_eq!(
        store.claim_rewards(BOB, pid),
        vec![Transfer { currency: X, from: KEEPER, to: BOB, amount: 100 }]
    );
}

#[test]
fn remove_share_takes_no_more_than_is_held() {
    let mut store = Pallet::new();
    let pid = new_pool(&mut store, vec![]);
    store.add_share(ALICE, pid, 10).unwrap();
    store.add_share(BOB, pid, 5).unwrap();
    assert_eq!(store.remove_share(ALICE, pid, 1_000), vec![]);
    assert_eq!(store.shares_and_withdrawn_rewards(pid, ALICE).share, 0);
    assert_eq!(store.depositors(pid), vec![BOB]);
    assert_eq!(store.pool_infos(pid).unwrap().total_shares, 5);
}

#[test]
fn remove_share_drops_a_currency_whose_total_reaches_zero() {
    let mut store = Pallet::new();
    let pid = new_pool(&mut store, vec![]);
    store.add_share(ALICE, pid, 10).unwrap();
    store.accumulate_reward(pid, X, 40).unwrap();
    let payouts = store.remove_share(ALICE, pid, 10);
    assert_eq!(payouts, vec![Transfer { currency: X, from: KEEPER, to: ALICE, amount: 40 }]);
    assert_eq!(totals(&store, pid, X), None);
    assert!(store.pool_infos(pid).is_some());
    assert_eq!(store.pool_infos(pid).unwrap().total_shares, 0);
    assert!(store.depositors(pid).is_empty());
}

#[test]
fn remove_share_of_zero_changes_nothing() {
    let mut store = Pallet::new();
    let pid = new_pool(&mut store, vec![]);
    store.add_share(ALICE, pid, 10).unwrap();
    store.accumulate_reward(pid, X, 40).unwrap();
    assert_eq!(store.remove_share(ALICE, pid, 0), vec![]);
    assert_eq!(totals(&store, pid, X), Some((40, 0)));
    assert_eq!(store.shares_and_withdrawn_rewards(pid, ALICE).share, 10);
}

#[test]
fn set_share_deposits_or_withdraws_the_difference() {
    let mut store = Pallet::new();
    let pid = new_pool(&mut store, vec![]);
    assert_eq!(store.set_share(ALICE, pid, 40), Ok(vec![]));
    assert_eq!(store.shares_and_withdrawn_rewards(pid, ALICE).share, 40);
    store.accumulate_reward(pid, X, 8).unwrap();
    assert_eq!(
        store.set_share(ALICE, pid, 10),
        Ok(vec![Transfer { currency: X, from: KEEPER, to: ALICE, amount: 8 }])
    );
    assert_eq!(store.shares_and_withdrawn_rewards(pid, ALICE).share, 10);
    assert_eq!(store.pool_infos(pid).unwrap().total_shares, 10);
    assert_eq!(store.set_share(ALICE, pid, 10), Ok(vec![]));
    assert_eq!(store.set_share(BOB, 9, 1), Err(Error::PoolDoesNotExist));
}

#[test]
fn shares_add_up_to_the_total_after_every_step() {
    let mut store = Pallet::new();
    let pid = new_pool(&mut store, vec![]);
    let steps: Vec<(u64, bool, u128)> = vec![
        (ALICE, true, 10),
        (BOB, true, 25),
        (ALICE, false, 4),
        (CAROL, true, 1),
        (BOB, false, 25),
        (ALICE, true, 1_000),
        (CAROL, false, 7),
        (ALICE, false, 1_006),
    ];
    for (who, add, amount) in steps {
        store.accumulate_reward(pid, X, 13).unwrap();
        if add {
            store.add_share(who, pid, amount).unwrap();
        } else {
            store.remove_share(who, pid, amount);
        }
        assert_eq!(sum_of_shares(&store, pid), store.pool_infos(pid).unwrap().total_shares);
        if let Some((accrued, paid)) = totals(&store, pid, X) {
            assert!(paid <= accrued);
        }
    }
    assert_eq!(store.pool_infos(pid).unwrap().total_shares, 0);
}

#[test]
fn a_new_depositor_cannot_claim_what_accrued_before() {
    let mut store = Pallet::new();
    let pid = new_pool(&mut store, vec![]);
    store.add_share(ALICE, pid, 77).unwrap();
    store.accumulate_reward(pid, X, 1_000).unwrap();
    store.accumulate_reward(pid, Y, 3).unwrap();
    store.add_share(BOB, pid, 33).unwrap();
    assert_eq!(store.claim_rewards(BOB, pid), vec![]);
    assert_eq!(
        store.claim_rewards(ALICE, pid),
        vec![
            Transfer { currency: X, from: KEEPER, to: ALICE, amount: 999 },
            Transfer { currency: Y, from: KEEPER, to: ALICE, amount: 2 },
        ]
    );
}

#[test]
fn the_first_depositor_of_an_empty_pool_gets_what_had_accrued() {
    let mut store = Pallet::new();
    let pid = new_pool(&mut store, vec![]);
    store.accumulate_reward(pid, X, 100).unwrap();
    store.add_share(ALICE, pid, 50).unwrap();
    assert_eq!(
        store.claim_rewards(ALICE, pid),
        vec![Transfer { currency: X, from: KEEPER, to: ALICE, amount: 100 }]
    );
}

#[test]
fn a_pool_keeps_its_state_through_share_changes() {
    let mut store = Pallet::new();
    let pid = new_pool(&mut store, vec![(X, 5)]);
    store.add_share(ALICE, pid, 1).unwrap();
    store.remove_share(ALICE, pid, 1);
    let pool = store.pool_infos(pid).unwrap();
    assert_eq!(pool.state, PoolState::UnCharged);
    assert_eq!(pool.keeper, KEEPER);
    assert_eq!(pool.basic_rewards.get(&X), Some(&5));
}
