use farming::{Error, GaugeState, Pallet, Permill, PoolState, Transfer};

const KEEPER: u64 = 1_000;
const LP: u32 = 1;
const LP2: u32 = 2;
const X: u32 = 7;
const BOOST: u32 = 9;
const ADMIN: u64 = 500;
const ALICE: u64 = 1;
const BOB: u64 = 2;

fn plain_pool(store: &mut Pallet, basic: u128) -> u32 {
    let keeper = KEEPER + store.pool_next_id() as u64;
    store
        .create_farming_pool(
            keeper,
            vec![(LP, Permill::from_percent(100))],
            vec![(X, basic)],
            None,
            0,
            0,
            0,
            0,
            0,
        )
        .unwrap()
}

fn ongoing_pool(store: &mut Pallet, basic: u128) -> u32 {
    let pid = plain_pool(store, basic);
    store.charge(ADMIN, pid, vec![(X, 1_000_000)]).unwrap();
    let next = store.block_number() + 1;
    store.on_initialize(next);
    pid
}

fn totals(store: &Pallet, pid: u32, currency: u32) -> Option<(u128, u128)> {
    store.pool_infos(pid).unwrap().rewards.get(&currency).copied()
}

#[test]
fn create_farming_pool_assigns_ids_in_order() {
    let mut store = Pallet::new();
    assert_eq!(plain_pool(&mut store, 1), 0);
    assert_eq!(plain_pool(&mut store, 1), 1);
    assert_eq!(store.pool_next_id(), 2);
    assert_eq!(store.pool_ids(), vec![0, 1]);
    let pool = store.pool_infos(1).unwrap();
    assert_eq!(pool.state, PoolState::UnCharged);
    assert_eq!(pool.total_shares, 0);
    assert_eq!(pool.keeper, KEEPER + 1);
    assert_eq!(pool.gauge, None);
    assert_eq!(pool.block_startup, None);
    assert!(pool.rewards.is_empty());
}

#[test]
fn create_farming_pool_keeps_its_parameters() {
    let mut store = Pallet::new();
    let pid = store
        .create_farming_pool(
            KEEPER,
            vec![(LP, Permill::from_percent(30)), (LP2, Permill::from_percent(70))],
            vec![(X, 5), (X, 6)],
            None,
            11,
            12,
            13,
            14,
            15,
        )
        .unwrap();
    let pool = store.pool_infos(pid).unwrap();
    assert_eq!(pool.tokens_proportion.get(&LP), Some(&Permill::from_percent(30)));
    assert_eq!(pool.tokens_proportion.get(&LP2), Some(&Permill::from_percent(70)));
    assert_eq!(pool.basic_rewards.get(&X), Some(&6));
    assert_eq!(pool.min_deposit_to_start, 11);
    assert_eq!(pool.after_block_to_start, 12);
    assert_eq!(pool.withdraw_limit_time, 13);
    assert_eq!(pool.claim_limit_time, 14);
    assert_eq!(pool.withdraw_limit_count, 15);
}

#[test]
fn create_farming_pool_with_gauge_creates_a_bonded_gauge_pool() {
    let mut store = Pallet::new();
    store.on_initialize(4);
    let pid = store
        .create_farming_pool(
            KEEPER,
            vec![(LP, Permill::from_percent(100))],
            vec![(X, 100)],
            Some((BOOST, Permill::from_percent(50), 1_000)),
            0,
            0,
            0,
            0,
            0,
        )
        .unwrap();
    assert_eq!(store.pool_infos(pid).unwrap().gauge, Some(0));
    assert_eq!(store.gauge_pool_next_id(), 1);
    assert_eq!(store.gauge_pool_ids(), vec![0]);
    let gauge = store.gauge_pool_infos(0).unwrap();
    assert_eq!(gauge.pid, pid);
    assert_eq!(gauge.token, BOOST);
    assert_eq!(gauge.coefficient, Permill::from_percent(50));
    assert_eq!(gauge.max_block, 1_000);
    assert_eq!(gauge.gauge_state, GaugeState::Bonded);
    assert_eq!(gauge.gauge_amount, 0);
    assert_eq!(gauge.gauge_time_factor, 0);
    assert_eq!(gauge.gauge_start_block, 4);
    assert_eq!(gauge.gauge_last_block, 4);
}

#[test]
fn charge_lists_the_rewards_and_moves_the_pool_on() {
    let mut store = Pallet::new();
    let pid = plain_pool(&mut store, 100);
    let transfers = store.charge(ADMIN, pid, vec![(X, 300), (BOOST, 0), (X, 1)]).unwrap();
    assert_eq!(
        transfers,
        vec![
            Transfer { currency: X, from: ADMIN, to: KEEPER, amount: 300 },
            Transfer { currency: BOOST, from: ADMIN, to: KEEPER, amount: 0 },
            Transfer { currency: X, from: ADMIN, to: KEEPER, amount: 1 },
        ]
    );
    assert_eq!(store.pool_infos(pid).unwrap().state, PoolState::Charged);
}

#[test]
fn charge_is_rejected_unless_uncharged() {
    let mut store = Pallet::new();
    let pid = plain_pool(&mut store, 100);
    store.charge(ADMIN, pid, vec![]).unwrap();
    assert_eq!(store.charge(ADMIN, pid, vec![(X, 1)]), Err(Error::InvalidPoolState));
    assert_eq!(store.charge(ADMIN, 9, vec![(X, 1)]), Err(Error::PoolDoesNotExist));
}

#[test]
fn a_charged_pool_starts_at_its_start_block() {
    let mut store = Pallet::new();
    let pid = store
        .create_farming_pool(
            KEEPER,
            vec![(LP, Permill::from_percent(100))],
            vec![(X, 100)],
            None,
            1_000,
            5,
            0,
            0,
            0,
        )
        .unwrap();
    store.on_initialize(1);
    assert_eq!(store.pool_infos(pid).unwrap().state, PoolState::UnCharged);
    store.charge(ADMIN, pid, vec![]).unwrap();
    store.on_initialize(4);
    assert_eq!(store.pool_infos(pid).unwrap().state, PoolState::Charged);
    assert_eq!(store.pool_infos(pid).unwrap().block_startup, None);
    store.on_initialize(5);
    assert_eq!(store.pool_infos(pid).unwrap().state, PoolState::Ongoing);
    assert_eq!(store.pool_infos(pid).unwrap().block_startup, Some(5));
    assert_eq!(totals(&store, pid, X), None);
    store.on_initialize(6);
    assert_eq!(totals(&store, pid, X), Some((100, 0)));
    assert_eq!(store.block_number(), 6);
}

#[test]
fn a_charged_pool_starts_once_enough_is_deposited() {
    let mut store = Pallet::new();
    let pid = store
        .create_farming_pool(
            KEEPER,
            vec![(LP, Permill::from_percent(100))],
            vec![(X, 100)],
            None,
            50,
            1_000,
            0,
            0,
            0,
        )
        .unwrap();
    store.charge(ADMIN, pid, vec![]).unwrap();
    store.deposit(ALICE, pid, 49, None).unwrap();
    store.on_initialize(1);
    assert_eq!(store.pool_infos(pid).unwrap().state, PoolState::Charged);
    store.deposit(BOB, pid, 1, None).unwrap();
    store.on_initialize(2);
    assert_eq!(store.pool_infos(pid).unwrap().state, PoolState::Ongoing);
    assert_eq!(store.pool_infos(pid).unwrap().block_startup, Some(2));
}

#[test]
fn the_tick_accrues_every_basic_reward_of_an_ongoing_pool() {
    let mut store = Pallet::new();
    let pid = store
        .create_farming_pool(
            KEEPER,
            vec![(LP, Permill::from_percent(100))],
            vec![(X, 100), (BOOST, 3)],
            None,
            0,
            0,
            0,
            0,
            0,
        )
        .unwrap();
    store.charge(ADMIN, pid, vec![]).unwrap();
    store.on_initialize(1);
    store.on_initialize(2);
    store.on_initialize(3);
    assert_eq!(totals(&store, pid, X), Some((200, 0)));
    assert_eq!(totals(&store, pid, BOOST), Some((6, 0)));
}

#[test]
fn the_tick_saturates() {
    let mut store = Pallet::new();
    let pid = ongoing_pool(&mut store, u128::MAX - 1);
    store.on_initialize(2);
    store.on_initialize(3);
    assert_eq!(totals(&store, pid, X), Some((u128::MAX, 0)));
}

#[test]
fn the_tick_leaves_other_states_alone() {
    let mut store = Pallet::new();
    let uncharged = plain_pool(&mut store, 100);
    let dead = ongoing_pool(&mut store, 100);
    store.close_pool(dead).unwrap();
    store.on_initialize(10);
    assert_eq!(store.pool_infos(uncharged).unwrap().state, PoolState::UnCharged);
    assert_eq!(totals(&store, uncharged, X), None);
    assert_eq!(store.pool_infos(dead).unwrap().state, PoolState::Dead);
    assert_eq!(totals(&store, dead, X), None);
}

#[test]
fn the_tick_accrues_the_coefficient_part_in_a_bonded_gauge_pool() {
    let mut store = Pallet::new();
    let pid = store
        .create_farming_pool(
            KEEPER,
            vec![(LP, Permill::from_percent(100))],
            vec![(X, 101)],
            Some((BOOST, Permill::from_percent(50), 1_000)),
            0,
            0,
            0,
            0,
            0,
        )
        .unwrap();
    store.on_initialize(1);
    assert!(store.gauge_pool_infos(0).unwrap().rewards.is_empty());
    store.charge(ADMIN, pid, vec![]).unwrap();
    store.on_initialize(2);
    assert_eq!(store.gauge_pool_infos(0).unwrap().rewards.get(&X), Some(&(50, 0)));
    assert_eq!(totals(&store, pid, X), None);
    store.on_initialize(3);
    assert_eq!(store.gauge_pool_infos(0).unwrap().rewards.get(&X), Some(&(100, 0)));
    assert_eq!(totals(&store, pid, X), Some((101, 0)));
    store.close_pool(pid).unwrap();
    store.on_initialize(4);
    assert_eq!(store.gauge_pool_infos(0).unwrap().rewards.get(&X), Some(&(100, 0)));
}

#[test]
fn deposit_splits_the_value_over_the_deposit_currencies() {
    let mut store = Pallet::new();
    let pid = store
        .create_farming_pool(
            KEEPER,
            vec![(LP2, Permill::from_percent(70)), (LP, Permill::from_percent(30))],
            vec![(X, 100)],
            None,
            0,
            0,
            0,
            0,
            0,
        )
        .unwrap();
    store.charge(ADMIN, pid, vec![]).unwrap();
    assert_eq!(
        store.deposit(ALICE, pid, 10, None),
        Ok(vec![
            Transfer { currency: LP, from: ALICE, to: KEEPER, amount: 3 },
            Transfer { currency: LP2, from: ALICE, to: KEEPER, amount: 7 },
        ])
    );
    assert_eq!(store.shares_and_withdrawn_rewards(pid, ALICE).share, 10);
    assert_eq!(store.pool_infos(pid).unwrap().total_shares, 10);
}

#[test]
fn deposit_is_admitted_while_charged_or_ongoing_only() {
    let mut store = Pallet::new();
    let pid = plain_pool(&mut store, 100);
    assert_eq!(store.deposit(ALICE, pid, 10, None), Err(Error::InvalidPoolState));
    store.charge(ADMIN, pid, vec![]).unwrap();
    assert!(store.deposit(ALICE, pid, 10, None).is_ok());
    store.on_initialize(1);
    assert!(store.deposit(ALICE, pid, 10, None).is_ok());
    store.close_pool(pid).unwrap();
    assert_eq!(store.deposit(ALICE, pid, 10, None), Err(Error::InvalidPoolState));
    store.force_retire_pool(pid).unwrap();
    assert_eq!(store.deposit(ALICE, pid, 10, None), Err(Error::InvalidPoolState));
    assert_eq!(store.deposit(ALICE, 9, 10, None), Err(Error::PoolDoesNotExist));
    assert_eq!(store.shares_and_withdrawn_rewards(pid, ALICE).share, 20);
}

#[test]
fn deposit_with_a_lock_needs_a_gauge_pool() {
    let mut store = Pallet::new();
    let pid = ongoing_pool(&mut store, 100);
    assert_eq!(store.deposit(ALICE, pid, 10, Some((5, 100))), Err(Error::GaugePoolNotExist));
    assert_eq!(store.shares_and_withdrawn_rewards(pid, ALICE).share, 0);
    assert_eq!(store.pool_infos(pid).unwrap().total_shares, 0);
}

#[test]
fn deposit_that_overflows_changes_nothing() {
    let mut store = Pallet::new();
    let pid = ongoing_pool(&mut store, 100);
    store.deposit(ALICE, pid, u128::MAX, None).unwrap();
    assert_eq!(store.deposit(BOB, pid, 1, None), Err(Error::CalculationOverflow));
    assert_eq!(store.pool_infos(pid).unwrap().total_shares, u128::MAX);
    assert_eq!(store.depositors(pid), vec![ALICE]);
}

#[test]
fn withdraw_claims_and_pays_the_deposit_back() {
    let mut store = Pallet::new();
    let pid = ongoing_pool(&mut store, 100);
    store.deposit(ALICE, pid, 50, None).unwrap();
    store.on_initialize(2);
    assert_eq!(
        store.withdraw(ALICE, pid, Some(20)),
        Ok(vec![
            Transfer { currency: X, from: KEEPER, to: ALICE, amount: 100 },
            Transfer { currency: LP, from: KEEPER, to: ALICE, amount: 20 },
        ])
    );
    assert_eq!(store.shares_and_withdrawn_rewards(pid, ALICE).share, 30);
    assert_eq!(store.pool_infos(pid).unwrap().total_shares, 30);
}

#[test]
fn withdraw_without_amount_takes_the_whole_position() {
    let mut store = Pallet::new();
    let pid = ongoing_pool(&mut store, 100);
    store.deposit(ALICE, pid, 50, None).unwrap();
    store.deposit(BOB, pid, 5, None).unwrap();
    assert_eq!(
        store.withdraw(ALICE, pid, None),
        Ok(vec![Transfer { currency: LP, from: KEEPER, to: ALICE, amount: 50 }])
    );
    assert_eq!(store.depositors(pid), vec![BOB]);
    assert_eq!(store.pool_infos(pid).unwrap().total_shares, 5);
}

#[test]
fn withdraw_of_more_than_is_held_pays_what_is_held() {
    let mut store = Pallet::new();
    let pid = ongoing_pool(&mut store, 100);
    store.deposit(ALICE, pid, 50, None).unwrap();
    assert_eq!(
        store.withdraw(ALICE, pid, Some(80)),
        Ok(vec![Transfer { currency: LP, from: KEEPER, to: ALICE, amount: 50 }])
    );
    assert_eq!(store.pool_infos(pid).unwrap().total_shares, 0);
}

#[test]
fn withdraw_is_admitted_after_close_but_not_before_charge() {
    let mut store = Pallet::new();
    let pid = plain_pool(&mut store, 100);
    assert_eq!(store.withdraw(ALICE, pid, None), Err(Error::InvalidPoolState));
    store.charge(ADMIN, pid, vec![]).unwrap();
    store.deposit(ALICE, pid, 9, None).unwrap();
    assert!(store.withdraw(ALICE, pid, Some(1)).is_ok());
    store.on_initialize(1);
    assert!(store.withdraw(ALICE, pid, Some(1)).is_ok());
    store.close_pool(pid).unwrap();
    assert!(store.withdraw(ALICE, pid, Some(1)).is_ok());
    store.force_retire_pool(pid).unwrap();
    assert_eq!(store.withdraw(ALICE, pid, Some(1)), Err(Error::InvalidPoolState));
    assert_eq!(store.withdraw(ALICE, 9, None), Err(Error::PoolDoesNotExist));
    assert_eq!(store.shares_and_withdrawn_rewards(pid, ALICE).share, 6);
}

#[test]
fn deposit_then_withdraw_restores_shares_and_balances() {
    let mut store = Pallet::new();
    let pid = store
        .create_farming_pool(
            KEEPER,
            vec![(LP, Permill::from_percent(30)), (LP2, Permill::from_percent(70))],
            vec![(X, 100)],
            None,
            0,
            0,
            0,
            0,
            0,
        )
        .unwrap();
    store.charge(ADMIN, pid, vec![]).unwrap();
    store.on_initialize(1);
    store.deposit(BOB, pid, 1_000, None).unwrap();
    store.on_initialize(2);
    let before = store.pool_infos(pid).unwrap().total_shares;
    let paid_in = store.deposit(ALICE, pid, 333, None).unwrap();
    let paid_out = store.withdraw(ALICE, pid, Some(333)).unwrap();
    assert_eq!(store.pool_infos(pid).unwrap().total_shares, before);
    assert_eq!(store.shares_and_withdrawn_rewards(pid, ALICE).share, 0);
    assert_eq!(paid_in.len(), 2);
    assert_eq!(paid_out.len(), 2);
    for (there, back) in paid_in.iter().zip(paid_out.iter()) {
        assert_eq!(back.currency, there.currency);
        assert_eq!(back.amount, there.amount);
        assert_eq!(back.from, there.to);
        assert_eq!(back.to, there.from);
    }
    assert_eq!(paid_in[0].amount, 100);
    assert_eq!(paid_in[1].amount, 233);
}

#[test]
fn claim_after_one_tick_pays_the_whole_reward() {
    let mut store = Pallet::new();
    let pid = ongoing_pool(&mut store, 100);
    assert_eq!(store.pool_infos(pid).unwrap().total_shares, 0);
    assert_eq!(
        store.deposit(BOB, pid, 50, None),
        Ok(vec![Transfer { currency: LP, from: BOB, to: KEEPER, amount: 50 }])
    );
    assert_eq!(store.shares_and_withdrawn_rewards(pid, BOB).share, 50);
    store.on_initialize(2);
    assert_eq!(totals(&store, pid, X), Some((100, 0)));
    assert_eq!(
        store.claim(BOB, pid),
        Ok(vec![Transfer { currency: X, from: KEEPER, to: BOB, amount: 100 }])
    );
    assert_eq!(
        store.shares_and_withdrawn_rewards(pid, BOB).withdrawn_rewards.get(&X),
        Some(&100)
    );
    assert_eq!(totals(&store, pid, X), Some((100, 100)));
    assert_eq!(store.claim(BOB, pid), Ok(vec![]));
    assert_eq!(totals(&store, pid, X), Some((100, 100)));
}

#[test]
fn claim_is_admitted_while_ongoing_or_dead_only() {
    let mut store = Pallet::new();
    let pid = plain_pool(&mut store, 100);
    assert_eq!(store.claim(ALICE, pid), Err(Error::InvalidPoolState));
    store.charge(ADMIN, pid, vec![]).unwrap();
    store.deposit(ALICE, pid, 1, None).unwrap();
    assert_eq!(store.claim(ALICE, pid), Err(Error::InvalidPoolState));
    store.on_initialize(1);
    store.on_initialize(2);
    store.close_pool(pid).unwrap();
    assert_eq!(
        store.claim(ALICE, pid),
        Ok(vec![Transfer { currency: X, from: KEEPER, to: ALICE, amount: 100 }])
    );
    store.force_retire_pool(pid).unwrap();
    assert_eq!(store.claim(ALICE, pid), Err(Error::InvalidPoolState));
    assert_eq!(store.claim(ALICE, 9), Err(Error::PoolDoesNotExist));
}

#[test]
fn close_pool_needs_an_ongoing_pool() {
    let mut store = Pallet::new();
    let pid = plain_pool(&mut store, 100);
    assert_eq!(store.close_pool(pid), Err(Error::InvalidPoolState));
    store.charge(ADMIN, pid, vec![]).unwrap();
    assert_eq!(store.close_pool(pid), Err(Error::InvalidPoolState));
    store.on_initialize(1);
    assert_eq!(store.close_pool(pid), Ok(()));
    assert_eq!(store.pool_infos(pid).unwrap().state, PoolState::Dead);
    assert_eq!(store.close_pool(pid), Err(Error::InvalidPoolState));
    assert_eq!(store.close_pool(9), Err(Error::PoolDoesNotExist));
}

#[test]
fn force_retire_pool_settles_every_depositor() {
    let mut store = Pallet::new();
    let pid = store
        .create_farming_pool(
            KEEPER,
            vec![(LP, Permill::from_percent(50)), (LP2, Permill::from_percent(50))],
            vec![(X, 101)],
            Some((BOOST, Permill::from_percent(50), 1_000)),
            0,
            0,
            0,
            0,
            0,
        )
        .unwrap();
    store.charge(ADMIN, pid, vec![]).unwrap();
    store.on_initialize(1);
    store.deposit(BOB, pid, 100, None).unwrap();
    store.deposit(ALICE, pid, 1, None).unwrap();
    store.on_initialize(2);
    assert_eq!(store.force_retire_pool(pid), Err(Error::InvalidPoolState));
    store.close_pool(pid).unwrap();
    assert_eq!(
        store.force_retire_pool(pid),
        Ok(vec![
            Transfer { currency: X, from: KEEPER, to: ALICE, amount: 1 },
            Transfer { currency: X, from: KEEPER, to: BOB, amount: 100 },
            Transfer { currency: LP, from: KEEPER, to: BOB, amount: 50 },
            Transfer { currency: LP2, from: KEEPER, to: BOB, amount: 50 },
        ])
    );
    let pool = store.pool_infos(pid).unwrap();
    assert_eq!(pool.state, PoolState::Retired);
    assert_eq!(pool.gauge, None);
    assert_eq!(pool.total_shares, 101);
    assert_eq!(totals(&store, pid, X), Some((101, 101)));
    assert_eq!(store.gauge_pool_infos(0).unwrap().gauge_state, GaugeState::Unbond);
    assert_eq!(store.depositors(pid), vec![ALICE, BOB]);
    assert_eq!(store.force_retire_pool(pid), Err(Error::InvalidPoolState));
    assert_eq!(store.force_retire_pool(9), Err(Error::PoolDoesNotExist));
    store.on_initialize(3);
    assert_eq!(store.gauge_pool_infos(0).unwrap().rewards.get(&X), Some(&(100, 0)));
}

#[test]
fn kill_pool_erases_the_pool_and_its_share_records() {
    let mut store = Pallet::new();
    let kept = ongoing_pool(&mut store, 100);
    let pid = ongoing_pool(&mut store, 100);
    store.deposit(ALICE, kept, 5, None).unwrap();
    store.deposit(ALICE, pid, 7, None).unwrap();
    assert_eq!(store.kill_pool(pid), Err(Error::InvalidPoolState));
    store.close_pool(pid).unwrap();
    assert_eq!(store.kill_pool(pid), Err(Error::InvalidPoolState));
    store.force_retire_pool(pid).unwrap();
    assert_eq!(store.kill_pool(pid), Ok(()));
    assert!(store.pool_infos(pid).is_none());
    assert!(store.depositors(pid).is_empty());
    assert_eq!(store.shares_and_withdrawn_rewards(pid, ALICE).share, 0);
    assert_eq!(store.shares_and_withdrawn_rewards(kept, ALICE).share, 5);
    assert_eq!(store.pool_ids(), vec![kept]);
    assert_eq!(store.pool_next_id(), 2);
    assert_eq!(store.kill_pool(pid), Err(Error::PoolDoesNotExist));
}

#[test]
fn reset_pool_sets_what_is_given_and_keeps_the_state() {
    let mut store = Pallet::new();
    let pid = ongoing_pool(&mut store, 100);
    assert_eq!(
        store.reset_pool(pid, None, None, None, None, None, None, None),
        Err(Error::InvalidPoolState)
    );
    store.close_pool(pid).unwrap();
    store.force_retire_pool(pid).unwrap();
    assert_eq!(
        store.reset_pool(
            pid,
            Some(vec![(BOOST, 4)]),
            Some(21),
            None,
            Some(23),
            None,
            Some(25),
            Some((BOOST, Permill::from_percent(10), 77)),
        ),
        Ok(())
    );
    let pool = store.pool_infos(pid).unwrap();
    assert_eq!(pool.state, PoolState::Retired);
    assert_eq!(pool.basic_rewards.get(&X), None);
    assert_eq!(pool.basic_rewards.get(&BOOST), Some(&4));
    assert_eq!(pool.min_deposit_to_start, 21);
    assert_eq!(pool.after_block_to_start, 0);
    assert_eq!(pool.withdraw_limit_time, 23);
    assert_eq!(pool.claim_limit_time, 0);
    assert_eq!(pool.withdraw_limit_count, 25);
    assert_eq!(pool.gauge, Some(0));
    assert_eq!(store.gauge_pool_infos(0).unwrap().max_block, 77);
    assert_eq!(
        store.reset_pool(9, None, None, None, None, None, None, None),
        Err(Error::PoolDoesNotExist)
    );
}

#[test]
fn edit_pool_sets_rewards_limits_and_coefficient() {
    let mut store = Pallet::new();
    let pid = ongoing_pool(&mut store, 100);
    assert_eq!(store.edit_pool(pid, None, None, None, None), Err(Error::InvalidPoolState));
    store.close_pool(pid).unwrap();
    store.force_retire_pool(pid).unwrap();
    assert_eq!(
        store.edit_pool(pid, None, None, None, Some(Permill::from_percent(5))),
        Err(Error::GaugePoolNotExist)
    );
    assert_eq!(store.edit_pool(pid, Some(vec![(X, 9)]), Some(3), Some(4), None), Ok(()));
    let pool = store.pool_infos(pid).unwrap();
    assert_eq!(pool.basic_rewards.get(&X), Some(&9));
    assert_eq!(pool.withdraw_limit_time, 3);
    assert_eq!(pool.claim_limit_time, 4);
    store
        .reset_pool(
            pid,
            None,
            None,
            None,
            None,
            None,
            None,
            Some((BOOST, Permill::from_percent(10), 77)),
        )
        .unwrap();
    assert_eq!(
        store.edit_pool(pid, None, None, Some(8), Some(Permill::from_percent(5))),
        Ok(())
    );
    assert_eq!(store.gauge_pool_infos(0).unwrap().coefficient, Permill::from_percent(5));
    assert_eq!(store.pool_infos(pid).unwrap().claim_limit_time, 8);
    assert_eq!(store.pool_infos(pid).unwrap().withdraw_limit_time, 3);
    assert_eq!(store.edit_pool(9, None, None, None, None), Err(Error::PoolDoesNotExist));
}

#[test]
fn a_keeper_is_free_until_a_pool_has_it() {
    let mut store = Pallet::new();
    assert!(store.keeper_is_free(KEEPER));
    let pid = plain_pool(&mut store, 1);
    assert!(!store.keeper_is_free(KEEPER));
    assert!(store.keeper_is_free(KEEPER + 1));
    plain_pool(&mut store, 1);
    assert!(!store.keeper_is_free(KEEPER + 1));
    store.charge(ADMIN, pid, vec![]).unwrap();
    store.on_initialize(1);
    store.close_pool(pid).unwrap();
    store.force_retire_pool(pid).unwrap();
    assert!(!store.keeper_is_free(KEEPER));
    store.kill_pool(pid).unwrap();
    assert!(store.keeper_is_free(KEEPER));
}
