use farming::{Error, Pallet, Permill, Transfer};

const KEEPER: u64 = 1_000;
const LP: u32 = 1;
const X: u32 = 7;
const BOOST: u32 = 9;
const ADMIN: u64 = 500;
const ALICE: u64 = 1;
const BOB: u64 = 2;

fn boosted_pool(store: &mut Pallet, basic: u128) -> (u32, u32) {
    let gid = store.gauge_pool_next_id();
    let pid = store
        .create_farming_pool(
            KEEPER,
            vec![(LP, Permill::from_percent(100))],
            vec![(X, basic)],
            Some((BOOST, Permill::from_percent(50), 1_000)),
            0,
            0,
            0,
            0,
            0,
        )
        .unwrap();
    store.charge(ADMIN, pid, vec![]).unwrap();
    store.on_initialize(1);
    (pid, gid)
}

#[test]
fn gauge_add_starts_a_position() {
    let mut store = Pallet::new();
    let (pid, gid) = boosted_pool(&mut store, 100);
    store.on_initialize(5);
    assert_eq!(
        store.gauge_add(ALICE, pid, gid, 10, 100),
        Ok(Transfer { currency: BOOST, from: ALICE, to: KEEPER, amount: 10 })
    );
    let position = store.gauge_infos(gid, ALICE);
    assert_eq!(position.who, ALICE);
    assert_eq!(position.gauge_amount, 10);
    assert_eq!(position.gauge_time_factor, 0);
    assert_eq!(position.gauge_start_block, 105);
    assert_eq!(position.gauge_stop_block, 105);
    assert_eq!(position.gauge_last_block, 5);
    assert_eq!(position.last_claim_block, 5);
    let gauge = store.gauge_pool_infos(gid).unwrap();
    assert_eq!(gauge.gauge_amount, 10);
    assert_eq!(gauge.gauge_time_factor, 0);
    assert_eq!(gauge.gauge_last_block, 5);
    assert_eq!(store.gauge_holders(gid), vec![ALICE]);
}

#[test]
fn gauge_add_accumulates_amount_times_blocks() {
    let mut store = Pallet::new();
    let (pid, gid) = boosted_pool(&mut store, 100);
    store.on_initialize(5);
    store.gauge_add(ALICE, pid, gid, 10, 100).unwrap();
    store.on_initialize(6);
    store.gauge_add(BOB, pid, gid, 10, 100).unwrap();
    assert_eq!(store.gauge_pool_infos(gid).unwrap().gauge_time_factor, 10);
    assert_eq!(store.gauge_pool_infos(gid).unwrap().gauge_amount, 20);
    assert_eq!(store.gauge_infos(gid, BOB).gauge_time_factor, 0);
    store.on_initialize(7);
    store.gauge_add(ALICE, pid, gid, 5, 1).unwrap();
    let gauge = store.gauge_pool_infos(gid).unwrap();
    assert_eq!(gauge.gauge_time_factor, 30);
    assert_eq!(gauge.gauge_amount, 25);
    assert_eq!(gauge.gauge_last_block, 7);
    let position = store.gauge_infos(gid, ALICE);
    assert_eq!(position.gauge_time_factor, 20);
    assert_eq!(position.gauge_amount, 15);
    assert_eq!(position.gauge_last_block, 7);
    assert_eq!(position.gauge_stop_block, 105);
    assert_eq!(position.last_claim_block, 5);
}

#[test]
fn the_time_factor_of_a_gauge_pool_never_falls() {
    let mut store = Pallet::new();
    let (pid, gid) = boosted_pool(&mut store, 100);
    let mut last = 0u128;
    for block in 2..40u32 {
        store.on_initialize(block);
        if block % 3 == 0 {
            store.gauge_add(ALICE, pid, gid, 7, 2).unwrap();
        }
        if block % 5 == 0 {
            store.gauge_claim(ALICE, gid).unwrap();
        }
        if block == 20 {
            store.gauge_remove(ALICE, pid, gid).unwrap();
        }
        let now = store.gauge_pool_infos(gid).unwrap().gauge_time_factor;
        assert!(now >= last);
        last = now;
    }
    assert!(last > 0);
}

#[test]
fn gauge_add_needs_gauge_pool_and_pool() {
    let mut store = Pallet::new();
    let (pid, gid) = boosted_pool(&mut store, 100);
    assert_eq!(store.gauge_add(ALICE, pid, gid + 1, 10, 100), Err(Error::GaugePoolNotExist));
    assert_eq!(store.gauge_add(ALICE, pid + 1, gid, 10, 100), Err(Error::PoolDoesNotExist));
    assert_eq!(store.gauge_pool_infos(gid).unwrap().gauge_amount, 0);
    assert!(store.gauge_holders(gid).is_empty());
}

#[test]
fn gauge_add_rejects_amounts_and_blocks_beyond_range() {
    let mut store = Pallet::new();
    let (pid, gid) = boosted_pool(&mut store, 100);
    assert_eq!(store.gauge_add(ALICE, pid, gid, 10, u32::MAX), Err(Error::CalculationOverflow));
    store.gauge_add(ALICE, pid, gid, u128::MAX, 1).unwrap();
    assert_eq!(store.gauge_add(BOB, pid, gid, 1, 1), Err(Error::CalculationOverflow));
    store.on_initialize(3);
    assert_eq!(store.gauge_add(BOB, pid, gid, 0, 1), Err(Error::CalculationOverflow));
    assert_eq!(store.gauge_pool_infos(gid).unwrap().gauge_amount, u128::MAX);
    assert_eq!(store.gauge_holders(gid), vec![ALICE]);
}

#[test]
fn deposit_with_a_lock_pays_in_and_locks() {
    let mut store = Pallet::new();
    let (pid, gid) = boosted_pool(&mut store, 100);
    assert_eq!(
        store.deposit(ALICE, pid, 40, Some((10, 100))),
        Ok(vec![
            Transfer { currency: LP, from: ALICE, to: KEEPER, amount: 40 },
            Transfer { currency: BOOST, from: ALICE, to: KEEPER, amount: 10 },
        ])
    );
    assert_eq!(store.shares_and_withdrawn_rewards(pid, ALICE).share, 40);
    assert_eq!(store.gauge_infos(gid, ALICE).gauge_amount, 10);
    assert_eq!(store.gauge_infos(gid, ALICE).gauge_stop_block, 101);
}

#[test]
fn deposit_with_a_lock_that_overflows_changes_nothing() {
    let mut store = Pallet::new();
    let (pid, gid) = boosted_pool(&mut store, 100);
    assert_eq!(
        store.deposit(ALICE, pid, 40, Some((10, u32::MAX))),
        Err(Error::CalculationOverflow)
    );
    assert_eq!(store.shares_and_withdrawn_rewards(pid, ALICE).share, 0);
    assert_eq!(store.pool_infos(pid).unwrap().total_shares, 0);
    assert_eq!(store.gauge_pool_infos(gid).unwrap().gauge_amount, 0);
}

#[test]
fn gauge_claim_pays_reward_times_weighted_blocks() {
    let mut store = Pallet::new();
    let (pid, gid) = boosted_pool(&mut store, 100);
    store.on_initialize(5);
    store.gauge_add(ALICE, pid, gid, 10, 100).unwrap();
    store.on_initialize(9);
    store.gauge_add(ALICE, pid, gid, 5, 100).unwrap();
    assert_eq!(store.gauge_infos(gid, ALICE).gauge_time_factor, 40);
    assert_eq!(store.gauge_pool_infos(gid).unwrap().gauge_time_factor, 40);
    assert_eq!(
        store.gauge_claim(ALICE, gid),
        Ok(vec![Transfer { currency: X, from: KEEPER, to: ALICE, amount: 400 }])
    );
    assert_eq!(store.gauge_infos(gid, ALICE).last_claim_block, 9);
    assert_eq!(
        store.gauge_claim(ALICE, gid),
        Ok(vec![Transfer { currency: X, from: KEEPER, to: ALICE, amount: 0 }])
    );
}

#[test]
fn gauge_claim_weighs_by_the_part_of_the_time_factor() {
    let mut store = Pallet::new();
    let (pid, gid) = boosted_pool(&mut store, 100);
    store.on_initialize(5);
    store.gauge_add(ALICE, pid, gid, 10, 100).unwrap();
    store.on_initialize(6);
    store.gauge_add(BOB, pid, gid, 10, 100).unwrap();
    store.on_initialize(7);
    store.gauge_add(ALICE, pid, gid, 0, 100).unwrap();
    assert_eq!(store.gauge_infos(gid, ALICE).gauge_time_factor, 20);
    assert_eq!(store.gauge_pool_infos(gid).unwrap().gauge_time_factor, 30);
    store.on_initialize(11);
    assert_eq!(
        store.gauge_claim(ALICE, gid),
        Ok(vec![Transfer { currency: X, from: KEEPER, to: ALICE, amount: 400 }])
    );
    assert_eq!(
        store.gauge_claim(BOB, gid),
        Ok(vec![Transfer { currency: X, from: KEEPER, to: BOB, amount: 0 }])
    );
    assert_eq!(store.gauge_infos(gid, BOB).last_claim_block, 11);
}

#[test]
fn gauge_claim_with_a_zero_pool_factor_pays_nothing() {
    let mut store = Pallet::new();
    let (pid, gid) = boosted_pool(&mut store, 100);
    store.on_initialize(5);
    store.gauge_add(ALICE, pid, gid, 10, 100).unwrap();
    store.on_initialize(50);
    assert_eq!(store.gauge_pool_infos(gid).unwrap().gauge_time_factor, 0);
    assert_eq!(
        store.gauge_claim(ALICE, gid),
        Ok(vec![Transfer { currency: X, from: KEEPER, to: ALICE, amount: 0 }])
    );
}

#[test]
fn gauge_claim_rejects_a_reward_beyond_range() {
    let mut store = Pallet::new();
    let (pid, gid) = boosted_pool(&mut store, u128::MAX);
    store.on_initialize(5);
    store.gauge_add(ALICE, pid, gid, 10, 100).unwrap();
    store.on_initialize(9);
    store.gauge_add(ALICE, pid, gid, 5, 100).unwrap();
    assert_eq!(store.gauge_claim(ALICE, gid), Err(Error::CalculationOverflow));
    assert_eq!(store.gauge_infos(gid, ALICE).last_claim_block, 5);
    assert_eq!(store.claim(ALICE, pid), Err(Error::CalculationOverflow));
}

#[test]
fn gauge_claim_needs_the_gauge_pool() {
    let mut store = Pallet::new();
    assert_eq!(store.gauge_claim(ALICE, 0), Err(Error::GaugePoolNotExist));
    assert_eq!(store.gauge_withdraw(ALICE, 0), Err(Error::GaugePoolNotExist));
}

#[test]
fn gauge_claim_needs_the_farming_pool() {
    let mut store = Pallet::new();
    let (pid, gid) = boosted_pool(&mut store, 100);
    store.close_pool(pid).unwrap();
    store.force_retire_pool(pid).unwrap();
    store.kill_pool(pid).unwrap();
    assert_eq!(store.gauge_claim(ALICE, gid), Err(Error::PoolDoesNotExist));
}

#[test]
fn gauge_withdraw_claims() {
    let mut store = Pallet::new();
    let (pid, gid) = boosted_pool(&mut store, 100);
    store.on_initialize(5);
    store.gauge_add(ALICE, pid, gid, 10, 100).unwrap();
    store.on_initialize(9);
    store.gauge_add(ALICE, pid, gid, 5, 100).unwrap();
    assert_eq!(
        store.gauge_withdraw(ALICE, gid),
        Ok(vec![Transfer { currency: X, from: KEEPER, to: ALICE, amount: 400 }])
    );
}

#[test]
fn claim_pays_pool_reward_and_boosted_reward() {
    let mut store = Pallet::new();
    let (pid, gid) = boosted_pool(&mut store, 100);
    store.on_initialize(5);
    store.deposit(ALICE, pid, 40, Some((10, 100))).unwrap();
    store.on_initialize(9);
    store.gauge_add(ALICE, pid, gid, 5, 100).unwrap();
    assert_eq!(
        store.claim(ALICE, pid),
        Ok(vec![
            Transfer { currency: X, from: KEEPER, to: ALICE, amount: 200 },
            Transfer { currency: X, from: KEEPER, to: ALICE, amount: 400 },
        ])
    );
}

#[test]
fn gauge_remove_waits_for_maturity() {
    let mut store = Pallet::new();
    let (pid, gid) = boosted_pool(&mut store, 100);
    store.on_initialize(5);
    store.gauge_add(ALICE, pid, gid, 10, 100).unwrap();
    store.on_initialize(104);
    assert_eq!(store.gauge_remove(ALICE, pid, gid), Err(Error::CanNotWithdraw));
    assert_eq!(store.gauge_infos(gid, ALICE).gauge_amount, 10);
    store.on_initialize(105);
    assert_eq!(
        store.gauge_remove(ALICE, pid, gid),
        Ok(Transfer { currency: BOOST, from: KEEPER, to: ALICE, amount: 10 })
    );
    assert_eq!(store.gauge_infos(gid, ALICE).gauge_amount, 0);
    assert!(store.gauge_holders(gid).is_empty());
    let gauge = store.gauge_pool_infos(gid).unwrap();
    assert_eq!(gauge.gauge_amount, 0);
    assert_eq!(gauge.gauge_time_factor, 1_000);
    assert_eq!(gauge.gauge_last_block, 105);
}

#[test]
fn gauge_remove_needs_gauge_pool_and_pool() {
    let mut store = Pallet::new();
    let (pid, gid) = boosted_pool(&mut store, 100);
    assert_eq!(store.gauge_remove(ALICE, pid, gid + 1), Err(Error::GaugePoolNotExist));
    assert_eq!(store.gauge_remove(ALICE, pid + 1, gid), Err(Error::PoolDoesNotExist));
}

#[test]
fn force_gauge_claim_pays_every_position() {
    let mut store = Pallet::new();
    let (pid, gid) = boosted_pool(&mut store, 100);
    store.on_initialize(5);
    store.gauge_add(BOB, pid, gid, 10, 100).unwrap();
    store.on_initialize(9);
    store.gauge_add(ALICE, pid, gid, 10, 100).unwrap();
    store.on_initialize(10);
    assert_eq!(
        store.force_gauge_claim(gid),
        Ok(vec![
            Transfer { currency: X, from: KEEPER, to: ALICE, amount: 0 },
            Transfer { currency: X, from: KEEPER, to: BOB, amount: 0 },
        ])
    );
    assert_eq!(store.gauge_infos(gid, ALICE).last_claim_block, 10);
    assert_eq!(store.gauge_infos(gid, BOB).last_claim_block, 10);
    store.gauge_add(BOB, pid, gid, 1, 100).unwrap();
    store.on_initialize(12);
    assert_eq!(
        store.force_gauge_claim(gid),
        Ok(vec![
            Transfer { currency: X, from: KEEPER, to: ALICE, amount: 0 },
            Transfer { currency: X, from: KEEPER, to: BOB, amount: 200 },
        ])
    );
    assert_eq!(store.force_gauge_claim(gid + 5), Ok(vec![]));
}

#[test]
fn force_gauge_claim_is_all_or_nothing() {
    let mut store = Pallet::new();
    let (pid, gid) = boosted_pool(&mut store, u128::MAX);
    store.on_initialize(5);
    store.gauge_add(ALICE, pid, gid, 10, 100).unwrap();
    store.gauge_add(BOB, pid, gid, 10, 100).unwrap();
    store.on_initialize(9);
    store.gauge_add(BOB, pid, gid, 1, 100).unwrap();
    store.on_initialize(20);
    assert_eq!(store.gauge_infos(gid, ALICE).gauge_time_factor, 0);
    assert_eq!(store.gauge_infos(gid, BOB).gauge_time_factor, 40);
    assert_eq!(store.force_gauge_claim(gid), Err(Error::CalculationOverflow));
    assert_eq!(store.gauge_infos(gid, ALICE).last_claim_block, 5);
    assert_eq!(store.gauge_infos(gid, BOB).last_claim_block, 5);
}

#[test]
fn gauge_claims_are_settled_once_every_position_has_claimed_now() {
    let mut store = Pallet::new();
    let (pid, gid) = boosted_pool(&mut store, 100);
    assert!(store.gauge_claims_settled(pid));
    store.gauge_add(ALICE, pid, gid, 10, 100).unwrap();
    store.gauge_add(BOB, pid, gid, 10, 100).unwrap();
    assert!(store.gauge_claims_settled(pid));
    store.on_initialize(2);
    assert!(!store.gauge_claims_settled(pid));
    assert!(store.gauge_claims_settled(pid + 1));
    store.gauge_claim(ALICE, gid).unwrap();
    assert!(!store.gauge_claims_settled(pid));
    store.gauge_claim(BOB, gid).unwrap();
    assert!(store.gauge_claims_settled(pid));
    store.on_initialize(3);
    store.force_gauge_claim(gid).unwrap();
    assert!(store.gauge_claims_settled(pid));
}

#[test]
fn rewards_of_a_retired_pool_change_after_the_gauge_claims() {
    let mut store = Pallet::new();
    let (pid, gid) = boosted_pool(&mut store, 100);
    store.gauge_add(ALICE, pid, gid, 10, 100).unwrap();
    store.on_initialize(2);
    store.close_pool(pid).unwrap();
    store.force_retire_pool(pid).unwrap();
    assert!(!store.gauge_claims_settled(pid));
    store.force_gauge_claim(gid).unwrap();
    assert!(store.gauge_claims_settled(pid));
    assert_eq!(store.edit_pool(pid, Some(vec![(X, 1)]), None, None, None), Ok(()));
    assert_eq!(store.pool_infos(pid).unwrap().basic_rewards.get(&X), Some(&1));
}

#[test]
fn claim_that_is_rejected_for_the_gauge_pays_nothing_of_the_pool() {
    let mut store = Pallet::new();
    let (pid, gid) = boosted_pool(&mut store, u128::MAX);
    store.on_initialize(5);
    store.deposit(ALICE, pid, 40, Some((10, 100))).unwrap();
    store.on_initialize(9);
    store.gauge_add(ALICE, pid, gid, 5, 100).unwrap();
    let before = store.pool_infos(pid).unwrap().rewards.get(&X).copied();
    assert_eq!(store.claim(ALICE, pid), Err(Error::CalculationOverflow));
    assert_eq!(store.pool_infos(pid).unwrap().rewards.get(&X).copied(), before);
    assert_eq!(store.shares_and_withdrawn_rewards(pid, ALICE).withdrawn_rewards.get(&X), Some(&0));
    assert_eq!(store.gauge_infos(gid, ALICE).last_claim_block, 5);
    assert_eq!(
        store.claim_rewards(ALICE, pid),
        vec![Transfer { currency: X, from: KEEPER, to: ALICE, amount: u128::MAX }]
    );
}
