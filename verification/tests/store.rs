use farming::{Error, Pallet, Permill, PoolState, Transfer};

const KEEPER: u64 = 1_000;
const LP: u32 = 1;
const X: u32 = 7;
const Y: u32 = 8;
const BOOST: u32 = 9;
const ADMIN: u64 = 500;
const ALICE: u64 = 1;
const BOB: u64 = 2;
const CAROL: u64 = 3;

fn busy_store() -> (Pallet, u32, u32) {
    let mut store = Pallet::new();
    let pid = store
        .create_farming_pool(
            KEEPER,
            vec![(LP, Permill::from_percent(100))],
            vec![(X, 100), (Y, 7)],
            Some((BOOST, Permill::from_percent(50), 1_000)),
            0,
            0,
            0,
            0,
            0,
        )
        .unwrap();
    store.charge(ADMIN, pid, vec![]).unwrap();
    store.on_initialize(1);
    store.deposit(ALICE, pid, 40, Some((10, 100))).unwrap();
    store.on_initialize(2);
    store.deposit(BOB, pid, 60, Some((5, 10))).unwrap();
    store.on_initialize(3);
    (store, pid, 0)
}

fn sum_of_debts(store: &Pallet, pid: u32, currency: u32) -> u128 {
    let mut sum = 0u128;
    for who in store.depositors(pid) {
        let record = store.shares_and_withdrawn_rewards(pid, who);
        sum += record.withdrawn_rewards.get(&currency).copied().unwrap_or(0);
    }
    sum
}

fn sum_of_locked(store: &Pallet, gid: u32) -> u128 {
    let mut sum = 0u128;
    for who in store.gauge_holders(gid) {
        sum += store.gauge_infos(gid, who).gauge_amount;
    }
    sum
}

fn paid_out(store: &Pallet, pid: u32, currency: u32) -> u128 {
    store.pool_infos(pid).unwrap().rewards.get(&currency).map(|t| t.1).unwrap_or(0)
}

#[test]
fn duplicate_copies_every_record() {
    let (store, pid, gid) = busy_store();
    let copy = store.duplicate();
    assert_eq!(copy.block_number(), 3);
    assert_eq!(copy.pool_next_id(), 1);
    assert_eq!(copy.gauge_pool_next_id(), 1);
    assert_eq!(copy.pool_ids(), vec![pid]);
    assert_eq!(copy.depositors(pid), vec![ALICE, BOB]);
    assert_eq!(copy.gauge_holders(gid), vec![ALICE, BOB]);
    let pool = copy.pool_infos(pid).unwrap();
    let source = store.pool_infos(pid).unwrap();
    assert_eq!(pool.total_shares, 100);
    assert_eq!(pool.state, PoolState::Ongoing);
    assert_eq!(pool.rewards, source.rewards);
    assert_eq!(pool.basic_rewards, source.basic_rewards);
    assert_eq!(pool.tokens_proportion, source.tokens_proportion);
    assert_eq!(
        copy.shares_and_withdrawn_rewards(pid, BOB).withdrawn_rewards,
        store.shares_and_withdrawn_rewards(pid, BOB).withdrawn_rewards
    );
    assert_eq!(copy.gauge_infos(gid, ALICE).gauge_stop_block, 101);
    assert_eq!(copy.gauge_pool_infos(gid).unwrap().gauge_amount, 15);
}

#[test]
fn duplicate_is_independent_of_the_store() {
    let (mut store, pid, _) = busy_store();
    let copy = store.duplicate();
    store.withdraw(ALICE, pid, None).unwrap();
    assert_eq!(store.pool_infos(pid).unwrap().total_shares, 60);
    assert_eq!(copy.pool_infos(pid).unwrap().total_shares, 100);
    assert_eq!(copy.depositors(pid), vec![ALICE, BOB]);
}

#[test]
fn conclude_keeps_the_store_where_the_ledger_accepted() {
    let (mut store, pid, _) = busy_store();
    let before = store.duplicate();
    store.deposit(CAROL, pid, 5, None).unwrap();
    assert_eq!(store.conclude(before, true), Ok(()));
    assert_eq!(store.shares_and_withdrawn_rewards(pid, CAROL).share, 5);
    assert_eq!(store.pool_infos(pid).unwrap().total_shares, 105);
}

#[test]
fn conclude_restores_the_store_where_the_ledger_refused() {
    let (mut store, pid, gid) = busy_store();
    let before = store.duplicate();
    let transfers = store.deposit(CAROL, pid, 5, Some((1, 1))).unwrap();
    assert_eq!(transfers.len(), 2);
    assert_eq!(store.conclude(before, false), Err(Error::NotEnoughBalance));
    assert_eq!(store.shares_and_withdrawn_rewards(pid, CAROL).share, 0);
    assert_eq!(store.pool_infos(pid).unwrap().total_shares, 100);
    assert_eq!(store.depositors(pid), vec![ALICE, BOB]);
    assert_eq!(store.gauge_holders(gid), vec![ALICE, BOB]);
    assert_eq!(store.gauge_pool_infos(gid).unwrap().gauge_amount, 15);
}

#[test]
fn debts_add_up_to_what_the_pool_has_paid() {
    let (mut store, pid, _) = busy_store();
    let mut block = 3;
    let steps: Vec<(u64, u8, u128)> = vec![
        (ALICE, 0, 0),
        (CAROL, 1, 17),
        (BOB, 2, 20),
        (CAROL, 0, 0),
        (ALICE, 2, 40),
        (BOB, 0, 0),
        (ALICE, 1, 3),
        (CAROL, 2, 100),
        (BOB, 2, 100),
        (ALICE, 2, 100),
    ];
    for (who, what, amount) in steps {
        block += 1;
        store.on_initialize(block);
        match what {
            0 => {
                store.claim_rewards(who, pid);
            }
            1 => {
                store.add_share(who, pid, amount).unwrap();
            }
            _ => {
                store.remove_share(who, pid, amount);
            }
        }
        for currency in [X, Y] {
            assert_eq!(sum_of_debts(&store, pid, currency), paid_out(&store, pid, currency));
        }
    }
    assert!(store.depositors(pid).is_empty());
}

#[test]
fn locked_amounts_add_up_to_the_gauge_pool_amount() {
    let (mut store, pid, gid) = busy_store();
    assert_eq!(sum_of_locked(&store, gid), 15);
    store.gauge_add(CAROL, pid, gid, 7, 1).unwrap();
    assert_eq!(sum_of_locked(&store, gid), store.gauge_pool_infos(gid).unwrap().gauge_amount);
    store.on_initialize(50);
    store.gauge_remove(BOB, pid, gid).unwrap();
    assert_eq!(store.gauge_pool_infos(gid).unwrap().gauge_amount, 17);
    assert_eq!(sum_of_locked(&store, gid), 17);
    store.gauge_claim(BOB, gid).unwrap();
    assert_eq!(sum_of_locked(&store, gid), 17);
    assert_eq!(store.gauge_remove(ALICE, pid, gid), Err(Error::CanNotWithdraw));
}

#[test]
fn a_claim_without_a_position_pays_nothing_and_leaves_the_amounts() {
    let (mut store, _, gid) = busy_store();
    assert_eq!(
        store.gauge_claim(CAROL, gid),
        Ok(vec![
            Transfer { currency: X, from: KEEPER, to: CAROL, amount: 0 },
            Transfer { currency: Y, from: KEEPER, to: CAROL, amount: 0 },
        ])
    );
    assert_eq!(store.gauge_infos(gid, CAROL).gauge_amount, 0);
    assert_eq!(store.gauge_infos(gid, CAROL).last_claim_block, 3);
    assert_eq!(store.gauge_pool_infos(gid).unwrap().gauge_amount, 15);
}
