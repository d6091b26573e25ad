//! Transaction and lock-table behavior: shared/exclusive semantics, lock
//! timeouts, commit/rollback, and the wait queue.

use lockstore::lock_table::{LockMode, LockTable};
use lockstore::manager::{DBColumnFamilies, OptionExtensions, TxnManager};
use lockstore::TxnError;

const TIMEOUT: u64 = 1000;

fn seeded_manager() -> (TxnManager, usize) {
    let mut mgr = TxnManager::new(DBColumnFamilies::count());
    let cf = DBColumnFamilies::User.id();
    let mut setup = mgr.begin();
    setup
        .put(&mut mgr, cf, b"user1".to_vec(), b"user1".to_vec(), TIMEOUT)
        .unwrap();
    setup
        .put(&mut mgr, cf, b"user2".to_vec(), b"user2".to_vec(), TIMEOUT)
        .unwrap();
    setup
        .put(&mut mgr, cf, b"user3".to_vec(), b"user3".to_vec(), TIMEOUT)
        .unwrap();
    setup.commit(&mut mgr).unwrap();
    (mgr, cf)
}

#[test]
fn seed_and_read_back() {
    let (mgr, cf) = seeded_manager();
    assert_eq!(mgr.get(cf, &b"user1".to_vec()), Some(b"user1".to_vec()));
    assert_eq!(mgr.get(cf, &b"user2".to_vec()), Some(b"user2".to_vec()));
    assert_eq!(mgr.get(cf, &b"user3".to_vec()), Some(b"user3".to_vec()));
    assert_eq!(mgr.get(cf, &b"user4".to_vec()), None);
}

#[test]
fn get_does_not_lock_key() {
    let (mut mgr, cf) = seeded_manager();
    let txn1 = mgr.begin();
    let mut txn2 = mgr.begin();

    let read = txn1.get(&mgr, cf, &b"user1".to_vec()).unwrap();
    assert_eq!(read, Some(b"user1".to_vec()));
    let res = txn2.put(&mut mgr, cf, b"user1".to_vec(), b"user1-txn2".to_vec(), TIMEOUT);
    assert!(res.is_ok(), "putting in txn2 should work");
}

#[test]
fn same_key_put_times_out() {
    let (mut mgr, cf) = seeded_manager();
    let mut txn1 = mgr.begin();
    let mut txn2 = mgr.begin();

    txn1.put(&mut mgr, cf, b"user1".to_vec(), b"user1-txn1".to_vec(), TIMEOUT)
        .unwrap();
    let res = txn2.put(&mut mgr, cf, b"user1".to_vec(), b"user1-txn2".to_vec(), TIMEOUT);
    assert!(res.is_err(), "put in txn2 should fail");
    assert_eq!(
        res.err().unwrap().message(),
        "Operation timed out: Timeout waiting to lock key"
    );
}

#[test]
fn shared_lock_allows_get() {
    let (mut mgr, cf) = seeded_manager();
    let txn1 = mgr.begin();
    let txn2 = mgr.begin();

    txn1.get_for_update(&mut mgr, cf, &b"user1".to_vec(), false, TIMEOUT)
        .unwrap();
    let res = txn2.get(&mgr, cf, &b"user1".to_vec());
    assert!(res.is_ok(), "get in txn2 should work");
    assert_eq!(res.unwrap(), Some(b"user1".to_vec()));
}

#[test]
fn shared_lock_blocks_put() {
    let (mut mgr, cf) = seeded_manager();
    let txn1 = mgr.begin();
    let mut txn2 = mgr.begin();

    txn1.get_for_update(&mut mgr, cf, &b"user1".to_vec(), false, TIMEOUT)
        .unwrap();
    let res = txn2.put(&mut mgr, cf, b"user1".to_vec(), b"user1-txn2".to_vec(), TIMEOUT);
    assert!(res.is_err(), "put in txn2 should fail");
    assert_eq!(res, Err(TxnError::LockTimeout));
}

#[test]
fn shared_locks_coexist() {
    let (mut mgr, cf) = seeded_manager();
    let txn1 = mgr.begin();
    let txn2 = mgr.begin();

    txn1.get_for_update(&mut mgr, cf, &b"user1".to_vec(), false, TIMEOUT)
        .unwrap();
    let res = txn2.get_for_update(&mut mgr, cf, &b"user1".to_vec(), false, TIMEOUT);
    assert!(res.is_ok(), "shared lock in txn2 should coexist");
}

#[test]
fn exclusive_lock_blocks_get_for_update() {
    let (mut mgr, cf) = seeded_manager();
    let txn1 = mgr.begin();
    let txn2 = mgr.begin();

    txn1.get_for_update(&mut mgr, cf, &b"user1".to_vec(), true, TIMEOUT)
        .unwrap();
    let res = txn2.get_for_update(&mut mgr, cf, &b"user1".to_vec(), true, TIMEOUT);
    assert!(res.is_err(), "exclusive get_for_update in txn2 should fail");
    assert_eq!(res, Err(TxnError::LockTimeout));

    let res = txn2.get_for_update(&mut mgr, cf, &b"user1".to_vec(), false, TIMEOUT);
    assert!(res.is_err(), "shared get_for_update in txn2 should fail");
    assert_eq!(res, Err(TxnError::LockTimeout));
}

#[test]
fn disjoint_keys_commit_independently() {
    let (mut mgr, cf) = seeded_manager();
    let mut txn1 = mgr.begin();
    let mut txn2 = mgr.begin();

    txn1.put(&mut mgr, cf, b"user1".to_vec(), b"a".to_vec(), TIMEOUT)
        .unwrap();
    txn2.put(&mut mgr, cf, b"user2".to_vec(), b"b".to_vec(), TIMEOUT)
        .unwrap();
    txn1.commit(&mut mgr).unwrap();
    txn2.commit(&mut mgr).unwrap();

    assert_eq!(mgr.get(cf, &b"user1".to_vec()), Some(b"a".to_vec()));
    assert_eq!(mgr.get(cf, &b"user2".to_vec()), Some(b"b".to_vec()));
}

#[test]
fn disjoint_write_sets_commit_independently() {
    let (mut mgr, cf) = seeded_manager();
    let mut txn1 = mgr.begin();
    let mut txn2 = mgr.begin();

    // Multi-key write sets with no key in common: every put succeeds at
    // once, both commits succeed, and both write sets land whole.
    txn1.put(&mut mgr, cf, b"user1".to_vec(), b"a1".to_vec(), TIMEOUT)
        .unwrap();
    txn1.put(&mut mgr, cf, b"user2".to_vec(), b"a2".to_vec(), TIMEOUT)
        .unwrap();
    txn2.put(&mut mgr, cf, b"user3".to_vec(), b"b3".to_vec(), TIMEOUT)
        .unwrap();
    txn2.put(&mut mgr, cf, b"user4".to_vec(), b"b4".to_vec(), TIMEOUT)
        .unwrap();
    txn1.commit(&mut mgr).unwrap();
    txn2.commit(&mut mgr).unwrap();

    assert_eq!(mgr.get(cf, &b"user1".to_vec()), Some(b"a1".to_vec()));
    assert_eq!(mgr.get(cf, &b"user2".to_vec()), Some(b"a2".to_vec()));
    assert_eq!(mgr.get(cf, &b"user3".to_vec()), Some(b"b3".to_vec()));
    assert_eq!(mgr.get(cf, &b"user4".to_vec()), Some(b"b4".to_vec()));
}

#[test]
fn upgrade_replaces_shared_lock() {
    let (mut mgr, cf) = seeded_manager();
    let txn1 = mgr.begin();
    let txn2 = mgr.begin();

    // txn1 starts shared, then upgrades to exclusive while alone on the key.
    txn1.get_for_update(&mut mgr, cf, &b"user1".to_vec(), false, TIMEOUT)
        .unwrap();
    txn1.get_for_update(&mut mgr, cf, &b"user1".to_vec(), true, TIMEOUT)
        .unwrap();
    // After the upgrade, even a shared request by someone else is blocked.
    assert_eq!(
        txn2.get_for_update(&mut mgr, cf, &b"user1".to_vec(), false, TIMEOUT),
        Err(TxnError::LockTimeout)
    );
    // A shared holder elsewhere on the key forbids the upgrade.
    let txn3 = mgr.begin();
    let txn4 = mgr.begin();
    txn3.get_for_update(&mut mgr, cf, &b"user2".to_vec(), false, TIMEOUT)
        .unwrap();
    txn4.get_for_update(&mut mgr, cf, &b"user2".to_vec(), false, TIMEOUT)
        .unwrap();
    assert_eq!(
        txn3.get_for_update(&mut mgr, cf, &b"user2".to_vec(), true, TIMEOUT),
        Err(TxnError::LockTimeout)
    );
}

#[test]
fn second_writer_wins_after_first_commits() {
    let (mut mgr, cf) = seeded_manager();
    let mut txn1 = mgr.begin();
    let mut txn2 = mgr.begin();

    txn1.put(&mut mgr, cf, b"user1".to_vec(), b"user1-txn1".to_vec(), TIMEOUT)
        .unwrap();
    // While txn1 holds the key exclusively, txn2's write times out.
    let res = txn2.put(&mut mgr, cf, b"user1".to_vec(), b"user1-txn2".to_vec(), TIMEOUT);
    assert_eq!(res, Err(TxnError::LockTimeout));

    // Once txn1 commits and releases, a fresh attempt succeeds.
    txn1.commit(&mut mgr).unwrap();
    txn2.put(&mut mgr, cf, b"user1".to_vec(), b"user1-txn2".to_vec(), TIMEOUT)
        .unwrap();
    txn2.commit(&mut mgr).unwrap();

    assert_eq!(mgr.get(cf, &b"user1".to_vec()), Some(b"user1-txn2".to_vec()));
}

#[test]
fn commit_handoff_scenario() {
    // Seed user1..user3, then run the write of "v1" to completion before the
    // second transaction, waiting on the first's commit, writes "v2".
    let (mut mgr, cf) = seeded_manager();

    let mut txn1 = mgr.begin();
    txn1.put(&mut mgr, cf, b"user1".to_vec(), b"v1".to_vec(), TIMEOUT)
        .unwrap();
    txn1.commit(&mut mgr).unwrap();

    let mut txn2 = mgr.begin();
    txn2.put(&mut mgr, cf, b"user1".to_vec(), b"v2".to_vec(), TIMEOUT)
        .unwrap();
    txn2.commit(&mut mgr).unwrap();

    assert_eq!(mgr.get(cf, &b"user1".to_vec()), Some(b"v2".to_vec()));
}

#[test]
fn rollback_frees_locks() {
    let (mut mgr, cf) = seeded_manager();
    let mut txn1 = mgr.begin();
    let mut txn2 = mgr.begin();

    txn1.get_for_update(&mut mgr, cf, &b"user1".to_vec(), true, TIMEOUT)
        .unwrap();
    let res = txn2.put(&mut mgr, cf, b"user1".to_vec(), b"x".to_vec(), TIMEOUT);
    assert_eq!(res, Err(TxnError::LockTimeout));

    txn1.rollback(&mut mgr);
    txn2.put(&mut mgr, cf, b"user1".to_vec(), b"x".to_vec(), TIMEOUT)
        .unwrap();
    txn2.commit(&mut mgr).unwrap();

    // The rolled-back write never landed; the later one did.
    assert_eq!(mgr.get(cf, &b"user1".to_vec()), Some(b"x".to_vec()));
}

#[test]
fn rollback_discards_buffer() {
    let (mut mgr, cf) = seeded_manager();
    let mut txn1 = mgr.begin();
    txn1.put(&mut mgr, cf, b"user1".to_vec(), b"gone".to_vec(), TIMEOUT)
        .unwrap();
    txn1.rollback(&mut mgr);
    assert_eq!(mgr.get(cf, &b"user1".to_vec()), Some(b"user1".to_vec()));
    // Rollback is idempotent with destruction: a second call is a no-op.
    txn1.rollback(&mut mgr);
}

#[test]
fn write_own_reads() {
    let (mut mgr, cf) = seeded_manager();
    let mut txn1 = mgr.begin();
    txn1.put(&mut mgr, cf, b"user1".to_vec(), b"pending".to_vec(), TIMEOUT)
        .unwrap();
    // The transaction sees its own staged write ...
    assert_eq!(
        txn1.get(&mgr, cf, &b"user1".to_vec()).unwrap(),
        Some(b"pending".to_vec())
    );
    // ... while everyone else still sees the committed value.
    let txn2 = mgr.begin();
    assert_eq!(
        txn2.get(&mgr, cf, &b"user1".to_vec()).unwrap(),
        Some(b"user1".to_vec())
    );
    assert_eq!(mgr.get(cf, &b"user1".to_vec()), Some(b"user1".to_vec()));
}

#[test]
fn finished_transaction_rejects_operations() {
    let (mut mgr, cf) = seeded_manager();
    let mut txn1 = mgr.begin();
    txn1.put(&mut mgr, cf, b"user1".to_vec(), b"v".to_vec(), TIMEOUT)
        .unwrap();
    txn1.commit(&mut mgr).unwrap();

    // Commit is one-shot; further operations err without touching anything.
    assert_eq!(txn1.commit(&mut mgr), Err(TxnError::InvalidTransactionState));
    assert_eq!(
        txn1.put(&mut mgr, cf, b"user1".to_vec(), b"w".to_vec(), TIMEOUT),
        Err(TxnError::InvalidTransactionState)
    );
    assert_eq!(
        txn1.get(&mgr, cf, &b"user1".to_vec()),
        Err(TxnError::InvalidTransactionState)
    );
    assert_eq!(
        txn1.get_for_update(&mut mgr, cf, &b"user1".to_vec(), true, TIMEOUT),
        Err(TxnError::InvalidTransactionState)
    );
    assert_eq!(mgr.get(cf, &b"user1".to_vec()), Some(b"v".to_vec()));
}

#[test]
fn error_messages() {
    assert_eq!(
        TxnError::LockTimeout.message(),
        "Operation timed out: Timeout waiting to lock key"
    );
    assert_eq!(TxnError::StorageFailure.message(), "storage engine failure");
    assert_eq!(
        TxnError::InvalidTransactionState.message(),
        "operation on a finished transaction"
    );
}

#[test]
fn wait_queue_grants_in_arrival_order() {
    let cf = DBColumnFamilies::User.id();
    let key = b"k".to_vec();
    let mut lt = LockTable::new();

    assert!(lt.request(1, cf, &key, LockMode::Exclusive));
    // Two shared requests queue up behind the exclusive holder.
    assert!(!lt.request(2, cf, &key, LockMode::Shared));
    assert!(!lt.request(3, cf, &key, LockMode::Shared));
    assert!(!lt.holds(2, cf, &key));
    assert!(!lt.holds(3, cf, &key));

    // The release grants both queued shared requests.
    lt.release(1, cf, &key);
    assert!(!lt.holds(1, cf, &key));
    assert!(lt.holds(2, cf, &key));
    assert!(lt.holds(3, cf, &key));
}

#[test]
fn wait_queue_exclusive_waiter_blocks_later_grant() {
    let cf = DBColumnFamilies::User.id();
    let key = b"k".to_vec();
    let mut lt = LockTable::new();

    assert!(lt.request(1, cf, &key, LockMode::Exclusive));
    assert!(!lt.request(2, cf, &key, LockMode::Exclusive));
    assert!(!lt.request(3, cf, &key, LockMode::Shared));

    // The exclusive waiter at the front is granted alone; the shared waiter
    // behind it stays queued.
    lt.release(1, cf, &key);
    assert!(lt.holds(2, cf, &key));
    assert!(!lt.holds(3, cf, &key));

    // Once the exclusive holder releases, the shared waiter gets its turn.
    lt.release(2, cf, &key);
    assert!(lt.holds(3, cf, &key));
}

#[test]
fn timed_out_waiter_is_removed() {
    let cf = DBColumnFamilies::User.id();
    let key = b"k".to_vec();
    let mut lt = LockTable::new();

    assert!(lt.request(1, cf, &key, LockMode::Exclusive));
    assert!(!lt.request(2, cf, &key, LockMode::Exclusive));

    // The waiter gives up; the later release must not grant it anything.
    lt.timed_out(2, cf, &key);
    lt.release(1, cf, &key);
    assert!(!lt.holds(2, cf, &key));
}

#[test]
fn release_all_frees_every_key() {
    let cf = DBColumnFamilies::User.id();
    let mut lt = LockTable::new();

    assert!(lt.request(1, cf, &b"a".to_vec(), LockMode::Exclusive));
    assert!(lt.request(1, cf, &b"b".to_vec(), LockMode::Shared));
    lt.release_all(1);
    assert!(!lt.holds(1, cf, &b"a".to_vec()));
    assert!(!lt.holds(1, cf, &b"b".to_vec()));
    // Both keys are immediately acquirable by someone else.
    assert!(lt.request(2, cf, &b"a".to_vec(), LockMode::Exclusive));
    assert!(lt.request(2, cf, &b"b".to_vec(), LockMode::Exclusive));
}

#[test]
fn reacquiring_a_held_key_does_not_deadlock() {
    let (mut mgr, cf) = seeded_manager();
    let mut txn1 = mgr.begin();
    txn1.put(&mut mgr, cf, b"user1".to_vec(), b"one".to_vec(), TIMEOUT)
        .unwrap();
    // The same transaction may lock the key again, in the same or a weaker
    // mode, without blocking against itself.
    txn1.put(&mut mgr, cf, b"user1".to_vec(), b"two".to_vec(), TIMEOUT)
        .unwrap();
    txn1.get_for_update(&mut mgr, cf, &b"user1".to_vec(), false, TIMEOUT)
        .unwrap();
    txn1.commit(&mut mgr).unwrap();
    assert_eq!(mgr.get(cf, &b"user1".to_vec()), Some(b"two".to_vec()));
}

#[test]
fn expect_lazy_unwraps() {
    let v: Option<u32> = Some(7);
    assert_eq!(v.expect_lazy(|| "missing".to_string()), 7);
}

#[test]
fn column_family_handles() {
    assert_eq!(DBColumnFamilies::count(), 1);
    assert_eq!(DBColumnFamilies::User.id(), 0);
    assert_eq!(DBColumnFamilies::User.name(), "User");
    let all = DBColumnFamilies::all();
    assert_eq!(all.len(), 1);
    assert!(matches!(all[0], DBColumnFamilies::User));
}
