//! Transactions: the transactional read/write surface.
//!
//! A transaction stages its writes in a private buffer and acquires per-key
//! locks through the manager's lock table; nothing reaches the store before
//! `commit`, which applies the whole buffer as one atomic batch and releases
//! every lock. `rollback` discards the buffer and releases every lock.

use vstd::prelude::*;

use crate::lock_table::{
    compatible, granted, holds_at_least, holds_on, no_holder_of, no_waiter_of, grant_pass,
    holders_less_txn, waiters_less_txn, LockMode,
};
use crate::manager::TxnManager;
use crate::storage::{has_write, lookup, lookup_in, Record};
use crate::TxnError;

verus! {

/// A transaction's lifecycle state. It starts `Active`; `commit` moves it to
/// `Committed` and `rollback` (or commit failure) to `RolledBack`. Neither
/// final state has a way out.
#[derive(Clone, Copy, Debug, PartialEq, Eq, Structural)]
pub enum TxnState {
    Active,
    Committed,
    RolledBack,
}

/// One unit of work: an id unique within its manager, a lifecycle state, and
/// the staged write buffer, in write order. The buffer belongs to this
/// transaction alone and is invisible to every other transaction until
/// commit.
pub struct Transaction {
    pub id: u64,
    pub state: TxnState,
    pub writes: Vec<Record>,
}

/// The value transaction `t` sees for `(p, k)`: its own latest staged write
/// of the key when there is one, else the committed value in the log. This
/// depends on nothing but the buffer and the log; in particular no lock state
/// enters into it.
pub open spec fn spec_read(t: Transaction, log: Seq<Record>, p: int, k: Seq<u8>) -> Option<
    Seq<u8>,
> {
    if has_write(t.writes@, p, k) {
        lookup(t.writes@, p, k)
    } else {
        lookup(log, p, k)
    }
}

impl Transaction {
    /// Read `(partition, key)` without locking: the transaction's own staged
    /// write when there is one, layered over the committed value. Never
    /// acquires a lock, never consults lock state, and so never blocks on or
    /// fails because of another transaction's locks; it errs only on a
    /// finished transaction.
    pub fn get(&self, mgr: &TxnManager, partition: usize, key: &Vec<u8>) -> (r: Result<
        Option<Vec<u8>>,
        TxnError,
    >)
        requires
            partition < mgr.partitions,
        ensures
            r is Ok <==> self.state is Active,
            !(self.state is Active) ==> r == Err::<Option<Vec<u8>>, TxnError>(
                TxnError::InvalidTransactionState,
            ),
            r matches Ok(v) ==> (v is Some <==> spec_read(
                *self,
                mgr.store.log@,
                partition as int,
                key@,
            ) is Some) && (v matches Some(b) ==> spec_read(
                *self,
                mgr.store.log@,
                partition as int,
                key@,
            ) == Some(b@)),
    {
        if !(matches!(self.state, TxnState::Active)) {
            return Err(TxnError::InvalidTransactionState);
        }
        match lookup_in(&self.writes, partition, key) {
            Some(v) => Ok(Some(v)),
            None => Ok(mgr.store.get(partition, key)),
        }
    }

    /// Read `(partition, key)` after taking a shared (or, with `exclusive`,
    /// an exclusive) lock on it, declaring read-then-write intent. The lock
    /// is granted exactly when the current holders are compatible with the
    /// request; otherwise the call times out with `LockTimeout` and changes
    /// nothing. The value returned is the same layered read `get` serves.
    pub fn get_for_update(
        &self,
        mgr: &mut TxnManager,
        partition: usize,
        key: &Vec<u8>,
        exclusive: bool,
        timeout_ms: u64,
    ) -> (r: Result<Option<Vec<u8>>, TxnError>)
        requires
            old(mgr).wf(),
            partition < old(mgr).partitions,
        ensures
            final(mgr).wf(),
            final(mgr).store == old(mgr).store,
            final(mgr).next_id == old(mgr).next_id,
            final(mgr).partitions == old(mgr).partitions,
            r is Ok <==> self.state is Active && compatible(
                old(mgr).lock_table.holders@,
                self.id,
                partition as int,
                key@,
                if exclusive {
                    LockMode::Exclusive
                } else {
                    LockMode::Shared
                },
            ),
            !(self.state is Active) ==> r == Err::<Option<Vec<u8>>, TxnError>(
                TxnError::InvalidTransactionState,
            ) && *final(mgr) == *old(mgr),
            r == Err::<Option<Vec<u8>>, TxnError>(TxnError::LockTimeout) ==> *final(mgr) == *old(mgr),
            self.state is Active && r is Err ==> r == Err::<Option<Vec<u8>>, TxnError>(
                TxnError::LockTimeout,
            ),
            r is Err ==> (r == Err::<Option<Vec<u8>>, TxnError>(TxnError::InvalidTransactionState)
                || r == Err::<Option<Vec<u8>>, TxnError>(TxnError::LockTimeout)),
            r is Ok ==> granted(
                old(mgr).lock_table.holders@,
                final(mgr).lock_table.holders@,
                self.id,
                partition as int,
                key@,
                if exclusive {
                    LockMode::Exclusive
                } else {
                    LockMode::Shared
                },
            ) && final(mgr).lock_table.waiters@ == old(mgr).lock_table.waiters@ && holds_at_least(
                final(mgr).lock_table.holders@,
                self.id,
                partition as int,
                key@,
                if exclusive {
                    LockMode::Exclusive
                } else {
                    LockMode::Shared
                },
            ) && holds_on(final(mgr).lock_table.holders@, self.id, partition as int, key@),
            r matches Ok(v) ==> (v is Some <==> spec_read(
                *self,
                old(mgr).store.log@,
                partition as int,
                key@,
            ) is Some) && (v matches Some(b) ==> spec_read(
                *self,
                old(mgr).store.log@,
                partition as int,
                key@,
            ) == Some(b@)),
    {
        if !(matches!(self.state, TxnState::Active)) {
            return Err(TxnError::InvalidTransactionState);
        }
        let mode = if exclusive {
            LockMode::Exclusive
        } else {
            LockMode::Shared
        };
        match mgr.lock_table.acquire(self.id, partition, key, mode, timeout_ms) {
            Ok(()) => {
                match lookup_in(&self.writes, partition, key) {
                    Some(v) => Ok(Some(v)),
                    None => Ok(mgr.store.get(partition, key)),
                }
            },
            Err(e) => Err(e),
        }
    }

    /// Stage a write of `value` under `(partition, key)`, after taking an
    /// exclusive lock on the key. The lock is granted exactly when the
    /// current holders are compatible with an exclusive request by this
    /// transaction (a key this transaction already holds exclusively is
    /// reused as a no-op, never deadlocking against itself); otherwise the
    /// call times out with `LockTimeout` and changes nothing. The write
    /// lands in the staged buffer only: durable storage is untouched until
    /// commit.
    pub fn put(
        &mut self,
        mgr: &mut TxnManager,
        partition: usize,
        key: Vec<u8>,
        value: Vec<u8>,
        timeout_ms: u64,
    ) -> (r: Result<(), TxnError>)
        requires
            old(mgr).wf(),
            partition < old(mgr).partitions,
        ensures
            final(mgr).wf(),
            final(self).id == old(self).id,
            final(self).state == old(self).state,
            final(mgr).store == old(mgr).store,
            final(mgr).next_id == old(mgr).next_id,
            final(mgr).partitions == old(mgr).partitions,
            r is Ok <==> old(self).state is Active && compatible(
                old(mgr).lock_table.holders@,
                old(self).id,
                partition as int,
                key@,
                LockMode::Exclusive,
            ),
            !(old(self).state is Active) ==> r == Err::<(), TxnError>(
                TxnError::InvalidTransactionState,
            ) && *final(self) == *old(self) && *final(mgr) == *old(mgr),
            r == Err::<(), TxnError>(TxnError::LockTimeout) ==> *final(self) == *old(self)
                && *final(mgr) == *old(mgr),
            old(self).state is Active && r is Err ==> r == Err::<(), TxnError>(
                TxnError::LockTimeout,
            ),
            r is Err ==> (r == Err::<(), TxnError>(TxnError::InvalidTransactionState) || r
                == Err::<(), TxnError>(TxnError::LockTimeout)),
            r is Ok ==> final(self).writes@ == old(self).writes@.push(
                Record { partition, key: key, value: value },
            ) && granted(
                old(mgr).lock_table.holders@,
                final(mgr).lock_table.holders@,
                old(self).id,
                partition as int,
                key@,
                LockMode::Exclusive,
            ) && holds_at_least(
                final(mgr).lock_table.holders@,
                old(self).id,
                partition as int,
                key@,
                LockMode::Exclusive,
            ) && final(mgr).lock_table.waiters@ == old(mgr).lock_table.waiters@ && spec_read(
                *final(self),
                final(mgr).store.log@,
                partition as int,
                key@,
            ) == Some(value@),
    {
        if !(matches!(self.state, TxnState::Active)) {
            return Err(TxnError::InvalidTransactionState);
        }
        match mgr.lock_table.acquire(self.id, partition, &key, LockMode::Exclusive, timeout_ms) {
            Ok(()) => {
                let rec = Record { partition, key, value };
                self.writes.push(rec);
                Ok(())
            },
            Err(e) => Err(e),
        }
    }

    /// Commit: apply the staged buffer to the store as one atomic batch, in
    /// write order, then release every lock (and drop any queued request) of
    /// this transaction, granting the wait queue's now-compatible requests in
    /// arrival order. One-shot: committing a finished transaction fails with
    /// `InvalidTransactionState` and changes nothing.
    pub fn commit(&mut self, mgr: &mut TxnManager) -> (r: Result<(), TxnError>)
        requires
            old(mgr).wf(),
        ensures
            final(mgr).wf(),
            final(self).id == old(self).id,
            final(mgr).next_id == old(mgr).next_id,
            final(mgr).partitions == old(mgr).partitions,
            r is Ok <==> old(self).state is Active,
            r is Err ==> r == Err::<(), TxnError>(TxnError::InvalidTransactionState) && *final(self) == *old(self) && *final(mgr) == *old(mgr),
            r is Ok ==> final(self).state is Committed && final(self).writes@.len() == 0 && final(mgr).store.log@ == old(mgr).store.log@ + old(self).writes@ && ({
                let g = grant_pass(
                    holders_less_txn(old(mgr).lock_table.holders@, old(self).id),
                    waiters_less_txn(old(mgr).lock_table.waiters@, old(self).id),
                );
                final(mgr).lock_table.holders@ == g.0 && final(mgr).lock_table.waiters@ == g.1
            }) && no_holder_of(final(mgr).lock_table.holders@, old(self).id) && no_waiter_of(
                final(mgr).lock_table.waiters@,
                old(self).id,
            ),
    {
        if !(matches!(self.state, TxnState::Active)) {
            return Err(TxnError::InvalidTransactionState);
        }
        let mut writes: Vec<Record> = Vec::new();
        core::mem::swap(&mut writes, &mut self.writes);
        mgr.store.write_batch(writes);
        mgr.lock_table.release_all(self.id);
        self.state = TxnState::Committed;
        Ok(())
    }

    /// Roll back: discard the staged buffer unapplied and release every lock
    /// (and drop any queued request) of this transaction, granting the wait
    /// queue's now-compatible requests in arrival order. On a finished
    /// transaction it is a no-op, so rolling back twice, or after commit, is
    /// harmless: the transaction's destruction path may always run it.
    pub fn rollback(&mut self, mgr: &mut TxnManager)
        requires
            old(mgr).wf(),
        ensures
            final(mgr).wf(),
            final(self).id == old(self).id,
            final(mgr).store == old(mgr).store,
            final(mgr).next_id == old(mgr).next_id,
            final(mgr).partitions == old(mgr).partitions,
            !(old(self).state is Active) ==> *final(self) == *old(self) && *final(mgr) == *old(mgr),
            old(self).state is Active ==> final(self).state is RolledBack && final(self).writes@.len() == 0 && ({
                let g = grant_pass(
                    holders_less_txn(old(mgr).lock_table.holders@, old(self).id),
                    waiters_less_txn(old(mgr).lock_table.waiters@, old(self).id),
                );
                final(mgr).lock_table.holders@ == g.0 && final(mgr).lock_table.waiters@ == g.1
            }) && no_holder_of(final(mgr).lock_table.holders@, old(self).id) && no_waiter_of(
                final(mgr).lock_table.waiters@,
                old(self).id,
            ),
    {
        if !(matches!(self.state, TxnState::Active)) {
            return ;
        }
        self.writes.clear();
        mgr.lock_table.release_all(self.id);
        self.state = TxnState::RolledBack;
    }
}

/// LAW (unlocked reads ignore locks): what a transaction reads without a
/// lock depends only on its own staged buffer and the committed log. Two
/// managers with the same log, whatever their lock tables hold, serve the
/// same read, so no other transaction's lock can block or change it.
pub proof fn lemma_get_ignores_locks(
    t: Transaction,
    m1: TxnManager,
    m2: TxnManager,
    p: int,
    k: Seq<u8>,
)
    requires
        m1.store.log@ == m2.store.log@,
    ensures
        spec_read(t, m1.store.log@, p, k) == spec_read(t, m2.store.log@, p, k),
{
}

} // verus!
