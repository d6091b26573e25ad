//! A pessimistic-locking transaction layer over an in-process ordered
//! key-value store.
//!
//! Concurrent transactions read and write keys under serializable isolation,
//! enforced through per-key shared/exclusive locks with bounded waiting and
//! timeout-based deadlock avoidance. Buffered writes are applied atomically on
//! commit; rollback (or abandonment) releases every lock without writing.

use vstd::prelude::*;

pub mod lock_table;
pub mod manager;
pub mod routes;
pub mod storage;
pub mod txn;

verus! {

/// Errors surfaced by the transaction layer.
#[derive(Clone, Copy, Debug, PartialEq, Eq, Structural)]
pub enum TxnError {
    /// A lock could not be acquired within the configured wait duration
    /// because of a conflicting holder. The caller may retry.
    LockTimeout,
    /// The underlying engine failed a read or the atomic write batch.
    StorageFailure,
    /// An operation was attempted on a finished transaction.
    InvalidTransactionState,
}

impl TxnError {
    /// A short description of the error; the lock-timeout wording matches the
    /// message an ordered storage engine reports for a lock wait timeout.
    pub fn message(&self) -> (r: &'static str)
        ensures
            *self is LockTimeout ==> r@ == "Operation timed out: Timeout waiting to lock key"@,
            *self is StorageFailure ==> r@ == "storage engine failure"@,
            *self is InvalidTransactionState ==> r@ == "operation on a finished transaction"@,
    {
        match self {
            TxnError::LockTimeout => "Operation timed out: Timeout waiting to lock key",
            TxnError::StorageFailure => "storage engine failure",
            TxnError::InvalidTransactionState => "operation on a finished transaction",
        }
    }
}

/// Byte-for-byte equality of two keys.
pub(crate) fn bytes_eq(a: &Vec<u8>, b: &Vec<u8>) -> (r: bool)
    ensures
        r == (a@ == b@),
{
    if a.len() != b.len() {
        return false;
    }
    let mut i: usize = 0;
    while i < a.len()
        invariant
            i <= a@.len(),
            a@.len() == b@.len(),
            forall|j: int| 0 <= j < i ==> a@[j] == b@[j],
        decreases a@.len() - i,
    {
        if a[i] != b[i] {
            return false;
        }
        i += 1;
    }
    proof {
        assert(a@ =~= b@);
    }
    true
}

/// An owned copy of a byte string.
pub(crate) fn clone_bytes(a: &Vec<u8>) -> (r: Vec<u8>)
    ensures
        r@ == a@,
{
    let mut r: Vec<u8> = Vec::new();
    let mut i: usize = 0;
    while i < a.len()
        invariant
            i <= a@.len(),
            r@ == a@.take(i as int),
        decreases a@.len() - i,
    {
        r.push(a[i]);
        proof {
            assert(a@.take(i as int + 1) =~= a@.take(i as int).push(a@[i as int]));
        }
        i += 1;
    }
    proof {
        assert(a@.take(a@.len() as int) =~= a@);
    }
    r
}

} // verus!
