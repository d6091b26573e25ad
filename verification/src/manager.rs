//! The transaction manager: factory for transactions and process-wide
//! coordination point.
//!
//! It owns the storage engine and the lock table for the process lifetime;
//! every transaction it creates works against those two. It also serves
//! non-transactional reads that bypass locking entirely.

use vstd::prelude::*;

use crate::lock_table::LockTable;
use crate::storage::{has_write, lookup, Storage};
use crate::txn::{Transaction, TxnState};

verus! {

/// The coordination point: shared owner of the storage engine and the lock
/// table, and allocator of fresh transaction ids.
pub struct TxnManager {
    /// The one lock table all transactions contend on.
    pub lock_table: LockTable,
    /// The storage engine all committed writes land in.
    pub store: Storage,
    /// The id the next transaction receives; ids count up, so every
    /// transaction of this manager gets a fresh one.
    pub next_id: u64,
    /// How many named partitions the store was created with. A partition
    /// handle is an index below this count.
    pub partitions: usize,
}

impl TxnManager {
    /// The manager's invariant: its lock table is well formed.
    pub open spec fn wf(self) -> bool {
        self.lock_table.wf()
    }

    /// A manager over `partitions` named partitions, with an empty store and
    /// an empty lock table. Independent managers are fully independent: each
    /// is an explicitly owned object, not a process singleton.
    pub fn new(partitions: usize) -> (r: TxnManager)
        ensures
            r.wf(),
            r.lock_table.holders@.len() == 0,
            r.lock_table.waiters@.len() == 0,
            r.store.log@.len() == 0,
            r.next_id == 0,
            r.partitions == partitions,
    {
        TxnManager {
            lock_table: LockTable::new(),
            store: Storage::new(),
            next_id: 0,
            partitions,
        }
    }

    /// Begin a fresh transaction. Always succeeds; the transaction starts
    /// active, holding no locks and no staged writes, under an id no earlier
    /// transaction of this manager received.
    pub fn begin(&mut self) -> (t: Transaction)
        requires
            old(self).wf(),
            old(self).next_id < u64::MAX,
        ensures
            final(self).wf(),
            t.id == old(self).next_id,
            t.state is Active,
            t.writes@.len() == 0,
            final(self).next_id == old(self).next_id + 1,
            final(self).lock_table == old(self).lock_table,
            final(self).store == old(self).store,
            final(self).partitions == old(self).partitions,
    {
        let id = self.next_id;
        self.next_id = self.next_id + 1;
        Transaction { id, state: TxnState::Active, writes: Vec::new() }
    }

    /// A direct, non-transactional read of the committed value of
    /// `(partition, key)`. It consults only the store: no lock is taken and
    /// no lock state is read, so it never blocks on and never fails because
    /// of any transaction's outstanding locks.
    pub fn get(&self, partition: usize, key: &Vec<u8>) -> (r: Option<Vec<u8>>)
        requires
            partition < self.partitions,
        ensures
            r is Some <==> has_write(self.store.log@, partition as int, key@),
            r matches Some(v) ==> lookup(self.store.log@, partition as int, key@) == Some(v@),
    {
        self.store.get(partition, key)
    }

    /// How many partitions the store was created with.
    pub fn partition_count(&self) -> (r: usize)
        ensures
            r == self.partitions,
    {
        self.partitions
    }
}

/// The named partitions ("column families") the store is created with at
/// startup, one handle per variant.
#[derive(Clone, Copy, Debug, PartialEq, Eq, Structural)]
pub enum DBColumnFamilies {
    User,
}

impl DBColumnFamilies {
    /// The partition's index with the manager.
    pub open spec fn spec_id(self) -> int {
        match self {
            DBColumnFamilies::User => 0,
        }
    }

    /// How many partitions there are.
    pub open spec fn spec_count() -> int {
        1
    }

    /// The partition handle: this partition's index with a manager created
    /// over [`DBColumnFamilies::count`] partitions.
    pub fn id(&self) -> (r: usize)
        ensures
            r == self.spec_id(),
            r < DBColumnFamilies::spec_count(),
    {
        match self {
            DBColumnFamilies::User => 0,
        }
    }

    /// How many partitions there are; a manager serving these partitions is
    /// created with this count.
    pub fn count() -> (r: usize)
        ensures
            r == DBColumnFamilies::spec_count(),
    {
        1
    }

    /// The partition's name in the storage engine.
    pub fn name(&self) -> (r: &'static str)
        ensures
            *self is User ==> r@ == "User"@,
    {
        match self {
            DBColumnFamilies::User => "User",
        }
    }

    /// Every partition, in creation order.
    pub fn all() -> (r: Vec<DBColumnFamilies>)
        ensures
            r@.len() == DBColumnFamilies::spec_count(),
            r@[0] is User,
    {
        let mut v: Vec<DBColumnFamilies> = Vec::new();
        v.push(DBColumnFamilies::User);
        v
    }
}

/// Extension of `Option` with a panic-free variant of `expect`: the caller
/// shows the value is present, so the message closure, which would only run
/// on a missing value, is never called.
pub trait OptionExtensions<T>: Sized {
    /// Is a value present?
    spec fn has_value(&self) -> bool;

    /// The value present.
    spec fn the_value(self) -> T;

    /// Unwrap the value; `msg_getter` would build the diagnostic message
    /// lazily, only on a missing value.
    fn expect_lazy<F: FnOnce() -> String>(self, msg_getter: F) -> (r: T)
        requires
            self.has_value(),
        ensures
            r == self.the_value(),
    ;
}

impl<T> OptionExtensions<T> for Option<T> {
    open spec fn has_value(&self) -> bool {
        *self is Some
    }

    open spec fn the_value(self) -> T {
        match self {
            Option::Some(t) => t,
            Option::None => vstd::pervasive::arbitrary(),
        }
    }

    fn expect_lazy<F: FnOnce() -> String>(self, msg_getter: F) -> (r: T) {
        let _ = msg_getter;
        match self {
            Option::Some(t) => t,
            Option::None => vstd::pervasive::unreached(),
        }
    }
}

} // verus!
