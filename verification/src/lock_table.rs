//! The in-memory lock table: the serialization point for all key contention.
//!
//! Each lockable resource is a `(partition, key)` pair. A grant is recorded as
//! a [`Holder`]; a blocked request sits in an ordered wait queue as a
//! [`Waiter`]. Shared locks may be held concurrently by several transactions;
//! an exclusive lock excludes every other transaction on the same key.
//!
//! Deadlocks are avoided by bounded waiting, not cycle detection: a request
//! that cannot be granted within its timeout fails with
//! [`crate::TxnError::LockTimeout`] and leaves no trace in the table.

use vstd::prelude::*;

use crate::{bytes_eq, clone_bytes, TxnError};

verus! {

/// The two lock modes. `Shared` admits concurrent shared holders; `Exclusive`
/// admits exactly one holder and excludes all others.
#[derive(Clone, Copy, Debug, PartialEq, Eq, Structural)]
pub enum LockMode {
    Shared,
    Exclusive,
}

/// One granted lock: `txn_id` holds `mode` on the key `(partition, key)`.
///
/// The `(partition, key)` pair is the lockable resource: a partition
/// identifier together with the raw key bytes.
pub struct Holder {
    pub txn_id: u64,
    pub partition: usize,
    pub key: Vec<u8>,
    pub mode: LockMode,
}

/// One blocked request in a key's wait queue, in arrival order. `stamp` is the
/// arrival stamp recorded when the request joined the queue; it breaks ties
/// among requests of the same mode.
pub struct Waiter {
    pub txn_id: u64,
    pub partition: usize,
    pub key: Vec<u8>,
    pub mode: LockMode,
    pub stamp: u64,
}

/// Does the holder sit on the resource `(p, k)`?
pub open spec fn holder_on(h: Holder, p: int, k: Seq<u8>) -> bool {
    h.partition == p && h.key@ == k
}

/// Does the holder record exactly this grant?
pub open spec fn holder_is(h: Holder, txn_id: u64, p: int, k: Seq<u8>, m: LockMode) -> bool {
    h.txn_id == txn_id && h.partition == p && h.key@ == k && h.mode == m
}

/// Does the waiter record exactly this request?
pub open spec fn waiter_is(w: Waiter, txn_id: u64, p: int, k: Seq<u8>, m: LockMode) -> bool {
    w.txn_id == txn_id && w.partition == p && w.key@ == k && w.mode == m
}

/// A request by `txn_id` for `m` on `(p, k)` can be granted at once, exactly
/// when every holder of that key belonging to another transaction is shared
/// and the request itself is shared. A transaction is never blocked by locks
/// it holds itself, so re-acquiring a held key cannot deadlock.
pub open spec fn compatible(s: Seq<Holder>, txn_id: u64, p: int, k: Seq<u8>, m: LockMode) -> bool {
    forall|h: Holder|
        #[trigger] s.contains(h) && holder_on(h, p, k) && h.txn_id != txn_id
            ==> h.mode is Shared && m is Shared
}

/// `txn_id` holds some lock on `(p, k)`.
pub open spec fn holds_on(s: Seq<Holder>, txn_id: u64, p: int, k: Seq<u8>) -> bool {
    exists|h: Holder| #[trigger] s.contains(h) && holder_on(h, p, k) && h.txn_id == txn_id
}

/// `txn_id` holds an exclusive lock on `(p, k)`.
pub open spec fn holds_exclusive(s: Seq<Holder>, txn_id: u64, p: int, k: Seq<u8>) -> bool {
    exists|h: Holder|
        #[trigger] s.contains(h) && holder_on(h, p, k) && h.txn_id == txn_id
            && h.mode is Exclusive
}

/// No transaction holds any lock on `(p, k)`.
pub open spec fn unlocked(s: Seq<Holder>, p: int, k: Seq<u8>) -> bool {
    forall|h: Holder| #[trigger] s.contains(h) ==> !holder_on(h, p, k)
}

/// Every holder of `(p, k)` belongs to `txn_id`.
pub open spec fn sole_owner(s: Seq<Holder>, txn_id: u64, p: int, k: Seq<u8>) -> bool {
    forall|h: Holder| #[trigger] s.contains(h) && holder_on(h, p, k) ==> h.txn_id == txn_id
}

/// The lock table's invariant: two holders of one key that belong to
/// different transactions are both shared. Equivalently, an exclusive holder
/// is the sole transaction on its key.
pub open spec fn holders_wf(s: Seq<Holder>) -> bool {
    forall|a: Holder, b: Holder|
        #[trigger] s.contains(a) && #[trigger] s.contains(b) && a.partition == b.partition
            && a.key@ == b.key@ && a.txn_id != b.txn_id
            ==> a.mode is Shared && b.mode is Shared
}

/// The process-wide registry mapping each key to its lock state: the set of
/// current holders and the ordered wait queue of blocked requests.
///
/// All lock mutation passes through `&mut self` methods, so a single owner
/// (or one point of mutual exclusion around the table) serializes every
/// acquire and release.
pub struct LockTable {
    /// Current grants. A transaction re-acquiring a key it already holds at
    /// sufficient strength is reused as a no-op, and an upgrade replaces the
    /// transaction's record for the key; a release removes every record of
    /// the transaction on the key.
    pub holders: Vec<Holder>,
    /// Blocked requests in arrival order (front is the oldest).
    pub waiters: Vec<Waiter>,
    /// Arrival stamp handed to the next waiter.
    pub next_stamp: u64,
}

impl LockTable {
    /// The table's invariant.
    pub open spec fn wf(self) -> bool {
        holders_wf(self.holders@)
    }

    /// An empty lock table: nothing held, nothing waiting.
    pub fn new() -> (r: LockTable)
        ensures
            r.holders@.len() == 0,
            r.waiters@.len() == 0,
            r.wf(),
    {
        LockTable { holders: Vec::new(), waiters: Vec::new(), next_stamp: 0 }
    }

    /// Can `txn_id`'s request for `mode` on `(partition, key)` be granted now?
    pub fn is_compatible(&self, txn_id: u64, partition: usize, key: &Vec<u8>, mode: LockMode) -> (r:
        bool)
        ensures
            r == compatible(self.holders@, txn_id, partition as int, key@, mode),
    {
        let n = self.holders.len();
        let mut i: usize = 0;
        while i < n
            invariant
                i <= n,
                n == self.holders@.len(),
                forall|j: int|
                    0 <= j < i && holder_on(#[trigger] self.holders@[j], partition as int, key@)
                        && self.holders@[j].txn_id != txn_id ==> self.holders@[j].mode is Shared
                        && mode is Shared,
            decreases n - i,
        {
            let h = &self.holders[i];
            if h.partition == partition && bytes_eq(&h.key, key) && h.txn_id != txn_id {
                if mode == LockMode::Exclusive || h.mode == LockMode::Exclusive {
                    proof {
                        assert(self.holders@.contains(self.holders@[i as int]));
                    }
                    return false;
                }
            }
            i += 1;
        }
        proof {
            assert forall|h: Holder|
                self.holders@.contains(h) && holder_on(h, partition as int, key@) && h.txn_id
                    != txn_id implies h.mode is Shared && mode is Shared by {
                let j = choose|j: int| 0 <= j < self.holders@.len() && self.holders@[j] == h;
                assert(holder_on(self.holders@[j], partition as int, key@));
            }
        }
        true
    }

    /// Does `txn_id` hold some lock on `(partition, key)`?
    pub fn holds(&self, txn_id: u64, partition: usize, key: &Vec<u8>) -> (r: bool)
        ensures
            r == holds_on(self.holders@, txn_id, partition as int, key@),
    {
        let n = self.holders.len();
        let mut i: usize = 0;
        while i < n
            invariant
                i <= n,
                n == self.holders@.len(),
                forall|j: int|
                    0 <= j < i ==> !(holder_on(
                        #[trigger] self.holders@[j],
                        partition as int,
                        key@,
                    ) && self.holders@[j].txn_id == txn_id),
            decreases n - i,
        {
            let h = &self.holders[i];
            if h.txn_id == txn_id && h.partition == partition && bytes_eq(&h.key, key) {
                proof {
                    assert(self.holders@.contains(self.holders@[i as int]));
                }
                return true;
            }
            i += 1;
        }
        proof {
            if holds_on(self.holders@, txn_id, partition as int, key@) {
                let h = choose|h: Holder|
                    #[trigger] self.holders@.contains(h) && holder_on(h, partition as int, key@)
                        && h.txn_id == txn_id;
                let j = choose|j: int| 0 <= j < self.holders@.len() && self.holders@[j] == h;
                assert(holder_on(self.holders@[j], partition as int, key@));
            }
        }
        false
    }

    /// Does `txn_id` hold an exclusive lock on `(partition, key)`?
    pub fn holds_exclusively(&self, txn_id: u64, partition: usize, key: &Vec<u8>) -> (r: bool)
        ensures
            r == holds_exclusive(self.holders@, txn_id, partition as int, key@),
    {
        let n = self.holders.len();
        let mut i: usize = 0;
        while i < n
            invariant
                i <= n,
                n == self.holders@.len(),
                forall|j: int|
                    0 <= j < i ==> !(holder_on(
                        #[trigger] self.holders@[j],
                        partition as int,
                        key@,
                    ) && self.holders@[j].txn_id == txn_id && self.holders@[j].mode is Exclusive),
            decreases n - i,
        {
            let h = &self.holders[i];
            if h.txn_id == txn_id && h.partition == partition && h.mode == LockMode::Exclusive
                && bytes_eq(&h.key, key) {
                proof {
                    assert(self.holders@.contains(self.holders@[i as int]));
                }
                return true;
            }
            i += 1;
        }
        proof {
            if holds_exclusive(self.holders@, txn_id, partition as int, key@) {
                let h = choose|h: Holder|
                    #[trigger] self.holders@.contains(h) && holder_on(h, partition as int, key@)
                        && h.txn_id == txn_id && h.mode is Exclusive;
                let j = choose|j: int| 0 <= j < self.holders@.len() && self.holders@[j] == h;
                assert(holder_on(self.holders@[j], partition as int, key@));
            }
        }
        false
    }

    /// Does `txn_id` already hold `(partition, key)` at strength sufficient
    /// for `mode`?
    pub fn holds_sufficient(&self, txn_id: u64, partition: usize, key: &Vec<u8>, mode: LockMode) -> (r:
        bool)
        ensures
            r == holds_at_least(self.holders@, txn_id, partition as int, key@, mode),
    {
        if self.holds_exclusively(txn_id, partition, key) {
            return true;
        }
        mode == LockMode::Shared && self.holds(txn_id, partition, key)
    }

    /// Grant `mode` on `(partition, key)` to `txn_id` when the holders
    /// allow: a lock already held at sufficient strength is reused
    /// unchanged; otherwise, when the request is compatible, the
    /// transaction's own records of the key give way to one record of the
    /// requested mode. Returns whether the lock is held on return.
    fn try_grant(&mut self, txn_id: u64, partition: usize, key: &Vec<u8>, mode: LockMode) -> (r:
        bool)
        requires
            old(self).wf(),
        ensures
            final(self).wf(),
            r == compatible(old(self).holders@, txn_id, partition as int, key@, mode),
            r ==> granted(
                old(self).holders@,
                final(self).holders@,
                txn_id,
                partition as int,
                key@,
                mode,
            ) && holds_at_least(final(self).holders@, txn_id, partition as int, key@, mode)
                && holds_on(final(self).holders@, txn_id, partition as int, key@),
            !r ==> *final(self) == *old(self),
            final(self).waiters@ == old(self).waiters@,
            final(self).next_stamp == old(self).next_stamp,
    {
        if self.holds_sufficient(txn_id, partition, key, mode) {
            proof {
                lemma_held_implies_compatible(self.holders@, txn_id, partition as int, key@, mode);
            }
            return true;
        }
        if self.is_compatible(txn_id, partition, key, mode) {
            proof {
                lemma_wf_filtered(
                    self.holders@,
                    (|h: Holder| !(h.txn_id == txn_id && holder_on(h, partition as int, key@))),
                );
                lemma_compatible_filtered(
                    self.holders@,
                    (|h: Holder| !(h.txn_id == txn_id && holder_on(h, partition as int, key@))),
                    txn_id,
                    partition as int,
                    key@,
                    mode,
                );
            }
            retain_holders_without_key(&mut self.holders, txn_id, partition, key);
            let h = Holder { txn_id, partition, key: clone_bytes(key), mode };
            self.holders.push(h);
            proof {
                let s0 = holders_less(old(self).holders@, txn_id, partition as int, key@);
                assert(self.holders@.drop_last() =~= s0);
                lemma_wf_push(s0, self.holders@.last(), txn_id, partition as int, key@, mode);
                assert(self.holders@.contains(self.holders@.last()));
            }
            true
        } else {
            false
        }
    }

    /// Acquire `mode` on `(partition, key)` for `txn_id`, waiting at most
    /// `timeout_ms` for conflicting holders to release.
    ///
    /// A lock already held at sufficient strength is reused as a no-op, so
    /// re-acquiring a held key in the same or a weaker mode never deadlocks
    /// against oneself, and an upgrade replaces the transaction's shared
    /// record rather than standing beside it. Otherwise the request is
    /// granted immediately exactly when the current holders are compatible
    /// with it. A conflicting request can only be granted by a release, and
    /// no release can happen while the single owner of this table waits
    /// here, so the bounded wait resolves to its timeout at once: the
    /// request fails with `LockTimeout` and no partial lock is granted and
    /// no waiter is left behind. A concurrent driver that can interleave
    /// releases uses [`LockTable::request`] and the wait queue instead.
    pub fn acquire(
        &mut self,
        txn_id: u64,
        partition: usize,
        key: &Vec<u8>,
        mode: LockMode,
        timeout_ms: u64,
    ) -> (r: Result<(), TxnError>)
        requires
            old(self).wf(),
        ensures
            final(self).wf(),
            r is Ok <==> compatible(old(self).holders@, txn_id, partition as int, key@, mode),
            r is Err ==> r == Err::<(), TxnError>(TxnError::LockTimeout) && *final(self) == *old(self),
            r is Ok ==> granted(
                old(self).holders@,
                final(self).holders@,
                txn_id,
                partition as int,
                key@,
                mode,
            ) && holds_at_least(final(self).holders@, txn_id, partition as int, key@, mode)
                && holds_on(final(self).holders@, txn_id, partition as int, key@),
            final(self).waiters@ == old(self).waiters@,
    {
        let _ = timeout_ms;
        if self.try_grant(txn_id, partition, key, mode) {
            Ok(())
        } else {
            Err(TxnError::LockTimeout)
        }
    }

    /// File a request for `mode` on `(partition, key)`: grant it at once
    /// when the holders allow (reusing a sufficient held lock as a no-op),
    /// otherwise append it to the key's wait queue, where a later release
    /// may grant it. Returns whether the lock is held now.
    pub fn request(&mut self, txn_id: u64, partition: usize, key: &Vec<u8>, mode: LockMode) -> (granted_now:
        bool)
        requires
            old(self).wf(),
        ensures
            final(self).wf(),
            granted_now == compatible(old(self).holders@, txn_id, partition as int, key@, mode),
            granted_now ==> granted(
                old(self).holders@,
                final(self).holders@,
                txn_id,
                partition as int,
                key@,
                mode,
            ) && holds_at_least(final(self).holders@, txn_id, partition as int, key@, mode)
                && final(self).waiters@ == old(self).waiters@,
            !granted_now ==> final(self).holders@ == old(self).holders@
                && final(self).waiters@.len() == old(self).waiters@.len() + 1
                && final(self).waiters@.drop_last() == old(self).waiters@ && waiter_is(
                final(self).waiters@.last(),
                txn_id,
                partition as int,
                key@,
                mode,
            ) && final(self).waiters@.last().stamp == old(self).next_stamp,
    {
        if self.try_grant(txn_id, partition, key, mode) {
            true
        } else {
            let w = Waiter {
                txn_id,
                partition,
                key: clone_bytes(key),
                mode,
                stamp: self.next_stamp,
            };
            self.waiters.push(w);
            if self.next_stamp < u64::MAX {
                self.next_stamp = self.next_stamp + 1;
            }
            proof {
                assert(self.waiters@.drop_last() =~= old(self).waiters@);
            }
            false
        }
    }

    /// Withdraw `txn_id`'s queued request for `(partition, key)` after its
    /// wait timed out: the request leaves the queue and no lock is granted.
    pub fn timed_out(&mut self, txn_id: u64, partition: usize, key: &Vec<u8>)
        requires
            old(self).wf(),
        ensures
            final(self).wf(),
            final(self).holders@ == old(self).holders@,
            final(self).waiters@ == waiters_less(old(self).waiters@, txn_id, partition as int, key@),
    {
        retain_waiters_without_key(&mut self.waiters, txn_id, partition, key);
    }

    /// Release `txn_id`'s lock on `(partition, key)`, then grant the wait
    /// queue's now-compatible requests in arrival order.
    pub fn release(&mut self, txn_id: u64, partition: usize, key: &Vec<u8>)
        requires
            old(self).wf(),
        ensures
            final(self).wf(),
            ({
                let g = grant_pass(
                    holders_less(old(self).holders@, txn_id, partition as int, key@),
                    old(self).waiters@,
                );
                final(self).holders@ == g.0 && final(self).waiters@ == g.1
            }),
    {
        retain_holders_without_key(&mut self.holders, txn_id, partition, key);
        proof {
            lemma_wf_filtered(
                old(self).holders@,
                (|h: Holder| !(h.txn_id == txn_id && holder_on(h, partition as int, key@))),
            );
        }
        self.grant_waiters();
    }

    /// Release every lock `txn_id` holds and drop its queued requests, as one
    /// table mutation, then grant the remaining queue's now-compatible
    /// requests in arrival order. Called when a transaction finishes, on any
    /// exit path; afterwards no lock or queued request of `txn_id` remains.
    pub fn release_all(&mut self, txn_id: u64)
        requires
            old(self).wf(),
        ensures
            final(self).wf(),
            ({
                let g = grant_pass(
                    holders_less_txn(old(self).holders@, txn_id),
                    waiters_less_txn(old(self).waiters@, txn_id),
                );
                final(self).holders@ == g.0 && final(self).waiters@ == g.1
            }),
            no_holder_of(final(self).holders@, txn_id),
            no_waiter_of(final(self).waiters@, txn_id),
    {
        retain_holders_without_txn(&mut self.holders, txn_id);
        retain_waiters_without_txn(&mut self.waiters, txn_id);
        proof {
            lemma_wf_filtered(old(self).holders@, (|h: Holder| h.txn_id != txn_id));
        }
        self.grant_waiters();
        proof {
            broadcast use vstd::seq_lib::group_filter_ensures;

            let kept = holders_less_txn(old(self).holders@, txn_id);
            let keptw = waiters_less_txn(old(self).waiters@, txn_id);
            assert forall|h: Holder| kept.contains(h) implies h.txn_id != txn_id by {
                let i = choose|i: int| 0 <= i < kept.len() && kept[i] == h;
                assert(kept[i] == h);
            }
            assert forall|w: Waiter| keptw.contains(w) implies w.txn_id != txn_id by {
                let i = choose|i: int| 0 <= i < keptw.len() && keptw[i] == w;
                assert(keptw[i] == w);
            }
            lemma_grant_pass_no_txn(kept, keptw, txn_id);
        }
    }

    /// Walk the wait queue front to back, granting each request that is
    /// compatible with the holders as they stand at its turn.
    fn grant_waiters(&mut self)
        requires
            old(self).wf(),
        ensures
            final(self).wf(),
            ({
                let g = grant_pass(old(self).holders@, old(self).waiters@);
                final(self).holders@ == g.0 && final(self).waiters@ == g.1
            }),
    {
        let ghost g0 = grant_pass(old(self).holders@, old(self).waiters@);
        proof {
            assert(self.waiters@.skip(0) =~= self.waiters@);
            assert(self.waiters@.take(0) + grant_pass(self.holders@, self.waiters@).1
                =~= grant_pass(self.holders@, self.waiters@).1);
        }
        let mut i: usize = 0;
        while i < self.waiters.len()
            invariant
                i <= self.waiters@.len(),
                holders_wf(self.holders@),
                g0 == ({
                    let g = grant_pass(self.holders@, self.waiters@.skip(i as int));
                    (g.0, self.waiters@.take(i as int) + g.1)
                }),
            decreases self.waiters@.len() - i,
        {
            let ghost hs = self.holders@;
            let ghost ws = self.waiters@;
            proof {
                assert(ws.skip(i as int)[0] == ws[i as int]);
            }
            let w_txn = self.waiters[i].txn_id;
            let w_partition = self.waiters[i].partition;
            let w_mode = self.waiters[i].mode;
            let compat = {
                let wk = &self.waiters[i].key;
                self.is_compatible(w_txn, w_partition, wk, w_mode)
            };
            if compat {
                let w = self.waiters.remove(i);
                let h = Holder { txn_id: w.txn_id, partition: w.partition, key: w.key, mode: w.mode };
                self.holders.push(h);
                proof {
                    assert(self.holders@ =~= hs.push(holder_of(ws[i as int])));
                    assert(self.waiters@.take(i as int) =~= ws.take(i as int));
                    assert(self.waiters@.skip(i as int) =~= ws.skip(i as int).drop_first());
                    lemma_wf_push(
                        hs,
                        holder_of(ws[i as int]),
                        ws[i as int].txn_id,
                        ws[i as int].partition as int,
                        ws[i as int].key@,
                        ws[i as int].mode,
                    );
                }
            } else {
                proof {
                    let r = grant_pass(hs, ws.skip(i as int).drop_first());
                    assert(ws.skip(i as int).drop_first() =~= ws.skip(i as int + 1));
                    assert(ws.take(i as int + 1) =~= ws.take(i as int) + seq![ws[i as int]]);
                    assert(ws.take(i as int) + (seq![ws[i as int]] + r.1) =~= (ws.take(i as int)
                        + seq![ws[i as int]]) + r.1);
                }
                i += 1;
            }
        }
        proof {
            assert(self.waiters@.skip(i as int) =~= Seq::<Waiter>::empty());
            assert(self.waiters@.take(i as int) =~= self.waiters@);
            let g = grant_pass(self.holders@, self.waiters@.skip(i as int));
            assert(self.waiters@.take(i as int) + g.1 =~= self.waiters@);
        }
    }
}

/// Does `txn_id` already hold `(p, k)` at strength sufficient for `m`: an
/// exclusive lock, or any lock when the request is shared?
pub open spec fn holds_at_least(s: Seq<Holder>, txn_id: u64, p: int, k: Seq<u8>, m: LockMode) -> bool {
    holds_exclusive(s, txn_id, p, k) || (m is Shared && holds_on(s, txn_id, p, k))
}

/// How a grant changes the holder records. A request already held at
/// sufficient strength is reused as a no-op. Otherwise the transaction's own
/// records for the key give way to a single record of the requested mode, so
/// an upgrade replaces the shared record instead of standing beside it:
/// each transaction keeps at most one record per key on this path, and an
/// exclusive grant leaves its transaction's one record alone on the key.
pub open spec fn granted(
    s0: Seq<Holder>,
    s1: Seq<Holder>,
    txn_id: u64,
    p: int,
    k: Seq<u8>,
    m: LockMode,
) -> bool {
    if holds_at_least(s0, txn_id, p, k, m) {
        s1 == s0
    } else {
        s1.len() == holders_less(s0, txn_id, p, k).len() + 1 && s1.drop_last() == holders_less(
            s0,
            txn_id,
            p,
            k,
        ) && holder_is(s1.last(), txn_id, p, k, m)
    }
}

/// The holders left once `txn_id` releases its lock on `(p, k)`.
pub open spec fn holders_less(s: Seq<Holder>, txn_id: u64, p: int, k: Seq<u8>) -> Seq<Holder> {
    s.filter(|h: Holder| !(h.txn_id == txn_id && holder_on(h, p, k)))
}

/// The holders left once `txn_id` releases everything it holds.
pub open spec fn holders_less_txn(s: Seq<Holder>, txn_id: u64) -> Seq<Holder> {
    s.filter(|h: Holder| h.txn_id != txn_id)
}

/// The wait queue less `txn_id`'s request for `(p, k)`, order preserved.
pub open spec fn waiters_less(s: Seq<Waiter>, txn_id: u64, p: int, k: Seq<u8>) -> Seq<Waiter> {
    s.filter(|w: Waiter| !(w.txn_id == txn_id && w.partition == p && w.key@ == k))
}

/// The wait queue less every request of `txn_id`, order preserved.
pub open spec fn waiters_less_txn(s: Seq<Waiter>, txn_id: u64) -> Seq<Waiter> {
    s.filter(|w: Waiter| w.txn_id != txn_id)
}

/// The grant a waiter turns into.
pub open spec fn holder_of(w: Waiter) -> Holder {
    Holder { txn_id: w.txn_id, partition: w.partition, key: w.key, mode: w.mode }
}

/// Can the blocked request be granted against the holders `hs`?
pub open spec fn waiter_compatible(hs: Seq<Holder>, w: Waiter) -> bool {
    compatible(hs, w.txn_id, w.partition as int, w.key@, w.mode)
}

/// The grant pass a release performs: walk the wait queue front to back and
/// grant every request that is compatible with the holders as they stand at
/// its turn. Result: the holders after all grants, and the requests still
/// queued, in their arrival order.
///
/// Grants are first-come-first-served within a compatibility class; a shared
/// request behind a blocked exclusive one is still granted while the holders
/// are all shared (this table does not starve shared requests to favor an
/// older exclusive one).
pub open spec fn grant_pass(hs: Seq<Holder>, ws: Seq<Waiter>) -> (Seq<Holder>, Seq<Waiter>)
    decreases ws.len(),
{
    if ws.len() == 0 {
        (hs, ws)
    } else if waiter_compatible(hs, ws[0]) {
        grant_pass(hs.push(holder_of(ws[0])), ws.drop_first())
    } else {
        let r = grant_pass(hs, ws.drop_first());
        (r.0, seq![ws[0]] + r.1)
    }
}

/// No holder in `s` belongs to `txn_id`.
pub open spec fn no_holder_of(s: Seq<Holder>, txn_id: u64) -> bool {
    forall|h: Holder| #[trigger] s.contains(h) ==> h.txn_id != txn_id
}

/// No waiter in `s` belongs to `txn_id`.
pub open spec fn no_waiter_of(s: Seq<Waiter>, txn_id: u64) -> bool {
    forall|w: Waiter| #[trigger] s.contains(w) ==> w.txn_id != txn_id
}

/// After a compatible grant is pushed, the table invariant still holds.
proof fn lemma_wf_push(s: Seq<Holder>, h: Holder, txn_id: u64, p: int, k: Seq<u8>, m: LockMode)
    requires
        holders_wf(s),
        compatible(s, txn_id, p, k, m),
        holder_is(h, txn_id, p, k, m),
    ensures
        holders_wf(s.push(h)),
{
    let s1 = s.push(h);
    assert forall|a: Holder, b: Holder|
        s1.contains(a) && s1.contains(b) && a.partition == b.partition && a.key@ == b.key@
            && a.txn_id != b.txn_id implies a.mode is Shared && b.mode is Shared by {
        lemma_push_contains(s, h, a);
        lemma_push_contains(s, h, b);
        if a == h {
            assert(s.contains(b) && holder_on(b, p, k) && b.txn_id != txn_id);
        } else if b == h {
            assert(s.contains(a) && holder_on(a, p, k) && a.txn_id != txn_id);
        }
    }
}

/// Membership in a pushed sequence: the element is the new one or was there.
proof fn lemma_push_contains<A>(s: Seq<A>, e: A, x: A)
    ensures
        s.push(e).contains(x) <==> (s.contains(x) || x == e),
{
    if s.push(e).contains(x) {
        let i = choose|i: int| 0 <= i < s.push(e).len() && s.push(e)[i] == x;
        if i < s.len() {
            assert(s[i] == x);
        }
    }
    if s.contains(x) {
        let i = choose|i: int| 0 <= i < s.len() && s[i] == x;
        assert(s.push(e)[i] == x);
    }
    if x == e {
        assert(s.push(e)[s.len() as int] == x);
    }
}

/// Every holder of `(p, k)` is shared.
pub open spec fn all_shared_on(s: Seq<Holder>, p: int, k: Seq<u8>) -> bool {
    forall|h: Holder| #[trigger] s.contains(h) && holder_on(h, p, k) ==> h.mode is Shared
}

/// LAW (exclusive locks exclude): while transaction `a` holds an exclusive
/// lock on a key, a request by any other transaction `b` on that key, shared
/// or exclusive, is incompatible, so `put` and `get_for_update` by `b` time
/// out rather than succeed or skip the lock.
pub proof fn lemma_exclusive_excludes(
    s: Seq<Holder>,
    a: u64,
    b: u64,
    p: int,
    k: Seq<u8>,
    m: LockMode,
)
    requires
        holds_exclusive(s, a, p, k),
        b != a,
    ensures
        !compatible(s, b, p, k, m),
{
    let h = choose|h: Holder|
        #[trigger] s.contains(h) && holder_on(h, p, k) && h.txn_id == a && h.mode is Exclusive;
    assert(s.contains(h) && holder_on(h, p, k) && h.txn_id != b);
}

/// LAW (shared locks block writers): while transaction `a` holds any lock on
/// a key, an exclusive request by another transaction `b` on that key is
/// incompatible: `b`'s `put` must wait for `a`'s release or time out.
pub proof fn lemma_holder_blocks_exclusive(s: Seq<Holder>, a: u64, b: u64, p: int, k: Seq<u8>)
    requires
        holds_on(s, a, p, k),
        b != a,
    ensures
        !compatible(s, b, p, k, LockMode::Exclusive),
{
    let h = choose|h: Holder| #[trigger] s.contains(h) && holder_on(h, p, k) && h.txn_id == a;
    assert(s.contains(h) && holder_on(h, p, k) && h.txn_id != b);
}

/// LAW (shared locks coexist): while every holder of a key is shared, a
/// shared request by any transaction is compatible: a reader declaring
/// read-for-update intent does not block other such readers.
pub proof fn lemma_shared_admits_shared(s: Seq<Holder>, b: u64, p: int, k: Seq<u8>)
    requires
        all_shared_on(s, p, k),
    ensures
        compatible(s, b, p, k, LockMode::Shared),
{
}

/// LAW (no contention on disjoint keys): a request on a key nobody holds is
/// compatible in any mode, so transactions touching disjoint keys acquire
/// their locks without contention.
pub proof fn lemma_unlocked_admits_any(s: Seq<Holder>, b: u64, p: int, k: Seq<u8>, m: LockMode)
    requires
        unlocked(s, p, k),
    ensures
        compatible(s, b, p, k, m),
{
}

/// LAW (an exclusive holder stands alone): under the table invariant, a
/// transaction holding an exclusive lock on a key is the only transaction
/// with any lock on that key.
pub proof fn lemma_exclusive_is_sole(s: Seq<Holder>, a: u64, p: int, k: Seq<u8>)
    requires
        holders_wf(s),
        holds_exclusive(s, a, p, k),
    ensures
        sole_owner(s, a, p, k),
{
    let w = choose|w: Holder|
        #[trigger] s.contains(w) && holder_on(w, p, k) && w.txn_id == a && w.mode is Exclusive;
    assert forall|h: Holder| s.contains(h) && holder_on(h, p, k) implies h.txn_id == a by {
        if h.txn_id != a {
            assert(s.contains(w) && s.contains(h) && w.partition == h.partition && w.key@ == h.key@
                && w.txn_id != h.txn_id);
        }
    }
}

/// LAW (release frees the key): once the only transaction holding a key
/// releases everything, a request on that key by any transaction is
/// compatible in any mode: rollback or abandonment makes the key immediately
/// acquirable again.
pub proof fn lemma_release_all_frees_key(
    s: Seq<Holder>,
    a: u64,
    p: int,
    k: Seq<u8>,
    b: u64,
    m: LockMode,
)
    requires
        sole_owner(s, a, p, k),
    ensures
        compatible(holders_less_txn(s, a), b, p, k, m),
{
    broadcast use vstd::seq_lib::group_filter_ensures;

    let f = holders_less_txn(s, a);
    assert forall|h: Holder|
        f.contains(h) && holder_on(h, p, k) && h.txn_id != b implies h.mode is Shared
        && m is Shared by {
        let i = choose|i: int| 0 <= i < f.len() && f[i] == h;
        assert(f[i] == h);
        s.lemma_filter_contains_rev((|h: Holder| h.txn_id != a), h);
        assert(s.contains(h) && holder_on(h, p, k));
    }
}

/// During a grant pass holders are only added, never removed: whoever held a
/// lock when the pass began still holds it when the pass ends.
pub proof fn lemma_grant_pass_holders_grow(hs: Seq<Holder>, ws: Seq<Waiter>, h: Holder)
    requires
        hs.contains(h),
    ensures
        grant_pass(hs, ws).0.contains(h),
    decreases ws.len(),
{
    if ws.len() > 0 {
        if waiter_compatible(hs, ws[0]) {
            lemma_push_contains(hs, holder_of(ws[0]), h);
            lemma_grant_pass_holders_grow(hs.push(holder_of(ws[0])), ws.drop_first(), h);
        } else {
            lemma_grant_pass_holders_grow(hs, ws.drop_first(), h);
        }
    }
}

/// LAW (a conflicting holder keeps a waiter blocked): a queued request that
/// conflicts with a lock held when a grant pass begins is not granted by that
/// pass: since the pass removes no holder, the conflict persists, and the
/// request is still queued when the pass ends.
pub proof fn lemma_blocked_request_stays_blocked(hs: Seq<Holder>, ws: Seq<Waiter>, h: Holder, w: Waiter)
    requires
        ws.contains(w),
        hs.contains(h),
        holder_on(h, w.partition as int, w.key@),
        h.txn_id != w.txn_id,
        h.mode is Exclusive || w.mode is Exclusive,
    ensures
        grant_pass(hs, ws).1.contains(w),
    decreases ws.len(),
{
    if waiter_compatible(hs, ws[0]) {
        // The front waiter is granted; it cannot be `w`, whose conflict with
        // `h` makes it incompatible.
        assert(ws[0] != w);
        let i = choose|i: int| 0 <= i < ws.len() && ws[i] == w;
        assert(ws.drop_first()[i - 1] == w);
        assert(ws.drop_first().contains(w));
        lemma_push_contains(hs, holder_of(ws[0]), h);
        lemma_blocked_request_stays_blocked(hs.push(holder_of(ws[0])), ws.drop_first(), h, w);
    } else {
        let r = grant_pass(hs, ws.drop_first());
        if ws[0] == w {
            assert((seq![ws[0]] + r.1)[0] == w);
            assert((seq![ws[0]] + r.1).contains(w));
        } else {
            let i = choose|i: int| 0 <= i < ws.len() && ws[i] == w;
            assert(ws.drop_first()[i - 1] == w);
            assert(ws.drop_first().contains(w));
            lemma_blocked_request_stays_blocked(hs, ws.drop_first(), h, w);
            let j = choose|j: int| 0 <= j < r.1.len() && r.1[j] == w;
            assert((seq![ws[0]] + r.1)[j + 1] == w);
            assert((seq![ws[0]] + r.1).contains(w));
        }
    }
}

/// LAW (no overtaking among blocked requests): two queued requests for the
/// same key and mode that both conflict with a surviving holder both stay
/// queued through a grant pass: a later request is never granted while an
/// earlier one of its mode stays blocked by that holder.
pub proof fn lemma_no_overtaking(hs: Seq<Holder>, ws: Seq<Waiter>, h: Holder, i: int, j: int)
    requires
        0 <= i < j < ws.len(),
        ws[i].partition == ws[j].partition,
        ws[i].key@ == ws[j].key@,
        ws[i].mode == ws[j].mode,
        hs.contains(h),
        holder_on(h, ws[i].partition as int, ws[i].key@),
        h.txn_id != ws[i].txn_id,
        h.txn_id != ws[j].txn_id,
        h.mode is Exclusive || ws[i].mode is Exclusive,
    ensures
        grant_pass(hs, ws).1.contains(ws[i]),
        grant_pass(hs, ws).1.contains(ws[j]),
{
    assert(ws.contains(ws[i]));
    assert(ws.contains(ws[j]));
    lemma_blocked_request_stays_blocked(hs, ws, h, ws[i]);
    lemma_blocked_request_stays_blocked(hs, ws, h, ws[j]);
}

/// Under the table invariant, a lock already held at sufficient strength is
/// compatible to re-acquire: nothing conflicting can stand beside it.
proof fn lemma_held_implies_compatible(s: Seq<Holder>, txn_id: u64, p: int, k: Seq<u8>, m: LockMode)
    requires
        holders_wf(s),
        holds_at_least(s, txn_id, p, k, m),
    ensures
        compatible(s, txn_id, p, k, m),
        holds_on(s, txn_id, p, k),
{
    if holds_exclusive(s, txn_id, p, k) {
        let e = choose|e: Holder|
            #[trigger] s.contains(e) && holder_on(e, p, k) && e.txn_id == txn_id
                && e.mode is Exclusive;
        assert(s.contains(e) && holder_on(e, p, k) && e.txn_id == txn_id);
        assert forall|h: Holder|
            s.contains(h) && holder_on(h, p, k) && h.txn_id != txn_id implies h.mode is Shared
            && m is Shared by {
            assert(s.contains(e) && s.contains(h) && e.partition == h.partition && e.key@ == h.key@
                && e.txn_id != h.txn_id);
        }
    } else {
        let w = choose|w: Holder| #[trigger] s.contains(w) && holder_on(w, p, k) && w.txn_id == txn_id;
        assert(s.contains(w) && holder_on(w, p, k) && w.txn_id == txn_id);
        assert forall|h: Holder|
            s.contains(h) && holder_on(h, p, k) && h.txn_id != txn_id implies h.mode is Shared
            && m is Shared by {
            assert(s.contains(w) && s.contains(h) && w.partition == h.partition && w.key@ == h.key@
                && w.txn_id != h.txn_id);
        }
    }
}

/// Compatibility survives any removal of holders.
proof fn lemma_compatible_filtered(
    s: Seq<Holder>,
    pred: spec_fn(Holder) -> bool,
    txn_id: u64,
    p: int,
    k: Seq<u8>,
    m: LockMode,
)
    requires
        compatible(s, txn_id, p, k, m),
    ensures
        compatible(s.filter(pred), txn_id, p, k, m),
{
    let f = s.filter(pred);
    assert forall|h: Holder|
        f.contains(h) && holder_on(h, p, k) && h.txn_id != txn_id implies h.mode is Shared
        && m is Shared by {
        s.lemma_filter_contains_rev(pred, h);
    }
}

/// The table invariant survives any removal of holders.
proof fn lemma_wf_filtered(s: Seq<Holder>, pred: spec_fn(Holder) -> bool)
    requires
        holders_wf(s),
    ensures
        holders_wf(s.filter(pred)),
{
    let f = s.filter(pred);
    assert forall|a: Holder, b: Holder|
        f.contains(a) && f.contains(b) && a.partition == b.partition && a.key@ == b.key@
            && a.txn_id != b.txn_id implies a.mode is Shared && b.mode is Shared by {
        s.lemma_filter_contains_rev(pred, a);
        s.lemma_filter_contains_rev(pred, b);
    }
}

/// A grant pass starting without any trace of `txn_id` introduces none.
proof fn lemma_grant_pass_no_txn(hs: Seq<Holder>, ws: Seq<Waiter>, txn_id: u64)
    requires
        no_holder_of(hs, txn_id),
        no_waiter_of(ws, txn_id),
    ensures
        no_holder_of(grant_pass(hs, ws).0, txn_id),
        no_waiter_of(grant_pass(hs, ws).1, txn_id),
    decreases ws.len(),
{
    if ws.len() > 0 {
        let w = ws[0];
        assert(ws.contains(w));
        assert forall|x: Waiter| #[trigger] ws.drop_first().contains(x) implies x.txn_id
            != txn_id by {
            let j = choose|j: int| 0 <= j < ws.drop_first().len() && ws.drop_first()[j] == x;
            assert(ws[j + 1] == x);
            assert(ws.contains(x));
        }
        if waiter_compatible(hs, w) {
            assert forall|x: Holder| hs.push(holder_of(w)).contains(x) implies x.txn_id
                != txn_id by {
                lemma_push_contains(hs, holder_of(w), x);
            }
            lemma_grant_pass_no_txn(hs.push(holder_of(w)), ws.drop_first(), txn_id);
        } else {
            lemma_grant_pass_no_txn(hs, ws.drop_first(), txn_id);
            let r = grant_pass(hs, ws.drop_first());
            assert forall|x: Waiter| (seq![w] + r.1).contains(x) implies x.txn_id != txn_id by {
                let j = choose|j: int| 0 <= j < (seq![w] + r.1).len() && (seq![w] + r.1)[j] == x;
                if j == 0 {
                    assert(x == w);
                } else {
                    assert(r.1[j - 1] == x);
                    assert(r.1.contains(x));
                }
            }
        }
    }
}

/// A sequence every element of which the predicate keeps is its own filtrate.
proof fn lemma_filter_all_kept<A>(s: Seq<A>, pred: spec_fn(A) -> bool)
    requires
        forall|j: int| 0 <= j < s.len() ==> pred(#[trigger] s[j]),
    ensures
        s.filter(pred) == s,
    decreases s.len(),
{
    reveal(Seq::filter);
    if s.len() > 0 {
        assert forall|j: int| 0 <= j < s.drop_last().len() implies pred(
            #[trigger] s.drop_last()[j],
        ) by {
            assert(s.drop_last()[j] == s[j]);
        }
        lemma_filter_all_kept(s.drop_last(), pred);
        assert(s.drop_last().push(s.last()) =~= s);
    }
}

/// Removing an element the predicate drops leaves the filtrate unchanged.
proof fn lemma_filter_remove_unkept<A>(s: Seq<A>, i: int, pred: spec_fn(A) -> bool)
    requires
        0 <= i < s.len(),
        !pred(s[i]),
    ensures
        s.remove(i).filter(pred) == s.filter(pred),
{
    broadcast use vstd::seq_lib::group_seq_lib_default;

    let a = s.take(i);
    let m = seq![s[i]];
    let b = s.skip(i + 1);
    assert(s =~= (a + m) + b);
    assert(s.remove(i) =~= a + b);
    let fm = m.filter(pred);
    if fm.len() > 0 {
        assert(fm.contains(fm[0]));
        m.lemma_filter_contains_rev(pred, fm[0]);
        assert(fm[0] == s[i]);
    }
    assert(fm =~= Seq::<A>::empty());
    assert(((a + m) + b).filter(pred) == (a.filter(pred) + m.filter(pred)) + b.filter(pred));
    assert(a.filter(pred) + m.filter(pred) =~= a.filter(pred));
    assert((a + b).filter(pred) == a.filter(pred) + b.filter(pred));
}

/// Drop, in place and keeping order, `txn_id`'s holder records for `(p, k)`.
fn retain_holders_without_key(v: &mut Vec<Holder>, txn_id: u64, partition: usize, key: &Vec<u8>)
    ensures
        final(v)@ == holders_less(old(v)@, txn_id, partition as int, key@),
{
    let mut i: usize = 0;
    while i < v.len()
        invariant
            i <= v@.len(),
            holders_less(v@, txn_id, partition as int, key@) == holders_less(
                old(v)@,
                txn_id,
                partition as int,
                key@,
            ),
            forall|j: int|
                0 <= j < i ==> !((#[trigger] v@[j]).txn_id == txn_id && holder_on(
                    v@[j],
                    partition as int,
                    key@,
                )),
        decreases v@.len() - i,
    {
        let dropped = v[i].txn_id == txn_id && v[i].partition == partition && bytes_eq(
            &v[i].key,
            key,
        );
        if dropped {
            let ghost before = v@;
            let _ = v.remove(i);
            proof {
                lemma_filter_remove_unkept(
                    before,
                    i as int,
                    (|h: Holder| !(h.txn_id == txn_id && holder_on(h, partition as int, key@))),
                );
            }
        } else {
            i += 1;
        }
    }
    proof {
        lemma_filter_all_kept(
            v@,
            (|h: Holder| !(h.txn_id == txn_id && holder_on(h, partition as int, key@))),
        );
    }
}

/// Drop, in place and keeping order, every holder record of `txn_id`.
fn retain_holders_without_txn(v: &mut Vec<Holder>, txn_id: u64)
    ensures
        final(v)@ == holders_less_txn(old(v)@, txn_id),
{
    let mut i: usize = 0;
    while i < v.len()
        invariant
            i <= v@.len(),
            holders_less_txn(v@, txn_id) == holders_less_txn(old(v)@, txn_id),
            forall|j: int| 0 <= j < i ==> (#[trigger] v@[j]).txn_id != txn_id,
        decreases v@.len() - i,
    {
        if v[i].txn_id == txn_id {
            let ghost before = v@;
            let _ = v.remove(i);
            proof {
                lemma_filter_remove_unkept(before, i as int, (|h: Holder| h.txn_id != txn_id));
            }
        } else {
            i += 1;
        }
    }
    proof {
        lemma_filter_all_kept(v@, (|h: Holder| h.txn_id != txn_id));
    }
}

/// Drop, in place and keeping order, `txn_id`'s queued requests for `(p, k)`.
fn retain_waiters_without_key(v: &mut Vec<Waiter>, txn_id: u64, partition: usize, key: &Vec<u8>)
    ensures
        final(v)@ == waiters_less(old(v)@, txn_id, partition as int, key@),
{
    let mut i: usize = 0;
    while i < v.len()
        invariant
            i <= v@.len(),
            waiters_less(v@, txn_id, partition as int, key@) == waiters_less(
                old(v)@,
                txn_id,
                partition as int,
                key@,
            ),
            forall|j: int|
                0 <= j < i ==> !((#[trigger] v@[j]).txn_id == txn_id && v@[j].partition
                    == partition && v@[j].key@ == key@),
        decreases v@.len() - i,
    {
        let dropped = v[i].txn_id == txn_id && v[i].partition == partition && bytes_eq(
            &v[i].key,
            key,
        );
        if dropped {
            let ghost before = v@;
            let _ = v.remove(i);
            proof {
                lemma_filter_remove_unkept(
                    before,
                    i as int,
                    (|w: Waiter| !(w.txn_id == txn_id && w.partition == partition as int && w.key@
                        == key@)),
                );
            }
        } else {
            i += 1;
        }
    }
    proof {
        lemma_filter_all_kept(
            v@,
            (|w: Waiter| !(w.txn_id == txn_id && w.partition == partition as int && w.key@
                == key@)),
        );
    }
}

/// Drop, in place and keeping order, every queued request of `txn_id`.
fn retain_waiters_without_txn(v: &mut Vec<Waiter>, txn_id: u64)
    ensures
        final(v)@ == waiters_less_txn(old(v)@, txn_id),
{
    let mut i: usize = 0;
    while i < v.len()
        invariant
            i <= v@.len(),
            waiters_less_txn(v@, txn_id) == waiters_less_txn(old(v)@, txn_id),
            forall|j: int| 0 <= j < i ==> (#[trigger] v@[j]).txn_id != txn_id,
        decreases v@.len() - i,
    {
        if v[i].txn_id == txn_id {
            let ghost before = v@;
            let _ = v.remove(i);
            proof {
                lemma_filter_remove_unkept(before, i as int, (|w: Waiter| w.txn_id != txn_id));
            }
        } else {
            i += 1;
        }
    }
    proof {
        lemma_filter_all_kept(v@, (|w: Waiter| w.txn_id != txn_id));
    }
}

} // verus!
