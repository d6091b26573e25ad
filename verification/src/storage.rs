//! The storage engine adapter: a durable ordered key-value store per named
//! partition, consumed by the transaction layer.
//!
//! It is modeled as a log-structured in-memory engine: every write appends a
//! [`Record`], and a read returns the value of the key's latest record. A
//! commit appends its whole batch at once, so batches are atomic: either all
//! of a batch is in the log or none of it.

use vstd::prelude::*;

use crate::{bytes_eq, clone_bytes};

verus! {

/// One write: `value` stored under `key` in the partition `partition`.
pub struct Record {
    pub partition: usize,
    pub key: Vec<u8>,
    pub value: Vec<u8>,
}

/// Does the record write the key `(p, k)`?
pub open spec fn record_on(r: Record, p: int, k: Seq<u8>) -> bool {
    r.partition == p && r.key@ == k
}

/// The value a log of writes gives the key `(p, k)`: that of the latest
/// write of the key, or `None` when the log never wrote it.
pub open spec fn lookup(s: Seq<Record>, p: int, k: Seq<u8>) -> Option<Seq<u8>>
    decreases s.len(),
{
    if s.len() == 0 {
        None
    } else if record_on(s.last(), p, k) {
        Some(s.last().value@)
    } else {
        lookup(s.drop_last(), p, k)
    }
}

/// Does the log hold some write of `(p, k)`?
pub open spec fn has_write(s: Seq<Record>, p: int, k: Seq<u8>) -> bool {
    lookup(s, p, k) is Some
}

/// The storage engine's state: the log of every committed write, in commit
/// order.
pub struct Storage {
    pub log: Vec<Record>,
}

impl Storage {
    /// An empty store.
    pub fn new() -> (r: Storage)
        ensures
            r.log@.len() == 0,
    {
        Storage { log: Vec::new() }
    }

    /// Read the currently committed value of `(partition, key)`. Reads see
    /// only the log: no lock state is consulted, so a read never blocks on
    /// and never fails because of any transaction's locks.
    pub fn get(&self, partition: usize, key: &Vec<u8>) -> (r: Option<Vec<u8>>)
        ensures
            r is Some <==> has_write(self.log@, partition as int, key@),
            r matches Some(v) ==> lookup(self.log@, partition as int, key@) == Some(v@),
    {
        lookup_in(&self.log, partition, key)
    }

    /// Append one committed write for `(partition, key)`. Afterwards the key
    /// reads as `value`; every other key reads as before.
    pub fn put(&mut self, partition: usize, key: Vec<u8>, value: Vec<u8>)
        ensures
            final(self).log@ == old(self).log@.push(
                Record { partition, key: key, value: value },
            ),
            lookup(final(self).log@, partition as int, key@) == Some(value@),
            forall|p2: int, k2: Seq<u8>|
                !(p2 == partition as int && k2 == key@) ==> #[trigger] lookup(
                    final(self).log@,
                    p2,
                    k2,
                ) == lookup(old(self).log@, p2, k2),
    {
        let ghost key_v = key@;
        let ghost value_v = value@;
        let rec = Record { partition, key, value };
        self.log.push(rec);
        proof {
            assert(final(self).log@.drop_last() =~= old(self).log@);
        }
    }

    /// Apply a whole batch of writes atomically, in order: the log grows by
    /// exactly the batch, as one mutation.
    pub fn write_batch(&mut self, writes: Vec<Record>)
        ensures
            final(self).log@ == old(self).log@ + writes@,
    {
        let mut writes = writes;
        self.log.append(&mut writes);
    }
}

/// The latest value a log of writes gives `(partition, key)`, as an owned
/// copy. This is the one read path: the store reads its committed log with
/// it, and a transaction reads its own staged buffer with it.
pub fn lookup_in(log: &Vec<Record>, partition: usize, key: &Vec<u8>) -> (r: Option<Vec<u8>>)
    ensures
        r is Some <==> has_write(log@, partition as int, key@),
        r matches Some(v) ==> lookup(log@, partition as int, key@) == Some(v@),
{
    proof {
        assert(log@.take(log@.len() as int) =~= log@);
    }
    let mut i: usize = log.len();
    while i > 0
        invariant
            i <= log@.len(),
            lookup(log@, partition as int, key@) == lookup(
                log@.take(i as int),
                partition as int,
                key@,
            ),
        decreases i,
    {
        i = i - 1;
        let rec = &log[i];
        if rec.partition == partition && bytes_eq(&rec.key, key) {
            proof {
                assert(log@.take(i as int + 1).last() == log@[i as int]);
            }
            return Some(clone_bytes(&rec.value));
        }
        proof {
            assert(log@.take(i as int + 1).last() == log@[i as int]);
            assert(log@.take(i as int + 1).drop_last() =~= log@.take(i as int));
        }
    }
    None
}

/// LAW (appending decides reads): after a batch is appended, a key written by
/// the batch reads as the batch's latest write of it, and a key the batch
/// does not write reads exactly as before.
pub proof fn lemma_lookup_append(s: Seq<Record>, t: Seq<Record>, p: int, k: Seq<u8>)
    ensures
        lookup(s + t, p, k) == if has_write(t, p, k) {
            lookup(t, p, k)
        } else {
            lookup(s, p, k)
        },
    decreases t.len(),
{
    if t.len() == 0 {
        assert(s + t =~= s);
    } else {
        assert((s + t).last() == t.last());
        assert((s + t).drop_last() =~= s + t.drop_last());
        lemma_lookup_append(s, t.drop_last(), p, k);
    }
}

/// LAW (disjoint writers commit independently): when two batches write
/// disjoint keys and commit in either order, each written key ends up with
/// the value its own batch gave it, untouched by the other batch.
pub proof fn lemma_disjoint_commits(
    s: Seq<Record>,
    ta: Seq<Record>,
    tb: Seq<Record>,
    p: int,
    k: Seq<u8>,
)
    requires
        has_write(ta, p, k),
        !has_write(tb, p, k),
    ensures
        lookup((s + ta) + tb, p, k) == lookup(ta, p, k),
{
    lemma_lookup_append(s + ta, tb, p, k);
    lemma_lookup_append(s, ta, p, k);
}

/// LAW (disjoint write sets both land, whatever their size): when two
/// batches whose key sets are disjoint commit one after the other, every key
/// either batch wrote reads as that batch's own latest write of it: neither
/// transaction's write set disturbs the other's.
pub proof fn lemma_disjoint_batches_both_land(s: Seq<Record>, ta: Seq<Record>, tb: Seq<Record>)
    requires
        forall|p: int, k: Seq<u8>| #[trigger] has_write(ta, p, k) ==> !has_write(tb, p, k),
    ensures
        forall|p: int, k: Seq<u8>| #[trigger]
            has_write(ta, p, k) ==> lookup((s + ta) + tb, p, k) == lookup(ta, p, k),
        forall|p: int, k: Seq<u8>| #[trigger]
            has_write(tb, p, k) ==> lookup((s + ta) + tb, p, k) == lookup(tb, p, k),
{
    assert forall|p: int, k: Seq<u8>| #[trigger] has_write(ta, p, k) implies lookup(
        (s + ta) + tb,
        p,
        k,
    ) == lookup(ta, p, k) by {
        lemma_disjoint_commits(s, ta, tb, p, k);
    }
    assert forall|p: int, k: Seq<u8>| #[trigger] has_write(tb, p, k) implies lookup(
        (s + ta) + tb,
        p,
        k,
    ) == lookup(tb, p, k) by {
        lemma_second_writer_wins(s, ta, tb, p, k);
    }
}

/// LAW (the second writer wins): when two batches writing the same key commit
/// one after the other, the key reads as the second batch wrote it.
pub proof fn lemma_second_writer_wins(
    s: Seq<Record>,
    ta: Seq<Record>,
    tb: Seq<Record>,
    p: int,
    k: Seq<u8>,
)
    requires
        has_write(tb, p, k),
    ensures
        lookup((s + ta) + tb, p, k) == lookup(tb, p, k),
{
    lemma_lookup_append(s + ta, tb, p, k);
}

} // verus!
