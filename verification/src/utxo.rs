//! The set of unspent outputs, keyed by the fingerprint of the transaction
//! that owns them.

use crate::types::TransactionOutput;
use vstd::prelude::*;

verus! {

/// One slot of the set: the key, whether a pending transaction has reserved
/// the output, and the output.
#[derive(Clone, Copy, Debug, PartialEq, Eq, Structural)]
pub struct UtxoEntry {
    pub key: crate::sha256::Hash,
    pub reserved: bool,
    pub output: TransactionOutput,
}

/// The mapping that a list of slots stands for: a later slot replaces an
/// earlier one with the same key.
pub open spec fn slots_map(s: Seq<UtxoEntry>) -> Map<crate::sha256::Hash, (bool, TransactionOutput)>
    decreases s.len(),
{
    if s.len() == 0 {
        Map::empty()
    } else {
        slots_map(s.drop_last()).insert(s.last().key, (s.last().reserved, s.last().output))
    }
}

/// The mapping with the slot at `key`, if there is one, marked as `flag`.
pub open spec fn with_mark(
    m: Map<crate::sha256::Hash, (bool, TransactionOutput)>,
    key: crate::sha256::Hash,
    flag: bool,
) -> Map<crate::sha256::Hash, (bool, TransactionOutput)> {
    if m.contains_key(key) {
        m.insert(key, (flag, m[key].1))
    } else {
        m
    }
}

/// The unspent outputs: a mapping from a transaction's fingerprint to a
/// reservation mark and an output. The slots are kept in a list and found
/// by comparing keys: a fingerprint is a struct, and of a hash map with
/// such a key nothing could be proved.
#[derive(Debug)]
pub struct UtxoSet {
    entries: Vec<UtxoEntry>,
}

impl View for UtxoSet {
    type V = Map<crate::sha256::Hash, (bool, TransactionOutput)>;

    closed spec fn view(&self) -> Map<crate::sha256::Hash, (bool, TransactionOutput)> {
        slots_map(self.entries@)
    }
}

impl UtxoSet {
    /// The empty set.
    pub fn new() -> (r: UtxoSet)
        ensures
            r@ == Map::<crate::sha256::Hash, (bool, TransactionOutput)>::empty(),
    {
        UtxoSet { entries: Vec::new() }
    }

    /// The mark and the output at `key`.
    pub fn get(&self, key: &crate::sha256::Hash) -> (r: Option<(bool, TransactionOutput)>)
        ensures
            r.is_some() == self@.contains_key(*key),
            r.is_some() ==> r.unwrap() == self@[*key],
    {
        let mut found: Option<(bool, TransactionOutput)> = None;
        let mut i: usize = 0;
        while i < self.entries.len()
            invariant
                i <= self.entries.len(),
                found.is_some() == slots_map(self.entries@.take(i as int)).contains_key(*key),
                found.is_some() ==> found.unwrap() == slots_map(self.entries@.take(i as int))[*key],
            decreases self.entries.len() - i,
        {
            let e = self.entries[i];
            assert(self.entries@.take(i + 1).drop_last() =~= self.entries@.take(i as int));
            if e.key == *key {
                found = Some((e.reserved, e.output));
            }
            i = i + 1;
        }
        assert(self.entries@.take(i as int) =~= self.entries@);
        found
    }

    /// Whether the set has a slot at `key`.
    pub fn contains_key(&self, key: &crate::sha256::Hash) -> (r: bool)
        ensures
            r == self@.contains_key(*key),
    {
        self.get(key).is_some()
    }

    /// Removes the slot at `key`, if there is one.
    pub fn remove(&mut self, key: &crate::sha256::Hash)
        ensures
            final(self)@ == old(self)@.remove(*key),
    {
        let mut kept: Vec<UtxoEntry> = Vec::new();
        let mut i: usize = 0;
        while i < self.entries.len()
            invariant
                i <= self.entries.len(),
                slots_map(kept@) == slots_map(self.entries@.take(i as int)).remove(*key),
            decreases self.entries.len() - i,
        {
            let e = self.entries[i];
            proof {
                assert(self.entries@.take(i + 1).drop_last() =~= self.entries@.take(i as int));
                if e.key != *key {
                    assert(kept@.push(e).drop_last() =~= kept@);
                    assert(slots_map(kept@.push(e)) =~= slots_map(self.entries@.take(i + 1)).remove(
                        *key,
                    ));
                } else {
                    assert(slots_map(kept@) =~= slots_map(self.entries@.take(i + 1)).remove(*key));
                }
            }
            if e.key != *key {
                kept.push(e);
            }
            i = i + 1;
        }
        assert(self.entries@.take(i as int) =~= self.entries@);
        self.entries = kept;
    }

    /// Puts `output` at `key`, with the given mark, in place of what was
    /// there.
    pub fn insert(&mut self, key: crate::sha256::Hash, reserved: bool, output: TransactionOutput)
        ensures
            final(self)@ == old(self)@.insert(key, (reserved, output)),
    {
        self.remove(&key);
        let e = UtxoEntry { key, reserved, output };
        proof {
            assert(self.entries@.push(e).drop_last() =~= self.entries@);
            assert(slots_map(self.entries@.push(e)) =~= old(self)@.insert(key, (reserved, output)));
        }
        self.entries.push(e);
    }

    /// Sets the mark of the slot at `key`, if there is one.
    pub fn set_reserved(&mut self, key: &crate::sha256::Hash, flag: bool)
        ensures
            final(self)@ == with_mark(old(self)@, *key, flag),
    {
        let mut marked: Vec<UtxoEntry> = Vec::new();
        let mut i: usize = 0;
        while i < self.entries.len()
            invariant
                i <= self.entries.len(),
                slots_map(marked@) == with_mark(slots_map(self.entries@.take(i as int)), *key, flag),
            decreases self.entries.len() - i,
        {
            let e = self.entries[i];
            let n = if e.key == *key {
                UtxoEntry { key: e.key, reserved: flag, output: e.output }
            } else {
                e
            };
            proof {
                assert(self.entries@.take(i + 1).drop_last() =~= self.entries@.take(i as int));
                assert(marked@.push(n).drop_last() =~= marked@);
                assert(slots_map(marked@.push(n)) =~= with_mark(
                    slots_map(self.entries@.take(i + 1)),
                    *key,
                    flag,
                ));
            }
            marked.push(n);
            i = i + 1;
        }
        assert(self.entries@.take(i as int) =~= self.entries@);
        self.entries = marked;
    }

    /// The slots as a list that stands for the same mapping.
    pub fn entries(&self) -> (r: Vec<UtxoEntry>)
        ensures
            slots_map(r@) == self@,
    {
        let mut out: Vec<UtxoEntry> = Vec::new();
        let mut i: usize = 0;
        while i < self.entries.len()
            invariant
                i <= self.entries.len(),
                out@ == self.entries@.take(i as int),
            decreases self.entries.len() - i,
        {
            out.push(self.entries[i]);
            assert(out@ =~= self.entries@.take(i + 1));
            i = i + 1;
        }
        assert(out@ =~= self.entries@);
        out
    }
}

} // verus!
