//! Sync registries: each registered type is assigned the next unused small
//! integer index, first registration wins, and the index tags broadcast
//! payloads of that type.
//!
//! Type identity is a key the consumer chooses (the same key on every
//! participant, registered in the same order before a session starts — a
//! protocol-version contract). Decoding closures stay with the consumer; the
//! registry owns the key-to-index assignment and the bounds discipline that
//! makes an unknown index a silent no-op.

use vstd::prelude::*;

verus! {

/// First position of `key` among `keys`, if any.
pub open spec fn spec_find(keys: Seq<u64>, key: u64) -> Option<int>
    decreases keys.len(),
{
    if keys.len() == 0 {
        None
    } else if keys[0] == key {
        Some(0)
    } else {
        match spec_find(keys.drop_first(), key) {
            Some(i) => Some(i + 1),
            None => None,
        }
    }
}

/// What registering `key` does: an already-registered key keeps its index
/// and the registry; a new key is appended and gets the next index, unless
/// every small-integer index is taken.
pub open spec fn spec_register(keys: Seq<u64>, key: u64) -> (Seq<u64>, Option<int>) {
    match spec_find(keys, key) {
        Some(i) => (keys, Some(i)),
        None => if keys.len() < 256 {
            (keys.push(key), Some(keys.len() as int))
        } else {
            (keys, None)
        },
    }
}

/// A found position is the first occurrence; no position means no occurrence.
pub proof fn lemma_find_props(keys: Seq<u64>, key: u64)
    ensures
        match spec_find(keys, key) {
            Some(i) => 0 <= i < keys.len() && keys[i] == key && forall|k: int|
                0 <= k < i ==> keys[k] != key,
            None => forall|k: int| 0 <= k < keys.len() ==> keys[k] != key,
        },
    decreases keys.len(),
{
    if keys.len() > 0 && keys[0] != key {
        lemma_find_props(keys.drop_first(), key);
        assert forall|k: int| 1 <= k < keys.len() implies keys.drop_first()[k - 1] == keys[k] by {}
    }
}

/// Appending a fresh key puts it at the end.
pub proof fn lemma_find_push_fresh(keys: Seq<u64>, key: u64)
    requires
        spec_find(keys, key) is None,
    ensures
        spec_find(keys.push(key), key) == Some(keys.len() as int),
    decreases keys.len(),
{
    if keys.len() == 0 {
        assert(keys.push(key)[0] == key);
    } else {
        assert(keys.push(key)[0] == keys[0]);
        assert(keys.push(key).drop_first() =~= keys.drop_first().push(key));
        lemma_find_push_fresh(keys.drop_first(), key);
    }
}

/// The key-to-index table shared by both registries.
pub struct SyncRegistry {
    keys: Vec<u64>,
}

impl SyncRegistry {
    /// The table never outgrows the index space and never repeats a key.
    pub open spec fn wf(self) -> bool {
        self@.len() <= 256 && forall|i: int, j: int|
            0 <= i < j < self@.len() ==> self@[i] != self@[j]
    }
}

impl View for SyncRegistry {
    type V = Seq<u64>;

    closed spec fn view(&self) -> Seq<u64> {
        self.keys@
    }
}

impl SyncRegistry {
    /// An empty table.
    pub fn new() -> (r: Self)
        ensures
            r@ == Seq::<u64>::empty(),
            r.wf(),
    {
        SyncRegistry { keys: Vec::new() }
    }

    /// Position of `key`, if registered.
    pub fn index_of(&self, key: u64) -> (r: Option<u8>)
        requires
            self.wf(),
        ensures
            match spec_find(self@, key) {
                Some(i) => r == Some(i as u8) && i < 256,
                None => r is None,
            },
    {
        proof {
            lemma_find_props(self@, key);
        }
        let mut k: usize = 0;
        while k < self.keys.len()
            invariant
                self.wf(),
                self@ == self.keys@,
                k <= self@.len(),
                forall|j: int| 0 <= j < k ==> self@[j] != key,
            decreases self@.len() - k,
        {
            if self.keys[k] == key {
                proof {
                    assert(self@[k as int] == key);
                    lemma_find_props(self@, key);
                    match spec_find(self@, key) {
                        Some(i) => {
                            if i < k as int {
                                assert(self@[i] != key);
                            }
                            if i > k as int {
                                assert(self@[k as int] != key);
                            }
                        },
                        None => {
                            assert(self@[k as int] != key);
                        },
                    }
                }
                return Some(k as u8);
            }
            k = k + 1;
        }
        proof {
            match spec_find(self@, key) {
                Some(i) => {
                    assert(self@[i] == key);
                    assert(false);
                },
                None => {},
            }
        }
        None
    }

    /// How many keys are registered.
    pub fn len(&self) -> (r: usize)
        ensures
            r == self@.len(),
    {
        self.keys.len()
    }

    /// Register `key`: first registration appends it and yields the next
    /// index, later registrations yield the same index again; with all
    /// indices taken a new key is refused.
    pub fn register(&mut self, key: u64) -> (r: Option<u8>)
        requires
            old(self).wf(),
        ensures
            final(self).wf(),
            final(self)@ == spec_register(old(self)@, key).0,
            match spec_register(old(self)@, key).1 {
                Some(i) => r == Some(i as u8) && 0 <= i < 256,
                None => r is None,
            },
    {
        proof {
            lemma_find_props(self@, key);
        }
        match self.index_of(key) {
            Some(i) => Some(i),
            None => {
                if self.keys.len() < 256 {
                    let i = self.keys.len() as u8;
                    self.keys.push(key);
                    Some(i)
                } else {
                    None
                }
            },
        }
    }
}

/// Law: registering the same key twice yields the same index both times and
/// leaves the registry as the first registration left it.
pub proof fn lemma_register_idempotent(keys: Seq<u64>, key: u64)
    ensures
        ({
            let (keys1, r1) = spec_register(keys, key);
            let (keys2, r2) = spec_register(keys1, key);
            keys2 == keys1 && r2 == r1
        }),
{
    lemma_find_props(keys, key);
    if spec_find(keys, key) is None && keys.len() < 256 {
        lemma_find_push_fresh(keys, key);
    }
}

/// Folding a run of registrations from the empty table.
pub open spec fn spec_register_seq(ks: Seq<u64>) -> Seq<u64>
    decreases ks.len(),
{
    if ks.len() == 0 {
        Seq::<u64>::empty()
    } else {
        spec_register(spec_register_seq(ks.drop_last()), ks.last()).0
    }
}

/// Law: registering pairwise-distinct keys from the empty table assigns them
/// the indices `0 .. N-1` in registration order, and the table afterwards
/// holds exactly those keys in that order.
pub proof fn lemma_register_indices(ks: Seq<u64>)
    requires
        ks.len() <= 256,
        forall|i: int, j: int| 0 <= i < j < ks.len() ==> ks[i] != ks[j],
    ensures
        spec_register_seq(ks) == ks,
        forall|i: int| 0 <= i < ks.len() ==> #[trigger] spec_register(
            spec_register_seq(ks.take(i)),
            ks[i],
        ).1 == Some(i),
    decreases ks.len(),
{
    if ks.len() == 0 {
        assert(spec_register_seq(ks) =~= ks);
    } else {
        let pre = ks.drop_last();
        assert(pre =~= ks.take(ks.len() - 1));
        lemma_register_indices(pre);
        lemma_find_props(pre, ks.last());
        match spec_find(pre, ks.last()) {
            Some(i) => {
                assert(pre[i] == ks[i]);
                assert(ks[i] != ks[ks.len() - 1]);
                assert(false);
            },
            None => {},
        }
        assert(spec_register_seq(ks) =~= ks);
        assert forall|i: int| 0 <= i < ks.len() implies #[trigger] spec_register(
            spec_register_seq(ks.take(i)),
            ks[i],
        ).1 == Some(i) by {
            if i < ks.len() - 1 {
                assert(ks.take(i) =~= pre.take(i));
                assert(ks[i] == pre[i]);
            } else {
                assert(ks.take(i) =~= pre);
            }
        }
    }
}

/// The registry of continuously-observed state types.
pub struct SyncedStateRegister {
    pub table: SyncRegistry,
}

impl SyncedStateRegister {
    /// An empty registry.
    pub fn new() -> (r: Self)
        ensures
            r.table@ == Seq::<u64>::empty(),
            r.table.wf(),
    {
        SyncedStateRegister { table: SyncRegistry::new() }
    }

    /// Register a state type by its protocol key; a no-op when already
    /// registered.
    pub fn register_state(&mut self, key: u64) -> (r: Option<u8>)
        requires
            old(self).table.wf(),
        ensures
            final(self).table.wf(),
            final(self).table@ == spec_register(old(self).table@, key).0,
            match spec_register(old(self).table@, key).1 {
                Some(i) => r == Some(i as u8) && 0 <= i < 256,
                None => r is None,
            },
    {
        self.table.register(key)
    }
}

/// The registry of discrete event types.
pub struct SyncedEventRegister {
    pub table: SyncRegistry,
}

impl SyncedEventRegister {
    /// An empty registry.
    pub fn new() -> (r: Self)
        ensures
            r.table@ == Seq::<u64>::empty(),
            r.table.wf(),
    {
        SyncedEventRegister { table: SyncRegistry::new() }
    }

    /// Register an event type by its protocol key; a no-op when already
    /// registered.
    pub fn register_event(&mut self, key: u64) -> (r: Option<u8>)
        requires
            old(self).table.wf(),
        ensures
            final(self).table.wf(),
            final(self).table@ == spec_register(old(self).table@, key).0,
            match spec_register(old(self).table@, key).1 {
                Some(i) => r == Some(i as u8) && 0 <= i < 256,
                None => r is None,
            },
    {
        self.table.register(key)
    }
}

} // verus!
