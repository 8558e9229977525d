//! The byte-oriented key-value store underneath the ledger.
//!
//! `MemoryDB` is the in-memory backend. Its mathematical model is an
//! association sequence of `(key, value)` pairs with pairwise distinct keys;
//! lookup, update, delete and prefix scan are specified against that model.

use vstd::prelude::*;

verus! {

/// The model of a key-value store: the stored pairs, in storage order.
pub type KvModel = Seq<(Seq<u8>, Seq<u8>)>;

/// The model of a sequence of raw `(key, value)` pairs.
pub open spec fn pairs_view(v: Seq<(Vec<u8>, Vec<u8>)>) -> KvModel {
    Seq::new(v.len(), |i: int| (v[i].0@, v[i].1@))
}

/// The value stored under `key`, if any (first match in storage order).
pub open spec fn kv_find(s: KvModel, key: Seq<u8>) -> Option<Seq<u8>>
    decreases s.len(),
{
    if s.len() == 0 {
        Option::None
    } else if s[0].0 == key {
        Option::Some(s[0].1)
    } else {
        kv_find(s.drop_first(), key)
    }
}

/// The store after `set(key, value)`: the first pair with that key is
/// replaced in place, or the pair is appended if the key is absent.
pub open spec fn kv_put(s: KvModel, key: Seq<u8>, value: Seq<u8>) -> KvModel
    decreases s.len(),
{
    if s.len() == 0 {
        seq![(key, value)]
    } else if s[0].0 == key {
        seq![(key, value)] + s.drop_first()
    } else {
        seq![s[0]] + kv_put(s.drop_first(), key, value)
    }
}

/// The store after deleting `key`: the first pair with that key is removed.
pub open spec fn kv_del(s: KvModel, key: Seq<u8>) -> KvModel
    decreases s.len(),
{
    if s.len() == 0 {
        s
    } else if s[0].0 == key {
        s.drop_first()
    } else {
        seq![s[0]] + kv_del(s.drop_first(), key)
    }
}

/// Whether `p` is a prefix of `k`.
pub open spec fn is_prefix_of(p: Seq<u8>, k: Seq<u8>) -> bool {
    p.len() <= k.len() && k.subrange(0, p.len() as int) == p
}

/// The pairs whose key starts with `prefix`, in storage order.
pub open spec fn kv_filter_prefix(s: KvModel, prefix: Seq<u8>) -> KvModel
    decreases s.len(),
{
    if s.len() == 0 {
        s
    } else {
        (if is_prefix_of(prefix, s[0].0) {
            seq![s[0]]
        } else {
            Seq::empty()
        }) + kv_filter_prefix(s.drop_first(), prefix)
    }
}

/// One batched operation: a put carries `Some(value)`, a delete `None`.
pub type KvOp = (Seq<u8>, Option<Seq<u8>>);

/// The store after one batched operation.
pub open spec fn kv_apply_one(s: KvModel, op: KvOp) -> KvModel {
    match op.1 {
        Option::Some(v) => kv_put(s, op.0, v),
        Option::None => kv_del(s, op.0),
    }
}

/// The store after a batch of operations, applied in order.
pub open spec fn kv_apply_ops(s: KvModel, ops: Seq<KvOp>) -> KvModel
    decreases ops.len(),
{
    if ops.len() == 0 {
        s
    } else {
        kv_apply_ops(kv_apply_one(s, ops[0]), ops.drop_first())
    }
}

/// Well-formedness of the model: keys are pairwise distinct.
pub open spec fn kv_wf(s: KvModel) -> bool {
    forall|i: int, j: int| 0 <= i < j < s.len() ==> s[i].0 != s[j].0
}

pub proof fn lemma_find_put(s: KvModel, key: Seq<u8>, value: Seq<u8>, probe: Seq<u8>)
    ensures
        kv_find(kv_put(s, key, value), probe) == if probe == key {
            Option::Some(value)
        } else {
            kv_find(s, probe)
        },
    decreases s.len(),
{
    let t = kv_put(s, key, value);
    if s.len() == 0 {
        assert(t[0] == (key, value));
        assert(t.drop_first() =~= Seq::<(Seq<u8>, Seq<u8>)>::empty());
        assert(kv_find(Seq::<(Seq<u8>, Seq<u8>)>::empty(), probe) is None);
        assert(kv_find(t, probe) == if probe == key {
            Option::Some(value)
        } else {
            Option::<Seq<u8>>::None
        });
    } else if s[0].0 == key {
        assert(t[0] == (key, value));
        assert(t.drop_first() =~= s.drop_first());
        assert(kv_find(t, probe) == if probe == key {
            Option::Some(value)
        } else {
            kv_find(s.drop_first(), probe)
        });
        assert(kv_find(s, probe) == if s[0].0 == probe {
            Option::Some(s[0].1)
        } else {
            kv_find(s.drop_first(), probe)
        });
    } else {
        assert(t[0] == s[0]);
        lemma_find_put(s.drop_first(), key, value, probe);
        assert(t.drop_first() =~= kv_put(s.drop_first(), key, value));
        assert(kv_find(t, probe) == if s[0].0 == probe {
            Option::Some(s[0].1)
        } else {
            kv_find(kv_put(s.drop_first(), key, value), probe)
        });
        assert(kv_find(s, probe) == if s[0].0 == probe {
            Option::Some(s[0].1)
        } else {
            kv_find(s.drop_first(), probe)
        });
    }
}


/// If no pair carries `key`, the lookup misses.
pub proof fn lemma_find_absent_key(s: KvModel, key: Seq<u8>)
    requires
        forall|i: int| 0 <= i < s.len() ==> s[i].0 != key,
    ensures
        kv_find(s, key) is None,
    decreases s.len(),
{
    if s.len() > 0 {
        assert(forall|i: int|
            0 <= i < s.drop_first().len() ==> #[trigger] s.drop_first()[i] == s[i + 1]);
        lemma_find_absent_key(s.drop_first(), key);
    }
}

/// If `key` sits at index `i` and nowhere earlier, `kv_put` updates index `i`.
pub proof fn lemma_put_at_index(s: KvModel, key: Seq<u8>, value: Seq<u8>, i: int)
    requires
        0 <= i < s.len(),
        s[i].0 == key,
        forall|j: int| 0 <= j < i ==> s[j].0 != key,
    ensures
        kv_put(s, key, value) == s.update(i, (key, value)),
    decreases s.len(),
{
    if s[0].0 == key {
        assert(i == 0);
        assert(seq![(key, value)] + s.drop_first() =~= s.update(0, (key, value)));
    } else {
        assert(forall|j: int|
            0 <= j < s.drop_first().len() ==> #[trigger] s.drop_first()[j] == s[j + 1]);
        lemma_put_at_index(s.drop_first(), key, value, i - 1);
        assert(seq![s[0]] + s.drop_first().update(i - 1, (key, value)) =~= s.update(
            i,
            (key, value),
        ));
    }
}

/// If `key` is absent, `kv_put` appends the pair.
pub proof fn lemma_put_absent(s: KvModel, key: Seq<u8>, value: Seq<u8>)
    requires
        forall|j: int| 0 <= j < s.len() ==> s[j].0 != key,
    ensures
        kv_put(s, key, value) == s.push((key, value)),
    decreases s.len(),
{
    if s.len() == 0 {
        assert(seq![(key, value)] =~= s.push((key, value)));
    } else {
        assert(forall|j: int|
            0 <= j < s.drop_first().len() ==> #[trigger] s.drop_first()[j] == s[j + 1]);
        lemma_put_absent(s.drop_first(), key, value);
        assert(seq![s[0]] + s.drop_first().push((key, value)) =~= s.push((key, value)));
    }
}

/// If `key` sits at index `i` and nowhere earlier, the lookup yields `s[i].1`.
pub proof fn lemma_find_at_index(s: KvModel, key: Seq<u8>, i: int)
    requires
        0 <= i < s.len(),
        s[i].0 == key,
        forall|j: int| 0 <= j < i ==> s[j].0 != key,
    ensures
        kv_find(s, key) == Option::Some(s[i].1),
    decreases s.len(),
{
    if s[0].0 == key {
        assert(i == 0);
    } else {
        assert(forall|j: int|
            0 <= j < s.drop_first().len() ==> #[trigger] s.drop_first()[j] == s[j + 1]);
        lemma_find_at_index(s.drop_first(), key, i - 1);
    }
}

/// If `key` sits at index `i` and nowhere earlier, `kv_del` removes index `i`.
pub proof fn lemma_del_at_index(s: KvModel, key: Seq<u8>, i: int)
    requires
        0 <= i < s.len(),
        s[i].0 == key,
        forall|j: int| 0 <= j < i ==> s[j].0 != key,
    ensures
        kv_del(s, key) == s.remove(i),
    decreases s.len(),
{
    if s[0].0 == key {
        assert(i == 0);
        assert(s.drop_first() =~= s.remove(0));
    } else {
        assert(forall|j: int|
            0 <= j < s.drop_first().len() ==> #[trigger] s.drop_first()[j] == s[j + 1]);
        lemma_del_at_index(s.drop_first(), key, i - 1);
        assert(seq![s[0]] + s.drop_first().remove(i - 1) =~= s.remove(i));
    }
}

/// If `key` is absent, `kv_del` leaves the store unchanged.
pub proof fn lemma_del_absent(s: KvModel, key: Seq<u8>)
    requires
        forall|j: int| 0 <= j < s.len() ==> s[j].0 != key,
    ensures
        kv_del(s, key) == s,
    decreases s.len(),
{
    if s.len() > 0 {
        assert(forall|j: int|
            0 <= j < s.drop_first().len() ==> #[trigger] s.drop_first()[j] == s[j + 1]);
        lemma_del_absent(s.drop_first(), key);
        assert(seq![s[0]] + s.drop_first() =~= s);
    }
}

/// The least index carrying `key`, when one exists.
pub open spec fn least_key_index(s: KvModel, key: Seq<u8>) -> int
    decreases s.len(),
{
    if s.len() == 0 {
        0
    } else if s[0].0 == key {
        0
    } else {
        1 + least_key_index(s.drop_first(), key)
    }
}

/// When `key` occurs in `s`, `least_key_index` names its first occurrence.
pub proof fn lemma_least_key_index(s: KvModel, key: Seq<u8>)
    requires
        exists|i: int| 0 <= i < s.len() && #[trigger] s[i].0 == key,
    ensures
        0 <= least_key_index(s, key) < s.len(),
        s[least_key_index(s, key)].0 == key,
        forall|j: int| 0 <= j < least_key_index(s, key) ==> s[j].0 != key,
    decreases s.len(),
{
    if s[0].0 == key {
    } else {
        assert(forall|j: int|
            0 <= j < s.drop_first().len() ==> #[trigger] s.drop_first()[j] == s[j + 1]);
        let w = choose|i: int| 0 <= i < s.len() && #[trigger] s[i].0 == key;
        assert(s.drop_first()[w - 1].0 == key);
        lemma_least_key_index(s.drop_first(), key);
        assert forall|j: int| 0 <= j < least_key_index(s, key) implies s[j].0 != key by {
            if j > 0 {
                assert(s.drop_first()[j - 1] == s[j]);
                assert(s.drop_first()[j - 1].0 != key);
            }
        }
    }
}

/// An update at the first occurrence of a key keeps keys pairwise distinct.
pub proof fn lemma_put_wf(s: KvModel, key: Seq<u8>, value: Seq<u8>)
    requires
        kv_wf(s),
    ensures
        kv_wf(kv_put(s, key, value)),
{
    if exists|i: int| 0 <= i < s.len() && #[trigger] s[i].0 == key {
        let i = least_key_index(s, key);
        lemma_least_key_index(s, key);
        lemma_put_at_index(s, key, value, i);
    } else {
        assert(forall|j: int| 0 <= j < s.len() ==> s[j].0 != key);
        lemma_put_absent(s, key, value);
    }
}

/// A delete keeps keys pairwise distinct.
pub proof fn lemma_del_wf(s: KvModel, key: Seq<u8>)
    requires
        kv_wf(s),
    ensures
        kv_wf(kv_del(s, key)),
{
    if exists|i: int| 0 <= i < s.len() && #[trigger] s[i].0 == key {
        let i = least_key_index(s, key);
        lemma_least_key_index(s, key);
        lemma_del_at_index(s, key, i);
    } else {
        assert(forall|j: int| 0 <= j < s.len() ==> s[j].0 != key);
        lemma_del_absent(s, key);
    }
}

pub proof fn lemma_apply_ops_wf(s: KvModel, ops: Seq<KvOp>)
    requires
        kv_wf(s),
    ensures
        kv_wf(kv_apply_ops(s, ops)),
    decreases ops.len(),
{
    if ops.len() > 0 {
        match ops[0].1 {
            Option::Some(v) => lemma_put_wf(s, ops[0].0, v),
            Option::None => lemma_del_wf(s, ops[0].0),
        }
        lemma_apply_ops_wf(kv_apply_one(s, ops[0]), ops.drop_first());
    }
}

/// Appending one operation to a batch composes with applying it afterwards.
pub proof fn lemma_apply_ops_snoc(s: KvModel, ops: Seq<KvOp>, op: KvOp)
    ensures
        kv_apply_ops(s, ops.push(op)) == kv_apply_one(kv_apply_ops(s, ops), op),
    decreases ops.len(),
{
    assert(ops.push(op)[0] == if ops.len() == 0 {
        op
    } else {
        ops[0]
    });
    if ops.len() == 0 {
        assert(ops.push(op).drop_first() =~= Seq::<KvOp>::empty());
        assert(kv_apply_ops(kv_apply_one(s, op), Seq::<KvOp>::empty()) == kv_apply_one(s, op));
        assert(kv_apply_ops(s, Seq::<KvOp>::empty()) == s);
    } else {
        assert(ops.push(op).drop_first() =~= ops.drop_first().push(op));
        lemma_apply_ops_snoc(kv_apply_one(s, ops[0]), ops.drop_first(), op);
        assert(kv_apply_ops(s, ops.push(op)) == kv_apply_ops(
            kv_apply_one(s, ops[0]),
            ops.drop_first().push(op),
        ));
        assert(kv_apply_ops(s, ops) == kv_apply_ops(kv_apply_one(s, ops[0]), ops.drop_first()));
    }
}

/// Byte-vector equality, decided against the views.
pub fn bytes_eq(a: &Vec<u8>, b: &Vec<u8>) -> (r: bool)
    ensures
        r == (a@ == b@),
{
    let r = a == b;
    proof {
        if r {
            assert(a@ =~= b@);
        } else {
            if a@ == b@ {
                assert(forall|i: int| 0 <= i < a@.len() ==> a@[i] == b@[i]);
                assert(false);
            }
        }
    }
    r
}

/// Whether `p@` is a prefix of `k@`.
pub fn bytes_is_prefix(p: &Vec<u8>, k: &Vec<u8>) -> (r: bool)
    ensures
        r == is_prefix_of(p@, k@),
{
    if p.len() > k.len() {
        return false;
    }
    let mut i: usize = 0;
    while i < p.len()
        invariant
            0 <= i <= p.len() <= k.len(),
            forall|j: int| 0 <= j < i ==> p@[j] == k@[j],
        decreases p.len() - i,
    {
        if p[i] != k[i] {
            assert(k@.subrange(0, p@.len() as int)[i as int] != p@[i as int]);
            return false;
        }
        i += 1;
    }
    proof {
        assert(k@.subrange(0, p@.len() as int) =~= p@);
    }
    true
}

/// The in-memory key-value backend: a flat list of `(key, value)` pairs with
/// distinct keys. It models the byte get/set/batch/prefix-scan contract that
/// the durable engine honors as well.
#[derive(Clone, Debug)]
pub struct MemoryDB {
    entries: Vec<(Vec<u8>, Vec<u8>)>,
}

impl View for MemoryDB {
    type V = KvModel;

    closed spec fn view(&self) -> KvModel {
        pairs_view(self.entries@)
    }
}

impl Default for MemoryDB {
    /// An empty store.
    fn default() -> (r: Self)
        ensures
            r@ == Seq::<(Seq<u8>, Seq<u8>)>::empty(),
            r.inv(),
    {
        let r = MemoryDB { entries: Vec::new() };
        proof {
            assert(r@ =~= Seq::<(Seq<u8>, Seq<u8>)>::empty());
        }
        r
    }
}

impl MemoryDB {
    /// The store invariant: stored keys are pairwise distinct.
    pub open spec fn inv(&self) -> bool {
        kv_wf(self@)
    }

    /// Creates an empty store.
    pub fn new() -> (r: Self)
        ensures
            r@ == Seq::<(Seq<u8>, Seq<u8>)>::empty(),
            r.inv(),
    {
        MemoryDB::default()
    }

    /// The index of the first pair carrying `key@`, if the key is present.
    fn find_index(&self, key: &Vec<u8>) -> (r: Option<usize>)
        ensures
            match r {
                Option::Some(i) => i < self@.len() && self@[i as int].0 == key@ && forall|j: int|
                    0 <= j < i ==> self@[j].0 != key@,
                Option::None => forall|j: int| 0 <= j < self@.len() ==> self@[j].0 != key@,
            },
    {
        let mut i: usize = 0;
        while i < self.entries.len()
            invariant
                0 <= i <= self.entries.len(),
                forall|j: int| 0 <= j < i ==> self@[j].0 != key@,
            decreases self.entries.len() - i,
        {
            if bytes_eq(&self.entries[i].0, key) {
                return Some(i);
            }
            i += 1;
        }
        None
    }

    /// Stores `value` under `key`, replacing any previous value.
    pub fn set(&mut self, key: &Vec<u8>, value: &Vec<u8>)
        requires
            old(self).inv(),
        ensures
            final(self).inv(),
            final(self)@ == kv_put(old(self)@, key@, value@),
    {
        proof {
            lemma_put_wf(self@, key@, value@);
        }
        match self.find_index(key) {
            Some(i) => {
                proof {
                    lemma_put_at_index(self@, key@, value@, i as int);
                }
                self.entries[i] = (key.clone(), value.clone());
                assert(self@ =~= kv_put(old(self)@, key@, value@));
            },
            None => {
                proof {
                    lemma_put_absent(self@, key@, value@);
                }
                self.entries.push((key.clone(), value.clone()));
                assert(self@ =~= kv_put(old(self)@, key@, value@));
            },
        }
    }

    /// The value stored under `key`, if any.
    pub fn get(&self, key: &Vec<u8>) -> (r: Option<Vec<u8>>)
        ensures
            match r {
                Option::Some(v) => kv_find(self@, key@) == Option::Some(v@),
                Option::None => kv_find(self@, key@) is None,
            },
    {
        match self.find_index(key) {
            Some(i) => {
                proof {
                    lemma_find_at_index(self@, key@, i as int);
                }
                Some(self.entries[i].1.clone())
            },
            None => {
                proof {
                    lemma_find_absent_key(self@, key@);
                }
                None
            },
        }
    }

    /// Removes `key` from the store, if present.
    pub fn del(&mut self, key: &Vec<u8>)
        requires
            old(self).inv(),
        ensures
            final(self).inv(),
            final(self)@ == kv_del(old(self)@, key@),
    {
        proof {
            lemma_del_wf(self@, key@);
        }
        match self.find_index(key) {
            Some(i) => {
                proof {
                    lemma_del_at_index(self@, key@, i as int);
                }
                self.entries.remove(i);
                assert(self@ =~= kv_del(old(self)@, key@));
            },
            None => {
                proof {
                    lemma_del_absent(self@, key@);
                }
            },
        }
    }

    /// Every stored pair whose key starts with `prefix`, in storage order.
    /// Decoding and filtering of the raw values is the caller's business.
    pub fn iter_all(&self, prefix: &Vec<u8>) -> (r: Vec<(Vec<u8>, Vec<u8>)>)
        ensures
            pairs_view(r@) == kv_filter_prefix(self@, prefix@),
    {
        let mut r: Vec<(Vec<u8>, Vec<u8>)> = Vec::new();
        let mut i: usize = 0;
        proof {
            assert(pairs_view(r@) =~= kv_filter_prefix(self@.subrange(0, 0), prefix@));
        }
        while i < self.entries.len()
            invariant
                0 <= i <= self.entries.len(),
                self@.len() == self.entries.len(),
                pairs_view(r@) == kv_filter_prefix(self@.subrange(0, i as int), prefix@),
            decreases self.entries.len() - i,
        {
            proof {
                lemma_filter_prefix_snoc(self@.subrange(0, i as int), self@[i as int], prefix@);
                assert(self@.subrange(0, i as int).push(self@[i as int]) =~= self@.subrange(
                    0,
                    i as int + 1,
                ));
            }
            if bytes_is_prefix(prefix, &self.entries[i].0) {
                let pair = (self.entries[i].0.clone(), self.entries[i].1.clone());
                r.push(pair);
                assert(pairs_view(r@) =~= kv_filter_prefix(self@.subrange(0, i as int + 1), prefix@));
            } else {
                assert(pairs_view(r@) =~= kv_filter_prefix(self@.subrange(0, i as int + 1), prefix@));
            }
            i += 1;
        }
        proof {
            assert(self@.subrange(0, self@.len() as int) =~= self@);
        }
        r
    }
}

/// Filtering distributes over appending one pair at the end.
pub proof fn lemma_filter_prefix_snoc(s: KvModel, pair: (Seq<u8>, Seq<u8>), prefix: Seq<u8>)
    ensures
        kv_filter_prefix(s.push(pair), prefix) == kv_filter_prefix(s, prefix) + (if is_prefix_of(
            prefix,
            pair.0,
        ) {
            seq![pair]
        } else {
            Seq::empty()
        }),
    decreases s.len(),
{
    let tail = if is_prefix_of(prefix, pair.0) {
        seq![pair]
    } else {
        Seq::<(Seq<u8>, Seq<u8>)>::empty()
    };
    assert(s.push(pair)[0] == if s.len() == 0 {
        pair
    } else {
        s[0]
    });
    if s.len() == 0 {
        assert(s.push(pair).drop_first() =~= Seq::<(Seq<u8>, Seq<u8>)>::empty());
        assert(kv_filter_prefix(Seq::<(Seq<u8>, Seq<u8>)>::empty(), prefix) =~= Seq::<
            (Seq<u8>, Seq<u8>),
        >::empty());
        assert(kv_filter_prefix(s.push(pair), prefix) =~= tail);
        assert(kv_filter_prefix(s.push(pair), prefix) =~= kv_filter_prefix(s, prefix) + tail);
    } else {
        assert(s.push(pair).drop_first() =~= s.drop_first().push(pair));
        lemma_filter_prefix_snoc(s.drop_first(), pair, prefix);
        assert(kv_filter_prefix(s.push(pair), prefix) == (if is_prefix_of(prefix, s[0].0) {
            seq![s[0]]
        } else {
            Seq::empty()
        }) + kv_filter_prefix(s.drop_first().push(pair), prefix));
        assert(kv_filter_prefix(s, prefix) == (if is_prefix_of(prefix, s[0].0) {
            seq![s[0]]
        } else {
            Seq::empty()
        }) + kv_filter_prefix(s.drop_first(), prefix));
        assert(kv_filter_prefix(s.push(pair), prefix) =~= kv_filter_prefix(s, prefix) + tail);
    }
}

impl MemoryDB {
    /// Applies a batch of puts and deletes atomically, in insertion order.
    /// The in-memory backend ignores the durability flag.
    pub fn write_batch(&mut self, batch: rusty_leveldb::WriteBatch, _sync: bool)
        requires
            old(self).inv(),
        ensures
            final(self).inv(),
            final(self)@ == kv_apply_ops(old(self)@, crate::batch::batch_ops(batch)),
    {
        let ops = crate::batch::batch_entries(&batch);
        let ghost m = crate::batch::batch_ops(batch);
        let mut i: usize = 0;
        proof {
            assert(m.subrange(0, 0) =~= Seq::<KvOp>::empty());
            lemma_apply_ops_wf(old(self)@, m.subrange(0, 0));
        }
        while i < ops.len()
            invariant
                0 <= i <= ops.len(),
                m == crate::batch::ops_view(ops@),
                m.len() == ops.len(),
                self.inv(),
                self@ == kv_apply_ops(old(self)@, m.subrange(0, i as int)),
            decreases ops.len() - i,
        {
            proof {
                lemma_apply_ops_snoc(old(self)@, m.subrange(0, i as int), m[i as int]);
                assert(m.subrange(0, i as int).push(m[i as int]) =~= m.subrange(0, i as int + 1));
            }
            match &ops[i].1 {
                Option::Some(v) => {
                    self.set(&ops[i].0, v);
                },
                Option::None => {
                    self.del(&ops[i].0);
                },
            }
            proof {
                assert(m[i as int] == (
                    ops@[i as int].0@,
                    match ops@[i as int].1 {
                        Option::Some(b) => Option::Some(b@),
                        Option::None => Option::<Seq<u8>>::None,
                    },
                ));
            }
            i += 1;
        }
        proof {
            assert(m.subrange(0, m.len() as int) =~= m);
        }
    }
}

/// Every pair of a prefix filter carries the prefix and comes from the store.
pub proof fn lemma_filter_prefix_all(s: KvModel, prefix: Seq<u8>)
    ensures
        forall|i: int|
            0 <= i < kv_filter_prefix(s, prefix).len() ==> is_prefix_of(
                prefix,
                (#[trigger] kv_filter_prefix(s, prefix)[i]).0,
            ),
    decreases s.len(),
{
    if s.len() > 0 {
        lemma_filter_prefix_all(s.drop_first(), prefix);
        let t = kv_filter_prefix(s, prefix);
        let head = if is_prefix_of(prefix, s[0].0) {
            seq![s[0]]
        } else {
            Seq::<(Seq<u8>, Seq<u8>)>::empty()
        };
        assert forall|i: int| 0 <= i < t.len() implies is_prefix_of(prefix, t[i].0) by {
            if i >= head.len() {
                assert(t[i] == kv_filter_prefix(s.drop_first(), prefix)[i - head.len()]);
            }
        }
    }
}

/// A stored pair whose key carries the prefix appears in the prefix filter.
pub proof fn lemma_filter_prefix_member(s: KvModel, prefix: Seq<u8>, k: Seq<u8>, v: Seq<u8>)
    requires
        kv_find(s, k) == Option::Some(v),
        is_prefix_of(prefix, k),
    ensures
        kv_filter_prefix(s, prefix).contains((k, v)),
    decreases s.len(),
{
    let t = kv_filter_prefix(s, prefix);
    if s.len() == 0 {
    } else if s[0].0 == k {
        assert(s[0] == (k, v));
        assert(t[0] == (k, v));
    } else {
        lemma_filter_prefix_member(s.drop_first(), prefix, k, v);
        let u = kv_filter_prefix(s.drop_first(), prefix);
        let w = choose|i: int| 0 <= i < u.len() && u[i] == (k, v);
        let head = if is_prefix_of(prefix, s[0].0) {
            seq![s[0]]
        } else {
            Seq::<(Seq<u8>, Seq<u8>)>::empty()
        };
        assert(t[head.len() + w] == (k, v));
    }
}

} // verus!
