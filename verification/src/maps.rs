//! Association-list maps and sets keyed by block hashes, with mathematical
//! `Map` and `Set` views, and the trivial hasher for block-hash keys.

use vstd::prelude::*;
use crate::hashes::word_byte;

verus! {

/// No two entries share a key.
pub open spec fn distinct_keys<K, V>(s: Seq<(K, V)>) -> bool {
    forall|i: int, j: int| 0 <= i < j < s.len() ==> s[i].0 != s[j].0
}

/// The mathematical map held by an entry sequence; a later entry wins.
pub open spec fn map_of<K, V>(s: Seq<(K, V)>) -> Map<K, V>
    decreases s.len(),
{
    if s.len() == 0 {
        Map::empty()
    } else {
        map_of(s.drop_last()).insert(s.last().0, s.last().1)
    }
}

/// A key in the map is carried by some entry.
pub proof fn lemma_map_of_dom_key<K, V>(s: Seq<(K, V)>, k: K)
    requires
        map_of(s).dom().contains(k),
    ensures
        exists|i: int| 0 <= i < s.len() && s[i].0 == k,
    decreases s.len(),
{
    if s.len() > 0 {
        if k == s.last().0 {
            assert(s[s.len() - 1].0 == k);
        } else {
            lemma_map_of_dom_key(s.drop_last(), k);
            let i = choose|i: int| 0 <= i < s.drop_last().len() && s.drop_last()[i].0 == k;
            assert(s[i].0 == k);
        }
    }
}

/// Every entry's key is in the map.
pub proof fn lemma_map_of_index_dom<K, V>(s: Seq<(K, V)>, i: int)
    requires
        0 <= i < s.len(),
    ensures
        map_of(s).dom().contains(s[i].0),
    decreases s.len(),
{
    if i < s.len() - 1 {
        assert(s.drop_last()[i] == s[i]);
        lemma_map_of_index_dom(s.drop_last(), i);
    }
}

/// A key is in the map exactly when some entry carries it.
pub proof fn lemma_map_of_dom<K, V>(s: Seq<(K, V)>)
    ensures
        forall|k: K|
            map_of(s).dom().contains(k) <==> exists|i: int| 0 <= i < s.len() && s[i].0 == k,
{
    assert forall|k: K| map_of(s).dom().contains(k) implies exists|i: int|
        0 <= i < s.len() && s[i].0 == k by {
        lemma_map_of_dom_key(s, k);
    }
    assert forall|k: K| (exists|i: int| 0 <= i < s.len() && s[i].0 == k) implies map_of(
        s,
    ).dom().contains(k) by {
        let i = choose|i: int| 0 <= i < s.len() && s[i].0 == k;
        lemma_map_of_index_dom(s, i);
    }
}

/// With distinct keys, the map sends each entry's key to its value.
pub proof fn lemma_map_of_index<K, V>(s: Seq<(K, V)>, i: int)
    requires
        distinct_keys(s),
        0 <= i < s.len(),
    ensures
        map_of(s).dom().contains(s[i].0),
        map_of(s)[s[i].0] == s[i].1,
    decreases s.len(),
{
    if i == s.len() - 1 {
    } else {
        assert(s.drop_last()[i] == s[i]);
        lemma_map_of_index(s.drop_last(), i);
        assert(s.last().0 != s[i].0);
    }
}

/// The domain of the map is finite and, with distinct keys, counts the
/// entries.
pub proof fn lemma_map_of_len<K, V>(s: Seq<(K, V)>)
    requires
        distinct_keys(s),
    ensures
        map_of(s).dom().finite(),
        map_of(s).dom().len() == s.len(),
    decreases s.len(),
{
    if s.len() > 0 {
        lemma_map_of_len(s.drop_last());
        lemma_map_of_dom(s.drop_last());
        assert(!map_of(s.drop_last()).dom().contains(s.last().0));
    }
}

/// Removing entry `i` removes exactly its key from the map.
pub proof fn lemma_map_of_remove<K, V>(s: Seq<(K, V)>, i: int)
    requires
        distinct_keys(s),
        0 <= i < s.len(),
    ensures
        distinct_keys(s.remove(i)),
        map_of(s.remove(i)) =~= map_of(s).remove(s[i].0),
    decreases s.len(),
{
    lemma_map_of_dom(s);
    lemma_map_of_dom(s.remove(i));
    assert forall|a: int, b: int| 0 <= a < b < s.remove(i).len() implies s.remove(i)[a].0
        != s.remove(i)[b].0 by {
        let a0 = if a < i {
            a
        } else {
            a + 1
        };
        let b0 = if b < i {
            b
        } else {
            b + 1
        };
        assert(s.remove(i)[a] == s[a0] && s.remove(i)[b] == s[b0]);
    }
    assert forall|k: K|
        map_of(s.remove(i)).dom().contains(k) == map_of(s).remove(s[i].0).dom().contains(k) by {
        if k == s[i].0 {
            if map_of(s.remove(i)).dom().contains(k) {
                let j = choose|j: int| 0 <= j < s.remove(i).len() && s.remove(i)[j].0 == k;
                let j0 = if j < i {
                    j
                } else {
                    j + 1
                };
                assert(s[j0].0 == k && j0 != i);
                assert(false);
            }
        } else {
            if map_of(s).remove(s[i].0).dom().contains(k) {
                let j = choose|j: int| 0 <= j < s.len() && s[j].0 == k;
                let j1 = if j < i {
                    j
                } else {
                    j - 1
                };
                assert(s.remove(i)[j1].0 == k);
            }
            if map_of(s.remove(i)).dom().contains(k) {
                let j = choose|j: int| 0 <= j < s.remove(i).len() && s.remove(i)[j].0 == k;
                let j0 = if j < i {
                    j
                } else {
                    j + 1
                };
                assert(s[j0].0 == k);
            }
        }
    }
    assert forall|k: K| map_of(s.remove(i)).dom().contains(k) implies map_of(s.remove(i))[k]
        == map_of(s).remove(s[i].0)[k] by {
        let j = choose|j: int| 0 <= j < s.remove(i).len() && s.remove(i)[j].0 == k;
        lemma_map_of_index(s.remove(i), j);
        let j0 = if j < i {
            j
        } else {
            j + 1
        };
        assert(s[j0] == s.remove(i)[j]);
        lemma_map_of_index(s, j0);
    }
}

/// Replacing the value at entry `i` updates exactly its key in the map.
pub proof fn lemma_map_of_update<K, V>(s: Seq<(K, V)>, i: int, v: V)
    requires
        distinct_keys(s),
        0 <= i < s.len(),
    ensures
        distinct_keys(s.update(i, (s[i].0, v))),
        map_of(s.update(i, (s[i].0, v))) =~= map_of(s).insert(s[i].0, v),
    decreases s.len(),
{
    let t = s.update(i, (s[i].0, v));
    assert(forall|j: int| 0 <= j < s.len() ==> t[j].0 == s[j].0);
    lemma_map_of_dom(s);
    lemma_map_of_dom(t);
    assert forall|k: K| map_of(t).dom().contains(k) == map_of(s).insert(
        s[i].0,
        v,
    ).dom().contains(k) by {
        if map_of(t).dom().contains(k) {
            let j = choose|j: int| 0 <= j < t.len() && t[j].0 == k;
            assert(s[j].0 == k);
        }
        if map_of(s).insert(s[i].0, v).dom().contains(k) {
            if k == s[i].0 {
                assert(t[i].0 == k);
            } else {
                let j = choose|j: int| 0 <= j < s.len() && s[j].0 == k;
                assert(t[j].0 == k);
            }
        }
    }
    assert forall|k: K| map_of(t).dom().contains(k) implies map_of(t)[k] == map_of(s).insert(
        s[i].0,
        v,
    )[k] by {
        let j = choose|j: int| 0 <= j < t.len() && t[j].0 == k;
        lemma_map_of_index(t, j);
        if j == i {
            assert(t[j].1 == v);
        } else {
            assert(t[j] == s[j]);
            lemma_map_of_index(s, j);
            assert(k != s[i].0);
        }
    }
}

/// Pushing a fresh entry inserts exactly its key.
pub proof fn lemma_map_of_push<K, V>(s: Seq<(K, V)>, k: K, v: V)
    requires
        distinct_keys(s),
        forall|i: int| 0 <= i < s.len() ==> s[i].0 != k,
    ensures
        distinct_keys(s.push((k, v))),
        map_of(s.push((k, v))) == map_of(s).insert(k, v),
{
    assert(s.push((k, v)).drop_last() =~= s);
    assert forall|a: int, b: int| 0 <= a < b < s.push((k, v)).len() implies s.push((k, v))[a].0
        != s.push((k, v))[b].0 by {
        if b < s.len() {
            assert(s.push((k, v))[a] == s[a] && s.push((k, v))[b] == s[b]);
        } else {
            assert(s.push((k, v))[a] == s[a] && s.push((k, v))[b].0 == k);
        }
    }
}

/// A map from block hashes to values, backed by a duplicate-free entry
/// list; its view is the mathematical map it holds.
#[derive(Debug)]
pub struct BlockHashMap<V> {
    entries: Vec<(crate::hashes::Hash, V)>,
}

impl<V> View for BlockHashMap<V> {
    type V = Map<crate::hashes::Hash, V>;

    closed spec fn view(&self) -> Map<crate::hashes::Hash, V> {
        map_of(self.entries@)
    }
}

impl<V> BlockHashMap<V> {
    /// The entry list never holds a key twice.
    #[verifier::type_invariant]
    spec fn wf(&self) -> bool {
        distinct_keys(self.entries@)
    }

    /// The entries as a sequence, oldest first.
    pub closed spec fn entry_seq(&self) -> Seq<(crate::hashes::Hash, V)> {
        self.entries@
    }

    /// Creates an empty map.
    pub fn new() -> (r: BlockHashMap<V>)
        ensures
            r@ == Map::<crate::hashes::Hash, V>::empty(),
            r.entry_seq() == Seq::<(crate::hashes::Hash, V)>::empty(),
    {
        let r = BlockHashMap { entries: Vec::new() };
        proof {
            assert(r@ =~= Map::<crate::hashes::Hash, V>::empty());
            assert(r.entry_seq() =~= Seq::<(crate::hashes::Hash, V)>::empty());
        }
        r
    }

    /// Creates an empty map; the capacity is advisory.
    pub fn with_capacity(capacity: usize) -> (r: BlockHashMap<V>)
        ensures
            r@ == Map::<crate::hashes::Hash, V>::empty(),
            r.entry_seq() == Seq::<(crate::hashes::Hash, V)>::empty(),
    {
        let _ = capacity;
        BlockHashMap::new()
    }

    /// The number of keys held.
    pub fn len(&self) -> (r: usize)
        ensures
            r == self@.dom().len(),
            r == self.entry_seq().len(),
    {
        proof {
            use_type_invariant(self);
            lemma_map_of_len(self.entries@);
        }
        self.entries.len()
    }

    /// True when no key is held.
    pub fn is_empty(&self) -> (r: bool)
        ensures
            r == (self@.dom().len() == 0),
    {
        self.len() == 0
    }

    /// True when the key is held.
    pub fn contains_key(&self, key: &crate::hashes::Hash) -> (r: bool)
        ensures
            r == self@.dom().contains(*key),
    {
        let mut i: usize = 0;
        while i < self.entries.len()
            invariant
                0 <= i <= self.entries@.len(),
                forall|j: int| 0 <= j < i ==> self.entries@[j].0 != *key,
            decreases self.entries@.len() - i,
        {
            if self.entries[i].0 == *key {
                proof {
                    lemma_map_of_index_dom(self.entries@, i as int);
                }
                return true;
            }
            i += 1;
        }
        proof {
            if self@.dom().contains(*key) {
                lemma_map_of_dom_key(self.entries@, *key);
            }
        }
        false
    }

    /// The value held for a key.
    pub fn get(&self, key: &crate::hashes::Hash) -> (r: Option<&V>)
        ensures
            self@.dom().contains(*key) ==> r is Some && *r->0 == self@[*key],
            !self@.dom().contains(*key) ==> r is None,
    {
        let mut i: usize = 0;
        while i < self.entries.len()
            invariant
                0 <= i <= self.entries@.len(),
                forall|j: int| 0 <= j < i ==> self.entries@[j].0 != *key,
            decreases self.entries@.len() - i,
        {
            if self.entries[i].0 == *key {
                proof {
                    use_type_invariant(self);
                    lemma_map_of_index(self.entries@, i as int);
                }
                return Some(&self.entries[i].1);
            }
            i += 1;
        }
        proof {
            if self@.dom().contains(*key) {
                lemma_map_of_dom_key(self.entries@, *key);
            }
        }
        None
    }

    /// Binds the key to the value, replacing any previous binding.
    pub fn insert(&mut self, key: crate::hashes::Hash, value: V)
        ensures
            final(self)@ == old(self)@.insert(key, value),
            old(self)@.dom().contains(key) ==> final(self).entry_seq().len() == old(
                self,
            ).entry_seq().len(),
            !old(self)@.dom().contains(key) ==> final(self).entry_seq() == old(
                self,
            ).entry_seq().push((key, value)),
    {
        proof {
            use_type_invariant(&*self);
        }
        let ghost pre = self.entries@;
        let mut es: Vec<(crate::hashes::Hash, V)> = Vec::new();
        core::mem::swap(&mut es, &mut self.entries);
        let n = es.len();
        let mut idx: usize = n;
        let mut i: usize = 0;
        while i < n && idx == n
            invariant
                0 <= i <= n,
                n == es@.len(),
                es@ == pre,
                distinct_keys(pre),
                idx == n || (idx < i && pre[idx as int].0 == key),
                idx == n ==> forall|j: int| 0 <= j < i ==> es@[j].0 != key,
            decreases n - i + (if idx == n { 1int } else { 0int }),
        {
            if es[i].0 == key {
                idx = i;
            }
            i += 1;
        }
        if idx < n {
            proof {
                lemma_map_of_update(pre, idx as int, value);
            }
            es[idx] = (key, value);
        } else {
            proof {
                lemma_map_of_push(pre, key, value);
            }
            es.push((key, value));
        }
        core::mem::swap(&mut es, &mut self.entries);
        proof {
            lemma_map_of_dom(pre);
        }
    }

    /// Unbinds the key, returning the value it held.
    pub fn remove(&mut self, key: &crate::hashes::Hash) -> (r: Option<V>)
        ensures
            final(self)@ == old(self)@.remove(*key),
            old(self)@.dom().contains(*key) ==> r is Some && r->0 == old(self)@[*key],
            !old(self)@.dom().contains(*key) ==> r is None && final(self)@ == old(self)@,
    {
        proof {
            use_type_invariant(&*self);
        }
        let ghost pre = self.entries@;
        let mut es: Vec<(crate::hashes::Hash, V)> = Vec::new();
        core::mem::swap(&mut es, &mut self.entries);
        let mut i: usize = 0;
        let mut out: Option<V> = None;
        while i < es.len() && out.is_none()
            invariant
                0 <= i <= pre.len(),
                distinct_keys(pre),
                out is None ==> forall|j: int| 0 <= j < i ==> es@[j].0 != *key,
                out is None ==> es@ == pre,
                out is Some ==> 0 < i <= pre.len() && pre[i - 1].0 == *key && es@ == pre.remove(
                    i - 1,
                ) && out->0 == pre[i - 1].1,
            decreases pre.len() - i + (if out is None { 1int } else { 0int }),
        {
            if es[i].0 == *key {
                proof {
                    lemma_map_of_index(pre, i as int);
                    lemma_map_of_remove(pre, i as int);
                }
                let entry = es.remove(i);
                out = Some(entry.1);
            }
            i += 1;
        }
        core::mem::swap(&mut es, &mut self.entries);
        proof {
            if out is Some {
                let ix = i - 1;
                lemma_map_of_index(pre, ix as int);
                lemma_map_of_remove(pre, ix as int);
            } else {
                if map_of(pre).dom().contains(*key) {
                    lemma_map_of_dom_key(pre, *key);
                }
                assert(self@ =~= old(self)@.remove(*key));
            }
        }
        out
    }

    /// The keys held, in insertion order.
    pub fn keys(&self) -> (r: Vec<crate::hashes::Hash>)
        ensures
            r@.len() == self.entry_seq().len(),
            forall|i: int| 0 <= i < r@.len() ==> r@[i] == self.entry_seq()[i].0,
            forall|i: int| 0 <= i < r@.len() ==> self@.dom().contains(r@[i]),
            forall|k: crate::hashes::Hash|
                self@.dom().contains(k) ==> exists|i: int| 0 <= i < r@.len() && r@[i] == k,
            forall|a: int, b: int| 0 <= a < b < r@.len() ==> r@[a] != r@[b],
    {
        let mut r: Vec<crate::hashes::Hash> = Vec::new();
        let mut i: usize = 0;
        while i < self.entries.len()
            invariant
                0 <= i <= self.entries@.len(),
                r@.len() == i,
                forall|j: int| 0 <= j < i ==> r@[j] == self.entries@[j].0,
            decreases self.entries@.len() - i,
        {
            r.push(self.entries[i].0);
            i += 1;
        }
        proof {
            use_type_invariant(self);
            assert forall|i: int| 0 <= i < r@.len() implies self@.dom().contains(r@[i]) by {
                assert(self.entries@[i].0 == r@[i]);
                lemma_map_of_index_dom(self.entries@, i);
            }
            assert forall|k: crate::hashes::Hash| self@.dom().contains(k) implies exists|i: int|
                0 <= i < r@.len() && r@[i] == k by {
                lemma_map_of_dom_key(self.entries@, k);
                let i = choose|i: int| 0 <= i < self.entries@.len() && self.entries@[i].0 == k;
                assert(r@[i] == k);
            }
        }
        r
    }
}

/// A set of block hashes, backed by a duplicate-free list; its view is the
/// mathematical set it holds.
#[derive(Debug)]
pub struct BlockHashSet {
    items: Vec<crate::hashes::Hash>,
}

impl View for BlockHashSet {
    type V = Set<crate::hashes::Hash>;

    closed spec fn view(&self) -> Set<crate::hashes::Hash> {
        self.items@.to_set()
    }
}

impl BlockHashSet {
    /// The item list never holds a hash twice.
    #[verifier::type_invariant]
    spec fn wf(&self) -> bool {
        forall|i: int, j: int| 0 <= i < j < self.items@.len() ==> self.items@[i] != self.items@[j]
    }

    /// Creates an empty set.
    pub fn new() -> (r: BlockHashSet)
        ensures
            r@ == Set::<crate::hashes::Hash>::empty(),
    {
        let r = BlockHashSet { items: Vec::new() };
        proof {
            assert(r@ =~= Set::<crate::hashes::Hash>::empty());
        }
        r
    }

    /// Creates an empty set; the capacity is advisory.
    pub fn with_capacity(capacity: usize) -> (r: BlockHashSet)
        ensures
            r@ == Set::<crate::hashes::Hash>::empty(),
    {
        let _ = capacity;
        BlockHashSet::new()
    }

    /// The number of hashes held.
    pub fn len(&self) -> (r: usize)
        ensures
            r == self@.len(),
    {
        proof {
            use_type_invariant(self);
            self.items@.unique_seq_to_set();
        }
        self.items.len()
    }

    /// True when the hash is held.
    pub fn contains(&self, item: &crate::hashes::Hash) -> (r: bool)
        ensures
            r == self@.contains(*item),
    {
        let mut i: usize = 0;
        while i < self.items.len()
            invariant
                0 <= i <= self.items@.len(),
                forall|j: int| 0 <= j < i ==> self.items@[j] != *item,
            decreases self.items@.len() - i,
        {
            if self.items[i] == *item {
                return true;
            }
            i += 1;
        }
        false
    }

    /// Adds the hash; true when it was not yet held.
    pub fn insert(&mut self, item: crate::hashes::Hash) -> (r: bool)
        ensures
            final(self)@ == old(self)@.insert(item),
            r == !old(self)@.contains(item),
    {
        if self.contains(&item) {
            proof {
                assert(self@ =~= old(self)@.insert(item));
            }
            false
        } else {
            proof {
                use_type_invariant(&*self);
            }
            let mut items: Vec<crate::hashes::Hash> = Vec::new();
            core::mem::swap(&mut items, &mut self.items);
            items.push(item);
            core::mem::swap(&mut items, &mut self.items);
            proof {
                let s0 = old(self).items@;
                assert forall|a: crate::hashes::Hash|
                    s0.push(item).to_set().contains(a) == s0.to_set().insert(item).contains(
                    a,
                ) by {
                    if a == item {
                        assert(s0.push(item)[s0.len() as int] == item);
                        assert(s0.push(item).contains(item));
                    } else {
                        if s0.push(item).contains(a) {
                            let i = choose|i: int|
                                0 <= i < s0.push(item).len() && s0.push(item)[i] == a;
                            assert(s0[i] == a);
                        }
                        if s0.contains(a) {
                            let i = choose|i: int| 0 <= i < s0.len() && s0[i] == a;
                            assert(s0.push(item)[i] == a);
                        }
                    }
                }
                assert(self@ =~= old(self)@.insert(item));
            }
            true
        }
    }
}


/// The map of any entry sequence has a finite domain.
pub proof fn lemma_map_of_finite<K, V>(s: Seq<(K, V)>)
    ensures
        map_of(s).dom().finite(),
    decreases s.len(),
{
    if s.len() > 0 {
        lemma_map_of_finite(s.drop_last());
    }
}

impl<V> BlockHashMap<V> {
    /// The domain of the held map is finite.
    pub proof fn lemma_finite_dom(&self)
        ensures
            self@.dom().finite(),
    {
        lemma_map_of_finite(self.entries@);
    }
}

impl BlockHashSet {
    /// The held set is finite.
    pub proof fn lemma_finite(&self)
        ensures
            self@.finite(),
    {
        broadcast use vstd::seq_lib::seq_to_set_is_finite;

        assert(self.items@.to_set().finite());
    }
}

/// The convenience constructors shared by the block-hash keyed containers.
pub trait HashMapCustomHasher: Sized {
    /// Creates an empty container.
    fn new() -> Self;

    /// Creates an empty container with an advisory capacity.
    fn with_capacity(capacity: usize) -> Self;
}

impl<V> HashMapCustomHasher for BlockHashMap<V> {
    fn new() -> Self {
        BlockHashMap::new()
    }

    fn with_capacity(cap: usize) -> Self {
        BlockHashMap::with_capacity(cap)
    }
}

impl HashMapCustomHasher for BlockHashSet {
    fn new() -> Self {
        BlockHashSet::new()
    }

    fn with_capacity(cap: usize) -> Self {
        BlockHashSet::with_capacity(cap)
    }
}

/// A trivial hasher for block hashes: block hashes are already uniform, so
/// the last 64-bit word written serves as the hash value.
#[derive(Clone, Copy)]
pub struct BlockHasher {
    state: u64,
}

impl BlockHasher {
    /// The current state.
    pub closed spec fn spec_state(&self) -> u64 {
        self.state
    }

    /// Creates a hasher with state zero.
    pub fn new() -> (r: BlockHasher)
        ensures
            r.spec_state() == 0,
    {
        BlockHasher { state: 0 }
    }

    /// The accumulated 64-bit hash value.
    pub fn finish(&self) -> (r: u64)
        ensures
            r == self.spec_state(),
    {
        self.state
    }

    /// Keeps the written word as the whole state.
    pub fn write_u64(&mut self, v: u64)
        ensures
            final(self).spec_state() == v,
    {
        self.state = v;
    }

    /// Writes raw bytes: the last eight bytes are read as a little-endian
    /// word; shorter input lands in the most significant byte positions.
    pub fn write(&mut self, bytes: &[u8])
        ensures
            bytes@.len() >= 8 ==> forall|k: int|
                0 <= k < 8 ==> word_byte(final(self).spec_state(), k) == bytes@[bytes@.len() - 8
                    + k],
            bytes@.len() < 8 ==> forall|k: int|
                0 <= k < 8 ==> word_byte(final(self).spec_state(), k) == (if k >= 8 - bytes@.len() {
                    bytes@[k - (8 - bytes@.len())]
                } else {
                    0u8
                }),
    {
        let n = bytes.len();
        if n >= 8 {
            let mut tail: Vec<u8> = Vec::new();
            let mut i: usize = n - 8;
            while i < n
                invariant
                    n == bytes@.len(),
                    n >= 8,
                    n - 8 <= i <= n,
                    tail@ =~= bytes@.subrange(n - 8int, i as int),
                decreases n - i,
            {
                proof {
                    assert(bytes@.subrange(n - 8int, i + 1int) =~= bytes@.subrange(
                        n - 8int,
                        i as int,
                    ).push(bytes@[i as int]));
                }
                tail.push(bytes[i]);
                i += 1;
            }
            let w = crate::hashes::word_from_slice(tail.as_slice(), 0);
            self.state = w;
        } else {
            let mut padded: Vec<u8> = Vec::new();
            let mut i: usize = 0;
            while i < 8 - n
                invariant
                    n == bytes@.len(),
                    n < 8,
                    0 <= i <= 8 - n,
                    padded@ =~= Seq::new(i as nat, |j: int| 0u8),
                decreases 8 - n - i,
            {
                proof {
                    assert(Seq::new((i + 1) as nat, |j: int| 0u8) =~= Seq::new(
                        i as nat,
                        |j: int| 0u8,
                    ).push(0u8));
                }
                padded.push(0u8);
                i += 1;
            }
            let mut j: usize = 0;
            while j < n
                invariant
                    n == bytes@.len(),
                    n < 8,
                    0 <= j <= n,
                    padded@ =~= Seq::new((8 - n) as nat, |q: int| 0u8) + bytes@.take(j as int),
                decreases n - j,
            {
                proof {
                    assert(bytes@.take(j + 1int) =~= bytes@.take(j as int).push(bytes@[j as int]));
                }
                padded.push(bytes[j]);
                j += 1;
            }
            proof {
                assert(bytes@.take(n as int) =~= bytes@);
            }
            let w = crate::hashes::word_from_slice(padded.as_slice(), 0);
            self.state = w;
        }
    }
}

impl Default for BlockHasher {
    /// The default hasher has state zero.
    fn default() -> (r: BlockHasher)
        ensures
            r.spec_state() == 0,
    {
        BlockHasher::new()
    }
}

} // verus!
