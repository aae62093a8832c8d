//! A bounded map that forgets what was used longest ago.

use crate::plan::QueryKey;
use vstd::prelude::*;

verus! {

/// A key of a cache: a value that can be compared and copied.
pub trait CacheKey: View + Sized {
    /// Whether two keys are the same key.
    fn same_key(&self, other: &Self) -> (equal: bool)
        ensures
            equal == (self@ == other@),
    ;

    /// A copy of the key.
    fn copy_key(&self) -> (copy: Self)
        ensures
            copy@ == self@,
    ;
}

impl CacheKey for QueryKey {
    fn same_key(&self, other: &Self) -> (equal: bool) {
        self.same(other)
    }

    fn copy_key(&self) -> (copy: Self) {
        self.clone()
    }
}

impl CacheKey for String {
    fn same_key(&self, other: &Self) -> (equal: bool) {
        *self == *other
    }

    fn copy_key(&self) -> (copy: Self) {
        self.clone()
    }
}

/// What an `Lru` stands for: its entries, the one used longest ago first,
/// and the number of entries that it may hold.
pub struct LruView<K, V> {
    pub entries: Seq<(K, V)>,
    pub limit: nat,
}

impl<K, V> LruView<K, V> {
    /// The map without entries.
    pub open spec fn empty(limit: nat) -> Self {
        LruView { entries: Seq::empty(), limit }
    }

    /// No key occurs twice, and the entries are no more than the limit.
    pub open spec fn wf(self) -> bool {
        &&& self.entries.len() <= self.limit
        &&& forall|i: int, j: int|
            0 <= i < j < self.entries.len() ==> self.entries[i].0 != self.entries[j].0
    }

    /// Whether the map holds an entry for the key.
    pub open spec fn contains(self, key: K) -> bool {
        exists|i: int| 0 <= i < self.entries.len() && #[trigger] self.entries[i].0 == key
    }

    /// Where the entry for the key stands.
    pub open spec fn position(self, key: K) -> int {
        choose|i: int| 0 <= i < self.entries.len() && #[trigger] self.entries[i].0 == key
    }

    /// The value held for the key, if one is held.
    pub open spec fn get(self, key: K) -> Option<V> {
        if self.contains(key) {
            Some(self.entries[self.position(key)].1)
        } else {
            None
        }
    }

    /// The map with the entry for the key taken out.
    pub open spec fn without(self, key: K) -> Self {
        if self.contains(key) {
            LruView { entries: self.entries.remove(self.position(key)), limit: self.limit }
        } else {
            self
        }
    }

    /// The map after the key was used: its entry is the most recent one.
    pub open spec fn touch(self, key: K) -> Self {
        if self.contains(key) {
            LruView {
                entries: self.entries.remove(self.position(key)).push(
                    self.entries[self.position(key)],
                ),
                limit: self.limit,
            }
        } else {
            self
        }
    }

    /// The map after a value was put in for the key. The new entry is the
    /// most recent one and takes the place of an entry that the key had. If
    /// the map is full, the entry used longest ago leaves. A map that may
    /// hold nothing stays empty.
    pub open spec fn put(self, key: K, value: V) -> Self {
        if self.limit == 0 {
            self
        } else {
            let rest = self.without(key).entries;
            let kept = if rest.len() >= self.limit {
                rest.skip(1)
            } else {
                rest
            };
            LruView { entries: kept.push((key, value)), limit: self.limit }
        }
    }

    /// The keys, the most recently used first.
    pub open spec fn keys(self) -> Seq<K> {
        Seq::new(self.entries.len(), |i: int| self.entries[self.entries.len() - 1 - i].0)
    }

    /// The map after the values were put in, one after the other.
    pub open spec fn put_all(self, items: Seq<(K, V)>) -> Self
        decreases items.len(),
    {
        if items.len() == 0 {
            self
        } else {
            self.put_all(items.drop_last()).put(items.last().0, items.last().1)
        }
    }

    /// In a well-formed map the entry at `at` is the entry of its key.
    pub proof fn lemma_position(self, at: int)
        requires
            self.wf(),
            0 <= at < self.entries.len(),
        ensures
            self.contains(self.entries[at].0),
            self.position(self.entries[at].0) == at,
            self.get(self.entries[at].0) == Some(self.entries[at].1),
    {
        let key = self.entries[at].0;
        let found = self.position(key);
        assert(self.entries[found].0 == key);
    }

    /// Taking a key out leaves a well-formed map that holds every other
    /// entry and none for the key.
    pub proof fn lemma_without(self, key: K)
        requires
            self.wf(),
        ensures
            self.without(key).wf(),
            !self.without(key).contains(key),
            forall|other: K| other != key ==> self.without(key).get(other) == self.get(other),
    {
        let rest = self.without(key);
        if self.contains(key) {
            let at = self.position(key);
            assert forall|i: int| 0 <= i < rest.entries.len() implies #[trigger] rest.entries[i]
                == self.entries[if i < at {
                i
            } else {
                i + 1
            }] by {}
            assert(!rest.contains(key)) by {
                if rest.contains(key) {
                    let i = rest.position(key);
                    assert(rest.entries[i].0 == key);
                    let j = if i < at {
                        i
                    } else {
                        i + 1
                    };
                    assert(self.entries[j].0 == key);
                }
            }
            assert forall|other: K| other != key implies rest.get(other) == self.get(other) by {
                if self.contains(other) {
                    let j = self.position(other);
                    assert(self.entries[j].0 == other);
                    let i = if j < at {
                        j
                    } else {
                        j - 1
                    };
                    assert(rest.entries[i] == self.entries[j]);
                    rest.lemma_position(i);
                } else if rest.contains(other) {
                    let i = rest.position(other);
                    assert(rest.entries[i].0 == other);
                    let j = if i < at {
                        i
                    } else {
                        i + 1
                    };
                    assert(self.entries[j].0 == other);
                }
            }
        }
    }

    /// Using a key leaves a well-formed map that holds what it held.
    pub proof fn lemma_touch(self, key: K)
        requires
            self.wf(),
        ensures
            self.touch(key).wf(),
            self.touch(key).entries.len() == self.entries.len(),
            forall|any: K| self.touch(key).get(any) == self.get(any),
    {
        let used = self.touch(key);
        if self.contains(key) {
            let at = self.position(key);
            let rest = self.without(key);
            self.lemma_without(key);
            assert(self.entries[at].0 == key);
            assert(used.entries == rest.entries.push(self.entries[at]));
            assert(used.wf()) by {
                assert forall|i: int, j: int| 0 <= i < j < used.entries.len() implies used.entries[i].0
                    != used.entries[j].0 by {
                    if j == used.entries.len() - 1 {
                        assert(rest.entries[i].0 == used.entries[i].0);
                    }
                }
            }
            let last = used.entries.len() - 1;
            used.lemma_position(last);
            self.lemma_position(at);
            assert forall|any: K| used.get(any) == self.get(any) by {
                if any != key {
                    if rest.contains(any) {
                        let i = rest.position(any);
                        assert(rest.entries[i].0 == any);
                        assert(used.entries[i] == rest.entries[i]);
                        used.lemma_position(i);
                    } else if used.contains(any) {
                        let i = used.position(any);
                        assert(used.entries[i].0 == any);
                        assert(rest.entries[i].0 == any);
                    }
                }
            }
        }
    }

    /// Putting a value in leaves a well-formed map. If the map may hold
    /// anything, it then holds the value for the key.
    pub proof fn lemma_put(self, key: K, value: V)
        requires
            self.wf(),
        ensures
            self.put(key, value).wf(),
            self.limit > 0 ==> self.put(key, value).get(key) == Some(value),
            self.limit > 0 ==> self.put(key, value).entries.last() == (key, value),
    {
        if self.limit > 0 {
            let rest = self.without(key);
            self.lemma_without(key);
            let kept = if rest.entries.len() >= self.limit {
                rest.entries.skip(1)
            } else {
                rest.entries
            };
            let after = self.put(key, value);
            assert(after.entries == kept.push((key, value)));
            assert forall|i: int| 0 <= i < kept.len() implies #[trigger] kept[i].0 != key by {
                let j = if rest.entries.len() >= self.limit {
                    i + 1
                } else {
                    i
                };
                assert(rest.entries[j] == kept[i]);
                assert(rest.entries[j].0 == kept[i].0);
            }
            assert forall|i: int, j: int| 0 <= i < j < after.entries.len() implies after.entries[i].0
                != after.entries[j].0 by {
                if j < kept.len() {
                    let shift = if rest.entries.len() >= self.limit {
                        1int
                    } else {
                        0int
                    };
                    assert(rest.entries[i + shift] == kept[i]);
                    assert(rest.entries[j + shift] == kept[j]);
                } else {
                    assert(kept[i].0 != key);
                }
            }
            after.lemma_position(after.entries.len() - 1);
        }
    }

    /// No key comes twice among the keys of a well-formed map.
    pub proof fn keys_differ(self)
        requires
            self.wf(),
        ensures
            self.keys().no_duplicates(),
    {
        let n = self.entries.len();
        assert forall|i: int, j: int| 0 <= i < self.keys().len() && 0 <= j < self.keys().len() && i
            != j implies self.keys()[i] != self.keys()[j] by {
            let a = n - 1 - i;
            let b = n - 1 - j;
            if a < b {
                assert(self.entries[a].0 != self.entries[b].0);
            } else {
                assert(self.entries[b].0 != self.entries[a].0);
            }
        }
    }

    /// A map holds no key that was not put in: what it holds after a put
    /// is the key that was put in or a key that it held before.
    pub proof fn lemma_put_brings_one_key(self, key: K, value: V, other: K)
        requires
            self.put(key, value).contains(other),
        ensures
            other == key || self.contains(other),
    {
        let after = self.put(key, value);
        let i = after.position(other);
        assert(after.entries[i].0 == other);
        if self.limit > 0 && i < after.entries.len() - 1 {
            let rest = self.without(key);
            let j = if rest.entries.len() >= self.limit {
                i + 1
            } else {
                i
            };
            assert(rest.entries[j].0 == other);
            if self.contains(key) {
                let at = self.position(key);
                let k = if j < at {
                    j
                } else {
                    j + 1
                };
                assert(self.entries[k].0 == other);
            }
        }
    }

    /// What a map holds after values were put in was held before or is one
    /// of the keys put in.
    pub proof fn lemma_put_all_brings_these_keys(self, items: Seq<(K, V)>, other: K)
        requires
            self.put_all(items).contains(other),
        ensures
            self.contains(other) || exists|i: int|
                0 <= i < items.len() && #[trigger] items[i].0 == other,
        decreases items.len(),
    {
        if items.len() > 0 {
            let front = items.drop_last();
            self.put_all(front).lemma_put_brings_one_key(items.last().0, items.last().1, other);
            if other == items.last().0 {
                assert(items[items.len() - 1].0 == other);
            } else {
                self.lemma_put_all_brings_these_keys(front, other);
                if !self.contains(other) {
                    let i = choose|i: int| 0 <= i < front.len() && #[trigger] front[i].0 == other;
                    assert(items[i].0 == other);
                }
            }
        }
    }

    /// A full map forgets exactly the entry used longest ago. When a value
    /// is put in for a key that a full map does not hold, the first entry
    /// leaves, every other entry stays, and the new entry is the most
    /// recent one.
    pub proof fn full_map_forgets_least_recent(self, key: K, value: V)
        requires
            self.wf(),
            self.limit > 0,
            self.entries.len() == self.limit,
            !self.contains(key),
        ensures
            self.put(key, value).entries == self.entries.skip(1).push((key, value)),
            self.put(key, value).entries.len() == self.limit,
            !self.put(key, value).contains(self.entries[0].0),
            forall|i: int|
                1 <= i < self.entries.len() ==> self.put(key, value).get(
                    #[trigger] self.entries[i].0,
                ) == Some(self.entries[i].1),
            self.put(key, value).get(key) == Some(value),
    {
        let after = self.put(key, value);
        self.lemma_put(key, value);
        let gone = self.entries[0].0;
        self.lemma_position(0);
        assert(gone != key);
        assert(!after.contains(gone)) by {
            if after.contains(gone) {
                let i = after.position(gone);
                assert(after.entries[i].0 == gone);
                assert(after.entries[i] == self.entries[i + 1]);
            }
        }
        assert forall|i: int| 1 <= i < self.entries.len() implies after.get(
            #[trigger] self.entries[i].0,
        ) == Some(self.entries[i].1) by {
            assert(after.entries[i - 1] == self.entries[i]);
            after.lemma_position(i - 1);
        }
    }

    /// While there is room, what is put in under new keys stays: an empty
    /// map that got no more values than it may hold, each under a key of
    /// its own, holds them all, in the order in which they came.
    pub proof fn holds_what_fits(limit: nat, items: Seq<(K, V)>)
        requires
            items.len() <= limit,
            forall|i: int, j: int| 0 <= i < j < items.len() ==> items[i].0 != items[j].0,
        ensures
            Self::empty(limit).put_all(items).entries == items,
            Self::empty(limit).put_all(items).limit == limit,
            Self::empty(limit).put_all(items).wf(),
        decreases items.len(),
    {
        if items.len() > 0 {
            let front = items.drop_last();
            let before = Self::empty(limit).put_all(front);
            Self::holds_what_fits(limit, front);
            let key = items.last().0;
            assert(!before.contains(key)) by {
                if before.contains(key) {
                    let i = before.position(key);
                    assert(before.entries[i].0 == key);
                    assert(items[i].0 == key);
                }
            }
            assert(before.entries == front);
            assert(before.without(key) == before);
            assert(front.push(items.last()) == items);
            assert(items.last() == (key, items.last().1));
            before.lemma_put(key, items.last().1);
            assert(before.put(key, items.last().1).entries == items);
        }
    }

    /// A map respects its limit. After an empty map that may hold `limit`
    /// entries got `limit + 1` values, each under a key of its own, exactly
    /// the first of them is gone: the map holds the others, in the order
    /// in which they came, and nothing for the first key.
    pub proof fn one_too_many_forgets_the_first(limit: nat, items: Seq<(K, V)>)
        requires
            items.len() == limit + 1,
            forall|i: int, j: int| 0 <= i < j < items.len() ==> items[i].0 != items[j].0,
        ensures
            Self::empty(limit).put_all(items).entries == items.skip(1),
            Self::empty(limit).put_all(items).entries.len() == limit,
            !Self::empty(limit).put_all(items).contains(items[0].0),
            forall|i: int|
                1 <= i < items.len() ==> Self::empty(limit).put_all(items).get(
                    #[trigger] items[i].0,
                ) == Some(items[i].1),
    {
        let front = items.drop_last();
        let before = Self::empty(limit).put_all(front);
        Self::holds_what_fits(limit, front);
        let key = items.last().0;
        assert(!before.contains(key)) by {
            if before.contains(key) {
                let i = before.position(key);
                assert(before.entries[i].0 == key);
                assert(items[i].0 == key);
            }
        }
        assert(before.entries == front);
        assert(front.push(items.last()) == items);
        assert(items.last() == (key, items.last().1));
        let after = before.put(key, items.last().1);
        if limit > 0 {
            before.full_map_forgets_least_recent(key, items.last().1);
            assert(after.entries == items.skip(1));
            assert(before.entries[0].0 == items[0].0);
            assert forall|i: int| 1 <= i < items.len() implies after.get(#[trigger] items[i].0)
                == Some(items[i].1) by {
                after.lemma_position(i - 1);
            }
        } else {
            assert(after.entries == items.skip(1));
        }
    }
}

/// A bounded map that forgets what was used longest ago.
pub struct Lru<K: CacheKey, V> {
    entries: Vec<(K, V)>,
    limit: usize,
}

impl<K: CacheKey, V> View for Lru<K, V> {
    type V = LruView<K::V, V>;

    closed spec fn view(&self) -> LruView<K::V, V> {
        LruView {
            entries: self.entries@.map_values(|entry: (K, V)| (entry.0@, entry.1)),
            limit: self.limit as nat,
        }
    }
}

impl<K: CacheKey, V> Lru<K, V> {
    /// A map always stands for a well-formed value.
    #[verifier::type_invariant]
    pub open spec fn valid(self) -> bool {
        self@.wf()
    }

    /// The map without entries that may hold `limit` of them.
    pub fn new(limit: usize) -> (map: Self)
        ensures
            map@ == LruView::<K::V, V>::empty(limit as nat),
    {
        let map = Lru { entries: Vec::new(), limit };
        assert(map@.entries =~= Seq::empty());
        map
    }

    /// The number of entries.
    pub fn len(&self) -> (n: usize)
        ensures
            n == self@.entries.len(),
            self@.wf(),
    {
        proof {
            use_type_invariant(self);
        }
        self.entries.len()
    }

    /// The number of entries that the map may hold.
    pub fn limit(&self) -> (n: usize)
        ensures
            n == self@.limit,
            self@.wf(),
    {
        proof {
            use_type_invariant(self);
        }
        self.limit
    }

    /// Where the entry for the key stands.
    fn find(&self, key: &K) -> (found: Option<usize>)
        ensures
            match found {
                Some(at) => at < self.entries.len() && self@.contains(key@) && self@.position(key@)
                    == at,
                None => !self@.contains(key@),
            },
    {
        proof {
            use_type_invariant(self);
        }
        let mut i: usize = 0;
        while i < self.entries.len()
            invariant
                i <= self.entries.len(),
                self@.wf(),
                forall|j: int| 0 <= j < i ==> self@.entries[j].0 != key@,
            decreases self.entries.len() - i,
        {
            if self.entries[i].0.same_key(key) {
                assert(self@.entries[i as int].0 == key@);
                let ghost at = self@.position(key@);
                assert(self@.entries[at].0 == key@);
                assert(at == i);
                return Some(i);
            }
            i += 1;
        }
        None
    }

    /// Whether the map holds an entry for the key. This is no use of the
    /// key.
    pub fn contains(&self, key: &K) -> (held: bool)
        ensures
            held == self@.contains(key@),
    {
        self.find(key).is_some()
    }

    /// The value held for the key. This is no use of the key.
    pub fn peek(&self, key: &K) -> (value: Option<&V>)
        ensures
            match value {
                Some(value) => self@.get(key@) == Some(*value),
                None => self@.get(key@).is_none(),
            },
    {
        match self.find(key) {
            Some(at) => Some(&self.entries[at].1),
            None => None,
        }
    }

    /// Uses the key: its entry becomes the most recent one. Says whether
    /// there was an entry.
    pub fn touch(&mut self, key: &K) -> (held: bool)
        ensures
            held == old(self)@.contains(key@),
            final(self)@ == old(self)@.touch(key@),
            final(self)@.wf(),
    {
        proof {
            use_type_invariant(&*self);
        }
        match self.find(key) {
            Some(at) => {
                let mut entries: Vec<(K, V)> = Vec::new();
                std::mem::swap(&mut entries, &mut self.entries);
                let ghost before = entries@;
                let entry = entries.remove(at);
                entries.push(entry);
                assert(entries@.map_values(|entry: (K, V)| (entry.0@, entry.1)) == before.map_values(
                    |entry: (K, V)| (entry.0@, entry.1),
                ).remove(at as int).push((before[at as int].0@, before[at as int].1)));
                self.entries = entries;
                true
            },
            None => false,
        }
    }

    /// Puts a value in for the key.
    pub fn put(&mut self, key: K, value: V)
        ensures
            final(self)@ == old(self)@.put(key@, value),
            final(self)@.wf(),
    {
        proof {
            use_type_invariant(&*self);
        }
        if self.limit == 0 {
            return;
        }
        let found = self.find(&key);
        let mut entries: Vec<(K, V)> = Vec::new();
        std::mem::swap(&mut entries, &mut self.entries);
        let ghost start = entries@;
        let ghost pairs = |entry: (K, V)| (entry.0@, entry.1);
        match found {
            Some(at) => {
                entries.remove(at);
                assert(entries@.map_values(pairs) == start.map_values(pairs).remove(at as int));
            },
            None => {},
        }
        let ghost rest = entries@;
        if entries.len() >= self.limit {
            entries.remove(0);
            assert(entries@.map_values(pairs) == rest.map_values(pairs).skip(1));
        }
        let ghost kept = entries@;
        entries.push((key, value));
        assert(entries@.map_values(pairs) == kept.map_values(pairs).push((key@, value)));
        self.entries = entries;
    }

    /// The keys, the most recently used first. No key comes twice.
    pub fn keys(&self) -> (keys: Vec<K>)
        ensures
            keys@.map_values(|key: K| key@) == self@.keys(),
            self@.keys().no_duplicates(),
    {
        proof {
            use_type_invariant(self);
            self@.keys_differ();
        }
        let mut keys: Vec<K> = Vec::new();
        let n = self.entries.len();
        let mut i: usize = 0;
        while i < n
            invariant
                i <= n,
                n == self.entries.len(),
                keys@.map_values(|key: K| key@) == self@.keys().take(i as int),
            decreases n - i,
        {
            let ghost before = keys@;
            keys.push(self.entries[n - 1 - i].0.copy_key());
            assert(keys@.map_values(|key: K| key@) == before.map_values(|key: K| key@).push(
                self@.keys()[i as int],
            ));
            i += 1;
        }
        assert(self@.keys().take(i as int) == self@.keys());
        keys
    }
}

} // verus!
