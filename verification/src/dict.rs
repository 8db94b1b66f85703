//! Maps and sets that keep their entries in the order of insertion.
use vstd::prelude::*;

verus! {

/// A value that can be copied without changing what it stands for.
pub trait Duplicate: View + Sized {
    fn duplicate(&self) -> (copy: Self)
        ensures
            copy@ == self@,
    ;
}

/// A value by which entries are found.
pub trait Key: Duplicate {
    fn same_key(&self, other: &Self) -> (r: bool)
        ensures
            r == (self@ == other@),
    ;
}

impl Duplicate for String {
    fn duplicate(&self) -> (copy: Self) {
        self.clone()
    }
}

impl Key for String {
    fn same_key(&self, other: &Self) -> (r: bool) {
        *self == *other
    }
}

impl Duplicate for u32 {
    fn duplicate(&self) -> (copy: Self) {
        *self
    }
}

impl Duplicate for u64 {
    fn duplicate(&self) -> (copy: Self) {
        *self
    }
}

impl Duplicate for usize {
    fn duplicate(&self) -> (copy: Self) {
        *self
    }
}

impl Duplicate for u128 {
    fn duplicate(&self) -> (copy: Self) {
        *self
    }
}

impl Key for u128 {
    fn same_key(&self, other: &Self) -> (r: bool) {
        *self == *other
    }
}

impl Duplicate for (String, String) {
    fn duplicate(&self) -> (copy: Self) {
        (self.0.clone(), self.1.clone())
    }
}

impl Key for (String, String) {
    fn same_key(&self, other: &Self) -> (r: bool) {
        self.0 == other.0 && self.1 == other.1
    }
}

/// Whether no two entries have the same key.
pub open spec fn distinct_keys<A, B>(entries: Seq<(A, B)>) -> bool {
    forall|i: int, j: int| 0 <= i < j < entries.len() ==> (#[trigger] entries[i]).0 != (
    #[trigger] entries[j]).0
}

/// Whether an entry has the key.
pub open spec fn has_key<A, B>(entries: Seq<(A, B)>, key: A) -> bool {
    exists|i: int| 0 <= i < entries.len() && (#[trigger] entries[i]).0 == key
}

/// The map that the entries spell out.
pub open spec fn map_of<A, B>(entries: Seq<(A, B)>) -> Map<A, B> {
    Map::new(
        |key: A| has_key(entries, key),
        |key: A| entries[choose|i: int| 0 <= i < entries.len() && (#[trigger] entries[i]).0 == key].1,
    )
}

pub proof fn lemma_map_of_entry<A, B>(entries: Seq<(A, B)>, i: int)
    requires
        distinct_keys(entries),
        0 <= i < entries.len(),
    ensures
        map_of(entries).contains_key(entries[i].0),
        map_of(entries)[entries[i].0] == entries[i].1,
{
    let key = entries[i].0;
    assert(has_key(entries, key));
    let j = choose|j: int| 0 <= j < entries.len() && (#[trigger] entries[j]).0 == key;
    assert(j == i);
}

pub proof fn lemma_map_of_push<A, B>(entries: Seq<(A, B)>, key: A, value: B)
    requires
        distinct_keys(entries),
        !has_key(entries, key),
    ensures
        distinct_keys(entries.push((key, value))),
        map_of(entries.push((key, value))) == map_of(entries).insert(key, value),
{
    let longer = entries.push((key, value));
    assert forall|i: int, j: int| 0 <= i < j < longer.len() implies (#[trigger] longer[i]).0 != (
    #[trigger] longer[j]).0 by {
        if j == entries.len() {
            assert(entries[i].0 != key);
        }
    }
    assert forall|k: A| #[trigger] has_key(longer, k) <==> (has_key(entries, k) || k == key) by {
        if has_key(entries, k) {
            let i = choose|i: int| 0 <= i < entries.len() && (#[trigger] entries[i]).0 == k;
            assert(longer[i].0 == k);
        }
        if k == key {
            assert(longer[entries.len() as int].0 == k);
        }
        if has_key(longer, k) {
            let i = choose|i: int| 0 <= i < longer.len() && (#[trigger] longer[i]).0 == k;
            if i < entries.len() {
                assert(entries[i].0 == k);
            }
        }
    }
    assert forall|k: A| #[trigger] has_key(longer, k) implies map_of(longer)[k] == map_of(
        entries,
    ).insert(key, value)[k] by {
        let i = choose|i: int| 0 <= i < longer.len() && (#[trigger] longer[i]).0 == k;
        lemma_map_of_entry(longer, i);
        if i < entries.len() {
            lemma_map_of_entry(entries, i);
        }
    }
    assert(map_of(longer) =~= map_of(entries).insert(key, value));
}

pub proof fn lemma_map_of_update<A, B>(entries: Seq<(A, B)>, i: int, value: B)
    requires
        distinct_keys(entries),
        0 <= i < entries.len(),
    ensures
        distinct_keys(entries.update(i, (entries[i].0, value))),
        map_of(entries.update(i, (entries[i].0, value))) == map_of(entries).insert(
            entries[i].0,
            value,
        ),
{
    let changed = entries.update(i, (entries[i].0, value));
    assert forall|j: int| 0 <= j < entries.len() implies (#[trigger] changed[j]).0
        == entries[j].0 by {}
    assert forall|k: A| #[trigger] has_key(changed, k) <==> has_key(entries, k) by {
        if has_key(entries, k) {
            let j = choose|j: int| 0 <= j < entries.len() && (#[trigger] entries[j]).0 == k;
            assert(changed[j].0 == k);
        }
        if has_key(changed, k) {
            let j = choose|j: int| 0 <= j < changed.len() && (#[trigger] changed[j]).0 == k;
            assert(entries[j].0 == k);
        }
    }
    assert(has_key(entries, entries[i].0));
    assert forall|k: A| #[trigger] has_key(changed, k) implies map_of(changed)[k] == map_of(
        entries,
    ).insert(entries[i].0, value)[k] by {
        let j = choose|j: int| 0 <= j < changed.len() && (#[trigger] changed[j]).0 == k;
        lemma_map_of_entry(changed, j);
        lemma_map_of_entry(entries, j);
    }
    assert(map_of(changed) =~= map_of(entries).insert(entries[i].0, value));
}

pub proof fn lemma_map_of_remove<A, B>(entries: Seq<(A, B)>, i: int)
    requires
        distinct_keys(entries),
        0 <= i < entries.len(),
    ensures
        distinct_keys(entries.remove(i)),
        map_of(entries.remove(i)) == map_of(entries).remove(entries[i].0),
{
    let shorter = entries.remove(i);
    assert forall|j: int| 0 <= j < shorter.len() implies #[trigger] shorter[j] == (if j < i {
        entries[j]
    } else {
        entries[j + 1]
    }) by {}
    assert forall|k: A| #[trigger] has_key(shorter, k) <==> (has_key(entries, k) && k
        != entries[i].0) by {
        if has_key(entries, k) && k != entries[i].0 {
            let j = choose|j: int| 0 <= j < entries.len() && (#[trigger] entries[j]).0 == k;
            let at = if j < i {
                j
            } else {
                j - 1
            };
            assert(shorter[at].0 == k);
        }
        if has_key(shorter, k) {
            let j = choose|j: int| 0 <= j < shorter.len() && (#[trigger] shorter[j]).0 == k;
            let at = if j < i {
                j
            } else {
                j + 1
            };
            assert(entries[at].0 == k);
        }
    }
    assert forall|k: A| #[trigger] has_key(shorter, k) implies map_of(shorter)[k] == map_of(
        entries,
    )[k] by {
        let j = choose|j: int| 0 <= j < shorter.len() && (#[trigger] shorter[j]).0 == k;
        lemma_map_of_entry(shorter, j);
        let at = if j < i {
            j
        } else {
            j + 1
        };
        lemma_map_of_entry(entries, at);
    }
    assert(map_of(shorter) =~= map_of(entries).remove(entries[i].0));
}

/// A map from keys to values.
pub struct Dict<K: Key, V: View> {
    entries: Vec<(K, V)>,
}

/// The entries as mathematical values.
pub open spec fn entry_views<K: Key, V: View>(entries: Seq<(K, V)>) -> Seq<(K::V, V::V)> {
    Seq::new(entries.len(), |i: int| (entries[i].0@, entries[i].1@))
}

impl<K: Key, V: View> View for Dict<K, V> {
    type V = Map<K::V, V::V>;

    open spec fn view(&self) -> Map<K::V, V::V> {
        map_of(self.listing())
    }
}

impl<K: Key, V: View> Dict<K, V> {
    /// The entries in the order in which `entry` gives them.
    pub closed spec fn listing(&self) -> Seq<(K::V, V::V)> {
        entry_views(self.entries@)
    }

    #[verifier::type_invariant]
    spec fn well_formed(self) -> bool {
        distinct_keys(self.listing())
    }

    /// The empty map.
    pub fn new() -> (d: Self)
        ensures
            d@ == Map::<K::V, V::V>::empty(),
            d.listing().len() == 0,
    {
        let d = Dict { entries: Vec::new() };
        assert(d@ =~= Map::<K::V, V::V>::empty());
        d
    }

    /// The number of entries.
    pub fn len(&self) -> (n: usize)
        ensures
            n == self.listing().len(),
            distinct_keys(self.listing()),
    {
        proof {
            use_type_invariant(self);
        }
        self.entries.len()
    }

    /// The entry at a position.
    pub fn entry(&self, i: usize) -> (e: (&K, &V))
        requires
            i < self.listing().len(),
        ensures
            e.0@ == self.listing()[i as int].0,
            e.1@ == self.listing()[i as int].1,
            self@.contains_key(e.0@),
            self@[e.0@] == e.1@,
    {
        proof {
            use_type_invariant(self);
            lemma_map_of_entry(self.listing(), i as int);
        }
        let e = &self.entries[i];
        (&e.0, &e.1)
    }

    fn position(&self, key: &K) -> (r: Option<usize>)
        ensures
            match r {
                Some(i) => i < self.entries@.len() && self.listing()[i as int].0 == key@,
                None => !has_key(self.listing(), key@),
            },
    {
        for i in 0..self.entries.len()
            invariant
                forall|j: int| 0 <= j < i ==> (#[trigger] self.listing()[j]).0 != key@,
        {
            if self.entries[i].0.same_key(key) {
                return Some(i);
            }
        }
        None
    }

    /// The value at a key, if there is one.
    pub fn get(&self, key: &K) -> (r: Option<&V>)
        ensures
            match r {
                Some(v) => self@.contains_key(key@) && self@[key@] == v@,
                None => !self@.contains_key(key@),
            },
    {
        proof {
            use_type_invariant(self);
        }
        match self.position(key) {
            Some(i) => {
                proof {
                    lemma_map_of_entry(self.listing(), i as int);
                }
                Some(&self.entries[i].1)
            },
            None => None,
        }
    }

    /// Whether there is a value at a key.
    pub fn contains(&self, key: &K) -> (r: bool)
        ensures
            r == self@.contains_key(key@),
    {
        self.get(key).is_some()
    }

    /// Puts a value at a key, in place of the one that was there.
    pub fn insert(&mut self, key: K, value: V)
        ensures
            final(self)@ == old(self)@.insert(key@, value@),
    {
        proof {
            use_type_invariant(&*self);
        }
        let found = self.position(&key);
        let mut entries: Vec<(K, V)> = Vec::new();
        std::mem::swap(&mut entries, &mut self.entries);
        let ghost before = entry_views(entries@);
        match found {
            Some(i) => {
                proof {
                    lemma_map_of_update(before, i as int, value@);
                }
                entries.set(i, (key, value));
                assert(entry_views(entries@) =~= before.update(
                    i as int,
                    (before[i as int].0, value@),
                ));
            },
            None => {
                proof {
                    lemma_map_of_push(before, key@, value@);
                }
                entries.push((key, value));
                assert(entry_views(entries@) =~= before.push((key@, value@)));
            },
        }
        self.entries = entries;
    }

    /// Takes the value at a key out of the map.
    pub fn remove(&mut self, key: &K) -> (r: Option<V>)
        ensures
            final(self)@ == old(self)@.remove(key@),
            match r {
                Some(v) => old(self)@.contains_key(key@) && old(self)@[key@] == v@,
                None => !old(self)@.contains_key(key@),
            },
    {
        proof {
            use_type_invariant(&*self);
        }
        match self.position(key) {
            Some(i) => {
                let mut entries: Vec<(K, V)> = Vec::new();
                std::mem::swap(&mut entries, &mut self.entries);
                let ghost before = entry_views(entries@);
                proof {
                    lemma_map_of_remove(before, i as int);
                    lemma_map_of_entry(before, i as int);
                }
                let e = entries.remove(i);
                assert(entry_views(entries@) =~= before.remove(i as int));
                self.entries = entries;
                Some(e.1)
            },
            None => {
                assert(self@ =~= self@.remove(key@));
                None
            },
        }
    }
}

impl<K: Key, V: Duplicate> Dict<K, V> {
    /// Puts in all entries of another map, each in place of one with the same key.
    pub fn insert_all(&mut self, other: &Dict<K, V>)
        ensures
            final(self)@ == old(self)@.union_prefer_right(other@),
    {
        let ghost base = self@;
        let ghost listing = other.listing();
        let n: usize = other.len();
        assert(map_of(listing.take(0)) =~= Map::empty());
        assert(self@ =~= base.union_prefer_right(map_of(listing.take(0))));
        let mut i: usize = 0;
        while i < n
            invariant
                i <= n == listing.len(),
                listing == other.listing(),
                distinct_keys(listing),
                self@ == base.union_prefer_right(map_of(listing.take(i as int))),
            decreases n - i,
        {
            let e = other.entry(i);
            self.insert(e.0.duplicate(), e.1.duplicate());
            proof {
                let before = listing.take(i as int);
                assert(listing.take(i + 1) =~= before.push(listing[i as int]));
                lemma_map_of_push(before, listing[i as int].0, listing[i as int].1);
                assert(self@ =~= base.union_prefer_right(map_of(listing.take(i + 1))));
            }
            i += 1;
        }
        assert(listing.take(n as int) =~= listing);
    }
}

impl<K: Key, V: Duplicate> Duplicate for Dict<K, V> {
    fn duplicate(&self) -> (copy: Self) {
        proof {
            use_type_invariant(self);
        }
        let mut entries: Vec<(K, V)> = Vec::new();
        for i in 0..self.entries.len()
            invariant
                entries@.len() == i,
                forall|j: int|
                    0 <= j < i ==> (#[trigger] entries@[j]).0@ == self.entries@[j].0@
                        && entries@[j].1@ == self.entries@[j].1@,
        {
            entries.push((self.entries[i].0.duplicate(), self.entries[i].1.duplicate()));
        }
        assert(entry_views(entries@) =~= entry_views(self.entries@));
        Dict { entries }
    }
}

/// A set of keys.
pub struct KeySet<K: Key> {
    items: Vec<K>,
}

pub open spec fn item_views<K: Key>(items: Seq<K>) -> Seq<K::V> {
    Seq::new(items.len(), |i: int| items[i]@)
}

impl<K: Key> View for KeySet<K> {
    type V = Set<K::V>;

    open spec fn view(&self) -> Set<K::V> {
        self.listing().to_set()
    }
}

impl<K: Key> KeySet<K> {
    /// The items in the order in which `item` gives them.
    pub closed spec fn listing(&self) -> Seq<K::V> {
        item_views(self.items@)
    }

    #[verifier::type_invariant]
    spec fn well_formed(self) -> bool {
        self.listing().no_duplicates()
    }

    /// The empty set.
    pub fn new() -> (s: Self)
        ensures
            s@ == Set::<K::V>::empty(),
            s.listing().len() == 0,
    {
        let s = KeySet { items: Vec::new() };
        assert(s@ =~= Set::<K::V>::empty());
        s
    }

    /// The number of items.
    pub fn len(&self) -> (n: usize)
        ensures
            n == self.listing().len(),
            n == self@.len(),
            self.listing().no_duplicates(),
    {
        proof {
            use_type_invariant(self);
            self.listing().unique_seq_to_set();
        }
        self.items.len()
    }

    /// The item at a position.
    pub fn item(&self, i: usize) -> (k: &K)
        requires
            i < self.listing().len(),
        ensures
            k@ == self.listing()[i as int],
            self@.contains(k@),
    {
        assert(self.listing().contains(self.listing()[i as int]));
        &self.items[i]
    }

    fn position(&self, key: &K) -> (r: Option<usize>)
        ensures
            match r {
                Some(i) => i < self.items@.len() && self.listing()[i as int] == key@,
                None => !self.listing().contains(key@),
            },
    {
        for i in 0..self.items.len()
            invariant
                forall|j: int| 0 <= j < i ==> (#[trigger] self.listing()[j]) != key@,
        {
            if self.items[i].same_key(key) {
                return Some(i);
            }
        }
        None
    }

    /// Whether an item is in the set.
    pub fn contains(&self, key: &K) -> (r: bool)
        ensures
            r == self@.contains(key@),
    {
        self.position(key).is_some()
    }

    /// Puts an item into the set and says whether it is new.
    pub fn insert(&mut self, key: K) -> (r: bool)
        ensures
            final(self)@ == old(self)@.insert(key@),
            r == !old(self)@.contains(key@),
    {
        proof {
            use_type_invariant(&*self);
        }
        match self.position(&key) {
            Some(_) => {
                assert(self@ =~= self@.insert(key@));
                false
            },
            None => {
                let mut items: Vec<K> = Vec::new();
                std::mem::swap(&mut items, &mut self.items);
                let ghost before = item_views(items@);
                let ghost k = key@;
                items.push(key);
                assert(item_views(items@) =~= before.push(k));
                proof {
                    assert forall|x: K::V| before.push(k).to_set().contains(x)
                        == before.to_set().insert(k).contains(x) by {
                        if before.contains(x) {
                            let i = choose|i: int| 0 <= i < before.len() && before[i] == x;
                            assert(before.push(k)[i] == x);
                        }
                        assert(before.push(k)[before.len() as int] == k);
                    }
                    assert(before.push(k).to_set() =~= before.to_set().insert(k));
                }
                self.items = items;
                true
            },
        }
    }

    /// Takes an item out of the set.
    pub fn remove(&mut self, key: &K)
        ensures
            final(self)@ == old(self)@.remove(key@),
    {
        proof {
            use_type_invariant(&*self);
        }
        match self.position(key) {
            Some(i) => {
                let mut items: Vec<K> = Vec::new();
                std::mem::swap(&mut items, &mut self.items);
                let ghost before = item_views(items@);
                let _gone = items.remove(i);
                assert(item_views(items@) =~= before.remove(i as int));
                proof {
                    let after = before.remove(i as int);
                    assert forall|x: K::V| after.to_set().contains(x)
                        == before.to_set().remove(key@).contains(x) by {
                        if before.contains(x) && x != key@ {
                            let j = choose|j: int| 0 <= j < before.len() && before[j] == x;
                            let at = if j < i {
                                j
                            } else {
                                j - 1
                            };
                            assert(after[at] == x);
                        }
                        if after.contains(x) {
                            let j = choose|j: int| 0 <= j < after.len() && after[j] == x;
                            let at = if j < i {
                                j
                            } else {
                                j + 1
                            };
                            assert(before[at] == x);
                        }
                    }
                    assert(after.to_set() =~= before.to_set().remove(key@));
                }
                self.items = items;
            },
            None => {
                assert(self@ =~= self@.remove(key@));
            },
        }
    }
}

impl<K: Key> Duplicate for KeySet<K> {
    fn duplicate(&self) -> (copy: Self) {
        proof {
            use_type_invariant(self);
        }
        let mut items: Vec<K> = Vec::new();
        for i in 0..self.items.len()
            invariant
                items@.len() == i,
                forall|j: int| 0 <= j < i ==> (#[trigger] items@[j])@ == self.items@[j]@,
        {
            items.push(self.items[i].duplicate());
        }
        assert(item_views(items@) =~= item_views(self.items@));
        KeySet { items }
    }
}

} // verus!
