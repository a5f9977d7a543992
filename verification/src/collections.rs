//! A map from text keys to values that keeps its entries in key order.

use vstd::prelude::*;

use crate::text::{chars_of, same_text};

verus! {

/// Lexicographic order of texts by character.
pub open spec fn text_before(a: Seq<char>, b: Seq<char>) -> bool
    decreases a.len(),
{
    if b.len() == 0 {
        false
    } else if a.len() == 0 {
        true
    } else if a[0] != b[0] {
        a[0] < b[0]
    } else {
        text_before(a.drop_first(), b.drop_first())
    }
}

/// No text comes before itself, and of two texts at most one comes first.
pub proof fn lemma_text_before_asymmetric(a: Seq<char>, b: Seq<char>)
    ensures
        !text_before(a, a),
        text_before(a, b) ==> !text_before(b, a) && a != b,
    decreases a.len(),
{
    if a.len() > 0 {
        lemma_text_before_asymmetric(a.drop_first(), a.drop_first());
        if b.len() > 0 {
            lemma_text_before_asymmetric(a.drop_first(), b.drop_first());
        }
    }
}

/// The order of texts is transitive.
pub proof fn lemma_text_before_transitive(a: Seq<char>, b: Seq<char>, c: Seq<char>)
    requires
        text_before(a, b),
        text_before(b, c),
    ensures
        text_before(a, c),
    decreases a.len(),
{
    if a.len() > 0 && a[0] == b[0] && b[0] == c[0] {
        lemma_text_before_transitive(a.drop_first(), b.drop_first(), c.drop_first());
    }
}

/// Of two different texts one comes first.
pub proof fn lemma_text_before_total(a: Seq<char>, b: Seq<char>)
    requires
        a != b,
    ensures
        text_before(a, b) || text_before(b, a),
    decreases a.len(),
{
    if a.len() > 0 && b.len() > 0 && a[0] == b[0] {
        if a.drop_first() == b.drop_first() {
            assert(a =~= seq![a[0]] + a.drop_first());
            assert(b =~= seq![b[0]] + b.drop_first());
        }
        lemma_text_before_total(a.drop_first(), b.drop_first());
    } else if a.len() == 0 && b.len() == 0 {
        assert(a =~= b);
    }
}

/// Whether `a` comes before `b`.
pub fn comes_before(a: &str, b: &str) -> (before: bool)
    ensures
        before == text_before(a@, b@),
{
    let left = chars_of(a);
    let right = chars_of(b);
    let mut i: usize = 0;
    assert(a@.skip(0) =~= a@);
    assert(b@.skip(0) =~= b@);
    while i < left.len() && i < right.len()
        invariant
            left@ == a@,
            right@ == b@,
            i <= left@.len(),
            i <= right@.len(),
            text_before(a@, b@) == text_before(a@.skip(i as int), b@.skip(i as int)),
        decreases left@.len() - i,
    {
        if left[i] != right[i] {
            return left[i] < right[i];
        }
        assert(a@.skip(i as int).drop_first() =~= a@.skip(i + 1));
        assert(b@.skip(i as int).drop_first() =~= b@.skip(i + 1));
        i += 1;
    }
    i < right.len()
}

/// Keys in strictly ascending order.
pub open spec fn ascending(keys: Seq<Seq<char>>) -> bool {
    forall|i: int, j: int|
        0 <= i < j < keys.len() ==> text_before(#[trigger] keys[i], #[trigger] keys[j])
}

/// Whether `keys` lists the keys of a map in ascending order.
pub open spec fn is_listing<V>(keys: Seq<Seq<char>>, map: Map<Seq<char>, V>) -> bool {
    &&& ascending(keys)
    &&& forall|key: Seq<char>| #[trigger] map.contains_key(key) <==> keys.contains(key)
}

/// The keys of a map in ascending order.
pub open spec fn listed<V>(map: Map<Seq<char>, V>) -> Seq<Seq<char>> {
    choose|keys: Seq<Seq<char>>| is_listing(keys, map)
}

proof fn lemma_listing_prefix<V>(
    a: Seq<Seq<char>>,
    b: Seq<Seq<char>>,
    map: Map<Seq<char>, V>,
    i: int,
)
    requires
        is_listing(a, map),
        is_listing(b, map),
        0 <= i < a.len(),
    ensures
        i < b.len(),
        a[i] == b[i],
    decreases i,
{
    assert forall|h: int| 0 <= h < i implies h < b.len() && a[h] == b[h] by {
        lemma_listing_prefix(a, b, map, h);
    }
    assert(a.contains(a[i]));
    assert(map.contains_key(a[i]));
    let j = b.index_of(a[i]);
    assert(b[j] == a[i]);
    if j < i {
        assert(a[j] == b[j]);
        lemma_text_before_asymmetric(a[j], a[i]);
    }
    assert(b.contains(b[i]));
    assert(map.contains_key(b[i]));
    let k = a.index_of(b[i]);
    assert(a[k] == b[i]);
    if k < i {
        assert(a[k] == b[k]);
        lemma_text_before_asymmetric(b[k], b[i]);
    }
    if a[i] != b[i] {
        assert(text_before(b[i], b[j]));
        assert(text_before(a[i], a[k]));
        lemma_text_before_asymmetric(a[i], b[i]);
    }
}

/// A map has only one listing of its keys.
pub proof fn lemma_listing_is_unique<V>(keys: Seq<Seq<char>>, map: Map<Seq<char>, V>)
    requires
        is_listing(keys, map),
    ensures
        listed(map) == keys,
{
    let other = listed(map);
    assert(is_listing(other, map));
    if other.len() > keys.len() {
        lemma_listing_prefix(other, keys, map, keys.len() as int);
    }
    if keys.len() > other.len() {
        lemma_listing_prefix(keys, other, map, other.len() as int);
    }
    assert forall|i: int| 0 <= i < keys.len() implies keys[i] == #[trigger] other[i] by {
        lemma_listing_prefix(keys, other, map, i);
    }
    assert(other =~= keys);
}

/// The keys of an entry list.
pub open spec fn entry_keys<V>(entries: Seq<(String, V)>) -> Seq<Seq<char>> {
    entries.map_values(|entry: (String, V)| entry.0@)
}

/// The map that an entry list stands for.
pub open spec fn entry_map<V>(entries: Seq<(String, V)>) -> Map<Seq<char>, V> {
    Map::new(
        |key: Seq<char>| entry_keys(entries).contains(key),
        |key: Seq<char>| entries[entry_keys(entries).index_of(key)].1,
    )
}

proof fn lemma_entry_map<V>(entries: Seq<(String, V)>, i: int)
    requires
        ascending(entry_keys(entries)),
        0 <= i < entries.len(),
    ensures
        entry_map(entries).contains_key(entries[i].0@),
        entry_map(entries)[entries[i].0@] == entries[i].1,
{
    let keys = entry_keys(entries);
    assert(keys[i] == entries[i].0@);
    let j = keys.index_of(keys[i]);
    assert(keys[j] == keys[i]);
    if i < j {
        lemma_text_before_asymmetric(keys[i], keys[j]);
    }
    if j < i {
        lemma_text_before_asymmetric(keys[j], keys[i]);
    }
}

/// An ordered map from text to `V`.
#[verifier::reject_recursive_types(V)]
#[derive(Debug, PartialEq, Eq)]
pub struct OrderedMap<V> {
    entries: Vec<(String, V)>,
}

impl<V> View for OrderedMap<V> {
    type V = Map<Seq<char>, V>;

    closed spec fn view(&self) -> Map<Seq<char>, V> {
        entry_map(self.entries@)
    }
}

impl<V> OrderedMap<V> {
    #[verifier::type_invariant]
    spec fn in_order(self) -> bool {
        ascending(entry_keys(self.entries@))
    }

    /// The keys, in order.
    pub closed spec fn keys(&self) -> Seq<Seq<char>> {
        entry_keys(self.entries@)
    }

    /// An empty map.
    pub fn new() -> (map: Self)
        ensures
            map@ == Map::<Seq<char>, V>::empty(),
            map.keys() == Seq::<Seq<char>>::empty(),
    {
        let map = OrderedMap { entries: Vec::new() };
        assert(map.keys() =~= Seq::<Seq<char>>::empty());
        assert(map@ =~= Map::<Seq<char>, V>::empty());
        map
    }

    /// Number of entries.
    pub fn len(&self) -> (count: usize)
        ensures
            count == self.keys().len(),
            self.keys() == listed(self@),
            is_listing(self.keys(), self@),
    {
        proof {
            use_type_invariant(self);
            lemma_listing_is_unique(self.keys(), self@);
        }
        self.entries.len()
    }

    /// Whether the map holds nothing.
    pub fn is_empty(&self) -> (empty: bool)
        ensures
            empty == (self@ == Map::<Seq<char>, V>::empty()),
    {
        let empty = self.entries.len() == 0;
        proof {
            use_type_invariant(self);
            if empty {
                assert(self@ =~= Map::<Seq<char>, V>::empty());
            } else {
                lemma_entry_map(self.entries@, 0);
            }
        }
        empty
    }

    /// The key at a position.
    pub fn key_at(&self, index: usize) -> (key: &str)
        requires
            index < self.keys().len(),
        ensures
            key@ == self.keys()[index as int],
    {
        self.entries[index].0.as_str()
    }

    /// The value at a position.
    pub fn value_at(&self, index: usize) -> (value: &V)
        requires
            index < self.keys().len(),
        ensures
            self@.contains_key(self.keys()[index as int]),
            *value == self@[self.keys()[index as int]],
    {
        proof {
            use_type_invariant(self);
            lemma_entry_map(self.entries@, index as int);
        }
        &self.entries[index].1
    }

    fn position(&self, key: &str) -> (at: usize)
        ensures
            at <= self.entries@.len(),
            at < self.entries@.len() ==> self.entries@[at as int].0@ == key@,
            at == self.entries@.len() ==> !self.keys().contains(key@),
    {
        let mut at: usize = 0;
        while at < self.entries.len()
            invariant
                at <= self.entries@.len(),
                forall|i: int| 0 <= i < at ==> #[trigger] self.entries@[i].0@ != key@,
            decreases self.entries@.len() - at,
        {
            if same_text(self.entries[at].0.as_str(), key) {
                return at;
            }
            at += 1;
        }
        assert(!self.keys().contains(key@)) by {
            assert forall|i: int| 0 <= i < self.keys().len() implies self.keys()[i] != key@ by {
                assert(self.entries@[i].0@ != key@);
            }
        }
        at
    }

    /// The value under a key.
    pub fn get(&self, key: &str) -> (value: Option<&V>)
        ensures
            match value {
                Some(found) => self@.contains_key(key@) && *found == self@[key@],
                None => !self@.contains_key(key@),
            },
    {
        let at = self.position(key);
        if at < self.entries.len() {
            proof {
                use_type_invariant(self);
                lemma_entry_map(self.entries@, at as int);
            }
            Some(&self.entries[at].1)
        } else {
            None
        }
    }

    /// Whether a key is present.
    pub fn contains_key(&self, key: &str) -> (present: bool)
        ensures
            present == self@.contains_key(key@),
    {
        self.get(key).is_some()
    }

    /// Store a value under a key, replacing what was there.
    pub fn insert(&mut self, key: String, value: V)
        ensures
            final(self)@ == old(self)@.insert(key@, value),
    {
        proof {
            use_type_invariant(&*self);
        }
        let ghost before = self.entries@;
        let at = self.position(key.as_str());
        let mut entries: Vec<(String, V)> = Vec::new();
        std::mem::swap(&mut entries, &mut self.entries);
        if at < entries.len() {
            entries[at] = (key, value);
            proof {
                lemma_replace(before, at as int, key, value);
            }
        } else {
            let mut spot: usize = 0;
            while spot < entries.len() && comes_before(entries[spot].0.as_str(), key.as_str())
                invariant
                    spot <= entries@.len(),
                    entries@ == before,
                    forall|i: int|
                        0 <= i < spot ==> text_before(#[trigger] entries@[i].0@, key@),
                ensures
                    spot < entries@.len() ==> !text_before(entries@[spot as int].0@, key@),
                decreases entries@.len() - spot,
            {
                spot += 1;
            }
            entries.insert(spot, (key, value));
            proof {
                lemma_insert(before, spot as int, key, value);
            }
        }
        self.entries = entries;
    }

    /// Remove a key.
    pub fn remove(&mut self, key: &str) -> (value: Option<V>)
        ensures
            final(self)@ == old(self)@.remove(key@),
            match value {
                Some(removed) => old(self)@.contains_key(key@) && removed == old(self)@[key@],
                None => !old(self)@.contains_key(key@),
            },
    {
        proof {
            use_type_invariant(&*self);
        }
        let ghost before = self.entries@;
        let at = self.position(key);
        let mut entries: Vec<(String, V)> = Vec::new();
        std::mem::swap(&mut entries, &mut self.entries);
        let value = if at < entries.len() {
            let (_, value) = entries.remove(at);
            proof {
                lemma_remove(before, at as int);
                lemma_entry_map(before, at as int);
            }
            Some(value)
        } else {
            assert(entry_map(before).remove(key@) =~= entry_map(before));
            None
        };
        self.entries = entries;
        value
    }
}

proof fn lemma_replace<V>(entries: Seq<(String, V)>, at: int, key: String, value: V)
    requires
        ascending(entry_keys(entries)),
        0 <= at < entries.len(),
        entries[at].0@ == key@,
    ensures
        ascending(entry_keys(entries.update(at, (key, value)))),
        entry_map(entries.update(at, (key, value))) == entry_map(entries).insert(key@, value),
{
    let after = entries.update(at, (key, value));
    assert(entry_keys(after) =~= entry_keys(entries));
    assert forall|k: Seq<char>| #[trigger] entry_map(after).contains_key(k) implies entry_map(
        after,
    )[k] == entry_map(entries).insert(key@, value)[k] by {
        let i = entry_keys(after).index_of(k);
        assert(entry_keys(after)[i] == k);
        lemma_entry_map(after, i);
        lemma_entry_map(entries, i);
        lemma_entry_map(after, at);
        assert(after[i].0@ == k);
        assert(entries[i].0@ == k);
    }
    assert(entry_keys(entries)[at] == key@);
    assert(entry_map(after) =~= entry_map(entries).insert(key@, value));
}

proof fn lemma_insert<V>(entries: Seq<(String, V)>, spot: int, key: String, value: V)
    requires
        ascending(entry_keys(entries)),
        0 <= spot <= entries.len(),
        !entry_keys(entries).contains(key@),
        forall|i: int| 0 <= i < spot ==> text_before(#[trigger] entries[i].0@, key@),
        spot < entries.len() ==> !text_before(entries[spot].0@, key@),
    ensures
        ascending(entry_keys(entries.insert(spot, (key, value)))),
        entry_map(entries.insert(spot, (key, value))) == entry_map(entries).insert(key@, value),
{
    let after = entries.insert(spot, (key, value));
    let old_keys = entry_keys(entries);
    let keys = entry_keys(after);
    assert(keys =~= old_keys.insert(spot, key@));
    assert forall|i: int| spot <= i < old_keys.len() implies text_before(
        key@,
        #[trigger] old_keys[i],
    ) by {
        assert(old_keys[spot] != key@);
        assert(old_keys[spot] == entries[spot].0@);
        lemma_text_before_total(old_keys[spot], key@);
        if spot < i {
            lemma_text_before_transitive(key@, old_keys[spot], old_keys[i]);
        }
    }
    assert forall|i: int, j: int| 0 <= i < j < keys.len() implies text_before(
        #[trigger] keys[i],
        #[trigger] keys[j],
    ) by {
        if j < spot {
            assert(keys[i] == old_keys[i] && keys[j] == old_keys[j]);
        } else if j == spot {
            assert(keys[i] == entries[i].0@);
        } else if i == spot {
            assert(keys[j] == old_keys[j - 1]);
        } else if i < spot {
            assert(keys[i] == old_keys[i] && keys[j] == old_keys[j - 1]);
        } else {
            assert(keys[i] == old_keys[i - 1] && keys[j] == old_keys[j - 1]);
        }
    }
    assert(after[spot].0@ == key@);
    lemma_entry_map(after, spot);
    assert forall|k: Seq<char>| entry_map(after).contains_key(k) == #[trigger] entry_map(
        entries,
    ).insert(key@, value).contains_key(k) by {
        if keys.contains(k) && k != key@ {
            let i = keys.index_of(k);
            assert(keys[i] == k);
            if i < spot {
                assert(old_keys[i] == k);
            } else {
                assert(old_keys[i - 1] == k);
            }
        }
        if old_keys.contains(k) {
            let i = old_keys.index_of(k);
            assert(old_keys[i] == k);
            if i < spot {
                assert(keys[i] == k);
            } else {
                assert(keys[i + 1] == k);
            }
        }
    }
    assert forall|k: Seq<char>| #[trigger] entry_map(after).contains_key(k) implies entry_map(
        after,
    )[k] == entry_map(entries).insert(key@, value)[k] by {
        let i = keys.index_of(k);
        assert(keys[i] == k);
        assert(after[i].0@ == k);
        lemma_entry_map(after, i);
        if i < spot {
            assert(old_keys[i] == k);
            lemma_entry_map(entries, i);
        } else if i > spot {
            assert(old_keys[i - 1] == k);
            lemma_entry_map(entries, i - 1);
        }
    }
    assert(entry_map(after) =~= entry_map(entries).insert(key@, value));
}

proof fn lemma_remove<V>(entries: Seq<(String, V)>, at: int)
    requires
        ascending(entry_keys(entries)),
        0 <= at < entries.len(),
    ensures
        ascending(entry_keys(entries.remove(at))),
        entry_map(entries.remove(at)) == entry_map(entries).remove(entries[at].0@),
{
    let after = entries.remove(at);
    let old_keys = entry_keys(entries);
    let keys = entry_keys(after);
    let key = entries[at].0@;
    assert(keys =~= old_keys.remove(at));
    assert forall|i: int, j: int| 0 <= i < j < keys.len() implies text_before(
        #[trigger] keys[i],
        #[trigger] keys[j],
    ) by {
        let a = if i < at {
            i
        } else {
            i + 1
        };
        let b = if j < at {
            j
        } else {
            j + 1
        };
        assert(keys[i] == old_keys[a] && keys[j] == old_keys[b]);
    }
    assert forall|k: Seq<char>| entry_map(after).contains_key(k) == #[trigger] entry_map(
        entries,
    ).remove(key).contains_key(k) by {
        if keys.contains(k) {
            let i = keys.index_of(k);
            assert(keys[i] == k);
            let a = if i < at {
                i
            } else {
                i + 1
            };
            assert(old_keys[a] == k);
            if a < at {
                lemma_text_before_asymmetric(old_keys[a], old_keys[at]);
            } else {
                lemma_text_before_asymmetric(old_keys[at], old_keys[a]);
            }
        }
        if old_keys.contains(k) && k != key {
            let i = old_keys.index_of(k);
            assert(old_keys[i] == k);
            if i < at {
                assert(keys[i] == k);
            } else {
                assert(i != at);
                assert(keys[i - 1] == k);
            }
        }
    }
    assert forall|k: Seq<char>| #[trigger] entry_map(after).contains_key(k) implies entry_map(
        after,
    )[k] == entry_map(entries).remove(key)[k] by {
        let i = keys.index_of(k);
        assert(keys[i] == k);
        assert(after[i].0@ == k);
        lemma_entry_map(after, i);
        let a = if i < at {
            i
        } else {
            i + 1
        };
        assert(entries[a] == after[i]);
        lemma_entry_map(entries, a);
        assert(entry_map(entries).remove(key).contains_key(k));
    }
    assert(entry_map(after) =~= entry_map(entries).remove(key));
}

impl<V: Clone> Clone for OrderedMap<V> {
    fn clone(&self) -> (copy: Self)
        ensures
            copy.keys() == self.keys(),
            copy@.dom() == self@.dom(),
            forall|key: Seq<char>|
                self@.contains_key(key) ==> cloned::<V>(self@[key], #[trigger] copy@[key]),
    {
        proof {
            use_type_invariant(self);
        }
        let mut entries: Vec<(String, V)> = Vec::new();
        let mut i: usize = 0;
        while i < self.entries.len()
            invariant
                i <= self.entries@.len(),
                entries@.len() == i,
                forall|j: int|
                    0 <= j < i ==> (#[trigger] entries@[j]).0 == self.entries@[j].0,
                forall|j: int|
                    0 <= j < i ==> cloned::<V>(self.entries@[j].1, (#[trigger] entries@[j]).1),
            decreases self.entries@.len() - i,
        {
            entries.push((self.entries[i].0.clone(), self.entries[i].1.clone()));
            i += 1;
        }
        assert(entry_keys(entries@) =~= entry_keys(self.entries@));
        proof {
            assert forall|key: Seq<char>| self@.contains_key(key) implies cloned::<V>(
                self@[key],
                #[trigger] entry_map(entries@)[key],
            ) by {
                let j = entry_keys(entries@).index_of(key);
                assert(entry_keys(entries@)[j] == key);
                assert(entries@[j].0@ == key);
                lemma_entry_map(entries@, j);
                lemma_entry_map(self.entries@, j);
            }
            assert(entry_map(entries@).dom() =~= self@.dom());
        }
        OrderedMap { entries }
    }
}

impl<V> Default for OrderedMap<V> {
    fn default() -> (map: Self)
        ensures
            map@ == Map::<Seq<char>, V>::empty(),
    {
        Self::new()
    }
}

/// A copy of a map of texts.
pub fn copy_texts(map: &OrderedMap<String>) -> (copy: OrderedMap<String>)
    ensures
        copy@ == map@,
{
    let copy = map.clone();
    assert(copy@ =~= map@);
    copy
}

/// Maps with the same keys are listed the same way.
pub proof fn lemma_same_keys_same_listing<V, W>(a: Map<Seq<char>, V>, b: Map<Seq<char>, W>)
    requires
        a.dom() == b.dom(),
        is_listing(listed(a), a),
    ensures
        is_listing(listed(a), b),
        listed(a) == listed(b),
{
    assert forall|key: Seq<char>| #[trigger] b.contains_key(key) <==> listed(a).contains(key) by {
        assert(a.dom().contains(key) == b.dom().contains(key));
        assert(a.contains_key(key) <==> listed(a).contains(key));
    }
    lemma_listing_is_unique(listed(a), b);
}

/// Keys in ascending order are all different.
pub proof fn lemma_ascending_distinct(keys: Seq<Seq<char>>, i: int, j: int)
    requires
        ascending(keys),
        0 <= i < keys.len(),
        0 <= j < keys.len(),
        i != j,
    ensures
        keys[i] != keys[j],
{
    if i < j {
        lemma_text_before_asymmetric(keys[i], keys[j]);
    } else {
        lemma_text_before_asymmetric(keys[j], keys[i]);
    }
}

} // verus!
