//! The ordered map: string keys, tagged values, keys unique and kept in
//! ascending order, so that walking the map is deterministic.

use vstd::prelude::*;
use vstd::string::*;
use crate::value::{Payload, Value};

verus! {

/// `a` and `b` hold the same characters at every position below `n`.
pub open spec fn agree_upto(a: Seq<char>, b: Seq<char>, n: int) -> bool {
    &&& 0 <= n <= a.len()
    &&& n <= b.len()
    &&& forall|k: int| 0 <= k < n ==> a[k] == b[k]
}

/// `a` comes before `b`, decided at position `n`: the two agree below `n`,
/// and there `a` ends while `b` goes on, or `a` holds the smaller character.
pub open spec fn precedes_at(a: Seq<char>, b: Seq<char>, n: int) -> bool {
    &&& agree_upto(a, b, n)
    &&& ((n == a.len() && n < b.len()) || (n < a.len() && n < b.len() && (a[n] as int) < (b[n] as int)))
}

/// The order of keys: lexicographic by character code.
pub open spec fn key_lt(a: Seq<char>, b: Seq<char>) -> bool {
    exists|n: int| #[trigger] precedes_at(a, b, n)
}

/// Keys in strictly ascending order; such a sequence holds no key twice.
pub open spec fn strictly_sorted(keys: Seq<Seq<char>>) -> bool {
    forall|i: int, j: int| 0 <= i < j < keys.len() ==> key_lt(#[trigger] keys[i], #[trigger] keys[j])
}

/// The map that a sequence of keys and the sequence of their values stand for.
pub open spec fn entries_map<V>(keys: Seq<Seq<char>>, vals: Seq<V>) -> Map<Seq<char>, V> {
    Map::new(|k: Seq<char>| keys.contains(k), |k: Seq<char>| vals[keys.index_of(k)])
}

/// No key comes before itself, and of two keys at most one comes before the other.
pub proof fn lemma_key_lt_asymmetric(a: Seq<char>, b: Seq<char>)
    requires
        key_lt(a, b),
    ensures
        a != b,
        !key_lt(b, a),
{
    let n = choose|n: int| #[trigger] precedes_at(a, b, n);
    if key_lt(b, a) {
        let m = choose|m: int| #[trigger] precedes_at(b, a, m);
        if m < n {
            assert(a[m] == b[m]);
        } else if n < m {
            assert(b[n] == a[n]);
        }
    }
}

/// The order of keys is transitive.
pub proof fn lemma_key_lt_transitive(a: Seq<char>, b: Seq<char>, c: Seq<char>)
    requires
        key_lt(a, b),
        key_lt(b, c),
    ensures
        key_lt(a, c),
{
    let n = choose|n: int| #[trigger] precedes_at(a, b, n);
    let m = choose|m: int| #[trigger] precedes_at(b, c, m);
    let k = if n < m { n } else { m };
    assert forall|i: int| 0 <= i < k implies a[i] == c[i] by {
        assert(a[i] == b[i]);
        assert(b[i] == c[i]);
    }
    if n < m {
        assert(b[n] == c[n]);
    } else if m < n {
        assert(a[m] == b[m]);
    }
    assert(precedes_at(a, c, k));
}

/// A sorted sequence of keys holds no key twice.
pub proof fn lemma_sorted_distinct(keys: Seq<Seq<char>>)
    requires
        strictly_sorted(keys),
    ensures
        keys.no_duplicates(),
{
    assert forall|i: int, j: int| 0 <= i < keys.len() && 0 <= j < keys.len() && i != j implies keys[i]
        != keys[j] by {
        if i < j {
            lemma_key_lt_asymmetric(keys[i], keys[j]);
        } else {
            lemma_key_lt_asymmetric(keys[j], keys[i]);
        }
    }
}

/// Where no key occurs twice, each key stands for the value at its own index.
pub proof fn lemma_entries_map_at<V>(keys: Seq<Seq<char>>, vals: Seq<V>, i: int)
    requires
        keys.no_duplicates(),
        0 <= i < keys.len(),
    ensures
        entries_map(keys, vals).contains_key(keys[i]),
        entries_map(keys, vals)[keys[i]] == vals[i],
        keys.index_of(keys[i]) == i,
{
    assert(keys.contains(keys[i]));
}

/// Adding one key that is new, with its value, adds one entry to the map
/// that the keys and values stand for.
pub proof fn lemma_entries_map_push<V>(keys: Seq<Seq<char>>, vals: Seq<V>, k: Seq<char>, v: V)
    requires
        keys.len() == vals.len(),
        keys.push(k).no_duplicates(),
    ensures
        entries_map(keys.push(k), vals.push(v)) == entries_map(keys, vals).insert(k, v),
{
    let keys1 = keys.push(k);
    let vals1 = vals.push(v);
    assert forall|i: int, j: int| 0 <= i < keys.len() && 0 <= j < keys.len() && i != j implies keys[i]
        != keys[j] by {
        assert(keys1[i] == keys[i] && keys1[j] == keys[j]);
    }
    assert forall|x: Seq<char>| keys1.contains(x) <==> (x == k || keys.contains(x)) by {
        if keys1.contains(x) {
            let j = keys1.index_of(x);
            if j < keys.len() {
                assert(keys[j] == x);
            }
        }
        if x == k {
            assert(keys1[keys.len() as int] == x);
        }
        if keys.contains(x) {
            let j = keys.index_of(x);
            assert(keys1[j] == x);
        }
    }
    assert forall|x: Seq<char>| keys1.contains(x) implies #[trigger] entries_map(keys1, vals1)[x]
        == entries_map(keys, vals).insert(k, v)[x] by {
        let j = keys1.index_of(x);
        lemma_entries_map_at(keys1, vals1, j);
        assert(keys1[keys.len() as int] == k);
        if j < keys.len() {
            assert(keys[j] == x);
            assert(vals1[j] == vals[j]);
            lemma_entries_map_at(keys, vals, j);
        } else {
            assert(vals1[j] == v);
        }
    }
    assert(entries_map(keys1, vals1) =~= entries_map(keys, vals).insert(k, v));
}

/// A key that falls strictly between two neighbours of a sorted sequence, or
/// past its end, is not among its keys.
pub proof fn lemma_absent(keys: Seq<Seq<char>>, key: Seq<char>, p: int)
    requires
        strictly_sorted(keys),
        0 <= p <= keys.len(),
        forall|i: int| 0 <= i < p ==> key_lt(#[trigger] keys[i], key),
        p < keys.len() ==> key_lt(key, keys[p]),
    ensures
        forall|j: int| p <= j < keys.len() ==> key_lt(key, #[trigger] keys[j]),
        !keys.contains(key),
{
    assert forall|j: int| p <= j < keys.len() implies key_lt(key, #[trigger] keys[j]) by {
        if p < j {
            lemma_key_lt_transitive(key, keys[p], keys[j]);
        }
    }
    if keys.contains(key) {
        let j = choose|j: int| 0 <= j < keys.len() && keys[j] == key;
        if j < p {
            lemma_key_lt_asymmetric(keys[j], key);
        } else {
            lemma_key_lt_asymmetric(key, keys[j]);
        }
    }
}

/// How two keys stand to each other.
#[derive(Clone, Copy, Debug, PartialEq, Eq, Structural)]
pub enum KeyOrder {
    Before,
    Same,
    After,
}

/// Compares two keys character by character.
pub fn compare_keys(a: &str, b: &str) -> (r: KeyOrder)
    ensures
        (r == KeyOrder::Before) == key_lt(a@, b@),
        (r == KeyOrder::Same) == (a@ == b@),
        (r == KeyOrder::After) == key_lt(b@, a@),
{
    let n: usize = a.unicode_len();
    let m: usize = b.unicode_len();
    let mut i: usize = 0;
    let mut r = KeyOrder::Same;
    while i < n && i < m && r == KeyOrder::Same
        invariant
            n == a@.len(),
            m == b@.len(),
            agree_upto(a@, b@, if r == KeyOrder::Same { i as int } else { i - 1 }),
            r != KeyOrder::Same ==> 0 < i <= n && i <= m,
            r == KeyOrder::Before ==> precedes_at(a@, b@, i - 1),
            r == KeyOrder::After ==> precedes_at(b@, a@, i - 1),
        decreases n - i,
    {
        let ca: char = a.get_char(i);
        let cb: char = b.get_char(i);
        if ca != cb {
            if (ca as u32) < (cb as u32) {
                r = KeyOrder::Before;
            } else {
                r = KeyOrder::After;
                proof {
                    assert(agree_upto(b@, a@, i as int));
                }
            }
        }
        i = i + 1;
    }
    if r == KeyOrder::Same {
        if n < m {
            r = KeyOrder::Before;
            proof {
                assert(precedes_at(a@, b@, n as int));
            }
        } else if m < n {
            r = KeyOrder::After;
            proof {
                assert(agree_upto(b@, a@, m as int));
                assert(precedes_at(b@, a@, m as int));
            }
        } else {
            proof {
                assert(a@ =~= b@);
            }
        }
    }
    proof {
        if key_lt(a@, b@) {
            lemma_key_lt_asymmetric(a@, b@);
        }
        if key_lt(b@, a@) {
            lemma_key_lt_asymmetric(b@, a@);
        }
    }
    r
}

struct Entry {
    key: String,
    value: Value,
}

/// The ordered map from string keys to tagged values.
pub struct GenericMap {
    entries: Vec<Entry>,
}

impl View for GenericMap {
    type V = Map<Seq<char>, Payload>;

    closed spec fn view(&self) -> Map<Seq<char>, Payload> {
        entries_map(self.ordered_keys(), self.ordered_values())
    }
}

impl GenericMap {
    /// The keys of the map in the order in which the map is walked.
    pub closed spec fn ordered_keys(&self) -> Seq<Seq<char>> {
        Seq::new(self.entries@.len(), |i: int| self.entries@[i].key@)
    }

    /// The values of the map, each at the index of its key in `ordered_keys`.
    pub closed spec fn ordered_values(&self) -> Seq<Payload> {
        Seq::new(self.entries@.len(), |i: int| self.entries@[i].value@)
    }

    /// The invariant of the map: its keys are in strictly ascending order.
    pub closed spec fn wf(&self) -> bool {
        strictly_sorted(self.ordered_keys())
    }

    /// What the ordered keys and values of a well-formed map have to do with
    /// its view: the keys are sorted, hold no key twice and are the domain,
    /// and each value is the one its key maps to.
    pub proof fn lemma_walk(&self)
        requires
            self.wf(),
        ensures
            strictly_sorted(self.ordered_keys()),
            self.ordered_keys().no_duplicates(),
            self.ordered_values().len() == self.ordered_keys().len(),
            self@.dom() == self.ordered_keys().to_set(),
            self@.dom().finite(),
            self@.dom().len() == self.ordered_keys().len(),
            forall|i: int|
                0 <= i < self.ordered_keys().len() ==> self@[#[trigger] self.ordered_keys()[i]]
                    == self.ordered_values()[i],
    {
        let keys = self.ordered_keys();
        let vals = self.ordered_values();
        lemma_sorted_distinct(keys);
        assert(self@.dom() =~= keys.to_set());
        keys.unique_seq_to_set();
        assert forall|i: int| 0 <= i < keys.len() implies self@[#[trigger] keys[i]] == vals[i] by {
            lemma_entries_map_at(keys, vals, i);
        }
    }

    /// The empty map.
    pub fn new() -> (m: GenericMap)
        ensures
            m.wf(),
            m@ == Map::<Seq<char>, Payload>::empty(),
    {
        let m = GenericMap { entries: Vec::new() };
        proof {
            assert(m@ =~= Map::<Seq<char>, Payload>::empty());
        }
        m
    }

    /// The number of entries.
    pub fn len(&self) -> (n: usize)
        requires
            self.wf(),
        ensures
            n == self@.dom().len(),
            n == self.ordered_keys().len(),
    {
        proof {
            self.lemma_walk();
        }
        self.entries.len()
    }

    /// Where `key` stands among the entries: the index of the first entry
    /// whose key does not come before it, and whether that entry holds it.
    fn position(&self, key: &str) -> (r: (usize, bool))
        requires
            self.wf(),
        ensures
            r.0 <= self.ordered_keys().len(),
            forall|i: int| 0 <= i < r.0 ==> key_lt(#[trigger] self.ordered_keys()[i], key@),
            r.1 ==> r.0 < self.ordered_keys().len() && self.ordered_keys()[r.0 as int] == key@,
            !r.1 && r.0 < self.ordered_keys().len() ==> key_lt(
                key@,
                self.ordered_keys()[r.0 as int],
            ),
            r.1 == self@.contains_key(key@),
    {
        let mut p: usize = 0;
        let mut found = false;
        let mut done = false;
        while p < self.entries.len() && !done
            invariant
                p <= self.entries@.len(),
                self.ordered_keys().len() == self.entries@.len(),
                forall|i: int| 0 <= i < p ==> key_lt(#[trigger] self.ordered_keys()[i], key@),
                found ==> done,
                found ==> p < self.entries@.len() && self.ordered_keys()[p as int] == key@,
                done && !found ==> p < self.entries@.len() && key_lt(
                    key@,
                    self.ordered_keys()[p as int],
                ),
            decreases self.entries@.len() - p + (if done { 0int } else { 1int }),
        {
            match compare_keys(self.entries[p].key.as_str(), key) {
                KeyOrder::Before => {
                    p = p + 1;
                },
                KeyOrder::Same => {
                    found = true;
                    done = true;
                },
                KeyOrder::After => {
                    done = true;
                },
            }
        }
        proof {
            if found {
                assert(self.ordered_keys().contains(key@));
            } else {
                lemma_absent(self.ordered_keys(), key@, p as int);
            }
        }
        (p, found)
    }

    /// Whether the map holds `key`.
    pub fn contains_key(&self, key: &str) -> (r: bool)
        requires
            self.wf(),
        ensures
            r == self@.contains_key(key@),
    {
        self.position(key).1
    }

    /// The value stored under `key`, if the map holds the key.
    pub fn get(&self, key: &str) -> (r: Option<&Value>)
        requires
            self.wf(),
        ensures
            r.is_some() == self@.contains_key(key@),
            r.is_some() ==> r.unwrap()@ == self@[key@],
    {
        let (p, found) = self.position(key);
        if found {
            proof {
                lemma_sorted_distinct(self.ordered_keys());
                lemma_entries_map_at(self.ordered_keys(), self.ordered_values(), p as int);
            }
            Some(&self.entries[p].value)
        } else {
            None
        }
    }

    /// Stores `value` under `key`. A value that the key held before is
    /// replaced and handed back; every other entry stays as it was.
    pub fn insert(&mut self, key: String, value: Value) -> (previous: Option<Value>)
        requires
            old(self).wf(),
        ensures
            final(self).wf(),
            final(self)@ == old(self)@.insert(key@, value@),
            previous.is_some() == old(self)@.contains_key(key@),
            previous.is_some() ==> previous.unwrap()@ == old(self)@[key@],
    {
        let (p, found) = self.position(key.as_str());
        let ghost keys0 = self.ordered_keys();
        let ghost vals0 = self.ordered_values();
        let ghost k = key@;
        let ghost v = value@;
        if found {
            let previous = self.entries[p].value.clone();
            self.entries.set(p, Entry { key, value });
            proof {
                let keys1 = self.ordered_keys();
                let vals1 = self.ordered_values();
                assert(keys1 =~= keys0);
                assert(vals1 =~= vals0.update(p as int, v));
                lemma_sorted_distinct(keys0);
                lemma_entries_map_at(keys0, vals0, p as int);
                assert forall|x: Seq<char>| keys0.contains(x) implies #[trigger] entries_map(
                    keys0,
                    vals1,
                )[x] == entries_map(keys0, vals0).insert(k, v)[x] by {
                    let j = keys0.index_of(x);
                    lemma_entries_map_at(keys0, vals0, j);
                }
                assert(entries_map(keys0, vals1) =~= entries_map(keys0, vals0).insert(k, v));
            }
            Some(previous)
        } else {
            self.entries.insert(p, Entry { key, value });
            proof {
                let keys1 = self.ordered_keys();
                let vals1 = self.ordered_values();
                assert(keys1 =~= keys0.insert(p as int, k));
                assert(vals1 =~= vals0.insert(p as int, v));
                lemma_absent(keys0, k, p as int);
                assert forall|i: int, j: int| 0 <= i < j < keys1.len() implies key_lt(
                    #[trigger] keys1[i],
                    #[trigger] keys1[j],
                ) by {
                    if j < p {
                        assert(keys1[i] == keys0[i] && keys1[j] == keys0[j]);
                    } else if j == p {
                        assert(keys1[i] == keys0[i]);
                    } else if i < p {
                        assert(keys1[i] == keys0[i] && keys1[j] == keys0[j - 1]);
                    } else if i == p {
                        assert(keys1[j] == keys0[j - 1]);
                    } else {
                        assert(keys1[i] == keys0[i - 1] && keys1[j] == keys0[j - 1]);
                    }
                }
                lemma_sorted_distinct(keys0);
                lemma_sorted_distinct(keys1);
                assert forall|x: Seq<char>| keys1.contains(x) <==> (x == k || keys0.contains(x)) by {
                    if keys1.contains(x) {
                        let j = keys1.index_of(x);
                        if j < p {
                            assert(keys0[j] == x);
                        } else if j > p {
                            assert(keys0[j - 1] == x);
                        }
                    }
                    if x == k {
                        assert(keys1[p as int] == x);
                    }
                    if keys0.contains(x) {
                        let j = keys0.index_of(x);
                        if j < p {
                            assert(keys1[j] == x);
                        } else {
                            assert(keys1[j + 1] == x);
                        }
                    }
                }
                assert forall|x: Seq<char>| keys1.contains(x) implies #[trigger] entries_map(
                    keys1,
                    vals1,
                )[x] == entries_map(keys0, vals0).insert(k, v)[x] by {
                    let j = keys1.index_of(x);
                    lemma_entries_map_at(keys1, vals1, j);
                    if j < p {
                        lemma_entries_map_at(keys0, vals0, j);
                    } else if j > p {
                        lemma_entries_map_at(keys0, vals0, j - 1);
                    }
                }
                assert(entries_map(keys1, vals1) =~= entries_map(keys0, vals0).insert(k, v));
            }
            None
        }
    }

    /// The keys of the map, in ascending order.
    pub fn keys(&self) -> (r: Vec<String>)
        requires
            self.wf(),
        ensures
            r@.len() == self.ordered_keys().len(),
            forall|i: int| 0 <= i < r@.len() ==> (#[trigger] r@[i])@ == self.ordered_keys()[i],
            strictly_sorted(self.ordered_keys()),
            self.ordered_keys().to_set() == self@.dom(),
    {
        proof {
            self.lemma_walk();
        }
        let mut r: Vec<String> = Vec::new();
        let mut i: usize = 0;
        while i < self.entries.len()
            invariant
                i <= self.entries@.len(),
                r@.len() == i,
                forall|j: int| 0 <= j < i ==> (#[trigger] r@[j])@ == self.ordered_keys()[j],
            decreases self.entries@.len() - i,
        {
            r.push(self.entries[i].key.clone());
            i = i + 1;
        }
        r
    }
}

} // verus!
