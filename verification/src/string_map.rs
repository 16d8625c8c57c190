//! The ordered map from string keys to texts: the ordered map of tagged
//! values, holding strings only.

use vstd::prelude::*;
use crate::ordered_map::{strictly_sorted, GenericMap};
use crate::value::{Payload, Value};

verus! {

/// The text that a payload holds, where it is a string.
pub open spec fn text_in(p: Payload) -> Seq<char> {
    match p {
        Payload::Str(s) => s,
        _ => Seq::empty(),
    }
}

/// The ordered map from string keys to texts.
pub struct StringMap {
    inner: GenericMap,
}

impl View for StringMap {
    type V = Map<Seq<char>, Seq<char>>;

    closed spec fn view(&self) -> Map<Seq<char>, Seq<char>> {
        Map::new(|k: Seq<char>| self.inner@.contains_key(k), |k: Seq<char>| text_in(self.inner@[k]))
    }
}

impl StringMap {
    /// The keys of the map in the order in which the map is walked.
    pub closed spec fn ordered_keys(&self) -> Seq<Seq<char>> {
        self.inner.ordered_keys()
    }

    /// The invariant of the map: its keys are in strictly ascending order,
    /// and every value it holds is a string.
    pub closed spec fn wf(&self) -> bool {
        &&& self.inner.wf()
        &&& forall|k: Seq<char>| self.inner@.contains_key(k) ==> (#[trigger] self.inner@[k]) is Str
    }

    /// The empty map.
    pub fn new() -> (m: StringMap)
        ensures
            m.wf(),
            m@ == Map::<Seq<char>, Seq<char>>::empty(),
    {
        let m = StringMap { inner: GenericMap::new() };
        proof {
            assert(m@ =~= Map::<Seq<char>, Seq<char>>::empty());
        }
        m
    }

    /// The number of entries.
    pub fn len(&self) -> (n: usize)
        requires
            self.wf(),
        ensures
            n == self@.dom().len(),
            n == self.ordered_keys().len(),
    {
        proof {
            assert(self@.dom() =~= self.inner@.dom());
        }
        self.inner.len()
    }

    /// Whether the map holds `key`.
    pub fn contains_key(&self, key: &str) -> (r: bool)
        requires
            self.wf(),
        ensures
            r == self@.contains_key(key@),
    {
        self.inner.contains_key(key)
    }

    /// A copy of the text stored under `key`, if the map holds the key.
    pub fn get(&self, key: &str) -> (r: Option<String>)
        requires
            self.wf(),
        ensures
            r.is_some() == self@.contains_key(key@),
            r.is_some() ==> r.unwrap()@ == self@[key@],
    {
        match self.inner.get(key) {
            Some(v) => v.as_string(),
            None => None,
        }
    }

    /// Stores `text` under `key`. A text that the key held before is
    /// replaced and handed back; every other entry stays as it was.
    pub fn insert(&mut self, key: String, text: String) -> (previous: Option<String>)
        requires
            old(self).wf(),
        ensures
            final(self).wf(),
            final(self)@ == old(self)@.insert(key@, text@),
            previous.is_some() == old(self)@.contains_key(key@),
            previous.is_some() ==> previous.unwrap()@ == old(self)@[key@],
    {
        let ghost before = self.inner@;
        let held = self.inner.insert(key, Value::Str(text));
        proof {
            assert(self.inner@ == before.insert(key@, Payload::Str(text@)));
            assert(self@ =~= old(self)@.insert(key@, text@));
        }
        match held {
            Some(v) => v.as_string(),
            None => None,
        }
    }

    /// The keys of the map, in ascending order.
    pub fn keys(&self) -> (r: Vec<String>)
        requires
            self.wf(),
        ensures
            r@.len() == self.ordered_keys().len(),
            forall|i: int| 0 <= i < r@.len() ==> (#[trigger] r@[i])@ == self.ordered_keys()[i],
            strictly_sorted(self.ordered_keys()),
            self.ordered_keys().to_set() == self@.dom(),
    {
        proof {
            assert(self@.dom() =~= self.inner@.dom());
        }
        self.inner.keys()
    }
}

} // verus!
