//! The two conversions between records and ordered maps, and the laws that
//! relate them.

use vstd::prelude::*;
use crate::ordered_map::{entries_map, lemma_entries_map_at, lemma_entries_map_push, GenericMap};
use crate::schema::{conforms, keys_of, valid_schema, FieldView, FromMap, Record, ToMap};
use crate::string_map::StringMap;
use crate::value::{payload_text, Payload};

verus! {

/// Why a map yields no record.
#[derive(Clone, Copy, Debug, PartialEq, Eq, Structural)]
pub enum ConvertError {
    /// The map holds no entry under the serialization key of the field with
    /// this index.
    MissingKey { field: usize },
    /// The entry under the serialization key of the field with this index is
    /// stored under another kind than the field declares.
    KindMismatch { field: usize },
}

/// The map that a record is converted to: one entry per field, under the
/// field's serialization key, holding the field's value.
pub open spec fn record_map(s: Seq<FieldView>, rec: Seq<Payload>) -> Map<Seq<char>, Payload> {
    entries_map(keys_of(s), rec)
}

/// Why a record yields no map of texts: the field with this index holds a
/// floating-point value, which has no text here.
#[derive(Clone, Copy, Debug, PartialEq, Eq, Structural)]
pub struct NoText {
    pub field: usize,
}

/// The texts of the values of a record, in the order of its fields.
pub open spec fn record_texts(rec: Seq<Payload>) -> Seq<Seq<char>> {
    Seq::new(rec.len(), |i: int| payload_text(rec[i]).unwrap())
}

/// The map of texts that a record is converted to: one entry per field, under
/// the field's serialization key, holding the text of the field's value.
pub open spec fn record_text_map(s: Seq<FieldView>, rec: Seq<Payload>) -> Map<
    Seq<char>,
    Seq<char>,
> {
    entries_map(keys_of(s), record_texts(rec))
}

/// Why the field with index `i` cannot be filled from the map, if it cannot.
pub open spec fn field_failure(s: Seq<FieldView>, m: Map<Seq<char>, Payload>, i: int) -> Option<
    ConvertError,
> {
    let key = s[i].key();
    if !m.contains_key(key) {
        Some(ConvertError::MissingKey { field: i as usize })
    } else if m[key].kind() != s[i].kind {
        Some(ConvertError::KindMismatch { field: i as usize })
    } else {
        None
    }
}

/// The failure of the first among the first `n` fields that cannot be filled.
pub open spec fn first_failure(s: Seq<FieldView>, m: Map<Seq<char>, Payload>, n: int) -> Option<
    ConvertError,
>
    decreases n,
{
    if n <= 0 {
        None
    } else {
        match first_failure(s, m, n - 1) {
            Some(e) => Some(e),
            None => field_failure(s, m, n - 1),
        }
    }
}

/// The record that a map is converted to: each field holds the value stored
/// under its serialization key; or the failure of the first field, in
/// declaration order, whose key is missing or whose value is of another kind.
pub open spec fn map_record(s: Seq<FieldView>, m: Map<Seq<char>, Payload>) -> Result<
    Seq<Payload>,
    ConvertError,
> {
    match first_failure(s, m, s.len() as int) {
        Some(e) => Err(e),
        None => Ok(Seq::new(s.len(), |i: int| m[s[i].key()])),
    }
}

/// A failure among the first `n` fields stays the first failure of any longer
/// prefix.
pub proof fn lemma_first_failure_stays(
    s: Seq<FieldView>,
    m: Map<Seq<char>, Payload>,
    n: int,
    k: int,
)
    requires
        0 <= n <= k,
        first_failure(s, m, n).is_some(),
    ensures
        first_failure(s, m, k) == first_failure(s, m, n),
    decreases k - n,
{
    if n < k {
        lemma_first_failure_stays(s, m, n, k - 1);
    }
}

/// The first `n` fields are without failure exactly when each of them is.
pub proof fn lemma_first_failure_none(s: Seq<FieldView>, m: Map<Seq<char>, Payload>, n: int)
    requires
        0 <= n,
    ensures
        first_failure(s, m, n).is_none() <==> (forall|i: int|
            0 <= i < n ==> (#[trigger] field_failure(s, m, i)).is_none()),
    decreases n,
{
    if n > 0 {
        lemma_first_failure_none(s, m, n - 1);
        if first_failure(s, m, n).is_none() {
            assert forall|i: int| 0 <= i < n implies (#[trigger] field_failure(
                s,
                m,
                i,
            )).is_none() by {}
        } else if first_failure(s, m, n - 1).is_none() {
            assert(field_failure(s, m, n - 1).is_some());
        }
    }
}

impl ToMap {
    /// Converts a record into a fresh map: every field is emitted, under its
    /// serialization key, as the value it holds.
    pub fn to_genericmap(&self, record: &Record) -> (m: GenericMap)
        requires
            self.schema.wf(),
            record@.len() == self.schema@.len(),
        ensures
            m.wf(),
            m@ == record_map(self.schema@, record@),
            m@.dom() == keys_of(self.schema@).to_set(),
            m@.dom().len() == self.schema@.len(),
            forall|i: int|
                0 <= i < self.schema@.len() ==> m@[(#[trigger] self.schema@[i]).key()] == record@[i],
    {
        let ghost keys = keys_of(self.schema@);
        let ghost vals = record@;
        let n: usize = self.schema.fields.len();
        let mut m = GenericMap::new();
        let mut i: usize = 0;
        proof {
            assert(entries_map(keys.take(0), vals.take(0)) =~= Map::<Seq<char>, Payload>::empty());
        }
        while i < n
            invariant
                keys == keys_of(self.schema@),
                vals == record@,
                keys.no_duplicates(),
                n == self.schema.fields@.len(),
                n == record.values@.len(),
                i <= n,
                m.wf(),
                m@ == entries_map(keys.take(i as int), vals.take(i as int)),
            decreases n - i,
        {
            let key: String = self.schema.fields[i].serialization_key().to_owned();
            let value = record.values[i].clone();
            proof {
                assert(keys.take(i + 1) =~= keys.take(i as int).push(keys[i as int]));
                assert(vals.take(i + 1) =~= vals.take(i as int).push(vals[i as int]));
                let longer = keys.take(i + 1);
                assert forall|a: int, b: int|
                    0 <= a < longer.len() && 0 <= b < longer.len() && a != b implies longer[a]
                    != longer[b] by {
                    assert(longer[a] == keys[a] && longer[b] == keys[b]);
                }
                lemma_entries_map_push(
                    keys.take(i as int),
                    vals.take(i as int),
                    keys[i as int],
                    vals[i as int],
                );
            }
            m.insert(key, value);
            i = i + 1;
        }
        proof {
            assert(keys.take(n as int) =~= keys);
            assert(vals.take(n as int) =~= vals);
            assert(m@.dom() =~= keys.to_set());
            keys.unique_seq_to_set();
            assert forall|i: int| 0 <= i < self.schema@.len() implies m@[(#[trigger] self.schema@[i]).key()]
                == record@[i] by {
                lemma_entries_map_at(keys, vals, i);
            }
        }
        m
    }
}

impl ToMap {
    /// Converts a record into a fresh map of texts: every field is emitted,
    /// under its serialization key, as the text of the value it holds. The
    /// conversion fails as a whole at the first field, in declaration order,
    /// that holds a floating-point value.
    pub fn to_stringmap(&self, record: &Record) -> (r: Result<StringMap, NoText>)
        requires
            self.schema.wf(),
            record@.len() == self.schema@.len(),
        ensures
            match r {
                Ok(m) => {
                    &&& m.wf()
                    &&& forall|i: int|
                        0 <= i < record@.len() ==> payload_text(#[trigger] record@[i]).is_some()
                    &&& m@ == record_text_map(self.schema@, record@)
                    &&& m@.dom() == keys_of(self.schema@).to_set()
                    &&& m@.dom().len() == self.schema@.len()
                    &&& forall|i: int|
                        0 <= i < self.schema@.len() ==> m@[(#[trigger] self.schema@[i]).key()]
                            == payload_text(record@[i]).unwrap()
                },
                Err(e) => {
                    &&& e.field < record@.len()
                    &&& payload_text(record@[e.field as int]).is_none()
                    &&& forall|i: int|
                        0 <= i < e.field ==> payload_text(#[trigger] record@[i]).is_some()
                },
            },
    {
        let ghost keys = keys_of(self.schema@);
        let ghost vals = record_texts(record@);
        let n: usize = self.schema.fields.len();
        let mut m = StringMap::new();
        let mut i: usize = 0;
        proof {
            assert(entries_map(keys.take(0), vals.take(0)) =~= Map::<Seq<char>, Seq<char>>::empty());
        }
        while i < n
            invariant
                keys == keys_of(self.schema@),
                vals == record_texts(record@),
                keys.no_duplicates(),
                n == self.schema.fields@.len(),
                n == record.values@.len(),
                i <= n,
                m.wf(),
                m@ == entries_map(keys.take(i as int), vals.take(i as int)),
                forall|j: int| 0 <= j < i ==> payload_text(#[trigger] record@[j]).is_some(),
            decreases n - i,
        {
            let text = match record.values[i].text() {
                Some(t) => t,
                None => {
                    return Err(NoText { field: i });
                },
            };
            let key: String = self.schema.fields[i].serialization_key().to_owned();
            proof {
                assert(keys.take(i + 1) =~= keys.take(i as int).push(keys[i as int]));
                assert(vals.take(i + 1) =~= vals.take(i as int).push(vals[i as int]));
                let longer = keys.take(i + 1);
                assert forall|a: int, b: int|
                    0 <= a < longer.len() && 0 <= b < longer.len() && a != b implies longer[a]
                    != longer[b] by {
                    assert(longer[a] == keys[a] && longer[b] == keys[b]);
                }
                lemma_entries_map_push(
                    keys.take(i as int),
                    vals.take(i as int),
                    keys[i as int],
                    vals[i as int],
                );
            }
            m.insert(key, text);
            i = i + 1;
        }
        proof {
            assert(keys.take(n as int) =~= keys);
            assert(vals.take(n as int) =~= vals);
            assert(m@.dom() =~= keys.to_set());
            keys.unique_seq_to_set();
            assert forall|i: int| 0 <= i < self.schema@.len() implies m@[(#[trigger] self.schema@[i]).key()]
                == payload_text(record@[i]).unwrap() by {
                lemma_entries_map_at(keys, vals, i);
            }
        }
        Ok(m)
    }
}

impl FromMap {
    /// Converts a map into a record. Starting from the default record, every
    /// field is overwritten with the value stored under its serialization
    /// key; entries under other keys are ignored. The conversion fails as a
    /// whole at the first field, in declaration order, whose key is missing
    /// or whose stored value is of another kind than the field declares.
    pub fn from_genericmap(&self, map: &GenericMap) -> (r: Result<Record, ConvertError>)
        requires
            map.wf(),
        ensures
            match r {
                Ok(rec) => map_record(self.schema@, map@) == Ok::<Seq<Payload>, ConvertError>(
                    rec@,
                ) && conforms(self.schema@, rec@),
                Err(e) => map_record(self.schema@, map@) == Err::<Seq<Payload>, ConvertError>(e),
            },
    {
        let ghost s = self.schema@;
        let n: usize = self.schema.fields.len();
        let mut settings = self.schema.default_record();
        let mut i: usize = 0;
        while i < n
            invariant
                map.wf(),
                s == self.schema@,
                n == self.schema.fields@.len(),
                settings.values@.len() == n,
                i <= n,
                first_failure(s, map@, i as int).is_none(),
                forall|j: int| 0 <= j < i ==> map@.contains_key((#[trigger] s[j]).key()),
                forall|j: int| 0 <= j < i ==> (#[trigger] settings@[j]) == map@[s[j].key()],
                forall|j: int| 0 <= j < i ==> (#[trigger] settings@[j]).kind() == s[j].kind,
            decreases n - i,
        {
            let field = &self.schema.fields[i];
            let stored = match map.get(field.serialization_key()) {
                Some(v) => v,
                None => {
                    proof {
                        assert(first_failure(s, map@, i + 1) == Some(
                            ConvertError::MissingKey { field: i },
                        ));
                        lemma_first_failure_stays(s, map@, i + 1, n as int);
                    }
                    return Err(ConvertError::MissingKey { field: i });
                },
            };
            let value = match stored.extract(field.kind) {
                Some(v) => v,
                None => {
                    proof {
                        assert(first_failure(s, map@, i + 1) == Some(
                            ConvertError::KindMismatch { field: i },
                        ));
                        lemma_first_failure_stays(s, map@, i + 1, n as int);
                    }
                    return Err(ConvertError::KindMismatch { field: i });
                },
            };
            let ghost before = settings@;
            settings.values.set(i, value);
            proof {
                assert forall|j: int| 0 <= j < i implies (#[trigger] settings@[j]) == before[j] by {}
                assert(field_failure(s, map@, i as int).is_none());
            }
            i = i + 1;
        }
        proof {
            assert(settings@ =~= Seq::new(s.len(), |i: int| map@[s[i].key()]));
        }
        Ok(settings)
    }
}

/// Round trip: a record of a valid field list, converted to a map and back
/// under the same field list, is the record again.
pub proof fn lemma_round_trip(s: Seq<FieldView>, rec: Seq<Payload>)
    requires
        valid_schema(s),
        conforms(s, rec),
    ensures
        map_record(s, record_map(s, rec)) == Ok::<Seq<Payload>, ConvertError>(rec),
{
    let m = record_map(s, rec);
    assert forall|i: int| 0 <= i < s.len() implies (#[trigger] field_failure(s, m, i)).is_none() by {
        lemma_entries_map_at(keys_of(s), rec, i);
    }
    assert forall|i: int| 0 <= i < s.len() implies m[(#[trigger] s[i]).key()] == rec[i] by {
        lemma_entries_map_at(keys_of(s), rec, i);
    }
    lemma_first_failure_none(s, m, s.len() as int);
    assert(Seq::new(s.len(), |i: int| m[s[i].key()]) =~= rec);
}

/// Key fidelity: the map of a record holds exactly one entry per field. The
/// entry of a field stands under its serialization key and holds its value;
/// the name of a renamed field is a key of the map only where it is the
/// serialization key of some field.
pub proof fn lemma_key_fidelity(s: Seq<FieldView>, rec: Seq<Payload>, i: int)
    requires
        valid_schema(s),
        rec.len() == s.len(),
        0 <= i < s.len(),
    ensures
        record_map(s, rec).dom().finite(),
        record_map(s, rec).dom().len() == s.len(),
        record_map(s, rec).dom() == keys_of(s).to_set(),
        record_map(s, rec).contains_key(s[i].key()),
        record_map(s, rec)[s[i].key()] == rec[i],
        s[i].rename.is_some() ==> record_map(s, rec).contains_key(s[i].rename.unwrap()),
        record_map(s, rec).contains_key(s[i].name) <==> (exists|j: int|
            0 <= j < s.len() && (#[trigger] s[j]).key() == s[i].name),
{
    let keys = keys_of(s);
    let m = record_map(s, rec);
    assert(m.dom() =~= keys.to_set());
    keys.unique_seq_to_set();
    lemma_entries_map_at(keys, rec, i);
    if m.contains_key(s[i].name) {
        let j = keys.index_of(s[i].name);
        assert(s[j].key() == s[i].name);
    }
    if exists|j: int| 0 <= j < s.len() && (#[trigger] s[j]).key() == s[i].name {
        let j = choose|j: int| 0 <= j < s.len() && (#[trigger] s[j]).key() == s[i].name;
        assert(keys[j] == s[i].name);
    }
}

/// A field with its serialization key replaced by `target`.
pub open spec fn renamed(field: FieldView, target: Seq<char>) -> FieldView {
    FieldView { name: field.name, kind: field.kind, rename: Some(target) }
}

/// A rename is local: giving one field a rename changes the serialization
/// key of that field and of no other.
pub proof fn lemma_rename_is_local(s: Seq<FieldView>, i: int, target: Seq<char>)
    requires
        0 <= i < s.len(),
    ensures
        keys_of(s.update(i, renamed(s[i], target))) == keys_of(s).update(i, target),
{
    assert(keys_of(s.update(i, renamed(s[i], target))) =~= keys_of(s).update(i, target));
}

/// Superset tolerance: a map that converts to a record converts to the same
/// record when entries under other keys are added to it.
pub proof fn lemma_superset_tolerance(
    s: Seq<FieldView>,
    m: Map<Seq<char>, Payload>,
    larger: Map<Seq<char>, Payload>,
)
    requires
        m.submap_of(larger),
        map_record(s, m).is_ok(),
    ensures
        map_record(s, larger) == map_record(s, m),
{
    lemma_first_failure_none(s, m, s.len() as int);
    assert forall|i: int| 0 <= i < s.len() implies (#[trigger] field_failure(s, larger, i)).is_none() by {
        assert(field_failure(s, m, i).is_none());
        assert(m.dom().contains(s[i].key()));
    }
    assert forall|i: int| 0 <= i < s.len() implies larger[(#[trigger] s[i]).key()] == m[s[i].key()] by {
        assert(field_failure(s, m, i).is_none());
        assert(m.dom().contains(s[i].key()));
    }
    lemma_first_failure_none(s, larger, s.len() as int);
    assert(Seq::new(s.len(), |i: int| larger[s[i].key()]) =~= Seq::new(
        s.len(),
        |i: int| m[s[i].key()],
    ));
}

/// Missing-key failure: a map that lacks the serialization key of any field
/// converts to no record.
pub proof fn lemma_missing_key_fails(s: Seq<FieldView>, m: Map<Seq<char>, Payload>, i: int)
    requires
        0 <= i < s.len(),
        !m.contains_key(s[i].key()),
    ensures
        map_record(s, m).is_err(),
{
    lemma_first_failure_none(s, m, s.len() as int);
    assert(field_failure(s, m, i).is_some());
}

/// Kind-mismatch failure: a map that holds, under the serialization key of
/// any field, a value of another kind than the field declares converts to no
/// record.
pub proof fn lemma_kind_mismatch_fails(s: Seq<FieldView>, m: Map<Seq<char>, Payload>, i: int)
    requires
        0 <= i < s.len(),
        m.contains_key(s[i].key()),
        m[s[i].key()].kind() != s[i].kind,
    ensures
        map_record(s, m).is_err(),
{
    lemma_first_failure_none(s, m, s.len() as int);
    assert(field_failure(s, m, i).is_some());
}

} // verus!
