//! Dynamic per-instance property storage.
//!
//! A scripting layer addresses instance variables by an integer field
//! identifier.  Each slot is a [`Field`]: either a single scalar or a sparse
//! indexed array of scalars, where an absent index is distinct from a
//! zero-valued one.  Both the alarm table and the array variant are sparse
//! integer-keyed maps, kept as association lists so that iteration order is
//! deterministic; their mathematical model is a `Map<int, _>`.

use vstd::prelude::*;

verus! {

/// The map an association list denotes: later entries win (under
/// [`keys_unique`] no key occurs twice, so the order never matters).
pub open spec fn map_of(s: Seq<(i32, i64)>) -> Map<int, i64>
    decreases s.len(),
{
    if s.len() == 0 {
        Map::empty()
    } else {
        map_of(s.drop_last()).insert(s.last().0 as int, s.last().1)
    }
}

/// No key occurs twice in the list.
pub open spec fn keys_unique(s: Seq<(i32, i64)>) -> bool {
    forall|i: int, j: int| 0 <= i < j < s.len() ==> s[i].0 != s[j].0
}

/// A key is in the denoted map exactly when some entry carries it.
pub proof fn lemma_map_of_contains(s: Seq<(i32, i64)>, k: int)
    ensures
        map_of(s).contains_key(k) <==> exists|i: int| 0 <= i < s.len() && s[i].0 == k,
    decreases s.len(),
{
    if s.len() == 0 {
    } else {
        lemma_map_of_contains(s.drop_last(), k);
        if s.last().0 == k {
            assert(s[s.len() - 1].0 == k);
        } else {
            if map_of(s).contains_key(k) {
                let i = choose|i: int| 0 <= i < s.drop_last().len() && s.drop_last()[i].0 == k;
                assert(s[i].0 == k);
            }
            if exists|i: int| 0 <= i < s.len() && s[i].0 == k {
                let i = choose|i: int| 0 <= i < s.len() && s[i].0 == k;
                assert(i < s.len() - 1);
                assert(s.drop_last()[i].0 == k);
            }
        }
    }
}

/// Under unique keys, the entry at `i` gives the map's value at its key.
pub proof fn lemma_map_of_value(s: Seq<(i32, i64)>, i: int)
    requires
        keys_unique(s),
        0 <= i < s.len(),
    ensures
        map_of(s).contains_key(s[i].0 as int),
        map_of(s)[s[i].0 as int] == s[i].1,
    decreases s.len(),
{
    if i == s.len() - 1 {
    } else {
        assert(keys_unique(s.drop_last()));
        lemma_map_of_value(s.drop_last(), i);
        assert(s.drop_last()[i] == s[i]);
        assert(s[i].0 != s.last().0);
    }
}

/// Replacing the value of the entry at `i` inserts over its key.
pub proof fn lemma_map_of_update(s: Seq<(i32, i64)>, i: int, v: i64)
    requires
        keys_unique(s),
        0 <= i < s.len(),
    ensures
        map_of(s.update(i, (s[i].0, v))) == map_of(s).insert(s[i].0 as int, v),
    decreases s.len(),
{
    let k = s[i].0;
    let t = s.update(i, (k, v));
    if i == s.len() - 1 {
        assert(t.drop_last() =~= s.drop_last());
        assert(t.last() == (k, v));
        assert(map_of(s).insert(k as int, v) =~= map_of(s.drop_last()).insert(k as int, v));
    } else {
        assert(keys_unique(s.drop_last()));
        lemma_map_of_update(s.drop_last(), i, v);
        assert(s.drop_last()[i] == s[i]);
        assert(t.drop_last() =~= s.drop_last().update(i, (k, v)));
        assert(t.last() == s.last());
        assert(k != s.last().0);
        assert(map_of(t) =~= map_of(s).insert(k as int, v));
    }
}

/// Appending a fresh entry inserts its pair.
pub proof fn lemma_map_of_push(s: Seq<(i32, i64)>, k: i32, v: i64)
    ensures
        map_of(s.push((k, v))) == map_of(s).insert(k as int, v),
{
    assert(s.push((k, v)).drop_last() =~= s);
    assert(s.push((k, v)).last() == (k, v));
}

/// Sparse integer-keyed map of scalars with deterministic iteration order.
pub struct ScalarMap {
    entries: Vec<(i32, i64)>,
}

impl View for ScalarMap {
    type V = Map<int, i64>;

    closed spec fn view(&self) -> Map<int, i64> {
        map_of(self.entries@)
    }
}

impl ScalarMap {
    /// Keys are unique, so lookups are unambiguous.
    pub closed spec fn wf(&self) -> bool {
        keys_unique(self.entries@)
    }

    /// The entries in iteration order.
    pub closed spec fn seq(&self) -> Seq<(i32, i64)> {
        self.entries@
    }

    /// An empty map.
    pub fn new() -> (r: ScalarMap)
        ensures
            r.wf(),
            r@ == Map::<int, i64>::empty(),
            r.seq() == Seq::<(i32, i64)>::empty(),
    {
        ScalarMap { entries: Vec::new() }
    }

    /// The value at `key`, or absence.
    pub fn get(&self, key: i32) -> (r: Option<i64>)
        requires
            self.wf(),
        ensures
            match r {
                Some(v) => self@.contains_key(key as int) && v == self@[key as int],
                None => !self@.contains_key(key as int),
            },
    {
        let n = self.entries.len();
        for idx in 0..n
            invariant
                n == self.entries.len(),
                self.wf(),
                forall|j: int| 0 <= j < idx ==> self.entries@[j].0 != key,
        {
            if self.entries[idx].0 == key {
                proof {
                    lemma_map_of_value(self.entries@, idx as int);
                }
                return Some(self.entries[idx].1);
            }
        }
        proof {
            lemma_map_of_contains(self.entries@, key as int);
        }
        None
    }

    /// Sets `key` to `value`; no other key is affected.
    pub fn set(&mut self, key: i32, value: i64)
        requires
            old(self).wf(),
        ensures
            final(self).wf(),
            final(self)@ == old(self)@.insert(key as int, value),
    {
        let n = self.entries.len();
        for idx in 0..n
            invariant
                n == self.entries.len(),
                self == old(self),
                self.wf(),
                forall|j: int| 0 <= j < idx ==> self.entries@[j].0 != key,
        {
            if self.entries[idx].0 == key {
                proof {
                    lemma_map_of_update(self.entries@, idx as int, value);
                }
                self.entries.set(idx, (key, value));
                return;
            }
        }
        proof {
            lemma_map_of_push(self.entries@, key, value);
            assert(keys_unique(self.entries@.push((key, value))));
        }
        self.entries.push((key, value));
    }

    /// The entries in iteration order, for display layers.
    pub fn entries(&self) -> (r: &Vec<(i32, i64)>)
        ensures
            r@ == self.seq(),
    {
        &self.entries
    }

    /// Every listed entry is in the map, and every key in the map is listed.
    pub proof fn lemma_seq_agrees_with_map(&self)
        requires
            self.wf(),
        ensures
            forall|i: int|
                0 <= i < self.seq().len() ==> self@.contains_key(#[trigger] self.seq()[i].0 as int)
                    && self@[self.seq()[i].0 as int] == self.seq()[i].1,
            forall|k: int| self@.contains_key(k)
                ==> exists|i: int| 0 <= i < self.seq().len() && #[trigger] self.seq()[i].0 == k,
    {
        assert forall|i: int| 0 <= i < self.seq().len() implies self@.contains_key(
            #[trigger] self.seq()[i].0 as int,
        ) && self@[self.seq()[i].0 as int] == self.seq()[i].1 by {
            lemma_map_of_value(self.entries@, i);
        }
        assert forall|k: int| self@.contains_key(k) implies exists|i: int|
            0 <= i < self.seq().len() && #[trigger] self.seq()[i].0 == k by {
            lemma_map_of_contains(self.entries@, k);
            let i = choose|i: int| 0 <= i < self.entries@.len() && self.entries@[i].0 == k;
            assert(self.seq()[i].0 == k);
        }
    }

    /// An exact copy, owned independently of `self`.
    pub fn duplicate(&self) -> (r: ScalarMap)
        requires
            self.wf(),
        ensures
            r.wf(),
            r@ == self@,
            r.seq() == self.seq(),
    {
        let mut out: Vec<(i32, i64)> = Vec::new();
        let n = self.entries.len();
        for idx in 0..n
            invariant
                n == self.entries.len(),
                out@ == self.entries@.take(idx as int),
        {
            out.push(self.entries[idx]);
            proof {
                assert(self.entries@.take(idx + 1) =~= self.entries@.take(idx as int).push(
                    self.entries@[idx as int],
                ));
            }
        }
        proof {
            assert(out@ =~= self.entries@);
        }
        ScalarMap { entries: out }
    }
}

/// One dynamic property slot: a single scalar, or a sparse indexed array of
/// scalars.  An index absent from the array is "unset", which is observably
/// different from an index holding zero.
pub enum Field {
    Single(i64),
    Array(ScalarMap),
}

/// Mathematical model of a [`Field`].
#[verifier::ext_equal]
pub enum FieldV {
    Single(i64),
    Array(Map<int, i64>),
}

impl View for Field {
    type V = FieldV;

    open spec fn view(&self) -> FieldV {
        match self {
            Field::Single(v) => FieldV::Single(*v),
            Field::Array(m) => FieldV::Array(m@),
        }
    }
}

impl Field {
    /// Array entries have unique keys.
    pub open spec fn wf(&self) -> bool {
        match self {
            Field::Single(_) => true,
            Field::Array(m) => m.wf(),
        }
    }

    /// An exact copy, owned independently of `self`.
    pub fn duplicate(&self) -> (r: Field)
        requires
            self.wf(),
        ensures
            r.wf(),
            r@ == self@,
    {
        match self {
            Field::Single(v) => Field::Single(*v),
            Field::Array(m) => Field::Array(m.duplicate()),
        }
    }
}

/// The map a field association list denotes, valued in field models.
pub open spec fn field_map_of(s: Seq<(i32, Field)>) -> Map<int, FieldV>
    decreases s.len(),
{
    if s.len() == 0 {
        Map::empty()
    } else {
        field_map_of(s.drop_last()).insert(s.last().0 as int, s.last().1@)
    }
}

/// No field identifier occurs twice.
pub open spec fn field_keys_unique(s: Seq<(i32, Field)>) -> bool {
    forall|i: int, j: int| 0 <= i < j < s.len() ==> s[i].0 != s[j].0
}

/// A key is in the denoted map exactly when some entry carries it.
pub proof fn lemma_field_map_of_contains(s: Seq<(i32, Field)>, k: int)
    ensures
        field_map_of(s).contains_key(k) <==> exists|i: int| 0 <= i < s.len() && s[i].0 == k,
    decreases s.len(),
{
    if s.len() == 0 {
    } else {
        lemma_field_map_of_contains(s.drop_last(), k);
        if s.last().0 == k {
            assert(s[s.len() - 1].0 == k);
        } else {
            if field_map_of(s).contains_key(k) {
                let i = choose|i: int| 0 <= i < s.drop_last().len() && s.drop_last()[i].0 == k;
                assert(s[i].0 == k);
            }
            if exists|i: int| 0 <= i < s.len() && s[i].0 == k {
                let i = choose|i: int| 0 <= i < s.len() && s[i].0 == k;
                assert(i < s.len() - 1);
                assert(s.drop_last()[i].0 == k);
            }
        }
    }
}

/// Under unique keys, the entry at `i` gives the map's value at its key.
pub proof fn lemma_field_map_of_value(s: Seq<(i32, Field)>, i: int)
    requires
        field_keys_unique(s),
        0 <= i < s.len(),
    ensures
        field_map_of(s).contains_key(s[i].0 as int),
        field_map_of(s)[s[i].0 as int] == s[i].1@,
    decreases s.len(),
{
    if i == s.len() - 1 {
    } else {
        assert(field_keys_unique(s.drop_last()));
        lemma_field_map_of_value(s.drop_last(), i);
        assert(s.drop_last()[i] == s[i]);
        assert(s[i].0 != s.last().0);
    }
}

/// Replacing the entry at `i` by one with the same key inserts over that key.
pub proof fn lemma_field_map_of_update(s: Seq<(i32, Field)>, i: int, f: Field)
    requires
        field_keys_unique(s),
        0 <= i < s.len(),
    ensures
        field_map_of(s.update(i, (s[i].0, f))) == field_map_of(s).insert(s[i].0 as int, f@),
    decreases s.len(),
{
    let k = s[i].0;
    let t = s.update(i, (k, f));
    if i == s.len() - 1 {
        assert(t.drop_last() =~= s.drop_last());
        assert(t.last() == (k, f));
        assert(field_map_of(s).insert(k as int, f@) =~= field_map_of(s.drop_last()).insert(
            k as int,
            f@,
        ));
    } else {
        assert(field_keys_unique(s.drop_last()));
        lemma_field_map_of_update(s.drop_last(), i, f);
        assert(s.drop_last()[i] == s[i]);
        assert(t.drop_last() =~= s.drop_last().update(i, (k, f)));
        assert(t.last() == s.last());
        assert(k != s.last().0);
        assert(field_map_of(t) =~= field_map_of(s).insert(k as int, f@));
    }
}

/// Appending a fresh entry inserts its pair.
pub proof fn lemma_field_map_of_push(s: Seq<(i32, Field)>, k: i32, f: Field)
    ensures
        field_map_of(s.push((k, f))) == field_map_of(s).insert(k as int, f@),
{
    assert(s.push((k, f)).drop_last() =~= s);
    assert(s.push((k, f)).last() == (k, f));
}

/// What reading `index` of a field slot yields: absence is the defined
/// "unset" indicator, distinct from any stored value.  A single scalar reads
/// as index 0 of a one-element array.
pub open spec fn array_read(f: Option<FieldV>, index: int) -> Option<i64> {
    match f {
        None => None,
        Some(FieldV::Single(s)) => if index == 0 {
            Some(s)
        } else {
            None
        },
        Some(FieldV::Array(m)) => if m.contains_key(index) {
            Some(m[index])
        } else {
            None
        },
    }
}

/// The field slot after writing `value` at `index`: an absent slot becomes a
/// one-entry array, a single scalar becomes an array carrying it at index 0,
/// and an array gains or replaces exactly the written index.
pub open spec fn array_write(f: Option<FieldV>, index: int, value: i64) -> FieldV {
    match f {
        None => FieldV::Array(Map::empty().insert(index, value)),
        Some(FieldV::Single(s)) => FieldV::Array(
            Map::empty().insert(0, s).insert(index, value),
        ),
        Some(FieldV::Array(m)) => FieldV::Array(m.insert(index, value)),
    }
}

/// Writing one array index leaves every other index exactly as it was: a
/// written index never clears, sets or alters the unset status of another.
pub proof fn lemma_array_write_independent(f: Option<FieldV>, i: int, j: int, value: i64)
    requires
        i != j,
    ensures
        array_read(Some(array_write(f, i, value)), j) == array_read(f, j),
{
}

/// Sparse map from field identifier to [`Field`], deterministic in order.
pub struct FieldMap {
    entries: Vec<(i32, Field)>,
}

impl View for FieldMap {
    type V = Map<int, FieldV>;

    closed spec fn view(&self) -> Map<int, FieldV> {
        field_map_of(self.entries@)
    }
}

impl FieldMap {
    /// Keys are unique and every stored field is well formed.
    pub closed spec fn wf(&self) -> bool {
        field_keys_unique(self.entries@) && forall|i: int|
            0 <= i < self.entries@.len() ==> (#[trigger] self.entries@[i].1).wf()
    }

    /// The entries in iteration order.
    pub closed spec fn seq(&self) -> Seq<(i32, Field)> {
        self.entries@
    }

    /// An empty map.
    pub fn new() -> (r: FieldMap)
        ensures
            r.wf(),
            r@ == Map::<int, FieldV>::empty(),
            r.seq() == Seq::<(i32, Field)>::empty(),
    {
        FieldMap { entries: Vec::new() }
    }

    /// The field stored under `key`, or absence.
    pub fn get(&self, key: i32) -> (r: Option<&Field>)
        requires
            self.wf(),
        ensures
            match r {
                Some(f) => self@.contains_key(key as int) && f@ == self@[key as int] && f.wf(),
                None => !self@.contains_key(key as int),
            },
    {
        let n = self.entries.len();
        for idx in 0..n
            invariant
                n == self.entries.len(),
                self.wf(),
                forall|j: int| 0 <= j < idx ==> self.entries@[j].0 != key,
        {
            if self.entries[idx].0 == key {
                proof {
                    lemma_field_map_of_value(self.entries@, idx as int);
                }
                return Some(&self.entries[idx].1);
            }
        }
        proof {
            lemma_field_map_of_contains(self.entries@, key as int);
        }
        None
    }

    /// Stores `field` under `key`; no other key is affected.
    pub fn set(&mut self, key: i32, field: Field)
        requires
            old(self).wf(),
            field.wf(),
        ensures
            final(self).wf(),
            final(self)@ == old(self)@.insert(key as int, field@),
    {
        let n = self.entries.len();
        let ghost fv = field@;
        for idx in 0..n
            invariant
                n == self.entries.len(),
                self == old(self),
                self.wf(),
                field.wf(),
                field@ == fv,
                forall|j: int| 0 <= j < idx ==> self.entries@[j].0 != key,
        {
            if self.entries[idx].0 == key {
                proof {
                    lemma_field_map_of_update(self.entries@, idx as int, field);
                }
                self.entries.set(idx, (key, field));
                return;
            }
        }
        proof {
            lemma_field_map_of_push(self.entries@, key, field);
            assert(field_keys_unique(self.entries@.push((key, field))));
        }
        self.entries.push((key, field));
    }

    /// The entries in iteration order, for display layers.
    pub fn entries(&self) -> (r: &Vec<(i32, Field)>)
        ensures
            r@ == self.seq(),
    {
        &self.entries
    }

    /// Writes one index of the array variant stored under `key`; no other
    /// index and no other key is affected.  An absent or single-valued slot
    /// is promoted to an array first, a single scalar becoming index 0.
    pub fn set_array_entry(&mut self, key: i32, index: i32, value: i64)
        requires
            old(self).wf(),
        ensures
            final(self).wf(),
            final(self)@ == old(self)@.insert(
                key as int,
                array_write(
                    if old(self)@.contains_key(key as int) {
                        Some(old(self)@[key as int])
                    } else {
                        None
                    },
                    index as int,
                    value,
                ),
            ),
    {
        let n = self.entries.len();
        for idx in 0..n
            invariant
                n == self.entries.len(),
                self == old(self),
                self.wf(),
                forall|j: int| 0 <= j < idx ==> self.entries@[j].0 != key,
        {
            if self.entries[idx].0 == key {
                proof {
                    lemma_field_map_of_value(self.entries@, idx as int);
                }
                let mut taken: (i32, Field) = (0, Field::Single(0));
                std::mem::swap(&mut taken, &mut self.entries[idx]);
                let nf = match taken.1 {
                    Field::Single(s) => {
                        let mut m = ScalarMap::new();
                        m.set(0, s);
                        m.set(index, value);
                        Field::Array(m)
                    },
                    Field::Array(mut m) => {
                        m.set(index, value);
                        Field::Array(m)
                    },
                };
                proof {
                    assert(nf@ == array_write(
                        Some(old(self)@[key as int]),
                        index as int,
                        value,
                    ));
                    assert(self.entries@.update(idx as int, (key, nf)) =~= old(
                        self,
                    ).entries@.update(idx as int, (key, nf)));
                    lemma_field_map_of_update(old(self).entries@, idx as int, nf);
                }
                self.entries.set(idx, (key, nf));
                return;
            }
        }
        let mut m = ScalarMap::new();
        m.set(index, value);
        let nf = Field::Array(m);
        proof {
            lemma_field_map_of_contains(self.entries@, key as int);
            lemma_field_map_of_push(self.entries@, key, nf);
            assert(field_keys_unique(self.entries@.push((key, nf))));
        }
        self.entries.push((key, nf));
    }

    /// Reads one index of the slot stored under `key`: the defined unset
    /// indicator (absence) when the key or the index is unset.
    pub fn get_array_entry(&self, key: i32, index: i32) -> (r: Option<i64>)
        requires
            self.wf(),
        ensures
            r == array_read(
                if self@.contains_key(key as int) {
                    Some(self@[key as int])
                } else {
                    None
                },
                index as int,
            ),
    {
        match self.get(key) {
            None => None,
            Some(f) => match f {
                Field::Single(s) => if index == 0 {
                    Some(*s)
                } else {
                    None
                },
                Field::Array(m) => m.get(index),
            },
        }
    }

    /// An exact copy, owned independently of `self`.
    pub fn duplicate(&self) -> (r: FieldMap)
        requires
            self.wf(),
        ensures
            r.wf(),
            r@ == self@,
    {
        let mut out: Vec<(i32, Field)> = Vec::new();
        let n = self.entries.len();
        for idx in 0..n
            invariant
                n == self.entries.len(),
                self.wf(),
                out@.len() == idx,
                field_keys_unique(out@),
                forall|j: int| 0 <= j < idx ==> #[trigger] out@[j].0 == self.entries@[j].0,
                forall|j: int| 0 <= j < idx ==> (#[trigger] out@[j].1)@ == self.entries@[j].1@,
                forall|j: int| 0 <= j < idx ==> (#[trigger] out@[j].1).wf(),
                field_map_of(out@) == field_map_of(self.entries@.take(idx as int)),
        {
            let entry = &self.entries[idx];
            let copy = entry.1.duplicate();
            proof {
                lemma_field_map_of_push(out@, entry.0, copy);
                assert(self.entries@.take(idx + 1).drop_last() =~= self.entries@.take(idx as int));
                assert(self.entries@.take(idx + 1).last() == self.entries@[idx as int]);
            }
            out.push((entry.0, copy));
        }
        proof {
            assert(self.entries@.take(n as int) =~= self.entries@);
        }
        FieldMap { entries: out }
    }
}

} // verus!
