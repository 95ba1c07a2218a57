//! A map kept as a list of rows.

use vstd::prelude::*;

verus! {

/// Something to look rows up by.
pub trait Key: Sized {
    /// What two keys that are the same have in common.
    type Name;

    spec fn name(&self) -> Self::Name;

    fn same_key(&self, other: &Self) -> (same: bool)
        ensures
            same == (self.name() == other.name()),
    ;
}

impl Key for String {
    type Name = Seq<char>;

    open spec fn name(&self) -> Seq<char> {
        self@
    }

    fn same_key(&self, other: &Self) -> (same: bool) {
        *self == *other
    }
}

/// No key has two rows.
pub open spec fn distinct_rows<K: Key, V>(rows: Seq<(K, V)>) -> bool {
    forall|i: int, j: int|
        0 <= i < j < rows.len() ==> (#[trigger] rows[i]).0.name() != (#[trigger] rows[j]).0.name()
}

/// The map that rows describe.
pub open spec fn rows_map<K: Key, V>(rows: Seq<(K, V)>) -> Map<K::Name, V>
    decreases rows.len(),
{
    if rows.len() == 0 {
        Map::empty()
    } else {
        rows_map(rows.drop_last()).insert(rows.last().0.name(), rows.last().1)
    }
}

/// A row's value stands in the map under the row's key.
pub proof fn lemma_row<K: Key, V>(rows: Seq<(K, V)>, i: int)
    requires
        distinct_rows(rows),
        0 <= i < rows.len(),
    ensures
        rows_map(rows).contains_key(rows[i].0.name()),
        rows_map(rows)[rows[i].0.name()] == rows[i].1,
    decreases rows.len(),
{
    if i < rows.len() - 1 {
        let shorter = rows.drop_last();
        assert forall|a: int, b: int| 0 <= a < b < shorter.len() implies (
        #[trigger] shorter[a]).0.name() != (#[trigger] shorter[b]).0.name() by {
            assert(shorter[a] == rows[a] && shorter[b] == rows[b]);
        }
        lemma_row(shorter, i);
        assert(rows[i].0.name() != rows[rows.len() - 1].0.name());
    }
}

/// What the map holds stands in a row.
pub proof fn lemma_listed<K: Key, V>(rows: Seq<(K, V)>, name: K::Name) -> (i: int)
    requires
        rows_map(rows).contains_key(name),
    ensures
        0 <= i < rows.len(),
        rows[i].0.name() == name,
    decreases rows.len(),
{
    if rows.last().0.name() == name {
        rows.len() - 1
    } else {
        lemma_listed(rows.drop_last(), name)
    }
}

/// A map kept as a list of rows.
pub struct Table<K: Key, V> {
    rows: Vec<(K, V)>,
}

impl<K: Key, V> Table<K, V> {
    pub closed spec fn rows(&self) -> Seq<(K, V)> {
        self.rows@
    }

    pub open spec fn view(&self) -> Map<K::Name, V> {
        rows_map(self.rows())
    }

    /// No key has two rows.
    pub open spec fn wf(&self) -> bool {
        distinct_rows(self.rows())
    }

    pub fn new() -> (table: Self)
        ensures
            table.wf(),
            table.rows() == Seq::<(K, V)>::empty(),
            table@ == Map::<K::Name, V>::empty(),
    {
        Table { rows: Vec::new() }
    }

    pub fn len(&self) -> (len: usize)
        ensures
            len == self.rows().len(),
    {
        self.rows.len()
    }

    /// The key of a row.
    pub fn key(&self, at: usize) -> (key: &K)
        requires
            at < self.rows().len(),
        ensures
            *key == self.rows()[at as int].0,
    {
        &self.rows[at].0
    }

    /// The value of a row.
    pub fn value(&self, at: usize) -> (value: &V)
        requires
            at < self.rows().len(),
        ensures
            *value == self.rows()[at as int].1,
    {
        &self.rows[at].1
    }

    /// The row of a key.
    pub fn position(&self, key: &K) -> (found: Option<usize>)
        requires
            self.wf(),
        ensures
            match found {
                Some(at) => at < self.rows().len() && self.rows()[at as int].0.name() == key.name()
                    && self@.contains_key(key.name()) && self@[key.name()]
                    == self.rows()[at as int].1,
                None => !self@.contains_key(key.name()),
            },
    {
        let mut i: usize = 0;
        while i < self.rows.len()
            invariant
                i <= self.rows@.len(),
                self.wf(),
                forall|j: int| 0 <= j < i ==> (#[trigger] self.rows@[j]).0.name() != key.name(),
            decreases self.rows@.len() - i,
        {
            if self.rows[i].0.same_key(key) {
                proof {
                    lemma_row(self.rows@, i as int);
                }
                return Some(i);
            }
            i = i + 1;
        }
        proof {
            if self@.contains_key(key.name()) {
                let j = lemma_listed(self.rows@, key.name());
                assert(self.rows@[j].0.name() == key.name());
            }
        }
        None
    }

    /// The value of a key.
    pub fn get(&self, key: &K) -> (found: Option<&V>)
        requires
            self.wf(),
        ensures
            match found {
                Some(value) => self@.contains_key(key.name()) && *value == self@[key.name()],
                None => !self@.contains_key(key.name()),
            },
    {
        match self.position(key) {
            Some(at) => Some(&self.rows[at].1),
            None => None,
        }
    }

    /// Puts `value` into a row.
    pub fn set(&mut self, at: usize, value: V)
        requires
            old(self).wf(),
            at < old(self).rows().len(),
        ensures
            final(self).wf(),
            final(self).rows() == old(self).rows().update(
                at as int,
                (old(self).rows()[at as int].0, value),
            ),
            final(self)@ == old(self)@.insert(old(self).rows()[at as int].0.name(), value),
    {
        let ghost before = self.rows@;
        let mut value = value;
        std::mem::swap(&mut self.rows[at].1, &mut value);
        proof {
            assert(self.rows@ =~= before.update(at as int, (before[at as int].0, self.rows@[at as int].1)));
            lemma_row_set(before, at as int, self.rows@[at as int].1);
        }
    }

    /// Puts `value` under `key`.
    pub fn insert(&mut self, key: K, value: V)
        requires
            old(self).wf(),
        ensures
            final(self).wf(),
            final(self)@ == old(self)@.insert(key.name(), value),
    {
        match self.position(&key) {
            Some(at) => self.set(at, value),
            None => {
                let ghost before = self.rows@;
                self.rows.push((key, value));
                proof {
                    assert(self.rows@.drop_last() =~= before);
                    assert forall|i: int, j: int| 0 <= i < j < self.rows@.len() implies (
                    #[trigger] self.rows@[i]).0.name() != (#[trigger] self.rows@[j]).0.name() by {
                        if j == before.len() {
                            lemma_row(before, i);
                        }
                    }
                }
            },
        }
    }

    /// Takes a row out.
    pub fn take(&mut self, at: usize) -> (row: (K, V))
        requires
            old(self).wf(),
            at < old(self).rows().len(),
        ensures
            final(self).wf(),
            row == old(self).rows()[at as int],
            final(self).rows() == old(self).rows().remove(at as int),
            final(self)@ == old(self)@.remove(row.0.name()),
    {
        let ghost before = self.rows@;
        let row = self.rows.remove(at);
        proof {
            lemma_row_removed(before, at as int);
        }
        row
    }

    /// Takes out what stands under `key`.
    pub fn remove(&mut self, key: &K) -> (removed: Option<V>)
        requires
            old(self).wf(),
        ensures
            final(self).wf(),
            final(self)@ == old(self)@.remove(key.name()),
            match removed {
                Some(value) => old(self)@.contains_key(key.name()) && value
                    == old(self)@[key.name()],
                None => !old(self)@.contains_key(key.name()),
            },
    {
        match self.position(key) {
            Some(at) => Some(self.take(at).1),
            None => {
                proof {
                    assert(self@.remove(key.name()) =~= self@);
                }
                None
            },
        }
    }
}

proof fn lemma_row_set<K: Key, V>(rows: Seq<(K, V)>, at: int, value: V)
    requires
        distinct_rows(rows),
        0 <= at < rows.len(),
    ensures
        distinct_rows(rows.update(at, (rows[at].0, value))),
        rows_map(rows.update(at, (rows[at].0, value))) == rows_map(rows).insert(
            rows[at].0.name(),
            value,
        ),
{
    let changed = rows.update(at, (rows[at].0, value));
    assert forall|i: int, j: int| 0 <= i < j < changed.len() implies (
    #[trigger] changed[i]).0.name() != (#[trigger] changed[j]).0.name() by {
        assert(rows[i].0.name() != rows[j].0.name());
    }
    let expected = rows_map(rows).insert(rows[at].0.name(), value);
    assert forall|name: K::Name|
        (#[trigger] rows_map(changed).dom().contains(name)) == expected.dom().contains(name) && (
        expected.dom().contains(name) ==> rows_map(changed)[name] == expected[name]) by {
        if rows_map(changed).dom().contains(name) {
            let i = lemma_listed(changed, name);
            lemma_row(changed, i);
            lemma_row(rows, i);
            if i != at {
                assert(rows[i].0.name() != rows[at].0.name()) by {
                    if i < at {
                        assert(rows[i].0.name() != rows[at].0.name());
                    } else {
                        assert(rows[at].0.name() != rows[i].0.name());
                    }
                }
            }
        }
        if expected.dom().contains(name) {
            if rows_map(rows).contains_key(name) {
                let i = lemma_listed(rows, name);
                lemma_row(changed, i);
            } else {
                lemma_row(changed, at);
            }
        }
    }
    assert(rows_map(changed) =~= expected);
}

proof fn lemma_row_removed<K: Key, V>(rows: Seq<(K, V)>, at: int)
    requires
        distinct_rows(rows),
        0 <= at < rows.len(),
    ensures
        distinct_rows(rows.remove(at)),
        rows_map(rows.remove(at)) == rows_map(rows).remove(rows[at].0.name()),
{
    let left = rows.remove(at);
    assert forall|i: int, j: int| 0 <= i < j < left.len() implies (
    #[trigger] left[i]).0.name() != (#[trigger] left[j]).0.name() by {
        let a = if i < at { i } else { i + 1 };
        let b = if j < at { j } else { j + 1 };
        assert(left[i] == rows[a] && left[j] == rows[b]);
    }
    let expected = rows_map(rows).remove(rows[at].0.name());
    assert forall|name: K::Name|
        (#[trigger] rows_map(left).dom().contains(name)) == expected.dom().contains(name) && (
        expected.dom().contains(name) ==> rows_map(left)[name] == expected[name]) by {
        if rows_map(left).dom().contains(name) {
            let i = lemma_listed(left, name);
            let a = if i < at { i } else { i + 1 };
            assert(left[i] == rows[a]);
            lemma_row(rows, a);
            lemma_row(left, i);
            if a < at {
                assert(rows[a].0.name() != rows[at].0.name());
            } else {
                assert(rows[at].0.name() != rows[a].0.name());
            }
        }
        if expected.dom().contains(name) {
            let i = lemma_listed(rows, name);
            let a = if i < at { i } else { i - 1 };
            assert(left[a] == rows[i]);
            lemma_row(left, a);
            lemma_row(rows, i);
        }
    }
    assert(rows_map(left) =~= expected);
}

} // verus!
